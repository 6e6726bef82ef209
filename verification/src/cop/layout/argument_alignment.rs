use crate::cop::config::{spec_get_str, spec_get_usize, CopConfig};
use crate::cop::report::{extends_with_reports, lemma_reports_empty, lemma_reports_push};
use crate::cop::util::{begins_its_line, line_indent, spec_begins_its_line, spec_line_indent, string_is};
use crate::diagnostic::{new_diagnostic, Diagnostic, Severity};
use crate::parse::source::{col_of, line_of, SourceFile};
use vstd::prelude::*;

verus! {

/// Layout/ArgumentAlignment: the arguments of a call that spans several
/// lines start in the same column (that of the first argument, or one
/// indentation step in from the line of the call).
pub struct ArgumentAlignment;

/// An argument of a call.
pub enum ArgShape {
    /// An argument that starts at this offset.
    Plain(usize),
    /// A keyword hash `a: 1, **b`: where it starts, and where each element
    /// starts with whether it is a `**` splat.
    KeywordHash { start: usize, elements: Vec<(usize, bool)> },
}

/// A call, as far as the cop reads it.
pub struct ArgCallSite {
    /// The method name.
    pub name: String,
    /// The arguments, in order.
    pub args: Vec<ArgShape>,
    /// Where a `&block` argument starts, if there is one.
    pub block_arg_start: Option<usize>,
    /// Where the line of the call is read: the opening parenthesis, else the
    /// method name, else the call.
    pub base_offset: usize,
}

/// The starts of the elements of a keyword hash that are not `**` splats.
pub open spec fn hash_element_starts(elements: Seq<(usize, bool)>) -> Seq<int>
    decreases elements.len(),
{
    if elements.len() == 0 {
        Seq::empty()
    } else {
        let prev = hash_element_starts(elements.drop_last());
        if elements.last().1 {
            prev
        } else {
            prev.push(elements.last().0 as int)
        }
    }
}

/// The starts of the first `k` arguments, a keyword hash in last place
/// (of `n`) replaced by its elements.
pub open spec fn arg_starts(args: Seq<ArgShape>, k: int, n: int) -> Seq<int>
    decreases k,
{
    if k <= 0 {
        Seq::empty()
    } else {
        let prev = arg_starts(args, k - 1, n);
        match args[k - 1] {
            ArgShape::Plain(p) => prev.push(p as int),
            ArgShape::KeywordHash { start, elements } => if k - 1 == n - 1 {
                prev + hash_element_starts(elements@)
            } else {
                prev.push(start as int)
            },
        }
    }
}

/// The starts of the arguments that are aligned: the elements of a sole
/// keyword hash (unless the style is `with_fixed_indentation`), else the
/// arguments with a last keyword hash spread, then a `&block` argument.
pub open spec fn effective_args(style: Seq<char>, site: ArgCallSite) -> Seq<int> {
    let args = site.args@;
    let base = if args.len() == 1 && args[0] is KeywordHash && style != "with_fixed_indentation"@ {
        hash_element_starts(args[0]->elements@)
    } else {
        arg_starts(args, args.len() as int, args.len() as int)
    };
    match site.block_arg_start {
        Some(b) => base.push(b as int),
        None => base,
    }
}

/// The argument `j` is on a line that an earlier argument is on.
pub open spec fn line_seen_before(s: Seq<u8>, eff: Seq<int>, j: int) -> bool {
    exists|i: int| 0 <= i < j && line_of(s, #[trigger] eff[i]) == line_of(s, eff[j])
}

/// The offenses of the arguments `1..k` of `eff`, aligned on `expected`.
pub open spec fn misaligned_args(s: Seq<u8>, eff: Seq<int>, expected: int, k: int) -> Seq<
    (int, int, Seq<char>),
>
    decreases k,
{
    if k <= 1 {
        Seq::empty()
    } else {
        let prev = misaligned_args(s, eff, expected, k - 1);
        let p = eff[k - 1];
        if !line_seen_before(s, eff, k - 1) && spec_begins_its_line(s, p) && col_of(s, p)
            != expected {
            prev.push(
                (
                    line_of(s, p) as int,
                    col_of(s, p) as int,
                    "Align the arguments of a method call if they span more than one line."@,
                ),
            )
        } else {
            prev
        }
    }
}

/// The offenses of the call `site` under style `style` and indentation
/// width `width`.
pub open spec fn argument_offenses(s: Seq<u8>, style: Seq<char>, width: int, site: ArgCallSite) -> Seq<
    (int, int, Seq<char>),
> {
    let eff = effective_args(style, site);
    if site.name@ == "[]="@ || site.args@.len() == 0 || eff.len() < 2 {
        Seq::empty()
    } else {
        let expected = if style == "with_fixed_indentation"@ {
            spec_line_indent(s, site.base_offset as int) + width
        } else {
            col_of(s, eff[0]) as int
        };
        misaligned_args(s, eff, expected, eff.len() as int)
    }
}

pub open spec fn arg_site_in_bounds(s: Seq<u8>, site: ArgCallSite) -> bool {
    arg_site_in_bounds_n(s.len(), site)
}

fn push_hash_elements(out: &mut Vec<usize>, elements: &Vec<(usize, bool)>, Ghost(n): Ghost<nat>)
    requires
        forall|j: int| 0 <= j < old(out)@.len() ==> old(out)@[j] <= n,
        forall|j: int| 0 <= j < elements@.len() ==> #[trigger] elements@[j].0 <= n,
    ensures
        final(out)@.map_values(|x: usize| x as int) == old(out)@.map_values(|x: usize| x as int)
            + hash_element_starts(elements@),
        forall|j: int| 0 <= j < final(out)@.len() ==> final(out)@[j] <= n,
{
    let ghost o0 = out@.map_values(|x: usize| x as int);
    let mut j: usize = 0;
    while j < elements.len()
        invariant
            j <= elements@.len(),
            out@.map_values(|x: usize| x as int) == o0 + hash_element_starts(
                elements@.subrange(0, j as int),
            ),
            forall|q: int| 0 <= q < out@.len() ==> out@[q] <= n,
            forall|q: int| 0 <= q < elements@.len() ==> #[trigger] elements@[q].0 <= n,
        decreases elements@.len() - j,
    {
        assert(elements@.subrange(0, j + 1).drop_last() =~= elements@.subrange(0, j as int));
        let (p, splat) = elements[j];
        let ghost before = out@.map_values(|x: usize| x as int);
        if !splat {
            out.push(p);
            assert(out@.map_values(|x: usize| x as int) =~= before.push(p as int));
        }
        assert(out@.map_values(|x: usize| x as int) =~= o0 + hash_element_starts(
            elements@.subrange(0, j + 1),
        ));
        j = j + 1;
    }
    assert(elements@.subrange(0, elements@.len() as int) =~= elements@);
}

fn effective_args_exec(style: &String, site: &ArgCallSite, Ghost(n): Ghost<nat>) -> (r: Vec<usize>)
    requires
        arg_site_in_bounds_n(n, *site),
    ensures
        r@.map_values(|x: usize| x as int) == effective_args(style@, *site),
        forall|j: int| 0 <= j < r@.len() ==> r@[j] <= n,
{
    let mut out: Vec<usize> = Vec::new();
    let len = site.args.len();
    let fixed = string_is(style, "with_fixed_indentation");
    if len == 1 && matches!(site.args[0], ArgShape::KeywordHash { .. }) && !fixed {
        match &site.args[0] {
            ArgShape::KeywordHash { elements, .. } => {
                push_hash_elements(&mut out, elements, Ghost(n));
            },
            _ => {},
        }
    } else {
        let mut k: usize = 0;
        while k < len
            invariant
                k <= len,
                len == site.args@.len(),
                arg_site_in_bounds_n(n, *site),
                out@.map_values(|x: usize| x as int) == arg_starts(site.args@, k as int, len as int),
                forall|j: int| 0 <= j < out@.len() ==> out@[j] <= n,
            decreases len - k,
        {
            match &site.args[k] {
                ArgShape::Plain(p) => {
                    out.push(*p);
                },
                ArgShape::KeywordHash { start, elements } => {
                    if k == len - 1 {
                        push_hash_elements(&mut out, elements, Ghost(n));
                    } else {
                        out.push(*start);
                    }
                },
            }
            assert(out@.map_values(|x: usize| x as int) =~= arg_starts(site.args@, k + 1, len as int));
            k = k + 1;
        }
    }
    match site.block_arg_start {
        Some(b) => {
            let ghost before = out@.map_values(|x: usize| x as int);
            out.push(b);
            assert(out@.map_values(|x: usize| x as int) =~= before.push(b as int));
        },
        None => {},
    }
    out
}

/// The offsets of `site` are at most `n`.
pub open spec fn arg_site_in_bounds_n(n: nat, site: ArgCallSite) -> bool {
    &&& site.base_offset <= n
    &&& forall|k: int|
        0 <= k < site.args@.len() ==> match #[trigger] site.args@[k] {
            ArgShape::Plain(p) => p <= n,
            ArgShape::KeywordHash { start, elements } => start <= n && forall|j: int|
                0 <= j < elements@.len() ==> #[trigger] elements@[j].0 <= n,
        }
    &&& match site.block_arg_start {
        Some(b) => b <= n,
        None => true,
    }
}

fn contains_usize(v: &Vec<usize>, x: usize) -> (r: bool)
    ensures
        r == v@.contains(x),
{
    let mut q: usize = 0;
    while q < v.len()
        invariant
            q <= v@.len(),
            forall|j: int| 0 <= j < q ==> v@[j] != x,
        decreases v@.len() - q,
    {
        if v[q] == x {
            assert(v@[q as int] == x);
            return true;
        }
        q = q + 1;
    }
    false
}

impl ArgumentAlignment {
    pub fn name(&self) -> (r: &'static str)
        ensures
            r@ == "Layout/ArgumentAlignment"@,
    {
        "Layout/ArgumentAlignment"
    }

    pub fn default_severity(&self) -> (r: Severity)
        ensures
            r == Severity::Convention,
    {
        Severity::Convention
    }

    /// Checks one call under the configured `EnforcedStyle` (default
    /// `with_first_argument`) and `IndentationWidth` (default 2): one report
    /// per misaligned argument that begins its line, the first on each line.
    pub fn check_call(
        &self,
        source: &SourceFile,
        config: &CopConfig,
        site: &ArgCallSite,
        diagnostics: &mut Vec<Diagnostic>,
    )
        requires
            arg_site_in_bounds(source@, *site),
        ensures
            extends_with_reports(
                old(diagnostics)@,
                final(diagnostics)@,
                source.spec_path(),
                "Layout/ArgumentAlignment"@,
                Severity::Convention,
                argument_offenses(
                    source@,
                    spec_get_str(config.options@, "EnforcedStyle"@, "with_first_argument"@),
                    spec_get_usize(config.options@, "IndentationWidth"@, 2) as int,
                    *site,
                ),
                false,
            ),
    {
        let cop = "Layout/ArgumentAlignment";
        let style = config.get_str("EnforcedStyle", "with_first_argument");
        let width = config.get_usize("IndentationWidth", 2);
        let ghost path = source.spec_path();
        proof {
            lemma_reports_empty(diagnostics@, path, cop@, Severity::Convention, false);
        }
        if string_is(&site.name, "[]=") || site.args.len() == 0 {
            return;
        }
        let bytes = source.as_bytes();
        let ghost s = bytes@;
        let eff = effective_args_exec(&style, site, Ghost(s.len()));
        let ghost effs = eff@.map_values(|x: usize| x as int);
        if eff.len() < 2 {
            return;
        }
        let (first_line, first_col) = source.offset_to_line_col(eff[0]);
        let fixed = string_is(&style, "with_fixed_indentation");
        let expected: Option<usize> = if fixed {
            line_indent(bytes, site.base_offset).checked_add(width)
        } else {
            Some(first_col)
        };
        let ghost exp: int = if fixed {
            spec_line_indent(s, site.base_offset as int) + width
        } else {
            col_of(s, effs[0]) as int
        };
        let mut checked: Vec<usize> = Vec::new();
        checked.push(first_line);
        proof {
            assert(effs[0] == eff@[0] as int);
            assert forall|l: usize|
                #[trigger] checked@.contains(l) <==> exists|i: int|
                    0 <= i < 1 && line_of(s, #[trigger] effs[i]) == l by {
                if checked@.contains(l) {
                    assert(checked@[0] == l);
                    assert(line_of(s, effs[0]) == l);
                }
                if exists|i: int| 0 <= i < 1 && line_of(s, #[trigger] effs[i]) == l {
                    assert(checked@[0] == l);
                }
            }
        }
        let mut k: usize = 1;
        while k < eff.len()
            invariant
                1 <= k <= eff@.len(),
                s == source@,
                s == bytes@,
                path == source.spec_path(),
                cop@ == "Layout/ArgumentAlignment"@,
                effs == eff@.map_values(|x: usize| x as int),
                forall|j: int| 0 <= j < eff@.len() ==> eff@[j] <= s.len(),
                match expected {
                    Some(e) => e == exp,
                    None => exp > usize::MAX,
                },
                forall|l: usize|
                    #[trigger] checked@.contains(l) <==> exists|i: int|
                        0 <= i < k && line_of(s, #[trigger] effs[i]) == l,
                extends_with_reports(
                    old(diagnostics)@,
                    diagnostics@,
                    path,
                    cop@,
                    Severity::Convention,
                    misaligned_args(s, effs, exp, k as int),
                    false,
                ),
            decreases eff@.len() - k,
        {
            let p = eff[k];
            let (line, col) = source.offset_to_line_col(p);
            let seen = contains_usize(&checked, line);
            assert(seen == line_seen_before(s, effs, k as int));
            if !seen {
                let ghost c0 = checked@;
                checked.push(line);
                assert forall|l: usize|
                    #[trigger] checked@.contains(l) <==> exists|i: int|
                        0 <= i < k + 1 && line_of(s, #[trigger] effs[i]) == l by {
                    if checked@.contains(l) {
                        let q = choose|q: int| 0 <= q < checked@.len() && checked@[q] == l;
                        if q < c0.len() {
                            assert(c0.contains(l));
                        } else {
                            assert(line_of(s, effs[k as int]) == l);
                        }
                    }
                    if exists|i: int| 0 <= i < k + 1 && line_of(s, #[trigger] effs[i]) == l {
                        let i = choose|i: int| 0 <= i < k + 1 && line_of(s, #[trigger] effs[i]) == l;
                        if i < k {
                            assert(c0.contains(l));
                            let q = choose|q: int| 0 <= q < c0.len() && c0[q] == l;
                            assert(checked@[q] == l);
                        } else {
                            assert(checked@[c0.len() as int] == l);
                        }
                    }
                }
                let mismatch = match expected {
                    Some(e) => col != e,
                    None => true,
                };
                if begins_its_line(bytes, p) && mismatch {
                    let d = new_diagnostic(
                        source,
                        cop,
                        Severity::Convention,
                        line,
                        col,
                        "Align the arguments of a method call if they span more than one line.".to_owned(),
                    );
                    let ghost d0 = diagnostics@;
                    diagnostics.push(d);
                    proof {
                        assert(diagnostics@.drop_last() =~= d0);
                        lemma_reports_push(
                            old(diagnostics)@,
                            d0,
                            diagnostics@,
                            path,
                            cop@,
                            Severity::Convention,
                            misaligned_args(s, effs, exp, k as int),
                            (line as int, col as int, "Align the arguments of a method call if they span more than one line."@),
                            false,
                        );
                    }
                }
            } else {
                assert forall|l: usize|
                    #[trigger] checked@.contains(l) <==> exists|i: int|
                        0 <= i < k + 1 && line_of(s, #[trigger] effs[i]) == l by {
                    if exists|i: int| 0 <= i < k + 1 && line_of(s, #[trigger] effs[i]) == l {
                        let i = choose|i: int| 0 <= i < k + 1 && line_of(s, #[trigger] effs[i]) == l;
                        if i == k {
                            let i2 = choose|i2: int| 0 <= i2 < k && line_of(s, #[trigger] effs[i2]) == line_of(s, effs[k as int]);
                            assert(line_of(s, effs[i2]) == l);
                        }
                    }
                }
            }
            k = k + 1;
        }
    }
}

} // verus!
