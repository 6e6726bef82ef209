use crate::cop::lint::duplicates::bytes_eq;
use crate::cop::report::{extends_with_reports, lemma_reports_empty, lemma_reports_push};
use crate::cop::util::{decimal, lossy_text, push_decimal, text_of};
use crate::diagnostic::{new_diagnostic, Diagnostic, Severity};
use crate::parse::source::{col_of, line_of, SourceFile};
use vstd::prelude::*;

verus! {

/// The `Bundler/DuplicatedGem` cop.
pub struct DuplicatedGem;

/// One `gem` declaration of a Gemfile.
pub struct GemDeclaration {
    /// The gem's name.
    pub name: Vec<u8>,
    /// Where the declaration is reported: its `gem` selector.
    pub offset: usize,
    /// The conditional (`if`, `unless`, `case`) it sits in, by an identifier
    /// shared by all branches of one conditional.
    pub conditional_root: Option<usize>,
    /// How many blocks stand between it and that conditional.
    pub blocks_above_conditional: usize,
}

/// What stands around a declaration, innermost last.
#[derive(Clone, Copy, Debug)]
pub enum AncestorKind {
    /// A block, which hides the conditionals around it.
    Block,
    /// A wrapper that hides nothing.
    BeginLike,
    /// A branch of the `if` or `unless` with this identifier.
    If(usize),
    /// The `case` with this identifier.
    Case(usize),
    /// A `when` of the `case` with this identifier.
    When(usize),
}

/// The nearest conditional among `ancestors[..n]` (innermost last), and how
/// many blocks lie nearer than it.
pub open spec fn nearest_root(ancestors: Seq<AncestorKind>, n: int) -> (Option<usize>, nat)
    decreases n,
{
    if n <= 0 {
        (None, 0)
    } else {
        match ancestors[n - 1] {
            AncestorKind::BeginLike => nearest_root(ancestors, n - 1),
            AncestorKind::Block => {
                let (r, b) = nearest_root(ancestors, n - 1);
                (r, b + 1)
            },
            AncestorKind::If(id) => (Some(id), 0),
            AncestorKind::Case(id) => (Some(id), 0),
            AncestorKind::When(id) => (Some(id), 0),
        }
    }
}

/// Declaration `j` is the first of its gem.
pub open spec fn is_first(ds: Seq<GemDeclaration>, j: int) -> bool {
    forall|i: int| 0 <= i < j ==> (#[trigger] ds[i]).name@ != ds[j].name@
}

/// The declarations of the gem of declaration `f` all sit directly in the
/// branches of one conditional: then they may repeat.
pub open spec fn exempt(ds: Seq<GemDeclaration>, f: int) -> bool {
    &&& ds[f].conditional_root is Some
    &&& forall|k: int|
        0 <= k < ds.len() && (#[trigger] ds[k]).name@ == ds[f].name@ ==> ds[k].conditional_root
            == ds[f].conditional_root && ds[k].blocks_above_conditional == 0
}

/// The report of declaration `k`, which repeats declaration `f`.
pub open spec fn repeat_report(s: Seq<u8>, ds: Seq<GemDeclaration>, f: int, k: int) -> (int, int, Seq<char>) {
    (
        line_of(s, ds[k].offset as int) as int,
        col_of(s, ds[k].offset as int) as int,
        "Gem `"@ + lossy_text(ds[f].name@) + "` requirements already given on line "@ + decimal(
            line_of(s, ds[f].offset as int),
        ) + " of the Gemfile."@,
    )
}

/// The reports of the repeats of gem `f` among declarations `f+1..p`.
pub open spec fn group_reports(s: Seq<u8>, ds: Seq<GemDeclaration>, f: int, p: int) -> Seq<(int, int, Seq<char>)>
    decreases p - f,
{
    if p <= f + 1 {
        Seq::empty()
    } else {
        let r = group_reports(s, ds, f, p - 1);
        if ds[p - 1].name@ == ds[f].name@ {
            r.push(repeat_report(s, ds, f, p - 1))
        } else {
            r
        }
    }
}

/// The reports for the gems first declared among `0..p`, gem by gem in the
/// order of their first declaration, each gem's repeats in order.
pub open spec fn gem_reports(s: Seq<u8>, ds: Seq<GemDeclaration>, p: int) -> Seq<(int, int, Seq<char>)>
    decreases p,
{
    if p <= 0 {
        Seq::empty()
    } else {
        let r = gem_reports(s, ds, p - 1);
        if is_first(ds, p - 1) && !exempt(ds, p - 1) {
            r + group_reports(s, ds, p - 1, ds.len() as int)
        } else {
            r
        }
    }
}

impl DuplicatedGem {
    pub fn name(&self) -> (r: &'static str)
        ensures
            r@ == "Bundler/DuplicatedGem"@,
    {
        "Bundler/DuplicatedGem"
    }

    pub fn default_severity(&self) -> (r: Severity)
        ensures
            r == Severity::Warning,
    {
        Severity::Warning
    }

    /// File patterns the cop applies to unless configured otherwise.
    pub fn default_include(&self) -> (r: Vec<&'static str>)
        ensures
            r@.len() == 3,
            r@[0]@ == "**/*.gemfile"@,
            r@[1]@ == "**/Gemfile"@,
            r@[2]@ == "**/gems.rb"@,
    {
        vec!["**/*.gemfile", "**/Gemfile", "**/gems.rb"]
    }

    /// The nearest conditional around a declaration and the blocks between,
    /// given what stands around it (the declaration's own frame last, which
    /// does not count).
    pub fn nearest_conditional_root(ancestors: &Vec<AncestorKind>) -> (r: (Option<usize>, usize))
        ensures
            r.0 == nearest_root(ancestors@, ancestors@.len() - 1).0,
            r.1 == nearest_root(ancestors@, ancestors@.len() - 1).1,
    {
        let n = if ancestors.len() > 0 {
            ancestors.len() - 1
        } else {
            0
        };
        let mut k = n;
        let mut blocks: usize = 0;
        while k > 0
            invariant
                k <= n <= ancestors@.len(),
                n == (if ancestors@.len() > 0 { ancestors@.len() - 1 } else { 0 }),
                blocks <= n - k,
                nearest_root(ancestors@, n as int).0 == nearest_root(ancestors@, k as int).0,
                nearest_root(ancestors@, n as int).1 == nearest_root(ancestors@, k as int).1 + blocks,
            decreases k,
        {
            match ancestors[k - 1] {
                AncestorKind::BeginLike => {},
                AncestorKind::Block => {
                    blocks = blocks + 1;
                },
                AncestorKind::If(id) => {
                    return (Some(id), blocks);
                },
                AncestorKind::Case(id) => {
                    return (Some(id), blocks);
                },
                AncestorKind::When(id) => {
                    return (Some(id), blocks);
                },
            }
            k = k - 1;
        }
        (None, blocks)
    }

    /// Checks all `gem` declarations of a Gemfile, in order.
    pub fn check_declarations(
        &self,
        source: &SourceFile,
        ds: &Vec<GemDeclaration>,
        diagnostics: &mut Vec<Diagnostic>,
    )
        requires
            forall|j: int| 0 <= j < ds@.len() ==> #[trigger] ds@[j].offset <= source@.len(),
        ensures
            extends_with_reports(
                old(diagnostics)@,
                final(diagnostics)@,
                source.spec_path(),
                "Bundler/DuplicatedGem"@,
                Severity::Warning,
                gem_reports(source@, ds@, ds@.len() as int),
                false,
            ),
    {
        proof {
            lemma_reports_empty(diagnostics@, source.spec_path(), "Bundler/DuplicatedGem"@, Severity::Warning, false);
        }
        let n = ds.len();
        let mut f: usize = 0;
        while f < n
            invariant
                f <= n == ds@.len(),
                forall|j: int| 0 <= j < ds@.len() ==> #[trigger] ds@[j].offset <= source@.len(),
                extends_with_reports(
                    old(diagnostics)@,
                    diagnostics@,
                    source.spec_path(),
                    "Bundler/DuplicatedGem"@,
                    Severity::Warning,
                    gem_reports(source@, ds@, f as int),
                    false,
                ),
            decreases n - f,
        {
            let mut first = true;
            let mut i: usize = 0;
            while i < f
                invariant
                    i <= f < n == ds@.len(),
                    first == forall|j: int| 0 <= j < i ==> (#[trigger] ds@[j]).name@ != ds@[f as int].name@,
                decreases f - i,
            {
                if bytes_eq(ds[i].name.as_slice(), ds[f].name.as_slice()) {
                    first = false;
                }
                i = i + 1;
            }
            let mut exempt_group = ds[f].conditional_root.is_some();
            let mut k: usize = 0;
            while k < n
                invariant
                    k <= n == ds@.len(),
                    f < n,
                    exempt_group == (ds@[f as int].conditional_root is Some && forall|j: int|
                        0 <= j < k && (#[trigger] ds@[j]).name@ == ds@[f as int].name@ ==> ds@[j].conditional_root
                            == ds@[f as int].conditional_root && ds@[j].blocks_above_conditional == 0),
                decreases n - k,
            {
                if bytes_eq(ds[k].name.as_slice(), ds[f].name.as_slice()) && !(ds[k].conditional_root
                    == ds[f].conditional_root && ds[k].blocks_above_conditional == 0) {
                    exempt_group = false;
                }
                k = k + 1;
            }
            if first && !exempt_group {
                let ghost mid = diagnostics@;
                proof {
                    lemma_reports_empty(mid, source.spec_path(), "Bundler/DuplicatedGem"@, Severity::Warning, false);
                }
                assert(ds@[f as int].offset <= source@.len());
                let (fline, _) = source.offset_to_line_col(ds[f].offset);
                let name = text_of(ds[f].name.as_slice());
                let mut k: usize = f + 1;
                assert(group_reports(source@, ds@, f as int, (f + 1) as int) =~= Seq::empty());
                while k < n
                    invariant
                        f < k <= n == ds@.len(),
                        forall|j: int| 0 <= j < ds@.len() ==> #[trigger] ds@[j].offset <= source@.len(),
                        fline == line_of(source@, ds@[f as int].offset as int),
                        name@ == lossy_text(ds@[f as int].name@),
                        extends_with_reports(
                            mid,
                            diagnostics@,
                            source.spec_path(),
                            "Bundler/DuplicatedGem"@,
                            Severity::Warning,
                            group_reports(source@, ds@, f as int, k as int),
                            false,
                        ),
                    decreases n - k,
                {
                    let ghost prev = group_reports(source@, ds@, f as int, k as int);
                    if bytes_eq(ds[k].name.as_slice(), ds[f].name.as_slice()) {
                        assert(ds@[k as int].offset <= source@.len());
                        let (line, col) = source.offset_to_line_col(ds[k].offset);
                        let mut msg = "Gem `".to_owned();
                        msg.append(name.as_str());
                        msg.append("` requirements already given on line ");
                        push_decimal(&mut msg, fline);
                        msg.append(" of the Gemfile.");
                        let ghost m = msg@;
                        let d = new_diagnostic(source, "Bundler/DuplicatedGem", Severity::Warning, line, col, msg);
                        let ghost before = diagnostics@;
                        diagnostics.push(d);
                        proof {
                            assert(diagnostics@.drop_last() =~= before);
                            lemma_reports_push(
                                mid,
                                before,
                                diagnostics@,
                                source.spec_path(),
                                "Bundler/DuplicatedGem"@,
                                Severity::Warning,
                                prev,
                                (line as int, col as int, m),
                                false,
                            );
                        }
                    }
                    k = k + 1;
                }
                proof {
                    crate::cop::report::lemma_reports_concat(
                        old(diagnostics)@,
                        mid,
                        diagnostics@,
                        source.spec_path(),
                        "Bundler/DuplicatedGem"@,
                        Severity::Warning,
                        gem_reports(source@, ds@, f as int),
                        group_reports(source@, ds@, f as int, n as int),
                        false,
                    );
                }
            }
            f = f + 1;
        }
    }
}

} // verus!
