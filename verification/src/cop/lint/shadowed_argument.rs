use crate::cop::config::{spec_get_bool, CopConfig};
use crate::cop::report::{adds_offense, emit_offense};
use crate::cop::util::{lossy_text, text_of};
use crate::correction::Correction;
use crate::diagnostic::{Diagnostic, Severity};
use crate::parse::source::{col_of, line_of, SourceFile};
use vstd::prelude::*;

verus! {

/// The `Lint/ShadowedArgument` cop: an argument reassigned before it was used.
pub struct ShadowedArgument;

/// One assignment to the argument in the body of its method or block.
#[derive(Clone, Copy, Debug)]
pub struct ParamAssignment {
    /// Where the assignment starts.
    pub offset: usize,
    /// Its right-hand side reads the argument.
    pub rhs_uses_param: bool,
    /// It is a shorthand assignment (`||=`, `&&=`, `+=`, ...).
    pub is_shorthand: bool,
    /// It sits inside a conditional, a loop, a block or a rescue, so it may
    /// not run.
    pub is_conditional: bool,
}

/// One argument of a method, block or lambda, with what its body does with it.
pub struct ParamUse {
    /// The argument's name.
    pub name: Vec<u8>,
    /// Where its declaration starts.
    pub decl: usize,
    /// Where the body reads it, and whether each read is an implicit one (a
    /// bare `super`).
    pub refs: Vec<(usize, bool)>,
    /// The assignments to it in the body, in any order.
    pub assignments: Vec<ParamAssignment>,
}

/// The assignment writes the argument without reading it.
pub open spec fn is_shadowing(a: ParamAssignment) -> bool {
    !a.is_shorthand && !a.rhs_uses_param
}

/// ... and it always runs.
pub open spec fn is_unconditional(a: ParamAssignment) -> bool {
    is_shadowing(a) && !a.is_conditional
}

/// Assignment `j` comes before assignment `k`: by where they start, and in
/// the order given where they start at the same place.
pub open spec fn before(asg: Seq<ParamAssignment>, j: int, k: int) -> bool {
    asg[j].offset < asg[k].offset || (asg[j].offset == asg[k].offset && j < k)
}

/// Assignment `k` is the first that always shadows the argument.
pub open spec fn first_unconditional(asg: Seq<ParamAssignment>, k: int) -> bool {
    &&& 0 <= k < asg.len()
    &&& is_unconditional(asg[k])
    &&& forall|j: int| 0 <= j < asg.len() && j != k && is_unconditional(#[trigger] asg[j]) ==> before(asg, k, j)
}

/// A read counts unless it is implicit and implicit reads are ignored.
pub open spec fn counts(r: (usize, bool), ignore_implicit: bool) -> bool {
    !(r.1 && ignore_implicit)
}

/// Some counted read comes no later than every shadowing assignment.
pub open spec fn read_before_shadowing(p: ParamUse, ignore_implicit: bool) -> bool {
    exists|i: int|
        0 <= i < p.refs@.len() && counts(#[trigger] p.refs@[i], ignore_implicit) && forall|j: int|
            0 <= j < p.assignments@.len() && is_shadowing(#[trigger] p.assignments@[j])
                ==> p.refs@[i].0 <= p.assignments@[j].offset
}

/// No assignment before `k` makes its place unknown: a shorthand one, or a
/// shadowing one that may not run.
pub open spec fn location_known(asg: Seq<ParamAssignment>, k: int) -> bool {
    forall|j: int|
        0 <= j < asg.len() && before(asg, j, k) ==> !(#[trigger] asg[j].is_shorthand || (
        is_shadowing(asg[j]) && asg[j].is_conditional))
}

/// Where the argument is reported: at the first assignment that always
/// shadows it, or at its declaration where an earlier assignment makes that
/// place unknown; nothing when the body never reads it (as counted), never
/// shadows it unconditionally, or reads it before the first shadowing.
pub open spec fn shadow_position(p: ParamUse, ignore_implicit: bool) -> Option<int> {
    let asg = p.assignments@;
    if !(exists|i: int| 0 <= i < p.refs@.len() && counts(#[trigger] p.refs@[i], ignore_implicit)) {
        None
    } else if !(exists|k: int| first_unconditional(asg, k)) {
        None
    } else if read_before_shadowing(p, ignore_implicit) {
        None
    } else {
        let k = choose|k: int| first_unconditional(asg, k);
        if location_known(asg, k) {
            Some(asg[k].offset as int)
        } else {
            Some(p.decl as int)
        }
    }
}

pub open spec fn shadow_message(name: Seq<u8>) -> Seq<char> {
    "Argument `"@ + lossy_text(name) + "` was shadowed by a local variable before it was used."@
}

/// The offense: at the reported position, renaming the declaration to
/// `<name>_arg`.
pub open spec fn shadow_offense(s: Seq<u8>, p: ParamUse, ignore_implicit: bool) -> Option<
    (int, int, Seq<char>, Option<(int, int, Seq<char>)>),
> {
    match shadow_position(p, ignore_implicit) {
        None => None,
        Some(pos) => Some(
            (
                line_of(s, pos) as int,
                col_of(s, pos) as int,
                shadow_message(p.name@),
                Some(
                    (
                        p.decl as int,
                        p.decl + p.name@.len(),
                        lossy_text(p.name@) + "_arg"@,
                    ),
                ),
            ),
        ),
    }
}

pub open spec fn param_in_bounds(s: Seq<u8>, p: ParamUse) -> bool {
    &&& p.decl + p.name@.len() <= s.len()
    &&& forall|j: int| 0 <= j < p.assignments@.len() ==> #[trigger] p.assignments@[j].offset <= s.len()
}

/// The index of the first assignment that always shadows the argument.
fn find_first_unconditional(asg: &Vec<ParamAssignment>) -> (r: Option<usize>)
    ensures
        match r {
            Some(k) => first_unconditional(asg@, k as int),
            None => !(exists|k: int| first_unconditional(asg@, k)),
        },
{
    let mut best: Option<usize> = None;
    let mut i: usize = 0;
    while i < asg.len()
        invariant
            i <= asg@.len(),
            match best {
                Some(k) => k < i && is_unconditional(asg@[k as int]) && forall|j: int|
                    0 <= j < i && j != k && is_unconditional(#[trigger] asg@[j]) ==> before(
                        asg@,
                        k as int,
                        j,
                    ),
                None => forall|j: int| 0 <= j < i ==> !is_unconditional(#[trigger] asg@[j]),
            },
        decreases asg@.len() - i,
    {
        let a = asg[i];
        if !a.is_shorthand && !a.rhs_uses_param && !a.is_conditional {
            match best {
                None => {
                    best = Some(i);
                },
                Some(k) => {
                    if a.offset < asg[k].offset {
                        best = Some(i);
                    }
                },
            }
        }
        i = i + 1;
    }
    match best {
        Some(k) => {
            assert(first_unconditional(asg@, k as int));
        },
        None => {
            assert forall|k: int| !first_unconditional(asg@, k) by {
                if 0 <= k < asg@.len() {
                    assert(!is_unconditional(asg@[k]));
                }
            }
        },
    }
    best
}

impl ShadowedArgument {
    pub fn name(&self) -> (r: &'static str)
        ensures
            r@ == "Lint/ShadowedArgument"@,
    {
        "Lint/ShadowedArgument"
    }

    pub fn default_severity(&self) -> (r: Severity)
        ensures
            r == Severity::Warning,
    {
        Severity::Warning
    }

    pub fn supports_autocorrect(&self) -> (r: bool)
        ensures
            r == true,
    {
        true
    }

    /// Checks one argument; option `IgnoreImplicitReferences` (default off)
    /// leaves bare `super` calls out of the reads.
    pub fn check_param(
        &self,
        source: &SourceFile,
        param: &ParamUse,
        config: &CopConfig,
        diagnostics: &mut Vec<Diagnostic>,
        corrections: &mut Vec<Correction>,
        autocorrect: bool,
    )
        requires
            param_in_bounds(source@, *param),
        ensures
            adds_offense(
                old(diagnostics)@,
                final(diagnostics)@,
                old(corrections)@,
                final(corrections)@,
                source.spec_path(),
                "Lint/ShadowedArgument"@,
                Severity::Warning,
                shadow_offense(
                    source@,
                    *param,
                    spec_get_bool(config.options@, "IgnoreImplicitReferences"@, false),
                ),
                autocorrect,
            ),
    {
        let ignore_implicit = config.get_bool("IgnoreImplicitReferences", false);
        let ghost p = *param;
        let refs = &param.refs;
        let asg = &param.assignments;
        // Is the argument read at all (as counted)?
        let mut any_ref = false;
        let mut i: usize = 0;
        while i < refs.len()
            invariant
                p == *param,
                i <= refs@.len(),
                any_ref == exists|j: int| 0 <= j < i && counts(#[trigger] refs@[j], ignore_implicit),
            decreases refs@.len() - i,
        {
            if !(refs[i].1 && ignore_implicit) {
                any_ref = true;
            }
            i = i + 1;
        }
        if !any_ref {
            return;
        }
        let k = match find_first_unconditional(asg) {
            Some(k) => k,
            None => {
                return;
            },
        };
        // The first shadowing assignment's offset: the least over all of them.
        let mut cutoff = asg[k].offset;
        let mut i: usize = 0;
        while i < asg.len()
            invariant
                p == *param,
                i <= asg@.len(),
                k < asg@.len(),
                is_shadowing(asg@[k as int]),
                exists|j: int| 0 <= j < asg@.len() && is_shadowing(#[trigger] asg@[j]) && asg@[j].offset == cutoff,
                forall|j: int| 0 <= j < i && is_shadowing(#[trigger] asg@[j]) ==> cutoff <= asg@[j].offset,
                cutoff <= asg@[k as int].offset,
            decreases asg@.len() - i,
        {
            let a = asg[i];
            if !a.is_shorthand && !a.rhs_uses_param && a.offset < cutoff {
                cutoff = a.offset;
            }
            i = i + 1;
        }
        // A counted read at or before the cutoff?
        let mut prior = false;
        let mut i: usize = 0;
        while i < refs.len()
            invariant
                p == *param,
                i <= refs@.len(),
                exists|j: int| 0 <= j < asg@.len() && is_shadowing(#[trigger] asg@[j]) && asg@[j].offset == cutoff,
                forall|j: int| 0 <= j < asg@.len() && is_shadowing(#[trigger] asg@[j]) ==> cutoff <= asg@[j].offset,
                prior == exists|j: int|
                    0 <= j < i && counts(#[trigger] refs@[j], ignore_implicit) && refs@[j].0 <= cutoff,
            decreases refs@.len() - i,
        {
            if !(refs[i].1 && ignore_implicit) && refs[i].0 <= cutoff {
                prior = true;
            }
            i = i + 1;
        }
        proof {
            if prior {
                let j = choose|j: int|
                    0 <= j < refs@.len() && counts(#[trigger] refs@[j], ignore_implicit) && refs@[j].0
                        <= cutoff;
                assert(forall|jj: int|
                    0 <= jj < asg@.len() && is_shadowing(#[trigger] asg@[jj]) ==> refs@[j].0
                        <= asg@[jj].offset);
                assert(read_before_shadowing(p, ignore_implicit));
            } else {
                if read_before_shadowing(p, ignore_implicit) {
                    let i0 = choose|i0: int|
                        0 <= i0 < p.refs@.len() && counts(#[trigger] p.refs@[i0], ignore_implicit)
                            && forall|j: int|
                            0 <= j < p.assignments@.len() && is_shadowing(
                                #[trigger] p.assignments@[j],
                            ) ==> p.refs@[i0].0 <= p.assignments@[j].offset;
                    let jc = choose|j: int|
                        0 <= j < asg@.len() && is_shadowing(#[trigger] asg@[j]) && asg@[j].offset
                            == cutoff;
                    assert(refs@[i0].0 <= asg@[jc].offset);
                    assert(false);
                }
            }
        }
        if prior {
            return;
        }
        // Does an earlier assignment make the place unknown?
        let mut known = true;
        let mut i: usize = 0;
        while i < asg.len()
            invariant
                p == *param,
                i <= asg@.len(),
                k < asg@.len(),
                known == forall|j: int|
                    0 <= j < i && before(asg@, j, k as int) ==> !(#[trigger] asg@[j].is_shorthand || (
                    is_shadowing(asg@[j]) && asg@[j].is_conditional)),
            decreases asg@.len() - i,
        {
            let a = asg[i];
            let earlier = a.offset < asg[k].offset || (a.offset == asg[k].offset && i < k);
            assert(earlier == before(asg@, i as int, k as int));
            if earlier && (a.is_shorthand || (!a.rhs_uses_param && a.is_conditional)) {
                known = false;
                assert(asg@[i as int].is_shorthand || (is_shadowing(asg@[i as int])
                    && asg@[i as int].is_conditional));
            }
            i = i + 1;
        }
        proof {
            let kk = choose|kk: int| first_unconditional(asg@, kk);
            if kk != k {
                assert(before(asg@, k as int, kk));
                assert(before(asg@, kk, k as int));
            }
            assert(kk == k);
        }
        let pos = if known {
            asg[k].offset
        } else {
            param.decl
        };
        assert(param_in_bounds(source@, *param));
        assert(asg@[k as int].offset <= source@.len());
        assert(pos <= source@.len());
        let total = source.as_bytes().len();
        assert(param.decl + param.name@.len() <= total);
        let end = param.decl + param.name.len();
        let (line, col) = source.offset_to_line_col(pos);
        let name = text_of(param.name.as_slice());
        let mut msg = "Argument `".to_owned();
        msg.append(name.as_str());
        msg.append("` was shadowed by a local variable before it was used.");
        let mut repl = name;
        repl.append("_arg");
        emit_offense(
            diagnostics,
            corrections,
            autocorrect,
            source,
            "Lint/ShadowedArgument",
            Severity::Warning,
            line,
            col,
            msg,
            Some((param.decl, end, repl)),
        );
    }
}

} // verus!
