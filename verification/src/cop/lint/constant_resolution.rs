use crate::cop::config::{spec_get_list, CopConfig};
use crate::cop::lint::duplicate_methods::string_views;
use crate::cop::report::adds_report;
use crate::diagnostic::{new_diagnostic, Diagnostic, Severity};
use crate::parse::source::{col_of, line_of, SourceFile};
use vstd::prelude::*;

verus! {

/// Checks that certain constants are fully qualified. Disabled by default; useful for gems to
/// avoid conflicts.
pub struct ConstantResolution;

/// The names listed under option `key`, none when it is not a list.
pub open spec fn listed(config: CopConfig, key: Seq<char>) -> Seq<Seq<char>> {
    match spec_get_list(config.options@, key) {
        Some(l) => l,
        None => Seq::empty(),
    }
}

/// A constant read `name` at `start` is reported unless it names a class or
/// module being defined (it lies in one of `def_names`), is not among the
/// `Only` names (when those are given) or is among the `Ignore` names.
pub open spec fn constant_offense(
    s: Seq<u8>,
    name: Seq<char>,
    start: int,
    def_names: Seq<(usize, usize)>,
    config: CopConfig,
) -> Option<(int, int, Seq<char>)> {
    let only = listed(config, "Only"@);
    if exists|k: int| 0 <= k < def_names.len() && #[trigger] def_names[k].0 <= start < def_names[k].1 {
        None
    } else if only.len() > 0 && !only.contains(name) {
        None
    } else if listed(config, "Ignore"@).contains(name) {
        None
    } else {
        Some(
            (
                line_of(s, start) as int,
                col_of(s, start) as int,
                "Fully qualify this constant to avoid possibly ambiguous resolution."@,
            ),
        )
    }
}

fn contains_name(v: &Vec<String>, name: &String) -> (r: bool)
    ensures
        r == string_views(v@).contains(name@),
{
    let mut k: usize = 0;
    while k < v.len()
        invariant
            k <= v@.len(),
            forall|j: int| 0 <= j < k ==> v@[j]@ != name@,
        decreases v@.len() - k,
    {
        if v[k].eq(name) {
            assert(string_views(v@)[k as int] == name@);
            return true;
        }
        k = k + 1;
    }
    assert forall|j: int| 0 <= j < v@.len() implies #[trigger] string_views(v@)[j] != name@ by {
        assert(string_views(v@)[j] == v@[j]@);
    }
    false
}

impl ConstantResolution {
    pub fn name(&self) -> (r: &'static str)
        ensures
            r@ == "Lint/ConstantResolution"@,
    {
        "Lint/ConstantResolution"
    }

    pub fn default_severity(&self) -> (r: Severity)
        ensures
            r == Severity::Warning,
    {
        Severity::Warning
    }

    pub fn default_enabled(&self) -> (r: bool)
        ensures
            r == false,
    {
        false
    }

    /// Checks one constant read `name` that starts at `start`; `def_names`
    /// are the spans of the names of the classes and modules being defined
    /// around it. Options `Only` and `Ignore` list names.
    pub fn check_constant(
        &self,
        source: &SourceFile,
        name: &String,
        start: usize,
        def_names: &Vec<(usize, usize)>,
        config: &CopConfig,
        diagnostics: &mut Vec<Diagnostic>,
    )
        requires
            start <= source@.len(),
        ensures
            adds_report(
                old(diagnostics)@,
                final(diagnostics)@,
                source.spec_path(),
                "Lint/ConstantResolution"@,
                Severity::Warning,
                constant_offense(source@, name@, start as int, def_names@, *config),
            ),
    {
        let mut k: usize = 0;
        while k < def_names.len()
            invariant
                k <= def_names@.len(),
                forall|j: int| 0 <= j < k ==> !(#[trigger] def_names@[j].0 <= start < def_names@[j].1),
            decreases def_names@.len() - k,
        {
            let (a, b) = def_names[k];
            if a <= start && start < b {
                return;
            }
            k = k + 1;
        }
        match config.get_string_array("Only") {
            Some(v) => {
                if v.len() > 0 && !contains_name(v, name) {
                    return;
                }
            },
            None => {},
        }
        match config.get_string_array("Ignore") {
            Some(v) => {
                if contains_name(v, name) {
                    return;
                }
            },
            None => {},
        }
        let (line, col) = source.offset_to_line_col(start);
        let d = new_diagnostic(
            source,
            "Lint/ConstantResolution",
            Severity::Warning,
            line,
            col,
            "Fully qualify this constant to avoid possibly ambiguous resolution.".to_owned(),
        );
        diagnostics.push(d);
        assert(diagnostics@.drop_last() =~= old(diagnostics)@);
    }
}

} // verus!
