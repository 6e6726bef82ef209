use crate::cop::util::{file_name_of, path_file_name, string_is};
use crate::diagnostic::{new_diagnostic, reports, Diagnostic, Severity};
use crate::parse::source::SourceFile;
use vstd::prelude::*;

verus! {

/// Lint/ScriptPermission: a file that starts with a shebang line is
/// executable.
pub struct ScriptPermission;

/// The offense message for a script at `path` whose permission bits are
/// `mode` (`None` when they could not be read), with file name `name`.
pub open spec fn script_permission_offense(
    s: Seq<u8>,
    path: Seq<char>,
    mode: Option<u32>,
    name: Option<Seq<char>>,
) -> Option<Seq<char>> {
    if !(s.len() >= 2 && s[0] == 35u8 && s[1] == 33u8) || path == "test.rb"@ || path == "(stdin)"@
        || path.len() == 0 {
        None
    } else {
        match mode {
            None => None,
            Some(m) => if m & 0o111u32 != 0 {
                None
            } else {
                let base = match name {
                    Some(n) => n,
                    None => path,
                };
                Some("Script file "@ + base + " doesn't have execute permission."@)
            },
        }
    }
}

impl ScriptPermission {
    pub fn name(&self) -> (r: &'static str)
        ensures
            r@ == "Lint/ScriptPermission"@,
    {
        "Lint/ScriptPermission"
    }

    pub fn default_severity(&self) -> (r: Severity)
        ensures
            r == Severity::Warning,
    {
        Severity::Warning
    }

    pub fn supports_autocorrect(&self) -> (r: bool)
        ensures
            r == true,
    {
        true
    }

    /// Whether a script that starts with a shebang needs its permission bits
    /// read: its path is a real file path.
    pub fn needs_mode(&self, source: &SourceFile) -> (r: bool)
        ensures
            r == (source@.len() >= 2 && source@[0] == 35u8 && source@[1] == 33u8
                && source.spec_path() != "test.rb"@ && source.spec_path() != "(stdin)"@
                && source.spec_path().len() != 0),
    {
        let bytes = source.as_bytes();
        let path = source.path_str();
        let p = path.to_owned();
        proof {
            reveal_strlit("");
            assert(""@.len() == 0);
            assert(p@.len() == 0 ==> p@ =~= ""@);
        }
        bytes.len() >= 2 && bytes[0] == 35u8 && bytes[1] == 33u8 && !string_is(&p, "test.rb")
            && !string_is(&p, "(stdin)") && !string_is(&p, "")
    }

    /// Checks `source`, whose file has permission bits `mode` (`None` when
    /// they could not be read): one report at line 1, column 0 for a script
    /// that no one may execute. With `autocorrect` the report is marked
    /// corrected; the caller then sets the execute bits.
    pub fn check_lines(
        &self,
        source: &SourceFile,
        mode: Option<u32>,
        diagnostics: &mut Vec<Diagnostic>,
        autocorrect: bool,
    )
        ensures
            match script_permission_offense(
                source@,
                source.spec_path(),
                mode,
                path_file_name(source.spec_path()),
            ) {
                Some(msg) => {
                    &&& final(diagnostics)@.len() == old(diagnostics)@.len() + 1
                    &&& final(diagnostics)@.drop_last() == old(diagnostics)@
                    &&& reports(
                        final(diagnostics)@.last(),
                        source.spec_path(),
                        "Lint/ScriptPermission"@,
                        Severity::Warning,
                        1,
                        0,
                        msg,
                        autocorrect,
                    )
                },
                None => final(diagnostics)@ == old(diagnostics)@,
            },
    {
        if !self.needs_mode(source) {
            return;
        }
        let m = match mode {
            Some(m) => m,
            None => {
                return;
            },
        };
        if m & 0o111u32 != 0 {
            return;
        }
        let path = source.path_str();
        let mut msg = "Script file ".to_owned();
        match file_name_of(path) {
            Some(n) => msg.append(n.as_str()),
            None => msg.append(path),
        }
        msg.append(" doesn't have execute permission.");
        let mut d = new_diagnostic(source, "Lint/ScriptPermission", Severity::Warning, 1, 0, msg);
        d.corrected = autocorrect;
        diagnostics.push(d);
        assert(diagnostics@.drop_last() =~= old(diagnostics)@);
    }
}

} // verus!
