use crate::cop::config::{spec_get_str, CopConfig};
use crate::cop::report::{edits, push_offense};
use crate::cop::util::{file_name_of, path_file_name, string_is};
use crate::correction::Correction;
use crate::diagnostic::{reports, Diagnostic, Severity};
use crate::parse::source::SourceFile;
use vstd::prelude::*;

verus! {

/// `Bundler/GemFilename`: the gem manifest is named as the enforced style
/// says (`Gemfile` with `Gemfile.lock`, or `gems.rb` with `gems.locked`).
pub struct GemFilename;

/// The offense (message, text inserted at the start of the file) for a file
/// named `name` at `path` under style `style`, if any.
pub open spec fn gem_filename_offense(style: Seq<char>, name: Option<Seq<char>>, path: Seq<char>) -> Option<
    (Seq<char>, Seq<char>),
> {
    match name {
        None => None,
        Some(n) => if style == "Gemfile"@ && n == "gems.rb"@ {
            Some(
                (
                    "`gems.rb` file was found but `Gemfile` is required (file path: "@ + path
                        + ")."@,
                    "skip('TODO: rename file to Gemfile')\n"@,
                ),
            )
        } else if style == "Gemfile"@ && n == "gems.locked"@ {
            Some(
                (
                    "Expected a `Gemfile.lock` with `Gemfile` but found `gems.locked` file (file path: "@
                        + path + ")."@,
                    "skip('TODO: rename file to Gemfile.lock')\n"@,
                ),
            )
        } else if style == "gems.rb"@ && n == "Gemfile"@ {
            Some(
                (
                    "`Gemfile` was found but `gems.rb` is required (file path: "@ + path + ")."@,
                    "skip('TODO: rename file to gems.rb')\n"@,
                ),
            )
        } else if style == "gems.rb"@ && n == "Gemfile.lock"@ {
            Some(
                (
                    "Expected a `gems.locked` with `gems.rb` but found `Gemfile.lock` file (file path: "@
                        + path + ")."@,
                    "skip('TODO: rename file to gems.locked')\n"@,
                ),
            )
        } else {
            None
        },
    }
}

impl GemFilename {
    pub fn name(&self) -> (r: &'static str)
        ensures
            r@ == "Bundler/GemFilename"@,
    {
        "Bundler/GemFilename"
    }

    pub fn supports_autocorrect(&self) -> (r: bool)
        ensures
            r == true,
    {
        true
    }

    /// File patterns the cop applies to unless configured otherwise.
    pub fn default_include(&self) -> (r: Vec<&'static str>)
        ensures
            r@.len() == 2,
            r@[0]@ == "**/Gemfile"@,
            r@[1]@ == "**/gems.rb"@,
    {
        vec!["**/Gemfile", "**/gems.rb"]
    }

    pub fn default_severity(&self) -> (r: Severity)
        ensures
            r == Severity::Convention,
    {
        Severity::Convention
    }

    /// Checks `source`, whose file name (last path component) is `name`,
    /// under style `style`: at most one report at line 1, column 0, and with
    /// `autocorrect` a hint inserted at the start of the file.
    pub fn check_file_name(
        &self,
        source: &SourceFile,
        style: &String,
        name: &Option<String>,
        diagnostics: &mut Vec<Diagnostic>,
        corrections: &mut Vec<Correction>,
        autocorrect: bool,
    )
        ensures
            ({
                let nm = match name {
                    Some(n) => Some(n@),
                    None => None,
                };
                match gem_filename_offense(style@, nm, source.spec_path()) {
                    Some((msg, repl)) => {
                        &&& final(diagnostics)@.len() == old(diagnostics)@.len() + 1
                        &&& final(diagnostics)@.drop_last() == old(diagnostics)@
                        &&& reports(
                            final(diagnostics)@.last(),
                            source.spec_path(),
                            "Bundler/GemFilename"@,
                            Severity::Convention,
                            1,
                            0,
                            msg,
                            autocorrect,
                        )
                        &&& autocorrect ==> final(corrections)@.len() == old(corrections)@.len()
                            + 1
                        &&& autocorrect ==> final(corrections)@.drop_last() == old(corrections)@
                        &&& autocorrect ==> edits(
                            final(corrections)@.last(),
                            "Bundler/GemFilename"@,
                            0,
                            0,
                            repl,
                        )
                        &&& !autocorrect ==> final(corrections)@ == old(corrections)@
                    },
                    None => {
                        &&& final(diagnostics)@ == old(diagnostics)@
                        &&& final(corrections)@ == old(corrections)@
                    },
                }
            }),
    {
        let n = match name {
            Some(n) => n,
            None => {
                return;
            },
        };
        let path = source.path_str();
        let (head, tail, repl) = if string_is(style, "Gemfile") && string_is(n, "gems.rb") {
            (
                "`gems.rb` file was found but `Gemfile` is required (file path: ",
                ").",
                "skip('TODO: rename file to Gemfile')\n",
            )
        } else if string_is(style, "Gemfile") && string_is(n, "gems.locked") {
            (
                "Expected a `Gemfile.lock` with `Gemfile` but found `gems.locked` file (file path: ",
                ").",
                "skip('TODO: rename file to Gemfile.lock')\n",
            )
        } else if string_is(style, "gems.rb") && string_is(n, "Gemfile") {
            (
                "`Gemfile` was found but `gems.rb` is required (file path: ",
                ").",
                "skip('TODO: rename file to gems.rb')\n",
            )
        } else if string_is(style, "gems.rb") && string_is(n, "Gemfile.lock") {
            (
                "Expected a `gems.locked` with `gems.rb` but found `Gemfile.lock` file (file path: ",
                ").",
                "skip('TODO: rename file to gems.locked')\n",
            )
        } else {
            return;
        };
        let mut msg = head.to_owned();
        msg.append(path);
        msg.append(tail);
        push_offense(
            diagnostics,
            corrections,
            autocorrect,
            source,
            "Bundler/GemFilename",
            Severity::Convention,
            1,
            0,
            msg,
            0,
            0,
            repl,
        );
    }

    /// Checks `source` under the configured `EnforcedStyle` (default
    /// `Gemfile`), reading the file name from its path.
    pub fn check_lines(
        &self,
        source: &SourceFile,
        config: &CopConfig,
        diagnostics: &mut Vec<Diagnostic>,
        corrections: &mut Vec<Correction>,
        autocorrect: bool,
    )
        ensures
            ({
                let style = spec_get_str(config.options@, "EnforcedStyle"@, "Gemfile"@);
                match gem_filename_offense(style, path_file_name(source.spec_path()), source.spec_path()) {
                    Some((msg, repl)) => {
                        &&& final(diagnostics)@.len() == old(diagnostics)@.len() + 1
                        &&& final(diagnostics)@.drop_last() == old(diagnostics)@
                        &&& reports(
                            final(diagnostics)@.last(),
                            source.spec_path(),
                            "Bundler/GemFilename"@,
                            Severity::Convention,
                            1,
                            0,
                            msg,
                            autocorrect,
                        )
                        &&& autocorrect ==> final(corrections)@.len() == old(corrections)@.len()
                            + 1
                        &&& autocorrect ==> final(corrections)@.drop_last() == old(corrections)@
                        &&& autocorrect ==> edits(
                            final(corrections)@.last(),
                            "Bundler/GemFilename"@,
                            0,
                            0,
                            repl,
                        )
                        &&& !autocorrect ==> final(corrections)@ == old(corrections)@
                    },
                    None => {
                        &&& final(diagnostics)@ == old(diagnostics)@
                        &&& final(corrections)@ == old(corrections)@
                    },
                }
            }),
    {
        let style = config.get_str("EnforcedStyle", "Gemfile");
        let name = file_name_of(source.path_str());
        self.check_file_name(source, &style, &name, diagnostics, corrections, autocorrect);
    }
}

} // verus!
