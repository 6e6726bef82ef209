use crate::cop::config::{spec_get_bool, CopConfig};
use crate::cop::node::{is_top_constant, is_top_constant_exec, Comment, ConstantReceiver};
use crate::cop::report::{extends_with_reports, lemma_reports_empty, lemma_reports_push};
use crate::cop::util::{disables_cop, disables_cop_exec, is_valid_utf8, string_is};
use crate::diagnostic::{new_diagnostic, Diagnostic, Severity};
use crate::parse::source::{col_of, line_of, SourceFile};
use vstd::prelude::*;

verus! {

/// Lint/EmptyBlock: a block without a body, unless it is an allowed empty
/// lambda or proc, or holds a comment.
pub struct EmptyBlock;

/// What carries a block.
pub enum BlockOwner {
    /// A method call: its name, whether it has a receiver, the receiver as a
    /// constant, whether the receiver is itself a call with a block, where
    /// the method name starts (if written) and where the call starts.
    Call {
        name: String,
        has_receiver: bool,
        receiver: ConstantReceiver,
        receiver_has_block: bool,
        message_start: Option<usize>,
        start: usize,
    },
    /// A `super` call, starting at this offset.
    Super { start: usize },
}

/// A literal block, as far as the cop reads it.
pub struct BlockSite {
    pub owner: BlockOwner,
    /// The block has no statements.
    pub body_empty: bool,
    /// Where the block starts and ends.
    pub block_start: usize,
    pub block_end: usize,
}

pub open spec fn cop_name_bytes() -> Seq<u8> {
    seq![76u8, 105u8, 110u8, 116u8, 47u8, 69u8, 109u8, 112u8, 116u8, 121u8, 66u8, 108u8, 111u8, 99u8, 107u8]
}

/// An empty `lambda {}`, `proc {}` or `Proc.new {}`.
pub open spec fn is_empty_lambda(owner: BlockOwner) -> bool {
    match owner {
        BlockOwner::Call { name, has_receiver, receiver, .. } => ((name@ == "lambda"@ || name@
            == "proc"@) && !has_receiver) || (name@ == "new"@ && has_receiver && is_top_constant(
            receiver,
            "Proc"@,
        )),
        BlockOwner::Super { .. } => false,
    }
}

/// A comment on a line of the block that is not a directive disabling
/// this cop.
pub open spec fn has_plain_comment(s: Seq<u8>, site: BlockSite, comments: Seq<Comment>) -> bool {
    let first = line_of(s, site.block_start as int);
    let last = line_of(s, if site.block_end > 0 {
        site.block_end - 1
    } else {
        0
    });
    exists|k: int|
        0 <= k < comments.len() && first <= line_of(s, #[trigger] comments[k].start as int) <= last
            && !(vstd::utf8::valid_utf8(comments[k].text@) && disables_cop(
            comments[k].text@,
            cop_name_bytes(),
        ))
}

/// Where the offense of a block is reported.
pub open spec fn report_offset(owner: BlockOwner) -> int {
    match owner {
        BlockOwner::Call { has_receiver, receiver_has_block, message_start, start, .. } => {
            if has_receiver && receiver_has_block {
                match message_start {
                    Some(m) => m as int,
                    None => start as int,
                }
            } else {
                start as int
            }
        },
        BlockOwner::Super { start } => start as int,
    }
}

/// The offense of the block `site`: (line, column).
pub open spec fn empty_block_offense(
    s: Seq<u8>,
    allow_lambdas: bool,
    allow_comments: bool,
    site: BlockSite,
    comments: Seq<Comment>,
) -> Option<(int, int)> {
    if !site.body_empty || (allow_lambdas && is_empty_lambda(site.owner)) || (allow_comments
        && has_plain_comment(s, site, comments)) {
        None
    } else {
        let off = report_offset(site.owner);
        Some((line_of(s, off) as int, col_of(s, off) as int))
    }
}

pub open spec fn block_site_in_bounds(s: Seq<u8>, site: BlockSite, comments: Seq<Comment>) -> bool {
    &&& site.block_start <= s.len()
    &&& site.block_end <= s.len() + 1
    &&& report_offset(site.owner) <= s.len()
    &&& forall|k: int| 0 <= k < comments.len() ==> #[trigger] comments[k].start <= s.len()
}

impl EmptyBlock {
    pub fn name(&self) -> (r: &'static str)
        ensures
            r@ == "Lint/EmptyBlock"@,
    {
        "Lint/EmptyBlock"
    }

    pub fn default_severity(&self) -> (r: Severity)
        ensures
            r == Severity::Warning,
    {
        Severity::Warning
    }

    /// Checks one block of `source`, whose comments are `comments`, under
    /// the options `AllowEmptyLambdas` and `AllowComments` (both default
    /// true).
    pub fn check_block(
        &self,
        source: &SourceFile,
        config: &CopConfig,
        site: &BlockSite,
        comments: &Vec<Comment>,
        diagnostics: &mut Vec<Diagnostic>,
    )
        requires
            block_site_in_bounds(source@, *site, comments@),
        ensures
            extends_with_reports(
                old(diagnostics)@,
                final(diagnostics)@,
                source.spec_path(),
                "Lint/EmptyBlock"@,
                Severity::Warning,
                match empty_block_offense(
                    source@,
                    spec_get_bool(config.options@, "AllowEmptyLambdas"@, true),
                    spec_get_bool(config.options@, "AllowComments"@, true),
                    *site,
                    comments@,
                ) {
                    Some((l, c)) => seq![(l, c, "Empty block detected."@)],
                    None => Seq::empty(),
                },
                false,
            ),
    {
        let ghost path = source.spec_path();
        proof {
            lemma_reports_empty(diagnostics@, path, "Lint/EmptyBlock"@, Severity::Warning, false);
        }
        if !site.body_empty {
            return;
        }
        let allow_lambdas = config.get_bool("AllowEmptyLambdas", true);
        if allow_lambdas {
            let lambda = match &site.owner {
                BlockOwner::Call { name, has_receiver, receiver, .. } => ((string_is(name, "lambda")
                    || string_is(name, "proc")) && !*has_receiver) || (string_is(name, "new")
                    && *has_receiver && is_top_constant_exec(receiver, "Proc")),
                BlockOwner::Super { .. } => false,
            };
            if lambda {
                return;
            }
        }
        let allow_comments = config.get_bool("AllowComments", true);
        if allow_comments {
            let (first, _) = source.offset_to_line_col(site.block_start);
            let last_pos = if site.block_end > 0 {
                site.block_end - 1
            } else {
                0
            };
            let (last, _) = source.offset_to_line_col(last_pos);
            let cop: Vec<u8> = vec![76u8, 105u8, 110u8, 116u8, 47u8, 69u8, 109u8, 112u8, 116u8, 121u8, 66u8, 108u8, 111u8, 99u8, 107u8];
            let mut k: usize = 0;
            while k < comments.len()
                invariant
                    k <= comments@.len(),
                    cop@ == cop_name_bytes(),
                    allow_comments == spec_get_bool(config.options@, "AllowComments"@, true),
                    allow_comments,
                    path == source.spec_path(),
                    extends_with_reports(
                        old(diagnostics)@,
                        diagnostics@,
                        path,
                        "Lint/EmptyBlock"@,
                        Severity::Warning,
                        Seq::empty(),
                        false,
                    ),
                    first == line_of(source@, site.block_start as int),
                    last == line_of(source@, last_pos as int),
                    last_pos == (if site.block_end > 0 { site.block_end - 1 } else { 0 }),
                    block_site_in_bounds(source@, *site, comments@),
                    forall|j: int|
                        0 <= j < k ==> !(first <= line_of(source@, #[trigger] comments@[j].start as int)
                            <= last && !(vstd::utf8::valid_utf8(comments@[j].text@) && disables_cop(
                            comments@[j].text@,
                            cop_name_bytes(),
                        ))),
                decreases comments@.len() - k,
            {
                let c = &comments[k];
                let (cl, _) = source.offset_to_line_col(c.start);
                if first <= cl && cl <= last {
                    let text = c.text.as_slice();
                    if !(is_valid_utf8(text) && disables_cop_exec(text, cop.as_slice())) {
                        assert(has_plain_comment(source@, *site, comments@));
                        return;
                    }
                }
                k = k + 1;
            }
        }
        let off = match &site.owner {
            BlockOwner::Call { has_receiver, receiver_has_block, message_start, start, .. } => {
                if *has_receiver && *receiver_has_block {
                    match message_start {
                        Some(m) => *m,
                        None => *start,
                    }
                } else {
                    *start
                }
            },
            BlockOwner::Super { start } => *start,
        };
        let (line, col) = source.offset_to_line_col(off);
        let d = new_diagnostic(
            source,
            "Lint/EmptyBlock",
            Severity::Warning,
            line,
            col,
            "Empty block detected.".to_owned(),
        );
        let ghost d0 = diagnostics@;
        diagnostics.push(d);
        proof {
            assert(diagnostics@.drop_last() =~= d0);
            lemma_reports_push(
                d0,
                d0,
                diagnostics@,
                path,
                "Lint/EmptyBlock"@,
                Severity::Warning,
                Seq::empty(),
                (line as int, col as int, "Empty block detected."@),
                false,
            );
            assert(Seq::<(int, int, Seq<char>)>::empty().push((line as int, col as int, "Empty block detected."@)) =~= seq![(line as int, col as int, "Empty block detected."@)]);
        }
    }
}

} // verus!
