use nitrocop::cop::lint::ambiguous_operator::{argument_range, AmbiguousOperator, ArgCall, ParseWarning};
use nitrocop::correction::Correction;
use nitrocop::diagnostic::Diagnostic;
use nitrocop::parse::source::SourceFile;
use ruby_prism::Visit;

#[derive(Default)]
struct Calls {
    calls: Vec<ArgCall>,
}

impl<'pr> Visit<'pr> for Calls {
    fn visit_call_node(&mut self, node: &ruby_prism::CallNode<'pr>) {
        let args: Vec<(usize, usize)> = node
            .arguments()
            .map(|a| a.arguments().iter().map(|x| (x.location().start() as usize, x.location().end() as usize)).collect())
            .unwrap_or_default();
        let block_arg = node
            .block()
            .and_then(|b| b.as_block_argument_node())
            .map(|b| (b.location().start() as usize, b.location().end() as usize));
        self.calls.push(ArgCall {
            has_opening: node.opening_loc().is_some(),
            args,
            block_arg,
            message_end: node.message_loc().map(|m| m.end() as usize),
        });
        ruby_prism::visit_call_node(self, node);
    }
}

fn run(src: &str, autocorrect: bool) -> (Vec<Diagnostic>, Vec<Correction>) {
    let result = ruby_prism::parse(src.as_bytes());
    let source = SourceFile::from_bytes("test.rb", src.as_bytes().to_vec());
    let warnings: Vec<ParseWarning> = result
        .warnings()
        .map(|w| ParseWarning {
            start: w.location().start() as usize,
            message: String::from_utf8_lossy(w.message()).into_owned(),
        })
        .collect();
    let mut c = Calls::default();
    c.visit(&result.node());
    let mut d = Vec::new();
    let mut corr = Vec::new();
    AmbiguousOperator.check_source(&source, &warnings, &c.calls, &mut d, &mut corr, autocorrect);
    (d, corr)
}

fn apply(src: &str, mut corr: Vec<Correction>) -> String {
    corr.sort_by_key(|c| std::cmp::Reverse((c.start, c.end)));
    let mut s = src.to_string();
    for c in corr {
        s.replace_range(c.start..c.end, &c.replacement);
    }
    s
}

#[test]
fn ambiguous_operator_splat_with_prism_warning() {
    let src = "do_something *some_array\n";
    let (d, corr) = run(src, true);
    assert_eq!(d.len(), 1);
    assert_eq!(
        d[0].message,
        "Ambiguous splat operator. Parenthesize the method arguments if it's surely a splat operator, or add a whitespace to the right of the `*` if it should be a multiplication."
    );
    assert_eq!((d[0].location.line, d[0].location.column), (1, 13));
    assert!(d[0].corrected);
    assert_eq!(apply(src, corr), "do_something(*some_array)\n");
}

#[test]
fn ambiguous_operator_no_warning_with_parens() {
    let (d, _) = run("do_something(*some_array)\n", true);
    assert!(d.is_empty());
}

fn hand_call() -> ArgCall {
    ArgCall { has_opening: false, args: vec![(4, 6), (8, 9)], block_arg: None, message_end: Some(3) }
}

#[test]
fn ambiguous_operator_each_kind_of_message() {
    let src = "foo -1, 2\n";
    let source = SourceFile::from_bytes("t.rb", src.as_bytes().to_vec());
    let cases = [
        ("ambiguous `**` has been interpreted as an argument prefix", "keyword splat", "**", "an exponent"),
        ("ambiguous `&` has been interpreted as an argument prefix", "block", "&", "a binary AND"),
        ("ambiguous first argument; put parentheses or a space even after `+` operator", "positive number", "+", "an addition"),
        ("ambiguous first argument; put parentheses or a space even after `-` operator", "negative number", "-", "a subtraction"),
    ];
    for (text, actual, op, possible) in cases {
        let w = vec![ParseWarning { start: 4, message: text.to_string() }];
        let mut d = Vec::new();
        let mut c = Vec::new();
        AmbiguousOperator.check_source(&source, &w, &vec![hand_call()], &mut d, &mut c, false);
        assert_eq!(d.len(), 1);
        assert_eq!(
            d[0].message,
            format!(
                "Ambiguous {} operator. Parenthesize the method arguments if it's surely a {} operator, or add a whitespace to the right of the `{}` if it should be {}.",
                actual, actual, op, possible
            )
        );
        assert!(!d[0].corrected);
        assert!(c.is_empty());
    }
}

#[test]
fn ambiguous_operator_other_warnings_ignored() {
    let source = SourceFile::from_bytes("t.rb", b"foo -1\n".to_vec());
    let w = vec![ParseWarning { start: 0, message: "assigned but unused variable - x".to_string() }];
    let mut d = Vec::new();
    let mut c = Vec::new();
    AmbiguousOperator.check_source(&source, &w, &vec![], &mut d, &mut c, true);
    assert!(d.is_empty());
}

#[test]
fn ambiguous_operator_correction_needs_matching_call() {
    let src = "foo -1, 2\n";
    let source = SourceFile::from_bytes("t.rb", src.as_bytes().to_vec());
    let w = vec![ParseWarning {
        start: 4,
        message: "ambiguous first argument; put parentheses or a space even after `-` operator".to_string(),
    }];
    let mut d = Vec::new();
    let mut c = Vec::new();
    AmbiguousOperator.check_source(&source, &w, &vec![hand_call()], &mut d, &mut c, true);
    assert!(d[0].corrected);
    assert_eq!((c[0].start, c[0].end, c[0].replacement.as_str()), (3, 4, "("));
    assert_eq!((c[1].start, c[1].end, c[1].replacement.as_str()), (9, 9, ")"));
    let mut d2 = Vec::new();
    let mut c2 = Vec::new();
    AmbiguousOperator.check_source(&source, &w, &vec![], &mut d2, &mut c2, true);
    assert!(!d2[0].corrected);
    assert!(c2.is_empty());
}

#[test]
fn ambiguous_operator_argument_range_forms() {
    let r = argument_range(&hand_call()).unwrap();
    assert_eq!((r.warning_offset, r.open_replace_start, r.open_replace_end, r.args_end), (4, 3, 4, 9));
    let with_parens = ArgCall { has_opening: true, ..hand_call() };
    assert!(argument_range(&with_parens).is_none());
    let block = ArgCall { has_opening: false, args: vec![], block_arg: Some((4, 8)), message_end: Some(3) };
    let r = argument_range(&block).unwrap();
    assert_eq!((r.warning_offset, r.args_end), (4, 8));
}
