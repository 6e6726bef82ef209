use nitrocop::cop::lint::format_parameter_mismatch::{
    parse_format_string, FormatCall, FormatOperand, FormatParameterMismatch, StrPart,
};
use nitrocop::diagnostic::Diagnostic;
use nitrocop::parse::source::SourceFile;
use ruby_prism::Visit;

fn lossy(b: &[u8]) -> Vec<u8> {
    String::from_utf8_lossy(b).into_owned().into_bytes()
}

fn is_heredoc(open: Option<ruby_prism::Location<'_>>) -> bool {
    open.map(|l| l.as_slice().starts_with(b"<<")).unwrap_or(false)
}

fn operand(node: &ruby_prism::Node<'_>) -> FormatOperand {
    if let Some(s) = node.as_string_node() {
        return FormatOperand::Str { heredoc: is_heredoc(s.opening_loc()), value: lossy(s.unescaped()) };
    }
    if let Some(s) = node.as_interpolated_string_node() {
        let parts = s
            .parts()
            .iter()
            .map(|p| match p.as_string_node() {
                Some(t) => StrPart::Text(lossy(t.unescaped())),
                None => StrPart::Interpolation,
            })
            .collect();
        return FormatOperand::Interpolated { heredoc: is_heredoc(s.opening_loc()), parts };
    }
    if let Some(a) = node.as_array_node() {
        return FormatOperand::Array(a.elements().len());
    }
    if node.as_splat_node().is_some() {
        return FormatOperand::Splat;
    }
    if let Some(c) = node.as_constant_read_node() {
        return FormatOperand::Constant(String::from_utf8_lossy(c.name().as_slice()).into_owned());
    }
    if let Some(c) = node.as_constant_path_node() {
        if let Some(n) = c.name() {
            return FormatOperand::Constant(String::from_utf8_lossy(n.as_slice()).into_owned());
        }
    }
    FormatOperand::Other
}

struct Calls {
    calls: Vec<FormatCall>,
}

impl<'pr> Visit<'pr> for Calls {
    fn visit_call_node(&mut self, node: &ruby_prism::CallNode<'pr>) {
        let args = node
            .arguments()
            .map(|a| a.arguments().iter().map(|n| operand(&n)).collect())
            .unwrap_or_default();
        self.calls.push(FormatCall {
            method: String::from_utf8_lossy(node.name().as_slice()).into_owned(),
            receiver: node.receiver().map(|r| operand(&r)),
            args,
            message_start: node.message_loc().unwrap_or(node.location()).start() as usize,
        });
        ruby_prism::visit_call_node(self, node);
    }
}

fn run(src: &[u8]) -> Vec<Diagnostic> {
    let result = ruby_prism::parse(src);
    let mut v = Calls { calls: Vec::new() };
    v.visit(&result.node());
    let source = SourceFile::from_bytes("test.rb", src.to_vec());
    let mut diags = Vec::new();
    for c in &v.calls {
        FormatParameterMismatch.check_call(&source, c, &mut diags);
    }
    diags
}

#[test]
fn format_too_few_arguments() {
    let d = run(b"format(\"%s %s\", a)\n");
    assert_eq!(d.len(), 1);
    assert_eq!(
        d[0].message,
        "Number of arguments (1) to `format` doesn't match the number of fields (2)."
    );
    assert_eq!((d[0].location.line, d[0].location.column), (1, 0));
    assert_eq!(d[0].cop_name, "Lint/FormatParameterMismatch");
}

#[test]
fn format_matching_arguments() {
    assert!(run(b"format(\"%s and %d\", a, b)\n").is_empty());
}

#[test]
fn string_percent_array_mismatch() {
    let d = run(b"x = \"%s %s\" % [a]\n");
    assert_eq!(d.len(), 1);
    assert_eq!(
        d[0].message,
        "Number of arguments (1) to `String#%` doesn't match the number of fields (2)."
    );
    assert_eq!((d[0].location.line, d[0].location.column), (1, 12));
}

#[test]
fn mixed_sequences_are_invalid() {
    let d = run(b"format(\"%1$s %s\", a, b)\n");
    assert_eq!(d.len(), 1);
    assert_eq!(
        d[0].message,
        "Format string is invalid because formatting sequence types (numbered, named or unnumbered) are mixed."
    );
}

#[test]
fn named_format_takes_one_hash() {
    let d = run(b"format(\"%{a}\", b, c)\n");
    assert_eq!(d.len(), 1);
    assert_eq!(
        d[0].message,
        "Number of arguments (2) to `format` doesn't match the number of fields (1)."
    );
    assert!(run(b"format(\"%{a} %<b>s\", h)\n").is_empty());
}

#[test]
fn star_width_counts_an_argument() {
    assert!(run(b"sprintf(\"%-5s %*d\", a, b, c)\n").is_empty());
    assert_eq!(run(b"sprintf(\"%-5s %*d\", a, b)\n").len(), 1);
}

#[test]
fn splat_arguments_are_not_counted() {
    assert!(run(b"format(\"%d %d\", *args)\n").is_empty());
}

#[test]
fn kernel_receiver_is_checked_other_receivers_not() {
    assert_eq!(run(b"Kernel.format(\"%d %d\", 1)\n").len(), 1);
    assert!(run(b"foo.format(\"%d %d\", 1)\n").is_empty());
}

#[test]
fn interpolated_format_without_fields_is_skipped() {
    assert!(run(b"format(\"#{x}\", a)\n").is_empty());
}

#[test]
fn literal_percent_has_no_fields() {
    let d = run(b"format(\"100%%\", a)\n");
    assert_eq!(d.len(), 1);
    assert_eq!(
        d[0].message,
        "Number of arguments (1) to `format` doesn't match the number of fields (0)."
    );
}

#[test]
fn heredoc_format_is_skipped() {
    assert!(run(b"format(<<~FMT, a)\n  %s %s\nFMT\n").is_empty());
}

#[test]
fn parse_format_string_counts_fields() {
    assert_eq!(parse_format_string(b"%d"), Some((1, false)));
    assert_eq!(parse_format_string(b"%%"), Some((0, false)));
    assert_eq!(parse_format_string(b"%<a>s"), Some((1, true)));
    assert_eq!(parse_format_string(b"%1$s %3$d"), Some((3, false)));
    assert_eq!(parse_format_string(b"%s %1$s"), None);
    assert_eq!(parse_format_string(b"%.*f"), Some((2, false)));
    assert_eq!(parse_format_string(b"%v %n"), Some((0, false)));
    assert_eq!(parse_format_string(b"no fields"), Some((0, false)));
}
