use nitrocop::cop::layout::space_around_keyword::SpaceAroundKeyword;
use nitrocop::correction::{Correction, CorrectionSet};
use nitrocop::diagnostic::Diagnostic;
use nitrocop::parse::codemap::CodeMap;
use nitrocop::parse::source::SourceFile;
use ruby_prism::Visit;

struct Facts {
    skips: Vec<usize>,
    strings: Vec<(usize, usize)>,
}

impl<'pr> Visit<'pr> for Facts {
    fn visit_def_node(&mut self, node: &ruby_prism::DefNode<'pr>) {
        if let Some(e) = node.end_keyword_loc() {
            self.skips.push(e.start() as usize);
        }
        ruby_prism::visit_def_node(self, node);
    }
    fn visit_class_node(&mut self, node: &ruby_prism::ClassNode<'pr>) {
        self.skips.push(node.end_keyword_loc().start() as usize);
        ruby_prism::visit_class_node(self, node);
    }
    fn visit_module_node(&mut self, node: &ruby_prism::ModuleNode<'pr>) {
        self.skips.push(node.end_keyword_loc().start() as usize);
        ruby_prism::visit_module_node(self, node);
    }
    fn visit_singleton_class_node(&mut self, node: &ruby_prism::SingletonClassNode<'pr>) {
        self.skips.push(node.end_keyword_loc().start() as usize);
        ruby_prism::visit_singleton_class_node(self, node);
    }
    fn visit_string_node(&mut self, node: &ruby_prism::StringNode<'pr>) {
        let c = node.content_loc();
        self.strings.push((c.start() as usize, c.end() as usize));
    }
}

fn run_full(src: &[u8]) -> (Vec<Diagnostic>, Vec<Correction>) {
    let result = ruby_prism::parse(src);
    let mut f = Facts { skips: Vec::new(), strings: Vec::new() };
    f.visit(&result.node());
    let comments = result
        .comments()
        .map(|c| (c.location().start() as usize, c.location().end() as usize))
        .collect();
    let source = SourceFile::from_bytes("test.rb", src.to_vec());
    let code = CodeMap {
        comments,
        strings: f.strings,
        heredoc_interpolations: Vec::new(),
        heredoc_interpolation_literals: Vec::new(),
    };
    let mut diags = Vec::new();
    let mut corrs = Vec::new();
    SpaceAroundKeyword.check_source(&source, &code, &f.skips, &mut diags, &mut corrs, true);
    (diags, corrs)
}

#[test]
fn space_around_keyword_autocorrect_insert_space() {
    let input = b"if(x)\n  y\nend\n";
    let (_diags, corrections) = run_full(input);
    assert!(!corrections.is_empty());
    let cs = CorrectionSet::from_vec(corrections);
    let corrected = cs.apply(input);
    assert_eq!(corrected, b"if (x)\n  y\nend\n");
}

#[test]
fn missing_space_after_keyword_message() {
    let (d, _) = run_full(b"if(x)\n  y\nend\n");
    assert_eq!(d.len(), 1);
    assert_eq!(d[0].message, "Space after keyword `if` is missing.");
    assert_eq!((d[0].location.line, d[0].location.column), (1, 0));
}

#[test]
fn missing_space_before_keyword() {
    let (d, c) = run_full(b"x = 1 if y\nfoo do\n  bar\nend\nbaz(1)unless z\n");
    assert_eq!(d.len(), 1);
    assert_eq!(d[0].message, "Space before keyword `unless` is missing.");
    assert_eq!(c[0].start, c[0].end);
}

#[test]
fn keyword_like_identifiers_are_not_checked() {
    let (d, _) = run_full(b"x.end\n@case = 1\nh = { end: 1 }\ny = :rescue\ndef next!; end\n");
    assert!(d.is_empty(), "{:?}", d);
}

#[test]
fn keywords_in_comments_and_strings_are_not_checked() {
    let (d, _) = run_full(b"# if(x)\ns = \"if(x)\"\n");
    assert!(d.is_empty(), "{:?}", d);
}

#[test]
fn end_of_method_is_not_checked_for_space_before() {
    let (d, _) = run_full(b"def app_name;\"Camping\"end\n");
    assert!(d.is_empty(), "{:?}", d);
}

#[test]
fn yield_and_super_accept_brackets() {
    let (d, _) = run_full(b"def a\n  yield[0]\n  super(1)\nend\n");
    assert!(d.is_empty(), "{:?}", d);
}
