use nitrocop::cop::lint::duplicate_case_condition::{CondKind, DuplicateCaseCondition, WhenCond};
use nitrocop::cop::lint::duplicate_elsif_condition::{DuplicateElsifCondition, ElsifBranch, IfChain};
use nitrocop::cop::lint::duplicate_match_pattern::{DuplicateMatchPattern, InClause};
use nitrocop::cop::lint::duplicate_rescue_exception::{DuplicateRescueException, RescueExc};
use nitrocop::correction::{Correction, CorrectionSet};
use nitrocop::diagnostic::Diagnostic;
use nitrocop::parse::source::SourceFile;
use ruby_prism::Visit;

fn span(l: &ruby_prism::Location<'_>) -> (usize, usize) {
    (l.start() as usize, l.end() as usize)
}

fn safe_read(n: &ruby_prism::Node<'_>) -> bool {
    n.as_local_variable_read_node().is_some()
        || n.as_instance_variable_read_node().is_some()
        || n.as_class_variable_read_node().is_some()
        || n.as_global_variable_read_node().is_some()
        || n.as_constant_read_node().is_some()
        || n.as_constant_path_node().is_some()
        || n.as_true_node().is_some()
        || n.as_false_node().is_some()
        || n.as_nil_node().is_some()
}

#[derive(Default)]
struct Facts {
    cases: Vec<Vec<Vec<WhenCond>>>,
    chains: Vec<IfChain>,
    matches: Vec<Vec<InClause>>,
    begins: Vec<Vec<Vec<RescueExc>>>,
}

impl<'pr> Visit<'pr> for Facts {
    fn visit_case_node(&mut self, node: &ruby_prism::CaseNode<'pr>) {
        let mut whens = Vec::new();
        for w in node.conditions().iter() {
            if let Some(w) = w.as_when_node() {
                let conds = w
                    .conditions()
                    .iter()
                    .map(|c| {
                        let (start, end) = span(&c.location());
                        let kind = if let Some(s) = c.as_string_node() {
                            CondKind::Str(s.unescaped().to_vec())
                        } else if let Some(s) = c.as_symbol_node() {
                            CondKind::Sym(s.unescaped().to_vec())
                        } else {
                            CondKind::Other
                        };
                        WhenCond { start, end, kind }
                    })
                    .collect();
                whens.push(conds);
            }
        }
        self.cases.push(whens);
        ruby_prism::visit_case_node(self, node);
    }

    fn visit_if_node(&mut self, node: &ruby_prism::IfNode<'pr>) {
        let (pred_start, pred_end) = span(&node.predicate().location());
        let mut elsifs = Vec::new();
        let mut has_else = false;
        let mut sub = node.subsequent();
        while let Some(s) = sub {
            if let Some(e) = s.as_if_node() {
                let (ps, pe) = span(&e.predicate().location());
                let (start, end) = span(&e.location());
                elsifs.push(ElsifBranch {
                    pred_start: ps,
                    pred_end: pe,
                    safe_predicate: safe_read(&e.predicate()),
                    start,
                    end,
                    end_keyword: e.end_keyword_loc().map(|l| l.start() as usize),
                });
                sub = e.subsequent();
            } else {
                has_else = true;
                break;
            }
        }
        self.chains.push(IfChain {
            keyword: node.if_keyword_loc().map(|l| span(&l)),
            pred_start,
            pred_end,
            elsifs,
            has_else,
        });
        ruby_prism::visit_if_node(self, node);
    }

    fn visit_case_match_node(&mut self, node: &ruby_prism::CaseMatchNode<'pr>) {
        let mut ins = Vec::new();
        for c in node.conditions().iter() {
            if let Some(i) = c.as_in_node() {
                let (ps, pe) = span(&i.pattern().location());
                let (start, end) = span(&i.location());
                ins.push(InClause { pattern_start: ps, pattern_end: pe, start, end });
            }
        }
        self.matches.push(ins);
        ruby_prism::visit_case_match_node(self, node);
    }

    fn visit_begin_node(&mut self, node: &ruby_prism::BeginNode<'pr>) {
        let mut groups = Vec::new();
        let mut r = node.rescue_clause();
        while let Some(rescue) = r {
            groups.push(
                rescue
                    .exceptions()
                    .iter()
                    .map(|e| {
                        let (start, end) = span(&e.location());
                        RescueExc { start, end }
                    })
                    .collect(),
            );
            r = rescue.subsequent();
        }
        self.begins.push(groups);
        ruby_prism::visit_begin_node(self, node);
    }
}

fn run(src: &[u8]) -> (Vec<Diagnostic>, Vec<Correction>) {
    let result = ruby_prism::parse(src);
    let mut f = Facts::default();
    f.visit(&result.node());
    let source = SourceFile::from_bytes("test.rb", src.to_vec());
    let mut d = Vec::new();
    let mut c = Vec::new();
    for w in &f.cases {
        DuplicateCaseCondition.check_node(&source, w, &mut d, &mut c, true);
    }
    for ch in &f.chains {
        DuplicateElsifCondition.check_node(&source, ch, &mut d, &mut c, true);
    }
    for m in &f.matches {
        DuplicateMatchPattern.check_case_match(&source, m, &mut d, &mut c, true);
    }
    for b in &f.begins {
        DuplicateRescueException.check_node(&source, b, &mut d, &mut c, true);
    }
    (d, c)
}

fn assert_cop_autocorrect(input: &[u8], expected: &[u8]) {
    let (_d, c) = run(input);
    assert_eq!(CorrectionSet::from_vec(c).apply(input), expected.to_vec());
}

#[test]
fn autocorrect_removes_duplicate_condition_within_same_when_list() {
    assert_cop_autocorrect(
        b"case token\nwhen :a, :b, :a\n  action\nend\n",
        b"case token\nwhen :a, :b\n  action\nend\n",
    );
}

#[test]
fn duplicate_case_condition_across_whens_is_reported_not_corrected() {
    let (d, c) = run(b"case x\nwhen 1\n  a\nwhen 1\n  b\nend\n");
    assert_eq!(d.len(), 1);
    assert_eq!(d[0].message, "Duplicate `when` condition detected.");
    assert_eq!((d[0].location.line, d[0].location.column), (4, 5));
    assert!(!d[0].corrected);
    assert!(c.is_empty());
}

#[test]
fn duplicate_case_condition_compares_unescaped_strings() {
    let (d, _) = run(b"case x\nwhen \"\\\"\"\n  a\nwhen '\"'\n  b\nend\n");
    assert_eq!(d.len(), 1);
    let (d, _) = run(b"case x\nwhen \"a\"\n  a\nwhen :a\n  b\nend\n");
    assert!(d.is_empty());
}

#[test]
fn autocorrect_removes_first_of_two_duplicates_up_to_next() {
    assert_cop_autocorrect(
        b"case t\nwhen :a\n  x\nwhen :a, :b\n  y\nend\n",
        b"case t\nwhen :a\n  x\nwhen :b\n  y\nend\n",
    );
}

#[test]
fn autocorrect_removes_last_duplicate_elsif_with_safe_predicate() {
    assert_cop_autocorrect(
        b"if @flag\n  :a\nelsif @other\n  :b\nelsif @flag\n  :c\nend\n",
        b"if @flag\n  :a\nelsif @other\n  :b\nend\n",
    );
}

#[test]
fn does_not_autocorrect_duplicate_elsif_with_trailing_else() {
    let (d, corrections) = run(b"if @flag\n  :a\nelsif @flag\n  :b\nelse\n  :c\nend\n");
    assert_eq!(d.len(), 1);
    assert_eq!(d[0].message, "Duplicate `elsif` condition detected.");
    assert!(corrections.is_empty());
}

#[test]
fn duplicate_elsif_with_call_predicate_is_not_corrected() {
    let (d, c) = run(b"if foo?\n  1\nelsif foo?\n  2\nend\n");
    assert_eq!(d.len(), 1);
    assert!(c.is_empty());
}

#[test]
fn autocorrect_removes_duplicate_in_branch() {
    assert_cop_autocorrect(
        b"case x\nin 'first'\n  do_something\nin 'first'\n  do_something_else\nend\n",
        b"case x\nin 'first'\n  do_something\nend\n",
    );
}

#[test]
fn autocorrect_removes_duplicate_exception_in_same_rescue_list() {
    assert_cop_autocorrect(
        b"begin\n  a\nrescue TypeError, TypeError\n  b\nend\n",
        b"begin\n  a\nrescue TypeError\n  b\nend\n",
    );
}

#[test]
fn duplicate_rescue_across_clauses_is_reported() {
    let (d, c) = run(b"begin\n  a\nrescue TypeError\n  b\nrescue TypeError\n  c\nend\n");
    assert_eq!(d.len(), 1);
    assert_eq!(d[0].message, "Duplicate `rescue` exception detected.");
    assert_eq!(d[0].location.line, 5);
    assert!(c.is_empty());
}
