use nitrocop::cop::layout::block_alignment::{BlockAlignment, BlockSite};
use nitrocop::cop::{ConfigValue, CopConfig};
use nitrocop::diagnostic::Diagnostic;
use nitrocop::parse::source::SourceFile;
use ruby_prism::Visit;

struct SiteCollector {
    sites: Vec<BlockSite>,
}

impl<'pr> Visit<'pr> for SiteCollector {
    fn visit_call_node(&mut self, node: &ruby_prism::CallNode<'pr>) {
        if let Some(block) = node.block().and_then(|b| b.as_block_node()) {
            self.sites.push(BlockSite {
                is_lambda: false,
                expr_start: node.location().start() as usize,
                opening_start: block.opening_loc().start() as usize,
                closing_start: block.closing_loc().start() as usize,
                closing_end: block.closing_loc().end() as usize,
            });
        }
        ruby_prism::visit_call_node(self, node);
    }

    fn visit_lambda_node(&mut self, node: &ruby_prism::LambdaNode<'pr>) {
        self.sites.push(BlockSite {
            is_lambda: true,
            expr_start: node.location().start() as usize,
            opening_start: node.opening_loc().start() as usize,
            closing_start: node.closing_loc().start() as usize,
            closing_end: node.closing_loc().end() as usize,
        });
        ruby_prism::visit_lambda_node(self, node);
    }
}

fn run_with_config(src: &[u8], config: &CopConfig) -> Vec<Diagnostic> {
    let result = ruby_prism::parse(src);
    let mut collector = SiteCollector { sites: Vec::new() };
    collector.visit(&result.node());
    let source = SourceFile::from_bytes("test.rb", src.to_vec());
    let mut diags = Vec::new();
    BlockAlignment.check_sites(&source, config, &collector.sites, &mut diags);
    diags
}

fn run(src: &[u8]) -> Vec<Diagnostic> {
    run_with_config(src, &CopConfig::default())
}

#[test]
fn brace_block_no_offense() {
    let source = b"items.each { |x|\n  puts x\n}\n";
    let diags = run(source);
    assert!(diags.is_empty());
}

#[test]
fn start_of_block_style() {
        let config = CopConfig::default().with_option(
        "EnforcedStyleAlignWith",
        ConfigValue::Str("start_of_block".to_string()),
    );
    // In start_of_block style, `end` must align with the do-line indent
    // (first non-ws on the do-line), not the `do` keyword column.
    // For `items.each do |x|`, do-line indent = 0, so end at col 0 is fine.
    let src = b"items.each do |x|\n  puts x\nend\n";
    let diags = run_with_config(src, &config);
    assert!(
        diags.is_empty(),
        "start_of_block: end at col 0 matches do-line indent 0. Got: {:?}",
        diags
    );

    // But end at col 2 should be flagged (doesn't match do-line indent 0)
    let src2 = b"items.each do |x|\n  puts x\n  end\n";
    let diags2 = run_with_config(src2, &config);
    assert_eq!(
        diags2.len(),
        1,
        "start_of_block should flag end at col 2 (doesn't match do-line indent 0)"
    );

    // Chained: .each do at col 2, end should align at col 2
    let src3 = b"foo.bar\n  .each do\n    baz\n  end\n";
    let diags3 = run_with_config(src3, &config);
    assert!(
        diags3.is_empty(),
        "start_of_block: end at col 2 matches .each do line indent. Got: {:?}",
        diags3
    );

    // Chained: .each do at col 2, end at col 0 should flag
    let src4 = b"foo.bar\n  .each do\n    baz\nend\n";
    let diags4 = run_with_config(src4, &config);
    assert_eq!(
        diags4.len(),
        1,
        "start_of_block: end at col 0 doesn't match .each do line indent 2"
    );
}

// FP fix: trailing-dot method chains
#[test]
fn no_offense_trailing_dot_chain() {
    let source =
        b"all_objects.flat_map { |o| o }.\n  uniq(&:first).each do |a, o|\n  process(a, o)\nend\n";
    let diags = run(source);
    assert!(
        diags.is_empty(),
        "Trailing dot chain: end should align with chain root. Got: {:?}",
        diags
    );
}

#[test]
fn no_offense_trailing_dot_chain_indented() {
    let source = b"def foo\n  objects.flat_map { |o| o }.\n    uniq.each do |item|\n    process(item)\n  end\nend\n";
    let diags = run(source);
    assert!(
        diags.is_empty(),
        "Indented trailing dot chain: end at col 2 matches chain start at col 2. Got: {:?}",
        diags
    );
}

#[test]
fn no_offense_trailing_dot_multi_line() {
    let source = b"  records.\n    where(active: true).\n    order(:name).each do |r|\n    process(r)\n  end\n";
    let diags = run(source);
    assert!(
        diags.is_empty(),
        "Multi trailing dot: end at col 2 matches chain root at col 2. Got: {:?}",
        diags
    );
}

// FP fix: tab indentation
#[test]
fn no_offense_tab_indented_block() {
    let source = b"if true\n\titems.each do\n\t\tputs 'hello'\n\tend\nend\n";
    let diags = run(source);
    assert!(
        diags.is_empty(),
        "Tab-indented block should not be flagged. Got: {:?}",
        diags
    );
}

#[test]
fn no_offense_tab_indented_assignment_block() {
    let source = b"\tvariable = test do |x|\n\t\tx.to_s\n\tend\n";
    let diags = run(source);
    assert!(
        diags.is_empty(),
        "Tab-indented assignment block should not be flagged. Got: {:?}",
        diags
    );
}

// FP fix: begins_its_line check
#[test]
fn fp_end_not_beginning_its_line() {
    // end.select is at start of line (after whitespace) but has continuation
    // The first block's end should not be checked since it has .select after it
    let source = b"def foo(bar)\n  bar.get_stuffs\n      .reject do |stuff|\n        stuff.long_expr\n      end.select do |stuff|\n        stuff.other\n      end\nend\n";
    let diags = run(source);
    assert!(
        diags.is_empty(),
        "Should not flag end that doesn't begin its line. Got: {:?}",
        diags
    );
}

// FN fix: brace block misalignment
#[test]
fn offense_brace_block_misaligned() {
    let source = b"test {\n  stuff\n  }\n";
    let diags = run(source);
    assert_eq!(
        diags.len(),
        1,
        "Misaligned brace block should be flagged. Got: {:?}",
        diags
    );
}

#[test]
fn no_offense_brace_block_aligned() {
    let source = b"test {\n  stuff\n}\n";
    let diags = run(source);
    assert!(
        diags.is_empty(),
        "Aligned brace block should not be flagged. Got: {:?}",
        diags
    );
}

#[test]
fn no_offense_brace_block_not_beginning_line() {
    let source = b"scope :bar, lambda { joins(:baz)\n                     .distinct }\n";
    let diags = run(source);
    assert!(
        diags.is_empty(),
        "closing brace not beginning its line should not be flagged"
    );
}

// Other patterns from RuboCop spec
#[test]
fn no_offense_variable_assignment() {
    let source = b"variable = test do |ala|\nend\n";
    let diags = run(source);
    assert!(
        diags.is_empty(),
        "end aligned with variable start. Got: {:?}",
        diags
    );
}

#[test]
fn no_offense_op_asgn() {
    let source = b"rb += files.select do |file|\n  file << something\nend\n";
    let diags = run(source);
    assert!(diags.is_empty(), "end aligned with rb. Got: {:?}", diags);
}

#[test]
fn no_offense_logical_operand() {
    let source = b"(value.is_a? Array) && value.all? do |subvalue|\n  type_check_value(subvalue, array_type)\nend\n";
    let diags = run(source);
    assert!(
        diags.is_empty(),
        "end aligns with expression start. Got: {:?}",
        diags
    );
}

#[test]
fn no_offense_send_shovel() {
    let source = b"parser.children << lambda do |token|\n  token << 1\nend\n";
    let diags = run(source);
    assert!(
        diags.is_empty(),
        "end aligns with parser.children. Got: {:?}",
        diags
    );
}

#[test]
fn no_offense_chain_pretty_alignment() {
    let source = b"def foo(bar)\n  bar.get_stuffs\n      .reject do |stuff|\n        stuff.long_expr\n      end\n      .select do |stuff|\n        stuff.other\n      end\nend\n";
    let diags = run(source);
    assert!(
        diags.is_empty(),
        "end at col 6 matches do-line indent. Got: {:?}",
        diags
    );
}

#[test]
fn no_offense_next_line_assignment() {
    let source = b"variable =\n  a_long_method do |v|\n    v.foo\n  end\n";
    let diags = run(source);
    assert!(
        diags.is_empty(),
        "end aligns with a_long_method. Got: {:?}",
        diags
    );
}

// FP fix: string concatenation with + across lines (RSpec-style descriptions)
#[test]
fn no_offense_plus_continuation() {
    // it "something " + "else" do ... end
    let source = b"it \"should convert \" +\n    \"correctly\" do\n  run_test\nend\n";
    let diags = run(source);
    assert!(
        diags.is_empty(),
        "Plus continuation: end at col 0 matches chain root. Got: {:?}",
        diags
    );
}

#[test]
fn no_offense_plus_continuation_describe() {
    // describe with + continuation spanning 3 lines
    let source = b"describe User, \"when created \" +\n    \"with issues\" do\n  it \"works\" do\n    true\n  end\nend\n";
    let diags = run(source);
    assert!(
        diags.is_empty(),
        "Describe + continuation: end at col 0 matches describe. Got: {:?}",
        diags
    );
}

// FN fix: end aligns with RHS of assignment instead of LHS
#[test]
fn offense_end_aligns_with_rhs() {
    // answer = prompt.select do ... end — end should align with answer, not prompt
    let source =
        b"answer = prompt.select do |menu|\n           menu.choice \"A\"\n         end\n";
    let diags = run(source);
    assert_eq!(
        diags.len(),
        1,
        "end at col 9 aligns with prompt (RHS) not answer (LHS). Got: {:?}",
        diags
    );
}

#[test]
fn no_offense_assignment_end_aligns_with_lhs() {
    // answer = prompt.select do ... end — end at col 0 aligns with answer (LHS)
    let source = b"answer = prompt.select do |menu|\n  menu.choice \"A\"\nend\n";
    let diags = run(source);
    assert!(
        diags.is_empty(),
        "end at col 0 matches answer (LHS). Got: {:?}",
        diags
    );
}

// Ensure hash value blocks still work (not regressed by assignment fix)
#[test]
fn no_offense_hash_value_block() {
    let source = b"def generate\n  {\n    data: items.map do |item|\n            item.to_s\n          end,\n  }\nend\n";
    let diags = run(source);
    assert!(
        diags.is_empty(),
        "Hash value: end aligns with items.map. Got: {:?}",
        diags
    );
}

// Block inside parentheses (like expect(...))
#[test]
fn no_offense_block_in_parens() {
    let source = b"expect(arr.all? do |o|\n         o.valid?\n       end)\n";
    let diags = run(source);
    assert!(
        diags.is_empty(),
        "Block in parens: end at col 7 matches arr.all?. Got: {:?}",
        diags
    );
}

// FP fix: chained blocks with end aligning with method call (active_merchant)
#[test]
fn fp_chained_block_end_aligns_with_method() {
    // response = stub_comms do ... end.check_request do ... end.respond_with(...)
    // The first end at col 11 aligns with stub_comms at col 11
    let source = b"response = stub_comms do\n             @gateway.verify(@credit_card, @options)\n           end.check_request do |_endpoint, data, _headers|\n  assert_match(/pattern/, data)\nend.respond_with(response)\n";
    let diags = run(source);
    assert!(
        diags.is_empty(),
        "Chained blocks: end at col 11 matches stub_comms. Got: {:?}",
        diags
    );
}

// Brace block } aligned with call start in chained context
#[test]
fn no_offense_brace_chained() {
    // } is followed by .sort_by (chained), so call_start_col is accepted
    let source = b"victims = replicas.select {\n            !(it.destroy_set?)\n          }.sort_by { |r| r.created_at }\n";
    let diags = run(source);
    assert!(
        diags.is_empty(),
        "Chained brace: }} at col 10 matches call. Got: {:?}",
        diags
    );
}

// FN fix: Hash.new with block end misaligned (jruby)
#[test]
fn fn_hash_new_block_end_misaligned() {
    let source = b"NF_HASH_D = Hash.new do |hash, key|\n                       hash.shift if hash.length>MAX_HASH_LENGTH\n                       hash[key] = nfd_one(key)\n                     end\n";
    let diags = run(source);
    assert_eq!(
        diags.len(),
        1,
        "Hash.new end at col 21 misaligned with NF_HASH_D at col 0. Got: {:?}",
        diags
    );
}

#[test]
fn multiple_assignment_aligns_with_first_variable() {
    let config = CopConfig::default().with_option("EnforcedStyleAlignWith", ConfigValue::Str("start_of_line".to_string()));
    assert!(run_with_config(b"x; a, b = foo.each do |y|\n   end\n", &config).is_empty());
    assert_eq!(run_with_config(b"x; a, b = foo.each do |y|\n      end\n", &config).len(), 1);
    assert!(run_with_config(b"x; a , b = foo.each do |y|\n   end\n", &config).is_empty());
}
