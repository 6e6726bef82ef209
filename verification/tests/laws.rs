use nitrocop::cop::text::{join_exec, split_on_exec};
use nitrocop::cop::{ConfigValue, CopConfig};
use nitrocop::correction::{Correction, CorrectionSet};
use nitrocop::parse::source::SourceFile;

fn corr(start: usize, end: usize, r: &str) -> Correction {
    Correction { start, end, replacement: r.to_string(), cop_name: "X".to_string(), cop_index: 0 }
}

#[test]
fn law_option_given_last_is_read_back() {
    let c = CopConfig::default()
        .with_option("A", ConfigValue::Bool(false))
        .with_option("A", ConfigValue::Bool(true))
        .with_option("B", ConfigValue::Int(3));
    assert!(c.get_bool("A", false));
    assert_eq!(c.get_usize("B", 0), 3);
    assert_eq!(c.get_version("V", (2, 7)), (2, 7));
}

#[test]
fn law_corrections_apply_in_order_without_overlap() {
    let set = CorrectionSet::from_vec(vec![corr(4, 5, "X"), corr(0, 1, "a"), corr(0, 2, "zz"), corr(3, 2, "bad")]);
    assert_eq!(set.apply(b"hello"), b"aellX".to_vec());
    assert_eq!(CorrectionSet::from_vec(vec![]).apply(b"same"), b"same".to_vec());
}

#[test]
fn law_split_then_join_gives_bytes_back() {
    for s in [&b""[..], b"a,b", b",,", b"abc,", b",x,,y"] {
        assert_eq!(join_exec(&split_on_exec(s, b','), b","), s.to_vec());
    }
}

#[test]
fn law_offset_line_column_round_trip() {
    let src = SourceFile::from_bytes("t.rb", b"ab\ncd\n\nefg".to_vec());
    let bytes = src.as_bytes().to_vec();
    for off in 0..=bytes.len() {
        let (line, _) = src.offset_to_line_col(off);
        let start = bytes[..off].iter().rposition(|&b| b == b'\n').map(|p| p + 1).unwrap_or(0);
        assert_eq!(src.line_col_to_offset(line, off - start), Some(off));
    }
}
