use rop_scan::numbers::{dec_str_to_uint, hex_str_to_uint, NumberError};
use rop_scan::pattern::LinePattern;
use rop_scan::symbols::{count_function_symbols, sum_size_fields, text_size_total, SizeError};

fn lines(src: &[&str]) -> Vec<String> {
    src.iter().map(|s| s.to_string()).collect()
}

#[test]
fn hex_fields() {
    assert_eq!(hex_str_to_uint("000abc"), Ok(0xabc));
    assert_eq!(hex_str_to_uint("0x1F"), Ok(31));
    assert_eq!(hex_str_to_uint("ffffffffffffffff"), Ok(u64::MAX));
    assert_eq!(hex_str_to_uint("10000000000000000"), Err(NumberError::Overflow));
    assert_eq!(hex_str_to_uint("12g4"), Err(NumberError::InvalidDigit));
    assert_eq!(hex_str_to_uint(""), Ok(0));
    assert_eq!(hex_str_to_uint("0x"), Ok(0));
}

#[test]
fn dec_fields() {
    assert_eq!(dec_str_to_uint("123"), Ok(123));
    assert_eq!(dec_str_to_uint("-42"), Ok(-42));
    assert_eq!(dec_str_to_uint("-9223372036854775808"), Ok(i64::MIN));
    assert_eq!(dec_str_to_uint("9223372036854775807"), Ok(i64::MAX));
    assert_eq!(dec_str_to_uint("9223372036854775808"), Err(NumberError::Overflow));
    assert_eq!(dec_str_to_uint("12a"), Err(NumberError::InvalidDigit));
    assert_eq!(dec_str_to_uint("-"), Err(NumberError::Empty));
    assert_eq!(dec_str_to_uint(""), Err(NumberError::Empty));
}

#[test]
fn function_symbols_skip_weak() {
    let l = lines(&[
        "    12: 00008001    20 FUNC    GLOBAL DEFAULT    1 main",
        "    13: 00008015     2 FUNC    WEAK   DEFAULT    1 handler",
        "    14: 00020000     4 OBJECT  GLOBAL DEFAULT    2 counter",
        "    15: 00008019     8 FUNC    LOCAL  DEFAULT    1 helper",
    ]);
    assert_eq!(count_function_symbols(&l), 2);
}

#[test]
fn text_sizes_are_summed() {
    let l = lines(&[
        "  [ 1] .text             PROGBITS        00008000 001000 000abc 00  AX  0   0  4",
        "  [ 2] .data             PROGBITS        00020000 002000 000010 00  WA  0   0  4",
        "  [ 3] .text.startup     PROGBITS        00009000 003000 000004 00  AX  0   0  4",
    ]);
    assert_eq!(text_size_total(&l), Ok(0xabc + 4));
    assert_eq!(text_size_total(&Vec::new()), Ok(0));
}

#[test]
fn text_size_overflow_is_reported() {
    let l = lines(&[
        "  [ 1] .text             PROGBITS        00008000 001000 ffffffffffffffff 00  AX",
        "  [ 2] .text             PROGBITS        00008000 001000 000001 00  AX",
    ]);
    assert_eq!(text_size_total(&l), Err(SizeError::Overflow));
}

#[test]
fn line_pattern_groups() {
    let p = LinePattern::compile("([a-z]+)-([0-9]+)").unwrap();
    assert!(p.is_match("xx abc-123 yy"));
    assert!(!p.is_match("ABC"));
    assert_eq!(p.group("xx abc-123 yy", 2), Some("123".to_string()));
    assert_eq!(p.group("xx abc-123 yy", 3), None);
    assert!(LinePattern::compile("(unclosed").is_err());
}

#[test]
fn size_fields_are_summed() {
    let fields = vec![Some("000abc".to_string()), None, Some("0x4".to_string())];
    assert_eq!(sum_size_fields(&fields), Ok(0xabc + 4));
    assert_eq!(
        sum_size_fields(&vec![Some("zz".to_string())]),
        Err(SizeError::Number(NumberError::InvalidDigit))
    );
    assert_eq!(sum_size_fields(&Vec::new()), Ok(0));
}
