use exercises::decimal::{format_u32, parse_u32, IntErrorKind};
use exercises::error_handling::{
    double_if_small, parse_optional, parse_small_number, read_config, safe_parse, sum_lines,
    sum_overflows, sum_text, ParseError,
};
use exercises::reading_errors::ParseError as ReadingError;
use exercises::text::split_lines;

#[test]
fn error_handling_error_handling1() {
    assert_eq!(safe_parse("99"), 99);
    assert_eq!(safe_parse("abc"), 0);
}

#[test]
fn error_handling_error_handling2() {
    assert_eq!(parse_small_number("42"), Ok(42));
    assert_eq!(parse_small_number(""), Err(ParseError::Empty));
    assert_eq!(parse_small_number("999"), Err(ParseError::TooBig));
    assert_eq!(parse_small_number("abc"), Err(ParseError::NotNumber));
}

#[test]
fn error_handling_error_handling3() {
    assert_eq!(read_config(&["10", "20"]), Ok((10, 20)));
    assert_eq!(read_config(&["10", "big"]), Err(ParseError::NotNumber));
}

#[test]
fn error_handling_error_handling4() {
    assert_eq!(parse_optional(Some("42")), Ok(42));
    assert_eq!(parse_optional(None), Err(ParseError::Empty));
    assert_eq!(parse_optional(Some("101")), Err(ParseError::TooBig));
}

#[test]
fn error_handling_error_handling5() {
    assert_eq!(double_if_small("10"), Ok(20));
    assert_eq!(double_if_small("60"), Err(ParseError::TooBig));
    assert_eq!(double_if_small("x"), Err(ParseError::NotNumber));
}

#[test]
fn error_handling_error_handling6() {
    let contents = "10\n20\n30\n";
    assert_eq!(sum_text(contents), Ok(60));
}

#[test]
fn parse_error_messages() {
    assert_eq!(ParseError::Empty.message(), "input is empty");
    assert_eq!(ParseError::TooBig.message(), "number is too big");
    assert_eq!(ParseError::NotNumber.message(), "not a number");
}

#[test]
fn optional_empty_text_is_not_a_number() {
    assert_eq!(parse_optional(Some("")), Err(ParseError::NotNumber));
    assert_eq!(parse_small_number("100"), Ok(100));
    assert_eq!(parse_small_number("101"), Err(ParseError::TooBig));
    assert_eq!(double_if_small("50"), Ok(100));
    assert_eq!(double_if_small("51"), Err(ParseError::TooBig));
}

#[test]
fn parse_u32_agrees_with_std() {
    let inputs = [
        "", "0", "7", "+7", "+", "-", "-0", "-5", "007", "4294967295", "4294967296",
        "99999999999x", "12x", "x12", " 1", "1 ", "+-1", "١٢", "42",
    ];
    for s in inputs.iter() {
        let ours = parse_u32(s);
        let std_result = s.parse::<u32>();
        match (&ours, &std_result) {
            (Ok(a), Ok(b)) => assert_eq!(a, b, "input {:?}", s),
            (Err(kind), Err(e)) => {
                let expected = match e.kind() {
                    std::num::IntErrorKind::Empty => IntErrorKind::Empty,
                    std::num::IntErrorKind::InvalidDigit => IntErrorKind::InvalidDigit,
                    std::num::IntErrorKind::PosOverflow => IntErrorKind::PosOverflow,
                    other => panic!("unexpected kind {:?}", other),
                };
                assert_eq!(*kind, expected, "input {:?}", s);
            }
            _ => panic!("disagreement on {:?}: {:?} vs {:?}", s, ours, std_result),
        }
    }
}

#[test]
fn parse_u32_error_kinds() {
    assert_eq!(parse_u32(""), Err(IntErrorKind::Empty));
    assert_eq!(parse_u32("+"), Err(IntErrorKind::InvalidDigit));
    assert_eq!(parse_u32("4294967296"), Err(IntErrorKind::PosOverflow));
    assert_eq!(parse_u32("4294967295"), Ok(4294967295));
    assert_eq!(parse_u32("+15"), Ok(15));
}

#[test]
fn format_u32_agrees_with_std() {
    for n in [0u32, 5, 9, 10, 42, 100, 65535, 4294967295].iter() {
        assert_eq!(format_u32(*n), n.to_string());
        assert_eq!(parse_u32(&format_u32(*n)), Ok(*n));
    }
}

#[test]
fn split_lines_agrees_with_std() {
    let inputs = [
        "", "a", "a\n", "a\nb", "a\r\nb\r\n", "\n\n", "a\r", "a\rb\n", "\r\n", "x\n\ny",
    ];
    for s in inputs.iter() {
        let ours = split_lines(s);
        let std_lines: Vec<String> = s.lines().map(|l| l.to_string()).collect();
        assert_eq!(ours, std_lines, "input {:?}", s);
    }
}

#[test]
fn sum_stops_at_first_bad_line() {
    assert_eq!(sum_text("1\nx\n2"), Err(IntErrorKind::InvalidDigit));
    assert_eq!(sum_text(""), Ok(0));
    assert_eq!(sum_text("\n"), Err(IntErrorKind::Empty));
}

#[test]
fn sum_overflow_is_detected() {
    let big = vec!["4294967295".to_string(), "1".to_string()];
    assert!(sum_overflows(&big));
    let stops_first = vec!["4294967295".to_string(), "x".to_string(), "1".to_string()];
    assert!(!sum_overflows(&stops_first));
    assert_eq!(sum_lines(&stops_first), Err(IntErrorKind::InvalidDigit));
    let fine = vec!["4294967294".to_string(), "1".to_string()];
    assert!(!sum_overflows(&fine));
    assert_eq!(sum_lines(&fine), Ok(4294967295));
}

#[test]
fn optional_input_reads_like_plain_input() {
    for s in ["42", "100", "101", "abc", "+7", "0"].iter() {
        assert_eq!(parse_optional(Some(s)), parse_small_number(s));
    }
}

#[test]
fn final_line_ending_is_optional() {
    assert_eq!(split_lines("a\nb\n"), split_lines("a\nb"));
    assert_eq!(split_lines("a\nb\r\n"), split_lines("a\nb"));
    assert_eq!(split_lines("a\r\r\n"), split_lines("a\r"));
    assert!(split_lines("x\r\ny\n\nz").iter().all(|l| !l.contains('\n')));
}

#[test]
fn safe_parse_agrees_with_parse_or_zero() {
    for s in ["99", "abc", "", "4294967296", "+3"].iter() {
        assert_eq!(safe_parse(s), exercises::options::parse_or_zero(s));
    }
}

#[test]
fn read_config_stops_at_unreadable_first_entry() {
    assert_eq!(read_config(&["big"]), Err(ParseError::NotNumber));
    assert_eq!(read_config(&["big", "20"]), Err(ParseError::NotNumber));
}

#[test]
fn reading_error_messages() {
    assert_eq!(ReadingError::InvalidNumber.message(), "invalid number");
    assert_eq!(ReadingError::TooBig.message(), "number too big");
    assert_eq!(ReadingError::Missing.message(), "missing value");
}
