use noesar_sandbox::json::limits_json;
use noesar_sandbox::number::{parse_json_u64, parse_u64, push_decimal, push_signed};
use noesar_sandbox::spec_file::parse_limits;
use noesar_sandbox::text::{chars_of, find, strip_margin, Margin};
use noesar_sandbox::IsolationLimits;

fn message(text: &str) -> String {
    parse_limits(text).unwrap_err()
}

#[test]
fn parses_a_flat_spec() {
    let limits = parse_limits("{\"memoryBytes\":67108864,\"cpuSeconds\":5}").unwrap();
    assert_eq!(limits.memory_bytes, Some(67108864));
    assert_eq!(limits.cpu_seconds, Some(5));
    assert_eq!(limits.open_files, None);
}

#[test]
fn null_means_unconstrained_not_zero() {
    let limits = parse_limits("{\"memoryBytes\":null,\"cpuSeconds\":1}").unwrap();
    assert_eq!(limits.memory_bytes, None);
    assert_eq!(limits.cpu_seconds, Some(1));
}

#[test]
fn refuses_a_spec_that_constrains_nothing() {
    assert!(parse_limits("{}").is_err());
}

#[test]
fn refuses_an_unknown_limit_rather_than_ignoring_it() {
    // Silently dropping it would apply less isolation than the caller asked for.
    assert!(parse_limits("{\"memoryBytez\":1}").is_err());
}

#[test]
fn refuses_a_quoted_number() {
    assert!(parse_limits("{\"memoryBytes\":\"64\"}").is_err());
}

#[test]
fn refuses_a_negative_or_fractional_limit() {
    assert!(parse_limits("{\"memoryBytes\":-1}").is_err());
    assert!(parse_limits("{\"cpuSeconds\":1.5}").is_err());
}

#[test]
fn refuses_something_that_is_not_an_object() {
    assert!(parse_limits("[1,2]").is_err());
    assert!(parse_limits("64").is_err());
}

#[test]
fn each_fault_has_its_message() {
    let not_an_object = "a limits spec must be a single JSON object";
    for text in ["", "{", "}", "[1,2]", "{\"cpuSeconds\":1", "x{}"] {
        assert_eq!(message(text), not_an_object);
    }
    assert_eq!(message("{}"), "a limits spec naming no dimension confines nothing");
    assert_eq!(message(" {\n\t} "), "a limits spec naming no dimension confines nothing");
    assert_eq!(message("{ , ,}"), "field `` is not `key: value`");
    assert_eq!(message("{ cpuSeconds }"), "field `cpuSeconds` is not `key: value`");
    assert_eq!(
        message("{\"memoryBytes\": \"64\"}"),
        "field `memoryBytes` must be an unquoted non-negative integer or null, got `\"64\"`"
    );
    assert_eq!(message("{\"memoryBytez\":1}"), "unknown limit `memoryBytez`");
    // A bad value is found before an unknown name.
    assert_eq!(
        message("{\"other\":x}"),
        "field `other` must be an unquoted non-negative integer or null, got `x`"
    );
}

#[test]
fn the_first_faulty_field_decides() {
    assert_eq!(message("{\"a\":1,b}"), "unknown limit `a`");
    assert_eq!(message("{b,\"a\":1}"), "field `b` is not `key: value`");
    assert_eq!(
        message("{\"cpuSeconds\":{\"a\":1}}"),
        "field `cpuSeconds` must be an unquoted non-negative integer or null, got `{\"a\":1}`"
    );
}

#[test]
fn white_space_of_json_is_skipped() {
    let limits = parse_limits(" \t{ \"cpuSeconds\" :\n 7 \r, \"openFiles\":8\n}\r\n").unwrap();
    let expected =
        IsolationLimits { cpu_seconds: Some(7), open_files: Some(8), ..Default::default() };
    assert_eq!(limits, expected);
    for text in ["\u{a0}{\"cpuSeconds\":7}", "{\"cpuSeconds\":\u{3000}7}", "{\u{b}\"cpuSeconds\":7}"] {
        assert!(parse_limits(text).is_err(), "{text}");
    }
}

#[test]
fn what_is_not_json_is_refused() {
    let not_a_field = [
        ("{memoryBytes:5}", "memoryBytes:5"),
        ("{\"memoryBytes:5}", "\"memoryBytes:5"),
        ("{memoryBytes\":5}", "memoryBytes\":5"),
        ("{\"\"memoryBytes\"\":5}", "\"\"memoryBytes\"\":5"),
        ("{\":5}", "\":5"),
        ("{,\"cpuSeconds\":7}", ""),
        ("{\"cpuSeconds\":7,}", ""),
        ("{\"cpuSeconds\":7,,\"openFiles\":1}", ""),
    ];
    for (text, field) in not_a_field {
        assert_eq!(message(text), format!("field `{field}` is not `key: value`"));
    }
    for value in ["+12", "0007", "00", "-0", "", "0x1", "1e3", "Null", "true", "1 2"] {
        assert_eq!(
            message(&format!("{{\"cpuSeconds\":{value}}}")),
            format!("field `cpuSeconds` must be an unquoted non-negative integer or null, got `{value}`")
        );
    }
}

#[test]
fn a_spec_of_nulls_constrains_nothing() {
    let nothing = "a limits spec naming no dimension confines nothing";
    assert_eq!(message("{\"memoryBytes\":null}"), nothing);
    assert_eq!(message("{\"memoryBytes\":null,\"cpuSeconds\":null}"), nothing);
    assert_eq!(message("{\"cpuSeconds\":1,\"cpuSeconds\":null}"), nothing);
    // A limit of zero constrains.
    assert_eq!(parse_limits("{\"memoryBytes\":0}").unwrap().constrained_dimensions(), 1);
}

#[test]
fn the_last_field_for_a_dimension_decides() {
    let limits = parse_limits("{\"cpuSeconds\":1,\"openFiles\":4,\"cpuSeconds\":2}").unwrap();
    assert_eq!(limits.cpu_seconds, Some(2));
    assert_eq!(limits.open_files, Some(4));
    let cleared = parse_limits("{\"cpuSeconds\":1,\"openFiles\":4,\"cpuSeconds\":null}").unwrap();
    assert_eq!(cleared, IsolationLimits { open_files: Some(4), ..Default::default() });
}

#[test]
fn the_range_of_a_limit_is_that_of_its_type() {
    let text = |value: &str| format!("{{\"cpuSeconds\":{value}}}");
    assert_eq!(parse_limits(&text("18446744073709551615")).unwrap().cpu_seconds, Some(u64::MAX));
    assert!(parse_limits(&text("18446744073709551616")).is_err());
    assert_eq!(parse_limits(&text("0")).unwrap().cpu_seconds, Some(0));
    assert_eq!(parse_limits(&text("10")).unwrap().cpu_seconds, Some(10));
}

#[test]
fn written_limits_read_back() {
    let some = IsolationLimits {
        memory_bytes: Some(0),
        cpu_seconds: None,
        open_files: Some(u64::MAX),
        processes: Some(10),
        file_size_bytes: None,
        core_dump_bytes: Some(9),
    };
    assert_eq!(parse_limits(&limits_json(&some)), Ok(some));
    // Limits that constrain nothing are refused.
    assert!(parse_limits(&limits_json(&IsolationLimits::default())).is_err());
}

#[test]
fn json_numbers_are_written_without_sign_or_leading_zeros() {
    for (sample, number) in [("0", 0), ("7", 7), ("10", 10), ("18446744073709551615", u64::MAX)] {
        assert_eq!(parse_json_u64(&chars_of(sample)), Some(number));
    }
    for sample in ["", "+", "+1", "-1", "00", "01", "1.0", "1e1", "18446744073709551616", " 1"] {
        assert_eq!(parse_json_u64(&chars_of(sample)), None, "{sample}");
    }
}

#[test]
fn numbers_are_read_as_the_standard_library_reads_them() {
    let samples = [
        "", "+", "-", "0", "-0", "00", "+0", "++1", "+-1", "1+", "1 ", " 1", "12a", "9", "10",
        "18446744073709551615", "18446744073709551616", "+18446744073709551615",
        "99999999999999999999", "000000000000000000000000000001", "1.5", "1e9", "0x10", "\u{661}",
    ];
    for sample in samples {
        assert_eq!(parse_u64(&chars_of(sample)), sample.parse::<u64>().ok(), "{sample}");
    }
}

#[test]
fn numbers_are_written_as_the_standard_library_writes_them() {
    for number in [0, 1, 9, 10, 11, 99, 100, 67108864, u64::MAX] {
        let mut out = String::from("x");
        push_decimal(&mut out, number);
        assert_eq!(out, format!("x{number}"));
    }
    for number in [0, -1, 1, i32::MIN, i32::MAX] {
        let mut out = String::new();
        push_signed(&mut out, number);
        assert_eq!(out, format!("{number}"));
    }
}

#[test]
fn white_space_is_that_of_unicode() {
    for code in 0..=0x10FFFFu32 {
        if let Some(c) = char::from_u32(code) {
            assert_eq!(Margin::WhiteSpace.test(c), c.is_whitespace());
        }
    }
}

#[test]
fn margins_are_stripped_as_the_standard_library_strips_them() {
    for sample in ["", " ", " a ", "\"\"", "\"a\"b\"", "\t\n\u{2003}x y\u{85}", "\"\"k"] {
        let chars = chars_of(sample);
        let trimmed: String = strip_margin(&chars, Margin::WhiteSpace).iter().collect();
        assert_eq!(trimmed, sample.trim());
        let json: String = strip_margin(&chars, Margin::JsonSpace).iter().collect();
        assert_eq!(json, sample.trim_matches([' ', '\t', '\n', '\r']));
    }
}

#[test]
fn searching_finds_the_first_occurrence() {
    let chars = chars_of("a:b:c");
    assert_eq!(find(&chars, ':'), 1);
    assert_eq!(find(&chars, 'c'), 4);
    assert_eq!(find(&chars, 'z'), 5);
}
