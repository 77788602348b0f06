use bench_telemetry::decimal::{push_decimal, to_decimal};
use bench_telemetry::ds18b20;
use bench_telemetry::netio;
use bench_telemetry::scope;
use bench_telemetry::text::{
    chars_of, contains, find_after_last, find_first, is_space_char, matches_at, remove_text,
    trim_bounds,
};

#[test]
fn decimal_of_small_numbers() {
    assert_eq!(to_decimal(0), "0");
    assert_eq!(to_decimal(7), "7");
    assert_eq!(to_decimal(10), "10");
    assert_eq!(to_decimal(105), "105");
    assert_eq!(to_decimal(1700000000123), "1700000000123");
}

#[test]
fn decimal_of_the_largest_number() {
    assert_eq!(to_decimal(u128::MAX), "340282366920938463463374607431768211455");
    assert_eq!(to_decimal(u128::MAX), u128::MAX.to_string());
}

#[test]
fn decimal_agrees_with_the_standard_notation() {
    let mut n: u128 = 1;
    for _ in 0..38 {
        assert_eq!(to_decimal(n), n.to_string());
        assert_eq!(to_decimal(n - 1), (n - 1).to_string());
        n *= 10;
    }
}

#[test]
fn decimal_is_appended_to_what_is_there() {
    let mut out = String::from("port ");
    push_decimal(&mut out, 5025);
    assert_eq!(out, "port 5025");
}

#[test]
fn netio_polls_the_status_document() {
    let descriptor = netio::Descriptor {
        address: String::from("192.168.1.78"),
        output: vec![String::from("3"), String::from("4")],
    };
    let meter = netio::Netio::new(&descriptor);
    assert_eq!(meter.url(), "http://192.168.1.78/netio.json");
}

#[test]
fn netio_keeps_a_port_in_the_address() {
    let descriptor = netio::Descriptor { address: String::from("meter.lab:8080"), output: vec![] };
    assert_eq!(netio::Netio::new(&descriptor).url(), "http://meter.lab:8080/netio.json");
}

#[test]
fn netio_power_needs_both_metered_outputs() {
    let full = vec![Some(1.5), None, Some(40.25), Some(2.5), Some(9.0)];
    assert_eq!(netio::metered_loads(&full), Some((40.25, 2.5)));
    assert_eq!(netio::metered_loads(&vec![None, None, Some(40.25), Some(2.5)]), Some((40.25, 2.5)));
    assert_eq!(netio::metered_loads(&vec![Some(1.0), Some(1.0), None, Some(2.5)]), None);
    assert_eq!(netio::metered_loads(&vec![Some(1.0), Some(1.0), Some(40.25), None]), None);
    assert_eq!(netio::metered_loads(&vec![Some(1.0), Some(1.0), Some(40.25)]), None);
    assert_eq!(netio::metered_loads::<f64>(&Vec::new()), None);
    assert_eq!(netio::FIRST_METERED_OUTPUT, 2);
    assert_eq!(netio::SECOND_METERED_OUTPUT, 3);
}

#[test]
fn scope_resource_joins_host_and_port() {
    let descriptor = scope::Descriptor { address: String::from("10.0.0.5"), port: 5025 };
    assert_eq!(descriptor.resource(), "10.0.0.5:5025");
    let descriptor = scope::Descriptor { address: String::from("scope.lab"), port: 0 };
    assert_eq!(descriptor.resource(), "scope.lab:0");
}

#[test]
fn scope_setup_sends_reset_timebase_and_both_channels() {
    let expected = vec![
        "*RST",
        "TDIV 10MS",
        "C1:ATTN 10",
        "C1:VDIV 5V",
        "C1:OFST -15V",
        "C2:ATTN 10",
        "C2:VDIV 1V",
        "C2:OFST -3V",
    ];
    assert_eq!(scope::setup_commands(), expected);
    assert_eq!(scope::VOLTAGE_QUERY, "C1:PAVA? MEAN");
    assert_eq!(scope::FREQUENCY_QUERY, "C2:PAVA? FREQ");
}

#[test]
fn scope_reply_value_is_the_second_field() {
    assert_eq!(scope::reply_field("C1:PAVA MEAN,1.25E+01V"), Some("1.25E+01V"));
    assert_eq!(scope::reply_field("a,b,c"), Some("b"));
    assert_eq!(scope::reply_field("a,,c"), Some(""));
    assert_eq!(scope::reply_field("a,"), Some(""));
    assert_eq!(scope::reply_field(","), Some(""));
}

#[test]
fn scope_reply_without_comma_has_no_value() {
    assert_eq!(scope::reply_field("C1:PAVA MEAN"), None);
    assert_eq!(scope::reply_field(""), None);
    assert_eq!(scope::reply_field("   \r\n"), None);
    assert_eq!(scope::psu_voltage_text("no value"), None);
    assert_eq!(scope::fan_frequency_text("no value"), None);
}

#[test]
fn scope_reply_is_trimmed_at_both_ends_only() {
    assert_eq!(scope::reply_field("  C1:PAVA MEAN,12.5V \r\n"), Some("12.5V"));
    assert_eq!(scope::reply_field("\u{a0}x,12.5V\u{3000}"), Some("12.5V"));
    assert_eq!(scope::reply_field("x, 12.5V ,y "), Some(" 12.5V "));
    assert_eq!(scope::reply_field(" ,a"), Some("a"));
}

#[test]
fn scope_reply_matches_the_standard_string_operations() {
    let replies = [
        "C1:PAVA MEAN,1.25E+01V",
        " a , b , c ",
        "\t\n,VVV\n",
        "x,Hz1HHzz,",
        "none",
        "\u{2003}a,b\u{2003}",
        "a\u{85},b",
    ];
    for reply in replies {
        let expected = reply.trim().split(',').nth(1);
        assert_eq!(scope::reply_field(reply), expected);
        assert_eq!(scope::psu_voltage_text(reply), expected.map(|v| v.replace('V', "")));
        assert_eq!(scope::fan_frequency_text(reply), expected.map(|v| v.replace("Hz", "")));
    }
}

#[test]
fn scope_voltage_loses_its_unit() {
    assert_eq!(scope::psu_voltage_text("C1:PAVA MEAN,1.25E+01V"), Some(String::from("1.25E+01")));
    assert_eq!(scope::psu_voltage_text("C1:PAVA MEAN,V1V2V"), Some(String::from("12")));
    assert_eq!(scope::psu_voltage_text("C1:PAVA MEAN,12.5"), Some(String::from("12.5")));
}

#[test]
fn scope_frequency_loses_its_unit() {
    assert_eq!(scope::fan_frequency_text("C2:PAVA FREQ,5.00E+01Hz"), Some(String::from("5.00E+01")));
    assert_eq!(scope::fan_frequency_text("C2:PAVA FREQ,50H"), Some(String::from("50H")));
    assert_eq!(scope::fan_frequency_text("C2:PAVA FREQ,HHzz"), Some(String::from("Hz")));
    assert_eq!(scope::fan_frequency_text("C2:PAVA FREQ,HzHz5"), Some(String::from("5")));
}

#[test]
fn removing_text_takes_matches_from_the_left() {
    assert_eq!(remove_text("aaa", "aa"), "a");
    assert_eq!(remove_text("abab", "ab"), "");
    assert_eq!(remove_text("xaby", "ab"), "xy");
    assert_eq!(remove_text("abc", ""), "abc");
    assert_eq!(remove_text("", "ab"), "");
    assert_eq!(remove_text("a", "ab"), "a");
    assert_eq!(remove_text("grüße", "ü"), "grße");
}

#[test]
fn white_space_is_what_the_standard_library_says() {
    for code in 0..0x3100u32 {
        if let Some(c) = char::from_u32(code) {
            assert_eq!(is_space_char(c), c.is_whitespace(), "U+{:04X}", code);
        }
    }
    assert!(!is_space_char('\u{feff}'));
    assert!(!is_space_char('\u{10ffff}'));
}

#[test]
fn search_helpers_find_what_they_are_asked_for() {
    let chars = chars_of("ab=cd=ef");
    assert_eq!(chars.len(), 8);
    assert_eq!(find_first(&chars, 0, 8, '='), 2);
    assert_eq!(find_first(&chars, 3, 8, '='), 5);
    assert_eq!(find_first(&chars, 0, 8, '#'), 8);
    assert_eq!(find_first(&chars, 0, 2, '='), 2);
    assert_eq!(find_after_last(&chars, 0, 8, '='), 6);
    assert_eq!(find_after_last(&chars, 0, 5, '='), 3);
    assert_eq!(find_after_last(&chars, 0, 8, '#'), 0);
    assert_eq!(find_after_last(&chars, 3, 5, '='), 3);
    let pattern = chars_of("cd");
    assert!(matches_at(&chars, 3, &pattern));
    assert!(!matches_at(&chars, 2, &pattern));
    assert!(contains(&chars, 0, 8, &pattern));
    assert!(contains(&chars, 3, 5, &pattern));
    assert!(!contains(&chars, 0, 4, &pattern));
    assert!(!contains(&chars, 4, 8, &pattern));
    assert!(contains(&chars, 0, 0, &chars_of("")));
}

#[test]
fn trimming_finds_the_bounds_of_the_body() {
    let chars = chars_of("  a b \n");
    assert_eq!(trim_bounds(&chars, 0, 7), (2, 5));
    assert_eq!(trim_bounds(&chars, 3, 7), (4, 5));
    let blank = chars_of(" \t ");
    assert_eq!(trim_bounds(&blank, 0, 3), (3, 3));
    assert_eq!(trim_bounds(&blank, 0, 0), (0, 0));
}

#[test]
fn ds18b20_report_gives_the_reading_after_the_last_equals_sign() {
    let report = "72 01 4b 46 7f ff 0e 10 57 : crc=57 YES\n72 01 4b 46 7f ff 0e 10 57 t=23125";
    assert_eq!(ds18b20::reading_field(report), Some("23125"));
}

#[test]
fn ds18b20_report_with_a_failed_checksum_gives_nothing() {
    let report = "72 01 4b 46 7f ff 0e 10 57 : crc=57 NO\n72 01 4b 46 7f ff 0e 10 57 t=23125";
    assert_eq!(ds18b20::reading_field(report), None);
    assert_eq!(ds18b20::reading_field(""), None);
    assert_eq!(ds18b20::reading_field("no confirmation\nYES t=1"), None);
}

#[test]
fn ds18b20_report_that_ends_in_a_line_break_has_an_empty_reading() {
    let report = "aa : crc=57 YES\naa t=23125\n";
    assert_eq!(ds18b20::reading_field(report), Some(""));
}

#[test]
fn ds18b20_report_of_one_line_is_its_own_last_line() {
    assert_eq!(ds18b20::reading_field("YES t=-1250"), Some("-1250"));
    assert_eq!(ds18b20::reading_field("YES"), Some("YES"));
    assert_eq!(ds18b20::reading_field("crc=YES\n21000"), Some("21000"));
}

#[test]
fn ds18b20_report_matches_the_standard_string_operations() {
    let reports = [
        "72 01 : crc=57 YES\n72 01 t=23125",
        "72 01 : crc=57 YES\n72 01 t=23125\n",
        "YES",
        "YE S\nt=1",
        "a=YES=b\nmid\nx=1=2",
        "YES\n\n=",
        "",
    ];
    for report in reports {
        let lines: Vec<&str> = report.split('\n').collect();
        let expected = if lines.first().unwrap().contains("YES") {
            lines.last().unwrap().split('=').last()
        } else {
            None
        };
        assert_eq!(ds18b20::reading_field(report), expected);
    }
}
