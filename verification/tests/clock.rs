use video_encoder::clock::{seconds_arg, seconds_to_hms, time_str_to_seconds, Seconds};
use video_encoder::decimal::signed_text;
use video_encoder::number::parse_micros;

fn s(micros: i64) -> Seconds {
    Seconds { micros }
}

#[test]
fn clock_readings_add_up() {
    assert_eq!(time_str_to_seconds("01:02:03.45"), s(3_723_450_000));
    assert_eq!(time_str_to_seconds("00:00:00.00"), s(0));
    assert_eq!(time_str_to_seconds("100:00:00.5"), s(360_000_500_000));
    assert_eq!(time_str_to_seconds(" 00 : 01 :\t02.5 "), s(62_500_000));
}

#[test]
fn clock_readings_need_three_fields() {
    assert_eq!(time_str_to_seconds("02:03.45"), s(0));
    assert_eq!(time_str_to_seconds(""), s(0));
    assert_eq!(time_str_to_seconds("1:2:3:4"), s(0));
}

#[test]
fn fields_that_are_no_numbers_count_zero() {
    assert_eq!(time_str_to_seconds("xx:01:02"), s(62_000_000));
    assert_eq!(time_str_to_seconds("::3"), s(3_000_000));
    assert_eq!(time_str_to_seconds("N/A:N/A:N/A"), s(0));
    assert_eq!(time_str_to_seconds("00:00:\u{0663}\u{0663}.00"), s(0));
}

#[test]
fn numbers_in_every_notation() {
    assert_eq!(parse_micros("12"), 12_000_000);
    assert_eq!(parse_micros("12."), 12_000_000);
    assert_eq!(parse_micros(".5"), 500_000);
    assert_eq!(parse_micros("+1.25"), 1_250_000);
    assert_eq!(parse_micros("-1.25"), -1_250_000);
    assert_eq!(parse_micros("1.2345678"), 1_234_567);
    assert_eq!(parse_micros("1e3"), 1_000_000_000);
    assert_eq!(parse_micros("1.5E-3"), 1_500);
    assert_eq!(parse_micros("1e-9"), 0);
    assert_eq!(parse_micros("0e999999999999999999999999999999999999999999"), 0);
    assert_eq!(parse_micros("1e999999999999999999999999999999999999999999"), i64::MAX);
    assert_eq!(parse_micros("9e-999999999999999999999999999999999999999999"), 0);
    assert_eq!(parse_micros("99999999999999999999999"), i64::MAX);
    assert_eq!(parse_micros("inf"), i64::MAX);
    assert_eq!(parse_micros("-Infinity"), -i64::MAX);
    assert_eq!(parse_micros("NaN"), 0);
}

#[test]
fn what_is_no_number_counts_zero() {
    for text in ["", "+", "-", ".", "e5", "1e", "1e+", "1 2", "1.2.3", "0x10", "1_000", "infin"] {
        assert_eq!(parse_micros(text), 0, "{}", text);
    }
}

#[test]
fn times_are_shown_in_two_places() {
    assert_eq!(seconds_to_hms(s(0)), "00:00:00");
    assert_eq!(seconds_to_hms(s(59_999_999)), "00:00:59");
    assert_eq!(seconds_to_hms(s(3_661_000_000)), "01:01:01");
    assert_eq!(seconds_to_hms(s(360_000_000_000)), "100:00:00");
}

#[test]
fn times_are_held_to_whole_seconds_of_32_bits() {
    assert_eq!(seconds_to_hms(s(i64::MAX)), "596523:14:07");
    assert_eq!(seconds_to_hms(s(i64::MIN)), "-596523:-14:-8");
}

#[test]
fn negative_times_are_negative_in_every_part() {
    assert_eq!(seconds_to_hms(s(-999_999)), "00:00:00");
    assert_eq!(seconds_to_hms(s(-5_000_000)), "00:00:-5");
    assert_eq!(seconds_to_hms(s(-3_672_000_000)), "-1:-1:-12");
}

#[test]
fn shown_times_read_back() {
    for seconds in [0i64, 1, 59, 60, 3599, 3600, 86_399, 1_000_000] {
        let shown = seconds_to_hms(s(seconds * 1_000_000 + 123_456));
        assert_eq!(time_str_to_seconds(&shown), s(seconds * 1_000_000));
    }
}

#[test]
fn arguments_have_three_decimals() {
    assert_eq!(seconds_arg(s(0)), "0.000");
    assert_eq!(seconds_arg(s(12_345_678)), "12.346");
    assert_eq!(seconds_arg(s(1_000)), "0.001");
    assert_eq!(seconds_arg(s(62_500)), "0.062");
    assert_eq!(seconds_arg(s(187_500)), "0.188");
    assert_eq!(seconds_arg(s(999_999)), "1.000");
    assert_eq!(seconds_arg(s(-1_500_000)), "-1.500");
}

#[test]
fn whole_numbers_are_written_out() {
    assert_eq!(signed_text(0), "0");
    assert_eq!(signed_text(19), "19");
    assert_eq!(signed_text(-7), "-7");
    assert_eq!(signed_text(i64::MAX), "9223372036854775807");
    assert_eq!(signed_text(i64::MIN), "-9223372036854775808");
}

/// The fixed-point clock agrees with floating point to within the precision of the latter.
#[test]
fn readings_agree_with_floating_point() {
    for text in ["00:00:01.50", "00:12:34.56", "01:00:00.04", "10:59:59.99", "00:00:00.01"] {
        let parts: Vec<f32> = text.split(':').map(|p| p.parse().unwrap()).collect();
        let float: f32 = parts[0] * 3600.0 + parts[1] * 60.0 + parts[2];
        let fixed = time_str_to_seconds(text).micros as f64 / 1e6;
        assert!((fixed - float as f64).abs() <= float as f64 * 1e-6, "{}", text);
        assert_eq!(seconds_to_hms(time_str_to_seconds(text)), {
            let total = float as i32;
            format!("{:02}:{:02}:{:02}", total / 3600, (total % 3600) / 60, total % 60)
        });
    }
}
