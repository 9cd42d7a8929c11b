use mezon_ui::formatting::{
    audio_time_label, decimal_string, format_balance, format_i64, format_mmss, format_thousands,
    parse_i64, parse_scaled, sound_download_name,
};

#[test]
fn thousands_are_grouped_by_commas() {
    assert_eq!(format_thousands(0), "0");
    assert_eq!(format_thousands(999), "999");
    assert_eq!(format_thousands(1000), "1,000");
    assert_eq!(format_thousands(1234567), "1,234,567");
    assert_eq!(format_thousands(-1000), "-1,000");
    assert_eq!(format_thousands(-999), "-999");
    assert_eq!(
        format_thousands(i128::MIN),
        "-170,141,183,460,469,231,731,687,303,715,884,105,728"
    );
}

#[test]
fn grouping_keeps_every_digit() {
    for n in [0i128, 7, 12, 123, 1234, 98765, 100000, 1000000, 123456789012] {
        let grouped = format_thousands(n);
        assert_eq!(grouped.replace(',', ""), n.to_string());
    }
}

#[test]
fn decimal_text_of_unsigned_values() {
    assert_eq!(decimal_string(0), "0");
    assert_eq!(decimal_string(42), "42");
    assert_eq!(decimal_string(u128::MAX), u128::MAX.to_string());
}

#[test]
fn playback_positions_read_as_minutes_and_seconds() {
    assert_eq!(format_mmss(0), "0:00");
    assert_eq!(format_mmss(65), "1:05");
    assert_eq!(format_mmss(600), "10:00");
    assert_eq!(format_mmss(3661), "61:01");
}

#[test]
fn the_length_shows_once_it_is_known() {
    assert_eq!(audio_time_label(5, 0), "0:05");
    assert_eq!(audio_time_label(5, 65), "0:05 / 1:05");
}

#[test]
fn download_names_come_from_the_url() {
    assert_eq!(sound_download_name("beep", "https://x/a/b.mp3"), "b.mp3");
    assert_eq!(sound_download_name("beep", "https://x/a/"), "beep.mp3");
    assert_eq!(sound_download_name("beep", "plain.wav"), "plain.wav");
    assert_eq!(sound_download_name("beep", ""), "beep.mp3");
}

#[test]
fn scaled_amounts_parse_after_trimming() {
    assert_eq!(parse_scaled("  1500000 "), 1_500_000);
    assert_eq!(parse_scaled("-42"), -42);
    assert_eq!(parse_scaled("+7"), 7);
    assert_eq!(parse_scaled("12a"), 0);
    assert_eq!(parse_scaled(""), 0);
    assert_eq!(parse_scaled("-"), 0);
    assert_eq!(parse_scaled("170141183460469231731687303715884105728"), 0);
}

#[test]
fn balances_are_whole_tokens_with_separators() {
    assert_eq!(format_balance("  1500000 ", 1000), "1,500");
    assert_eq!(format_balance("1999", 1000), "1");
    assert_eq!(format_balance("-1999", 1000), "-1");
    assert_eq!(format_balance("oops", 1000), "0");
    assert_eq!(format_balance("123456789", 1), "123,456,789");
}

#[test]
fn i64_text_round_trips() {
    assert_eq!(parse_i64("42"), Some(42));
    assert_eq!(parse_i64("-9223372036854775808"), Some(i64::MIN));
    assert_eq!(parse_i64("9223372036854775807"), Some(i64::MAX));
    assert_eq!(parse_i64("9223372036854775808"), None);
    assert_eq!(parse_i64(" 1"), None);
    assert_eq!(parse_i64("+"), None);
    assert_eq!(parse_i64(""), None);
    for v in [0i64, 5, -5, i64::MIN, i64::MAX] {
        assert_eq!(format_i64(v), v.to_string());
        assert_eq!(parse_i64(&format_i64(v)), Some(v));
    }
}
