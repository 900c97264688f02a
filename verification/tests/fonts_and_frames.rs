use balchug::font_subset::{glyphs_to_keep, subset_font, FontSubsetError};
use balchug::fps::FpsCounter;
use balchug::strings::{format_radix, string_of_chars};
use balchug::text::chars_of;
use instant::Instant;

#[test]
fn numbers_in_decimal_and_hex() {
    assert_eq!(format_radix(0, 10), "0");
    assert_eq!(format_radix(0, 16), "0");
    assert_eq!(format_radix(255, 16), "ff");
    assert_eq!(format_radix(4096, 10), "4096");
    assert_eq!(format_radix(u64::MAX, 16), format!("{:x}", u64::MAX));
    assert_eq!(format_radix(u64::MAX, 10), format!("{}", u64::MAX));
    assert_eq!(format_radix(1234567890, 16), format!("{:x}", 1234567890u64));
}

#[test]
fn characters_round_trip() {
    let chars = chars_of("aёb");
    assert_eq!(chars, vec!['a', 'ё', 'b']);
    assert_eq!(string_of_chars(&chars), "aёb");
    assert_eq!(string_of_chars(&Vec::new()), "");
}

#[test]
fn kept_glyphs_are_sorted_and_unique() {
    assert_eq!(glyphs_to_keep(&[Some(5), None, Some(3), Some(5)]), vec![0, 3, 5]);
    assert_eq!(glyphs_to_keep(&[]), vec![0]);
    assert_eq!(glyphs_to_keep(&[Some(0), None]), vec![0]);
    assert_eq!(glyphs_to_keep(&[Some(u16::MAX), Some(1)]), vec![0, 1, u16::MAX]);
}

#[test]
fn unreadable_font_is_refused() {
    let garbage = vec![1u8, 2, 3, 4, 5, 6, 7, 8];
    assert_eq!(subset_font(&garbage, &["abc".to_string()]), Err(FontSubsetError::CharacterMap));
    assert_eq!(subset_font(&[], &[]), Err(FontSubsetError::CharacterMap));
}

#[test]
fn fresh_counter_reports_nothing() {
    let c = FpsCounter::default();
    assert_eq!(c.get_fps(), 0);
}

#[test]
fn frames_of_a_second_become_the_rate() {
    let mut c = FpsCounter::default();
    let now = Instant::now();
    c.count_frame(now, 5, true);
    c.count_frame(now, 10, false);
    c.count_frame(now, 400, true);
    c.count_frame(now, 999, true);
    assert_eq!(c.get_fps(), 0);
    c.count_frame(now, 1000, true);
    assert_eq!(c.get_fps(), 3);
    c.count_frame(now, 1, true);
    c.count_frame(now, 1500, false);
    assert_eq!(c.get_fps(), 1);
}

#[test]
fn frames_right_away_stay_in_the_first_second() {
    let mut c = FpsCounter::default();
    c.new_frame(Instant::now(), true);
    c.new_frame(Instant::now(), true);
    assert_eq!(c.get_fps(), 0);
}
