use nym::text::{self, Alignment};

#[test]
fn coalesce_identity() {
    assert_eq!(
        text::coalesce("the quick brown fox", &[' '], ' '),
        "the quick brown fox"
    );
}

#[test]
fn coalesce_one_to_one() {
    assert_eq!(
        text::coalesce("the quick brown fox", &[' '], '-'),
        "the-quick-brown-fox"
    );
}

#[test]
fn coalesce_many_to_one() {
    assert_eq!(
        text::coalesce("the_quick-brown\tfox", &['_', '-', '\t'], ' '),
        "the quick brown fox"
    );
}

#[test]
fn text_pad_left() {
    assert_eq!(
        text::pad("text", ' ', Alignment::Left, 8).as_str(),
        "text    "
    );
}

#[test]
fn text_pad_right() {
    assert_eq!(
        text::pad("text", ' ', Alignment::Right, 8).as_str(),
        "    text"
    );
}

#[test]
fn text_pad_center() {
    assert_eq!(
        text::pad("text", ' ', Alignment::Center, 8).as_str(),
        "  text  "
    );
}

#[test]
fn text_pad_left_overflow() {
    assert_eq!(
        text::pad("too much text", ' ', Alignment::Left, 8).as_str(),
        "too much text"
    );
}

#[test]
fn fmt_pad_left() {
    assert_eq!(
        text::pad("text", ' ', Alignment::Left, 8).as_str(),
        "text    "
    );
}

#[test]
fn fmt_pad_right() {
    assert_eq!(
        text::pad("text", ' ', Alignment::Right, 8).as_str(),
        "    text"
    );
}

#[test]
fn fmt_pad_center() {
    assert_eq!(
        text::pad("text", ' ', Alignment::Center, 8).as_str(),
        "  text  "
    );
}

#[test]
fn fmt_pad_left_overflow() {
    assert_eq!(
        text::pad("too much text", ' ', Alignment::Left, 8).as_str(),
        "too much text"
    );
}

#[test]
fn pad_center_odd_margin_puts_extra_shim_right() {
    assert_eq!(text::pad("abc", '*', Alignment::Center, 6).as_str(), "*abc**");
}

#[test]
fn pad_counts_wide_characters_by_columns() {
    // Each of these characters occupies two terminal columns.
    assert_eq!(text::pad("日本", '.', Alignment::Right, 6).as_str(), "..日本");
}

#[test]
fn coalesce_keeps_length() {
    let out = text::coalesce("a-b_c", &['-', '_'], '.');
    assert_eq!(out, "a.b.c");
    assert_eq!(out.chars().count(), 5);
}

#[test]
fn titlecase_breaks_on_whitespace_and_hyphens_only() {
    assert_eq!(text::to_titlecase("the episode-title_x"), "The Episode-Title_x");
    assert_eq!(text::to_titlecase("SHOUTING words"), "Shouting Words");
    assert_eq!(text::to_titlecase(""), "");
}

#[test]
fn hex_writes_two_lowercase_digits_per_byte() {
    assert_eq!(text::to_hex(&[0x00, 0x0f, 0xa5, 0xff]), "000fa5ff");
    assert_eq!(text::to_hex(&[]), "");
}
