use vocab_core::text::looks_like_chapter_line;
use vocab_core::text::looks_like_page_number;
use vocab_core::text::normalize_heading;
use vocab_core::text::normalize_item_text;

#[test]
fn normalize_strips_dash_prefix_and_dots() {
    assert_eq!(normalize_item_text("- kat."), "kat,");
}

#[test]
fn normalize_strips_single_leading_space_after_dash() {
    assert_eq!(normalize_item_text("-  de hond"), "de hond");
}

#[test]
fn normalize_trims_whitespace() {
    assert_eq!(normalize_item_text("  huis  "), "huis");
}

#[test]
fn normalize_replaces_every_dot() {
    assert_eq!(normalize_item_text("a.b.c"), "a,b,c");
}

#[test]
fn normalize_is_idempotent_on_normalized_text() {
    let once = normalize_item_text("- de kat. het huis ");
    let twice = normalize_item_text(&once);
    assert_eq!(once, twice);
    assert_eq!(once, "de kat, het huis");
}

#[test]
fn normalize_can_leave_a_second_dash_prefix() {
    // only one "- " prefix is stripped per pass
    assert_eq!(normalize_item_text("- - x"), "- x");
}

#[test]
fn heading_loses_trailing_colons() {
    assert_eq!(normalize_heading("Dieren:"), "Dieren");
    assert_eq!(normalize_heading("Dieren::"), "Dieren");
    assert_eq!(normalize_heading("Dieren : "), "Dieren :");
}

#[test]
fn page_numbers_are_all_digit_lines() {
    assert!(looks_like_page_number("12"));
    assert!(looks_like_page_number(" 123 "));
    assert!(looks_like_page_number("12345"));
    assert!(!looks_like_page_number("12a"));
    assert!(!looks_like_page_number(""));
    assert!(!looks_like_page_number("   "));
}

#[test]
fn chapter_lines_match_case_insensitively() {
    assert!(looks_like_chapter_line("Hoofdstuk 3"));
    assert!(looks_like_chapter_line("HOOFDSTUK 3"));
    assert!(looks_like_chapter_line("Chapter 2"));
    assert!(looks_like_chapter_line("Hoolastuk 4"));
    assert!(!looks_like_chapter_line("De hoofdzaak")); // contains "hoofd" but not the marker
    assert!(!looks_like_chapter_line("kat"));
}

#[test]
fn chapter_lines_tolerate_ocr_misreads_keeping_ends() {
    // starts with "hoo" and still contains "stuk"
    assert!(looks_like_chapter_line("Hoofastuk 1"));
    // "stuk" alone is not enough without the "hoo" start
    assert!(!looks_like_chapter_line("een stuk taart"));
}
