use vocab_core::layout::LineEntry;
use vocab_core::parse::build_preview_lines;
use vocab_core::parse::is_heading;
use vocab_core::parse::parse_grouped_items;
use vocab_core::parse::GroupedItem;

/// A raw OCR line whose box is given top-origin: `y_top` is the distance
/// from the page top to the box top, like the pipeline reports it.
fn line(text: &str, x: u32, y_top: u32, h: u32) -> vocab_core::layout::RawLine {
    vocab_core::layout::RawLine {
        text: text.to_string(),
        x,
        y: 10_000 - y_top - h,
        w: 1000,
        h,
        confidence: 9000,
    }
}

fn pairs(items: &[GroupedItem]) -> Vec<(String, String)> {
    items.iter().map(|i| (i.text.clone(), i.group.clone())).collect()
}

#[test]
fn heading_groups_the_entries_below_it() {
    let lines = vec![
        line("kat", 1000, 1000, 300),
        line("hond", 1000, 2000, 300),
        line("Dieren", 1000, 0, 500),
    ];
    let items = parse_grouped_items(&lines, None);
    assert_eq!(
        pairs(&items),
        vec![
            ("kat".to_string(), "Dieren".to_string()),
            ("hond".to_string(), "Dieren".to_string()),
        ]
    );
}

#[test]
fn heading_text_is_never_emitted_as_an_item() {
    let lines = vec![
        line("de kat, katten", 1000, 1000, 300),
        line("Dieren:", 1000, 0, 500),
        line("de hond, honden", 1000, 2000, 300),
    ];
    let items = parse_grouped_items(&lines, None);
    for item in &items {
        assert_ne!(item.text, "Dieren");
        assert_ne!(item.text, "Dieren:");
    }
    assert_eq!(
        pairs(&items),
        vec![
            ("de kat, katten".to_string(), "Dieren".to_string()),
            ("de hond, honden".to_string(), "Dieren".to_string()),
        ]
    );
}

#[test]
fn noise_lines_are_silently_filtered() {
    let lines = vec![
        line("Hoofdstuk 3", 1000, 0, 300),
        line("12", 1000, 500, 300),
        line("   ", 1000, 1000, 300),
        line("kat", 1000, 1500, 300),
    ];
    let items = parse_grouped_items(&lines, None);
    assert_eq!(pairs(&items), vec![("kat".to_string(), "Ungrouped".to_string())]);
}

#[test]
fn initial_group_seeds_a_page_without_headings() {
    let lines = vec![line("de arm", 1000, 1000, 300)];
    let items = parse_grouped_items(&lines, Some("Lichaam".to_string()));
    assert_eq!(pairs(&items), vec![("de arm".to_string(), "Lichaam".to_string())]);
}

#[test]
fn current_group_threads_across_columns() {
    // left column carries the heading; the right column starts without one
    // and inherits it
    let lines = vec![
        line("Dieren", 1000, 0, 500),
        line("de kat, katten", 1000, 1000, 300),
        line("de hond, honden", 6000, 500, 300),
    ];
    let items = parse_grouped_items(&lines, None);
    assert_eq!(
        pairs(&items),
        vec![
            ("de kat, katten".to_string(), "Dieren".to_string()),
            ("de hond, honden".to_string(), "Dieren".to_string()),
        ]
    );
}

#[test]
fn items_within_a_column_come_top_to_bottom() {
    let lines = vec![
        line("laag", 1000, 3000, 300),
        line("hoog", 1050, 1000, 300),
        line("midden", 1100, 2000, 300),
    ];
    let items = parse_grouped_items(&lines, None);
    let texts: Vec<&str> = items.iter().map(|i| i.text.as_str()).collect();
    assert_eq!(texts, vec!["hoog", "midden", "laag"]);
}

#[test]
fn multi_word_headings_need_the_higher_bar() {
    // median height is 300; "De tuin" at 330 stays under 1.15 x median and
    // is an ordinary entry, at 400 it becomes a heading
    let low = vec![
        line("de schuur, schuren", 1000, 1000, 300),
        line("het gras", 1000, 2000, 300),
        line("De tuin", 1000, 0, 330),
    ];
    let items = parse_grouped_items(&low, None);
    assert_eq!(items.len(), 3);
    assert_eq!(items[0].group, "Ungrouped");

    let high = vec![
        line("de schuur, schuren", 1000, 1000, 300),
        line("het gras", 1000, 2000, 300),
        line("De tuin", 1000, 0, 400),
    ];
    let items = parse_grouped_items(&high, None);
    assert_eq!(
        pairs(&items),
        vec![
            ("de schuur, schuren".to_string(), "De tuin".to_string()),
            ("het gras".to_string(), "De tuin".to_string()),
        ]
    );
}

#[test]
fn single_word_headings_have_a_lower_bar() {
    let e = LineEntry { text: "Dieren".chars().collect(), x: 0, y_top: 0, height: 500 };
    assert!(is_heading(&e, 300));
    let short = LineEntry { text: "Dieren".chars().collect(), x: 0, y_top: 0, height: 230 };
    assert!(!is_heading(&short, 300));
    // at the bar itself (0.8 x median) a single word counts as a heading
    let at_bar = LineEntry { text: "Kat".chars().collect(), x: 0, y_top: 0, height: 240 };
    assert!(is_heading(&at_bar, 300));
}

#[test]
fn punctuation_or_more_uppercase_disqualifies_a_heading() {
    let comma = LineEntry { text: "Dieren, planten".chars().collect(), x: 0, y_top: 0, height: 500 };
    assert!(!is_heading(&comma, 300));
    let caps = LineEntry { text: "DIEREN".chars().collect(), x: 0, y_top: 0, height: 500 };
    assert!(!is_heading(&caps, 300));
    let lower = LineEntry { text: "dieren".chars().collect(), x: 0, y_top: 0, height: 500 };
    assert!(!is_heading(&lower, 300));
    let zero_median = LineEntry { text: "Dieren".chars().collect(), x: 0, y_top: 0, height: 500 };
    assert!(!is_heading(&zero_median, 0));
}

#[test]
fn preview_lines_show_each_group_once_per_run() {
    let items = vec![
        GroupedItem { text: "kat".to_string(), group: "Dieren".to_string() },
        GroupedItem { text: "hond".to_string(), group: "Dieren".to_string() },
        GroupedItem { text: "arm".to_string(), group: "Lichaam".to_string() },
    ];
    let lines = build_preview_lines(&items);
    assert_eq!(
        lines,
        vec![
            "[Dieren]".to_string(),
            "  - kat".to_string(),
            "  - hond".to_string(),
            "[Lichaam]".to_string(),
            "  - arm".to_string(),
        ]
    );
}

#[test]
fn preview_of_nothing_is_empty() {
    let lines = build_preview_lines(&Vec::new());
    assert!(lines.is_empty());
}
