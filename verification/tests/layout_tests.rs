use vocab_core::layout::median;
use vocab_core::layout::split_into_columns;
use vocab_core::layout::ColumnBucket;
use vocab_core::layout::LineEntry;

fn entry(text: &str, x: u32, y_top: u32, height: u32) -> LineEntry {
    LineEntry { text: text.chars().collect(), x, y_top, height }
}

fn texts_of(column: &[LineEntry]) -> Vec<String> {
    column.iter().map(|e| e.text.iter().collect()).collect()
}

#[test]
fn median_of_odd_count_is_middle() {
    assert_eq!(median(vec![300, 500, 300]), 300);
}

#[test]
fn median_of_even_count_averages_middles() {
    assert_eq!(median(vec![400, 200]), 300);
    assert_eq!(median(vec![100, 200, 300, 400]), 250);
}

#[test]
fn median_of_nothing_is_zero() {
    assert_eq!(median(vec![]), 0);
}

#[test]
fn bucket_centroid_is_running_mean() {
    let mut bucket = ColumnBucket::new(entry("a", 1000, 0, 10));
    assert_eq!(bucket.center, 1000);
    bucket.add(entry("b", 1100, 0, 10));
    assert_eq!(bucket.center, 1050);
    bucket.add(entry("c", 1400, 0, 10));
    // (1050 * 2 + 1400) / 3, rounded down
    assert_eq!(bucket.center, 1166);
}

#[test]
fn close_entries_share_a_column_and_far_ones_do_not() {
    let entries = vec![
        entry("right", 5000, 100, 10),
        entry("left-b", 1100, 200, 10),
        entry("left-a", 1000, 100, 10),
    ];
    let columns = split_into_columns(entries);
    assert_eq!(columns.len(), 2);
    // columns come back left to right; members keep assignment order (by x)
    assert_eq!(texts_of(&columns[0]), vec!["left-a", "left-b"]);
    assert_eq!(texts_of(&columns[1]), vec!["right"]);
}

#[test]
fn clustering_is_deterministic() {
    let make = || {
        vec![
            entry("a", 900, 0, 10),
            entry("b", 1600, 0, 10),
            entry("c", 250, 0, 10),
            entry("d", 5000, 0, 10),
        ]
    };
    let first = split_into_columns(make());
    let second = split_into_columns(make());
    assert_eq!(first.len(), second.len());
    for (c1, c2) in first.iter().zip(second.iter()) {
        assert_eq!(texts_of(c1), texts_of(c2));
    }
}

#[test]
fn centroid_drift_decides_membership() {
    // 700 joins the bucket at 0 and drags its centroid to 350; 1400 then
    // sits 1050 away and opens a second column, although it lies only 700
    // from its neighbour
    let entries = vec![
        entry("a", 0, 0, 10),
        entry("b", 700, 0, 10),
        entry("c", 1400, 0, 10),
    ];
    let columns = split_into_columns(entries);
    assert_eq!(columns.len(), 2);
    assert_eq!(texts_of(&columns[0]), vec!["a", "b"]);
    assert_eq!(texts_of(&columns[1]), vec!["c"]);
}
