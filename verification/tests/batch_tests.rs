use vocab_core::batch::ImportError;
use vocab_core::batch::ImportRun;
use vocab_core::batch::VocabSet;
use vocab_core::parse::GroupedItem;
use vocab_core::Language;

fn item(text: &str, group: &str) -> GroupedItem {
    GroupedItem { text: text.to_string(), group: group.to_string() }
}

#[test]
fn chunks_respect_the_cap_and_keep_order() {
    let items: Vec<GroupedItem> =
        (0..27).map(|k| item(&format!("w{k}"), "G")).collect();
    let mut run = ImportRun::new(items, "H1".to_string(), VocabSet::new());

    let first = run.next_chunk().expect("first chunk");
    assert_eq!(first.len(), 25);
    let words = run.apply_chunk(first.iter().map(|t| format!("{t}-en")).collect()).unwrap();
    assert_eq!(words.len(), 25);

    let second = run.next_chunk().expect("second chunk");
    assert_eq!(second.len(), 2);
    let words2 = run.apply_chunk(second.iter().map(|t| format!("{t}-en")).collect()).unwrap();
    assert_eq!(words2.len(), 2);

    // the chunks concatenate back to the input, in order
    let mut all: Vec<String> = first;
    all.extend(second);
    let expected: Vec<String> = (0..27).map(|k| format!("w{k}")).collect();
    assert_eq!(all, expected);

    assert!(run.next_chunk().is_none());
    assert_eq!(run.counts(), (27, 0));
}

#[test]
fn known_words_are_skipped_case_insensitively() {
    let mut known = VocabSet::new();
    known.insert("De Kat".chars().collect(), Language::Dutch);
    known.insert("hond".chars().collect(), Language::English);

    let items = vec![item("de kat", "Dieren"), item("hond", "Dieren")];
    let mut run = ImportRun::new(items, "H1".to_string(), known);
    let texts = run.next_chunk().unwrap();
    let words = run
        .apply_chunk(texts.iter().map(|t| format!("{t}-en")).collect())
        .unwrap();
    // "de kat" matches "De Kat" (Dutch) and is skipped; the stored "hond"
    // is English, so the Dutch "hond" is new
    assert_eq!(words.len(), 1);
    assert_eq!(words[0].text, "hond");
    assert_eq!(words[0].translation, "hond-en");
    assert_eq!(words[0].chapter, "H1");
    assert_eq!(words[0].group, "Dieren");
    assert_eq!(run.counts(), (1, 1));
}

#[test]
fn duplicates_within_one_import_are_skipped() {
    let items = vec![item("kat", "A"), item("KAT", "B")];
    let mut run = ImportRun::new(items, "H1".to_string(), VocabSet::new());
    let texts = run.next_chunk().unwrap();
    let words = run.apply_chunk(texts.iter().map(|t| format!("{t}-en")).collect()).unwrap();
    assert_eq!(words.len(), 1);
    assert_eq!(words[0].text, "kat");
    assert_eq!(run.counts(), (1, 1));
}

#[test]
fn count_mismatch_is_a_hard_failure_for_the_run() {
    let items = vec![item("kat", "A"), item("hond", "A")];
    let mut run = ImportRun::new(items, "H1".to_string(), VocabSet::new());
    let _ = run.next_chunk().unwrap();
    let err = run.apply_chunk(vec!["cat".to_string()]).unwrap_err();
    assert_eq!(err, ImportError::CountMismatch);
    assert!(run.is_failed());
    assert!(run.next_chunk().is_none());
    assert_eq!(run.counts(), (0, 0));
}

#[test]
fn aborting_keeps_earlier_counts() {
    let items: Vec<GroupedItem> =
        (0..26).map(|k| item(&format!("w{k}"), "G")).collect();
    let mut run = ImportRun::new(items, "H1".to_string(), VocabSet::new());
    let first = run.next_chunk().unwrap();
    run.apply_chunk(first.iter().map(|t| format!("{t}-en")).collect()).unwrap();
    // the second translation call fails in the shell; the run is abandoned
    run.abort();
    assert!(run.next_chunk().is_none());
    assert_eq!(run.counts(), (25, 0));
}
