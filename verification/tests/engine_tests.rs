use vocab_core::engine::AddField;
use vocab_core::engine::SuggestionEngine;
use vocab_core::engine::TranslateDirection;
use vocab_core::engine::TranslationOutcome;

fn chars(s: &str) -> Vec<char> {
    s.chars().collect()
}

fn type_word(engine: &mut SuggestionEngine, word: &str, now: u64) {
    for ch in word.chars() {
        engine.push_add_char(ch, now);
    }
}

fn ok_outcome(
    direction: TranslateDirection,
    source: &str,
    started_at: u64,
    translated: &str,
) -> TranslationOutcome {
    TranslationOutcome {
        direction,
        source_text: chars(source),
        started_at,
        result: Ok(chars(translated)),
    }
}

#[test]
fn debounced_edit_becomes_one_request_and_a_suggestion() {
    let mut engine = SuggestionEngine::new(true);
    type_word(&mut engine, "huis", 0);
    assert!(engine.poll_request(350).is_none());
    let request = engine.poll_request(450).expect("request after debounce");
    assert_eq!(request.direction, TranslateDirection::DutchToEnglish);
    assert_eq!(request.source_text, chars("huis"));
    engine.note_result(ok_outcome(
        TranslateDirection::DutchToEnglish,
        "huis",
        request.started_at,
        "house",
    ));
    assert_eq!(engine.english_input, chars("house"));
    assert_eq!(engine.dutch_input, chars("huis"));
}

#[test]
fn edits_within_the_debounce_window_start_at_most_one_request() {
    let mut engine = SuggestionEngine::new(true);
    // five edits, all inside one debounce interval
    engine.push_add_char('h', 0);
    engine.push_add_char('u', 100);
    engine.push_add_char('i', 200);
    engine.push_add_char('s', 300);
    engine.push_add_char('!', 390);
    let mut requests = 0;
    for now in [100u64, 200, 300, 400, 500, 790, 800, 900, 10_000] {
        if engine.poll_request(now).is_some() {
            requests += 1;
        }
    }
    assert_eq!(requests, 1);
}

#[test]
fn no_request_while_one_is_in_flight() {
    let mut engine = SuggestionEngine::new(true);
    type_word(&mut engine, "huis", 0);
    assert!(engine.poll_request(500).is_some());
    engine.toggle_add_field();
    type_word(&mut engine, "tree", 600);
    // the English edit qualifies on its own, but a request is outstanding
    assert!(engine.poll_request(2000).is_none());
}

#[test]
fn stale_result_is_rejected_without_touching_the_fields() {
    let mut engine = SuggestionEngine::new(true);
    type_word(&mut engine, "huis", 0);
    let request = engine.poll_request(500).expect("request");
    // the user has since replaced the text; the arriving outcome answers
    // the old snapshot only if the source text still matches
    engine.note_result(ok_outcome(
        TranslateDirection::DutchToEnglish,
        "huisje",
        request.started_at,
        "little house",
    ));
    assert_eq!(engine.dutch_input, chars("huis"));
    assert!(engine.english_input.is_empty());
    assert!(engine.last_translated_dutch.is_none());
    assert!(!engine.in_flight);
    assert!(engine.pending.is_none());
}

#[test]
fn result_after_target_edit_is_discarded() {
    let mut engine = SuggestionEngine::new(true);
    type_word(&mut engine, "huis", 0);
    let request = engine.poll_request(500).expect("request");
    // the user types into the target field after the request started
    engine.toggle_add_field();
    engine.push_add_char('x', 600);
    engine.note_result(ok_outcome(
        TranslateDirection::DutchToEnglish,
        "huis",
        request.started_at,
        "house",
    ));
    assert_eq!(engine.english_input, chars("x"));
}

#[test]
fn result_after_source_change_is_discarded() {
    let mut engine = SuggestionEngine::new(true);
    type_word(&mut engine, "huis", 0);
    let request = engine.poll_request(500).expect("request");
    // the source field changed but the outcome still names the old text
    engine.push_add_char('j', 600);
    engine.push_add_char('e', 600);
    engine.note_result(ok_outcome(
        TranslateDirection::DutchToEnglish,
        "huis",
        request.started_at,
        "house",
    ));
    assert!(engine.english_input.is_empty());
}

#[test]
fn unchanged_text_is_never_retranslated() {
    let mut engine = SuggestionEngine::new(true);
    type_word(&mut engine, "huis", 0);
    let request = engine.poll_request(500).expect("request");
    engine.note_result(ok_outcome(
        TranslateDirection::DutchToEnglish,
        "huis",
        request.started_at,
        "house",
    ));
    // the source text is recorded as last translated and must not fire again
    assert!(engine.poll_request(5000).is_none());
}

#[test]
fn failure_surfaces_a_notice_and_leaves_fields_alone() {
    let mut engine = SuggestionEngine::new(true);
    type_word(&mut engine, "huis", 0);
    let request = engine.poll_request(500).expect("request");
    engine.note_result(TranslationOutcome {
        direction: TranslateDirection::DutchToEnglish,
        source_text: chars("huis"),
        started_at: request.started_at,
        result: Err(chars("service unavailable")),
    });
    assert_eq!(engine.dutch_input, chars("huis"));
    assert!(engine.english_input.is_empty());
    let notice = engine.take_notice().expect("notice");
    assert_eq!(notice, "Translation failed: service unavailable");
    assert!(engine.take_notice().is_none());
}

#[test]
fn clearing_the_inputs_drops_all_bookkeeping() {
    let mut engine = SuggestionEngine::new(true);
    type_word(&mut engine, "huis", 0);
    let request = engine.poll_request(500).expect("request");
    engine.note_result(ok_outcome(
        TranslateDirection::DutchToEnglish,
        "huis",
        request.started_at,
        "house",
    ));
    engine.clear_add_inputs();
    assert!(engine.dutch_input.is_empty());
    assert!(engine.english_input.is_empty());
    assert!(engine.last_translated_dutch.is_none());
    assert!(engine.last_edit_field.is_none());
    // the same word typed afresh qualifies again
    type_word(&mut engine, "huis", 1000);
    assert!(engine.poll_request(1500).is_some());
}

#[test]
fn empty_or_blank_text_never_fires() {
    let mut engine = SuggestionEngine::new(true);
    engine.push_add_char(' ', 0);
    engine.push_add_char(' ', 0);
    assert!(engine.poll_request(10_000).is_none());
}

#[test]
fn no_requests_outside_the_word_entry_view_or_without_a_service() {
    let mut engine = SuggestionEngine::new(true);
    type_word(&mut engine, "huis", 0);
    engine.set_add_view(false);
    assert!(engine.poll_request(1000).is_none());
    engine.set_add_view(true);
    assert!(engine.poll_request(1000).is_some());

    let mut offline = SuggestionEngine::new(false);
    type_word(&mut offline, "huis", 0);
    assert!(offline.poll_request(1000).is_none());
}

#[test]
fn english_field_translates_toward_dutch() {
    let mut engine = SuggestionEngine::new(true);
    engine.toggle_add_field();
    assert!(matches!(engine.add_field, AddField::English));
    type_word(&mut engine, "house", 0);
    let request = engine.poll_request(500).expect("request");
    assert_eq!(request.direction, TranslateDirection::EnglishToDutch);
    let (source, target) = request.direction.language_codes();
    assert_eq!(source, "EN");
    assert_eq!(target, "NL");
    engine.note_result(ok_outcome(
        TranslateDirection::EnglishToDutch,
        "house",
        request.started_at,
        "huis",
    ));
    assert_eq!(engine.dutch_input, chars("huis"));
}
