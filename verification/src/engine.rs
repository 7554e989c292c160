//! The live suggestion engine: a debounced, cancellation-aware state
//! machine behind the bilingual word-entry form.
//!
//! The shell owns a fixed-rate tick loop.  Key edits only record timestamps;
//! on each tick the shell first feeds back any arrived outcome through
//! [`SuggestionEngine::note_result`], then asks
//! [`SuggestionEngine::poll_request`] whether a new translation call is due.
//! A request starts only when nothing is in flight, the word-entry view is
//! active, the most recently edited field has been quiet for the debounce
//! interval, its trimmed text is non-empty and differs from the text last
//! translated for it.  There is no true cancellation: a stale outcome is
//! rejected by the correlation checks when it arrives.  At most one request
//! is outstanding at a time, over both fields together.

use vstd::prelude::*;
use crate::text::append_chars;
use crate::text::chars_to_string;
use crate::text::str_to_chars;
use crate::text::subvec;
use crate::text::trim_chars;
use crate::text::trim_spec;
use crate::Language;

verus! {

/// How long a field must stay unedited before its text is translated,
/// in milliseconds.
pub const TRANSLATE_DEBOUNCE_MS: u64 = 400;

/// The cadence at which the shell fires ticks, in milliseconds.
pub const TICK_MS: u64 = 100;

/// The two input fields of the word-entry form.
#[derive(Clone, Copy, PartialEq, Eq, Structural, Debug)]
pub enum AddField {
    Dutch,
    English,
}

/// The direction of one translation call.
#[derive(Clone, Copy, PartialEq, Eq, Structural, Debug)]
pub enum TranslateDirection {
    DutchToEnglish,
    EnglishToDutch,
}

impl TranslateDirection {
    /// The (source, target) language codes handed to the translation
    /// service.
    pub fn language_codes(self) -> (r: (&'static str, &'static str))
        ensures
            self == TranslateDirection::DutchToEnglish ==> r.0@ == "NL"@ && r.1@ == "EN"@,
            self == TranslateDirection::EnglishToDutch ==> r.0@ == "EN"@ && r.1@ == "NL"@,
    {
        match self {
            TranslateDirection::DutchToEnglish => ("NL", "EN"),
            TranslateDirection::EnglishToDutch => ("EN", "NL"),
        }
    }
}

/// The snapshot of an outstanding translation request.
pub struct PendingTranslation {
    pub direction: TranslateDirection,
    pub source_text: Vec<char>,
    pub started_at: u64,
}

/// Mathematical image of a [`PendingTranslation`].
pub struct PendingV {
    pub direction: TranslateDirection,
    pub source_text: Seq<char>,
    pub started_at: int,
}

impl View for PendingTranslation {
    type V = PendingV;

    open spec fn view(&self) -> PendingV {
        PendingV {
            direction: self.direction,
            source_text: self.source_text@,
            started_at: self.started_at as int,
        }
    }
}

/// What the engine asks the shell to dispatch on a unit of its own: an
/// immutable snapshot of direction and trimmed source text.
pub struct TranslationRequest {
    pub direction: TranslateDirection,
    pub source_text: Vec<char>,
    pub started_at: u64,
}

impl View for TranslationRequest {
    type V = PendingV;

    open spec fn view(&self) -> PendingV {
        PendingV {
            direction: self.direction,
            source_text: self.source_text@,
            started_at: self.started_at as int,
        }
    }
}

/// What a background translation call delivers back: the request snapshot it
/// answers, and the translated text or a failure message.
pub struct TranslationOutcome {
    pub direction: TranslateDirection,
    pub source_text: Vec<char>,
    pub started_at: u64,
    pub result: Result<Vec<char>, Vec<char>>,
}

/// Mathematical image of a [`TranslationOutcome`].
pub struct OutcomeV {
    pub direction: TranslateDirection,
    pub source_text: Seq<char>,
    pub started_at: int,
    pub result: Result<Seq<char>, Seq<char>>,
}

impl View for TranslationOutcome {
    type V = OutcomeV;

    open spec fn view(&self) -> OutcomeV {
        OutcomeV {
            direction: self.direction,
            source_text: self.source_text@,
            started_at: self.started_at as int,
            result: match self.result {
                Ok(ref t) => Ok(t@),
                Err(ref m) => Err(m@),
            },
        }
    }
}

/// The editor state the suggestion engine owns: the two inputs, which one is
/// active, whether the word-entry view is showing and a translation service
/// is configured, the in-flight bookkeeping, per-field last-edit times, the
/// per-field idempotence guard, and a transient notice.
pub struct SuggestionEngine {
    pub dutch_input: Vec<char>,
    pub english_input: Vec<char>,
    pub add_field: AddField,
    pub in_add_view: bool,
    pub api_available: bool,
    pub in_flight: bool,
    pub pending: Option<PendingTranslation>,
    pub last_edit_field: Option<AddField>,
    pub last_edit_dutch_at: Option<u64>,
    pub last_edit_english_at: Option<u64>,
    pub last_translated_dutch: Option<Vec<char>>,
    pub last_translated_english: Option<Vec<char>>,
    pub notice: Option<Vec<char>>,
}

/// Mathematical image of a [`SuggestionEngine`].
pub struct EngineV {
    pub dutch_input: Seq<char>,
    pub english_input: Seq<char>,
    pub add_field: AddField,
    pub in_add_view: bool,
    pub api_available: bool,
    pub in_flight: bool,
    pub pending: Option<PendingV>,
    pub last_edit_field: Option<AddField>,
    pub last_edit_dutch_at: Option<int>,
    pub last_edit_english_at: Option<int>,
    pub last_translated_dutch: Option<Seq<char>>,
    pub last_translated_english: Option<Seq<char>>,
    pub notice: Option<Seq<char>>,
}

impl View for SuggestionEngine {
    type V = EngineV;

    open spec fn view(&self) -> EngineV {
        EngineV {
            dutch_input: self.dutch_input@,
            english_input: self.english_input@,
            add_field: self.add_field,
            in_add_view: self.in_add_view,
            api_available: self.api_available,
            in_flight: self.in_flight,
            pending: match self.pending {
                Some(ref p) => Some(p@),
                None => None,
            },
            last_edit_field: self.last_edit_field,
            last_edit_dutch_at: match self.last_edit_dutch_at {
                Some(t) => Some(t as int),
                None => None,
            },
            last_edit_english_at: match self.last_edit_english_at {
                Some(t) => Some(t as int),
                None => None,
            },
            last_translated_dutch: match self.last_translated_dutch {
                Some(ref s) => Some(s@),
                None => None,
            },
            last_translated_english: match self.last_translated_english {
                Some(ref s) => Some(s@),
                None => None,
            },
            notice: match self.notice {
                Some(ref s) => Some(s@),
                None => None,
            },
        }
    }
}

/// The field a direction translates from.
pub open spec fn source_field(d: TranslateDirection) -> AddField {
    match d {
        TranslateDirection::DutchToEnglish => AddField::Dutch,
        TranslateDirection::EnglishToDutch => AddField::English,
    }
}

/// The field a direction writes its suggestion into.
pub open spec fn target_field(d: TranslateDirection) -> AddField {
    match d {
        TranslateDirection::DutchToEnglish => AddField::English,
        TranslateDirection::EnglishToDutch => AddField::Dutch,
    }
}

/// The direction that translates out of a field.
pub open spec fn direction_of(f: AddField) -> TranslateDirection {
    match f {
        AddField::Dutch => TranslateDirection::DutchToEnglish,
        AddField::English => TranslateDirection::EnglishToDutch,
    }
}

pub open spec fn input_of(s: EngineV, f: AddField) -> Seq<char> {
    match f {
        AddField::Dutch => s.dutch_input,
        AddField::English => s.english_input,
    }
}

pub open spec fn last_edit_at(s: EngineV, f: AddField) -> Option<int> {
    match f {
        AddField::Dutch => s.last_edit_dutch_at,
        AddField::English => s.last_edit_english_at,
    }
}

pub open spec fn last_translated(s: EngineV, f: AddField) -> Option<Seq<char>> {
    match f {
        AddField::Dutch => s.last_translated_dutch,
        AddField::English => s.last_translated_english,
    }
}

/// Milliseconds since `at`, clamped at zero if the clock reads earlier.
pub open spec fn elapsed(at: int, now: int) -> int {
    if now >= at {
        now - at
    } else {
        0
    }
}

/// Recording one edit: the field becomes the most recently edited and its
/// timestamp is set to now.
pub open spec fn mark_edit_spec(s: EngineV, f: AddField, now: int) -> EngineV {
    match f {
        AddField::Dutch => EngineV {
            last_edit_field: Some(f),
            last_edit_dutch_at: Some(now),
            ..s
        },
        AddField::English => EngineV {
            last_edit_field: Some(f),
            last_edit_english_at: Some(now),
            ..s
        },
    }
}

/// One edit of a field: its text replaced, the edit recorded.
pub open spec fn edit_field_spec(s: EngineV, f: AddField, text: Seq<char>, now: int) -> EngineV {
    let s1 = match f {
        AddField::Dutch => EngineV { dutch_input: text, ..s },
        AddField::English => EngineV { english_input: text, ..s },
    };
    mark_edit_spec(s1, f, now)
}

/// All translation bookkeeping dropped: nothing in flight, nothing pending,
/// no recorded edits, nothing remembered as last translated.
pub open spec fn reset_translation_spec(s: EngineV) -> EngineV {
    EngineV {
        in_flight: false,
        pending: None,
        last_edit_field: None,
        last_edit_dutch_at: None,
        last_edit_english_at: None,
        last_translated_dutch: None,
        last_translated_english: None,
        ..s
    }
}

/// Both inputs cleared and the bookkeeping reset: a fresh item is being
/// entered.
pub open spec fn clear_inputs_spec(s: EngineV) -> EngineV {
    reset_translation_spec(
        EngineV { dutch_input: Seq::empty(), english_input: Seq::empty(), ..s },
    )
}

/// Whether a tick should start a new translation request now.
pub open spec fn wants_request(s: EngineV, now: int) -> bool {
    &&& !s.in_flight
    &&& s.api_available
    &&& s.in_add_view
    &&& s.last_edit_field is Some
    &&& {
        let f = s.last_edit_field->0;
        &&& last_edit_at(s, f) is Some
        &&& elapsed(last_edit_at(s, f)->0, now) >= TRANSLATE_DEBOUNCE_MS
        &&& trim_spec(input_of(s, f)).len() > 0
        &&& last_translated(s, f) != Some(trim_spec(input_of(s, f)))
    }
}

/// What polling does: when a request is due, snapshot direction, trimmed
/// source text and start time into the pending slot, mark in flight, and
/// hand the same snapshot out for dispatch; otherwise change nothing.
pub open spec fn poll_spec(s: EngineV, now: int) -> (EngineV, Option<PendingV>) {
    if !wants_request(s, now) {
        (s, None)
    } else {
        let f = s.last_edit_field->0;
        let p = PendingV {
            direction: direction_of(f),
            source_text: trim_spec(input_of(s, f)),
            started_at: now,
        };
        (EngineV { in_flight: true, pending: Some(p), ..s }, Some(p))
    }
}

/// The transient message surfaced when a translation call fails.
pub open spec fn failure_notice(msg: Seq<char>) -> Seq<char> {
    "Translation failed: "@ + msg
}

/// What noting an arrived outcome does.  The in-flight flag clears and the
/// pending slot is consumed whatever happens.  The outcome is discarded if
/// nothing was pending, if it does not correlate with the pending request
/// (direction and source text must match exactly), if the target field was
/// edited after the request started, or if the source field's live trimmed
/// text no longer equals the snapshot.  Otherwise a success writes the
/// suggestion into the target field and records the source as last
/// translated; a failure surfaces a notice and leaves both fields unchanged.
pub open spec fn note_result_spec(s: EngineV, o: OutcomeV) -> EngineV {
    let s0 = EngineV { in_flight: false, ..s };
    match s.pending {
        None => s0,
        Some(p) => {
            let s1 = EngineV { pending: None, ..s0 };
            if p.direction != o.direction || p.source_text != o.source_text {
                s1
            } else if (match last_edit_at(s, target_field(o.direction)) {
                Some(t) => t > p.started_at,
                None => false,
            }) {
                s1
            } else if trim_spec(input_of(s, source_field(o.direction))) != p.source_text {
                s1
            } else {
                match o.result {
                    Ok(tr) => match o.direction {
                        TranslateDirection::DutchToEnglish => EngineV {
                            english_input: tr,
                            last_translated_dutch: Some(p.source_text),
                            ..s1
                        },
                        TranslateDirection::EnglishToDutch => EngineV {
                            dutch_input: tr,
                            last_translated_english: Some(p.source_text),
                            ..s1
                        },
                    },
                    Err(msg) => EngineV { notice: Some(failure_notice(msg)), ..s1 },
                }
            }
        },
    }
}

/// The state a fresh editor session starts in.
pub open spec fn initial_engine(api_available: bool) -> EngineV {
    EngineV {
        dutch_input: Seq::empty(),
        english_input: Seq::empty(),
        add_field: AddField::Dutch,
        in_add_view: true,
        api_available,
        in_flight: false,
        pending: None,
        last_edit_field: None,
        last_edit_dutch_at: None,
        last_edit_english_at: None,
        last_translated_dutch: None,
        last_translated_english: None,
        notice: None,
    }
}

/// One user-visible step of the engine between arriving outcomes: a key
/// edit of one field, or a tick that may start a request.
pub enum EngineEvent {
    KeyEdited { field: AddField, text: Seq<char>, now: int },
    Tick { now: int },
}

/// The state after one event, and how many requests the event started.
pub open spec fn event_step(s: EngineV, e: EngineEvent) -> (EngineV, int) {
    match e {
        EngineEvent::KeyEdited { field, text, now } => (edit_field_spec(s, field, text, now), 0),
        EngineEvent::Tick { now } => {
            let r = poll_spec(s, now);
            (
                r.0,
                if r.1 is Some {
                    1
                } else {
                    0
                },
            )
        },
    }
}

/// The state after a run of events, and how many requests the run started.
pub open spec fn run_events(s: EngineV, evs: Seq<EngineEvent>) -> (EngineV, int)
    decreases evs.len(),
{
    if evs.len() == 0 {
        (s, 0)
    } else {
        let first = event_step(s, evs[0]);
        let rest = run_events(first.0, evs.drop_first());
        (rest.0, first.1 + rest.1)
    }
}

/// Debounce suppression, the counting half: across any run of key edits and
/// ticks — no outcome arriving, no reset — at most one translation request
/// starts, and none at all while one is already in flight.  Edits never
/// change the in-flight flag, and the first request a tick starts sets it.
pub proof fn lemma_debounce_suppression(s: EngineV, evs: Seq<EngineEvent>)
    ensures
        run_events(s, evs).1 >= 0,
        run_events(s, evs).1 <= if s.in_flight {
            0int
        } else {
            1int
        },
    decreases evs.len(),
{
    if evs.len() > 0 {
        let first = event_step(s, evs[0]);
        lemma_debounce_suppression(first.0, evs.drop_first());
        match evs[0] {
            EngineEvent::KeyEdited { field, text, now } => {
                assert(first.0.in_flight == s.in_flight);
            },
            EngineEvent::Tick { now } => {
                if wants_request(s, now) {
                    assert(first.0.in_flight);
                } else {
                    assert(first.0 == s);
                }
            },
        }
    }
}

/// Debounce suppression, the timing half: a tick that fires while the most
/// recently edited field is still within the debounce interval changes
/// nothing and starts nothing.
pub proof fn lemma_tick_within_debounce(s: EngineV, now: int, t: int)
    requires
        s.last_edit_field is Some,
        last_edit_at(s, s.last_edit_field->0) == Some(t),
        elapsed(t, now) < TRANSLATE_DEBOUNCE_MS,
    ensures
        poll_spec(s, now) == (s, None::<PendingV>),
{
}

/// Stale-result rejection: an outcome whose source text differs from the
/// pending request's is discarded — neither input field, nor the
/// last-translated bookkeeping, nor the notice changes; only the in-flight
/// flag clears and the pending slot is consumed.
pub proof fn lemma_stale_result_rejected(s: EngineV, o: OutcomeV)
    requires
        s.pending is Some,
        o.source_text != s.pending->0.source_text,
    ensures
        note_result_spec(s, o).dutch_input == s.dutch_input,
        note_result_spec(s, o).english_input == s.english_input,
        note_result_spec(s, o).last_translated_dutch == s.last_translated_dutch,
        note_result_spec(s, o).last_translated_english == s.last_translated_english,
        note_result_spec(s, o).notice == s.notice,
        !note_result_spec(s, o).in_flight,
        note_result_spec(s, o).pending is None,
{
}

/// Whether two character vectors hold the same text.
pub fn chars_equal(a: &Vec<char>, b: &Vec<char>) -> (r: bool)
    ensures
        r == (a@ == b@),
{
    if a.len() != b.len() {
        proof {
            assert(a@ != b@);
        }
        return false;
    }
    let mut k: usize = 0;
    while k < a.len()
        invariant
            k <= a@.len(),
            a@.len() == b@.len(),
            forall|j: int| 0 <= j < k ==> a@[j] == b@[j],
        decreases a@.len() - k,
    {
        if a[k] != b[k] {
            proof {
                assert(a@[k as int] != b@[k as int]);
            }
            return false;
        }
        k = k + 1;
    }
    proof {
        assert(a@ =~= b@);
    }
    true
}

impl SuggestionEngine {
    /// A fresh editor session; `api_available` says whether a translation
    /// service is configured at all.
    pub fn new(api_available: bool) -> (r: Self)
        ensures
            r@ == initial_engine(api_available),
    {
        let r = SuggestionEngine {
            dutch_input: Vec::new(),
            english_input: Vec::new(),
            add_field: AddField::Dutch,
            in_add_view: true,
            api_available,
            in_flight: false,
            pending: None,
            last_edit_field: None,
            last_edit_dutch_at: None,
            last_edit_english_at: None,
            last_translated_dutch: None,
            last_translated_english: None,
            notice: None,
        };
        proof {
            assert(r@.dutch_input =~= initial_engine(api_available).dutch_input);
            assert(r@.english_input =~= initial_engine(api_available).english_input);
        }
        r
    }

    /// Whether the word-entry view is showing; requests start only there.
    pub fn set_add_view(&mut self, showing: bool)
        ensures
            final(self)@ == (EngineV { in_add_view: showing, ..old(self)@ }),
    {
        self.in_add_view = showing;
    }

    /// Switches the active input field; an in-flight request for the other
    /// field is not cancelled.
    pub fn toggle_add_field(&mut self)
        ensures
            final(self)@ == (EngineV {
                add_field: match old(self)@.add_field {
                    AddField::Dutch => AddField::English,
                    AddField::English => AddField::Dutch,
                },
                ..old(self)@
            }),
    {
        self.add_field = match self.add_field {
            AddField::Dutch => AddField::English,
            AddField::English => AddField::Dutch,
        };
    }

    /// Records an edit of `field` at time `now`.
    pub fn mark_edit(&mut self, field: AddField, now: u64)
        ensures
            final(self)@ == mark_edit_spec(old(self)@, field, now as int),
    {
        self.last_edit_field = Some(field);
        match field {
            AddField::Dutch => {
                self.last_edit_dutch_at = Some(now);
            },
            AddField::English => {
                self.last_edit_english_at = Some(now);
            },
        }
    }

    /// Appends a character to the active field and records the edit.
    pub fn push_add_char(&mut self, ch: char, now: u64)
        ensures
            final(self)@ == edit_field_spec(
                old(self)@,
                old(self)@.add_field,
                input_of(old(self)@, old(self)@.add_field).push(ch),
                now as int,
            ),
    {
        match self.add_field {
            AddField::Dutch => {
                self.dutch_input.push(ch);
            },
            AddField::English => {
                self.english_input.push(ch);
            },
        }
        let f = self.add_field;
        self.mark_edit(f, now);
    }

    /// Removes the last character of the active field, if any, and records
    /// the edit.
    pub fn pop_add_char(&mut self, now: u64)
        ensures
            final(self)@ == edit_field_spec(
                old(self)@,
                old(self)@.add_field,
                ({
                    let t = input_of(old(self)@, old(self)@.add_field);
                    if t.len() > 0 {
                        t.drop_last()
                    } else {
                        t
                    }
                }),
                now as int,
            ),
    {
        match self.add_field {
            AddField::Dutch => {
                if self.dutch_input.len() > 0 {
                    self.dutch_input.pop();
                    proof {
                        assert(self.dutch_input@ =~= old(self).dutch_input@.drop_last());
                    }
                }
            },
            AddField::English => {
                if self.english_input.len() > 0 {
                    self.english_input.pop();
                    proof {
                        assert(self.english_input@ =~= old(self).english_input@.drop_last());
                    }
                }
            },
        }
        let f = self.add_field;
        self.mark_edit(f, now);
    }

    /// The active field's text.
    pub fn active_input(&self) -> (r: &Vec<char>)
        ensures
            r@ == input_of(self@, self@.add_field),
    {
        match self.add_field {
            AddField::Dutch => &self.dutch_input,
            AddField::English => &self.english_input,
        }
    }

    /// The other field's text.
    pub fn inactive_input(&self) -> (r: &Vec<char>)
        ensures
            r@ == input_of(
                self@,
                match self@.add_field {
                    AddField::Dutch => AddField::English,
                    AddField::English => AddField::Dutch,
                },
            ),
    {
        match self.add_field {
            AddField::Dutch => &self.english_input,
            AddField::English => &self.dutch_input,
        }
    }

    /// The language of the active field.
    pub fn active_language(&self) -> (r: Language)
        ensures
            self@.add_field == AddField::Dutch ==> r == Language::Dutch,
            self@.add_field == AddField::English ==> r == Language::English,
    {
        match self.add_field {
            AddField::Dutch => Language::Dutch,
            AddField::English => Language::English,
        }
    }

    /// Drops every piece of translation bookkeeping.
    pub fn reset_translation_state(&mut self)
        ensures
            final(self)@ == reset_translation_spec(old(self)@),
    {
        self.in_flight = false;
        self.pending = None;
        self.last_edit_field = None;
        self.last_edit_dutch_at = None;
        self.last_edit_english_at = None;
        self.last_translated_dutch = None;
        self.last_translated_english = None;
    }

    /// Clears both inputs and the bookkeeping: a fresh item is being
    /// entered.
    pub fn clear_add_inputs(&mut self)
        ensures
            final(self)@ == clear_inputs_spec(old(self)@),
    {
        self.dutch_input = Vec::new();
        self.english_input = Vec::new();
        self.reset_translation_state();
        proof {
            assert(final(self)@.dutch_input =~= Seq::<char>::empty());
            assert(final(self)@.english_input =~= Seq::<char>::empty());
        }
    }

    /// Clears the inputs, the bookkeeping and the notice.
    pub fn reset_add_fields(&mut self)
        ensures
            final(self)@ == (EngineV { notice: None, ..clear_inputs_spec(old(self)@) }),
    {
        self.notice = None;
        self.clear_add_inputs();
    }

    /// Asks whether a translation request is due at time `now`; if so,
    /// snapshots it as pending, marks the engine in flight, and returns the
    /// request for the shell to dispatch on a unit of its own.
    pub fn poll_request(&mut self, now: u64) -> (r: Option<TranslationRequest>)
        ensures
            final(self)@ == poll_spec(old(self)@, now as int).0,
            r is Some <==> poll_spec(old(self)@, now as int).1 is Some,
            r is Some ==> r->0@ == poll_spec(old(self)@, now as int).1->0,
    {
        if self.in_flight || !self.api_available || !self.in_add_view {
            return None;
        }
        let field = match self.last_edit_field {
            Some(f) => f,
            None => {
                return None;
            },
        };
        let at_opt = match field {
            AddField::Dutch => self.last_edit_dutch_at,
            AddField::English => self.last_edit_english_at,
        };
        let at = match at_opt {
            Some(t) => t,
            None => {
                return None;
            },
        };
        let since = if now >= at {
            now - at
        } else {
            0
        };
        if since < TRANSLATE_DEBOUNCE_MS {
            return None;
        }
        let trimmed = match field {
            AddField::Dutch => trim_chars(&self.dutch_input),
            AddField::English => trim_chars(&self.english_input),
        };
        if trimmed.len() == 0 {
            return None;
        }
        let same = match field {
            AddField::Dutch => match &self.last_translated_dutch {
                Some(prev) => chars_equal(prev, &trimmed),
                None => false,
            },
            AddField::English => match &self.last_translated_english {
                Some(prev) => chars_equal(prev, &trimmed),
                None => false,
            },
        };
        if same {
            return None;
        }
        proof {
            assert(wants_request(self@, now as int));
        }
        let direction = match field {
            AddField::Dutch => TranslateDirection::DutchToEnglish,
            AddField::English => TranslateDirection::EnglishToDutch,
        };
        let source_copy = subvec(&trimmed, 0, trimmed.len());
        proof {
            assert(source_copy@ =~= trim_spec(input_of(self@, field)));
            assert(direction == direction_of(field));
            assert(poll_spec(self@, now as int).1 == Some(
                PendingV {
                    direction: direction_of(field),
                    source_text: trim_spec(input_of(self@, field)),
                    started_at: now as int,
                },
            ));
        }
        self.in_flight = true;
        self.pending = Some(
            PendingTranslation { direction, source_text: trimmed, started_at: now },
        );
        Some(TranslationRequest { direction, source_text: source_copy, started_at: now })
    }

    /// Feeds back an arrived outcome; see [`note_result_spec`] for the
    /// correlation and staleness checks it applies.
    pub fn note_result(&mut self, outcome: TranslationOutcome)
        ensures
            final(self)@ == note_result_spec(old(self)@, outcome@),
    {
        self.in_flight = false;
        let pending = match self.pending.take() {
            Some(p) => p,
            None => {
                return;
            },
        };
        let dir_match = match (pending.direction, outcome.direction) {
            (TranslateDirection::DutchToEnglish, TranslateDirection::DutchToEnglish) => true,
            (TranslateDirection::EnglishToDutch, TranslateDirection::EnglishToDutch) => true,
            _ => false,
        };
        if !dir_match || !chars_equal(&pending.source_text, &outcome.source_text) {
            return;
        }
        let target_edit_at = match outcome.direction {
            TranslateDirection::DutchToEnglish => self.last_edit_english_at,
            TranslateDirection::EnglishToDutch => self.last_edit_dutch_at,
        };
        let target_was_edited = match target_edit_at {
            Some(t) => t > pending.started_at,
            None => false,
        };
        if target_was_edited {
            return;
        }
        let current_source = match outcome.direction {
            TranslateDirection::DutchToEnglish => trim_chars(&self.dutch_input),
            TranslateDirection::EnglishToDutch => trim_chars(&self.english_input),
        };
        if !chars_equal(&current_source, &pending.source_text) {
            return;
        }
        match outcome.result {
            Ok(translated) => {
                match outcome.direction {
                    TranslateDirection::DutchToEnglish => {
                        self.english_input = translated;
                        self.last_translated_dutch = Some(pending.source_text);
                    },
                    TranslateDirection::EnglishToDutch => {
                        self.dutch_input = translated;
                        self.last_translated_english = Some(pending.source_text);
                    },
                }
            },
            Err(msg) => {
                let mut n = str_to_chars("Translation failed: ");
                append_chars(&mut n, &msg);
                self.notice = Some(n);
            },
        }
    }

    /// The transient notice to surface, if any.
    pub fn take_notice(&mut self) -> (r: Option<String>)
        ensures
            final(self)@ == (EngineV { notice: None, ..old(self)@ }),
            r is Some <==> old(self)@.notice is Some,
            r is Some ==> r->0@ == old(self)@.notice->0,
    {
        match self.notice.take() {
            Some(n) => Some(chars_to_string(&n)),
            None => None,
        }
    }
}

} // verus!
