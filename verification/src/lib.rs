//! Core of a personal vocabulary-acquisition tool.
//!
//! The library covers the structured extraction pipeline — turning raw OCR
//! line fragments into an ordered sequence of vocabulary items grouped under
//! their headings — together with bounded-size translation batching, the
//! import bookkeeping that deduplicates against a vocabulary store, and the
//! debounced, cancellation-aware live-translation suggestion engine used
//! while a user types a new word.  Everything here is pure logic: the
//! surrounding shell performs OCR, network calls and persistence and hands
//! this library plain values.

use vstd::prelude::*;

pub mod batch;
pub mod config;
pub mod engine;
pub mod layout;
pub mod order;
pub mod parse;
pub mod text;

verus! {

/// The two languages a vocabulary entry can be written in.
#[derive(Clone, Copy, PartialEq, Eq, Structural, Debug)]
pub enum Language {
    Dutch,
    English,
}

/// Human-readable label of a language, as shown beside a stored word.
pub fn language_label(language: Language) -> (r: &'static str)
    ensures
        language == Language::Dutch ==> r@ == "Dutch"@,
        language == Language::English ==> r@ == "English"@,
{
    match language {
        Language::Dutch => "Dutch",
        Language::English => "English",
    }
}

} // verus!
