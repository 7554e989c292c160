//! Bounded-size translation batching and the import bookkeeping.
//!
//! Grouped items travel to the external translation capability in contiguous
//! chunks of at most [`CHUNK_CAP`] items, preserving global order; the
//! capability must return exactly one translation per text, in order, and a
//! count mismatch is a hard failure for the whole import.  [`ImportRun`] is
//! the import orchestrator's decision core: the shell performs one
//! translation call per pending chunk and feeds the result back, while the
//! run deduplicates case-insensitively against the vocabulary known so far,
//! counts inserts and skips, and hands the shell the new words to persist.
//! A failed chunk aborts the remaining work but keeps what prior chunks
//! inserted: a deliberate partial-success policy.

use vstd::prelude::*;
use crate::parse::GroupedItem;
use crate::parse::GroupedItemV;
use crate::parse::item_views;
use crate::parse::string_views;
use crate::text::str_to_chars;
use crate::Language;

verus! {

/// Number of items per translation call.
pub const CHUNK_CAP: usize = 25;

/// `s` split into contiguous runs of at most `cap` elements, in order; the
/// last run may be shorter.
pub open spec fn chunks_of<T>(s: Seq<T>, cap: int) -> Seq<Seq<T>>
    recommends
        cap > 0,
    decreases s.len(),
    when cap > 0
{
    if s.len() == 0 {
        Seq::empty()
    } else if s.len() <= cap {
        seq![s]
    } else {
        seq![s.take(cap)] + chunks_of(s.skip(cap), cap)
    }
}

/// Batch round-trip: chunking splits but never reorders, duplicates or
/// drops — concatenating the chunks in order restores the input exactly.
/// One translation per chunk element in chunk order therefore yields one
/// translation per input element in input order.
pub proof fn lemma_chunks_flatten<T>(s: Seq<T>, cap: int)
    requires
        cap > 0,
    ensures
        chunks_of(s, cap).flatten() == s,
    decreases s.len(),
{
    if s.len() == 0 {
        assert(chunks_of(s, cap).flatten() =~= s);
    } else if s.len() <= cap {
        let c = chunks_of(s, cap);
        assert(c == seq![s]);
        assert(c.drop_first() =~= Seq::<Seq<T>>::empty());
        assert(c.drop_first().flatten() == Seq::<T>::empty());
        assert(c.flatten() =~= s);
    } else {
        lemma_chunks_flatten(s.skip(cap), cap);
        let c = seq![s.take(cap)] + chunks_of(s.skip(cap), cap);
        assert(c.first() == s.take(cap));
        assert(c.drop_first() =~= chunks_of(s.skip(cap), cap));
        assert(s.take(cap) + s.skip(cap) =~= s);
    }
}

/// Every chunk respects the cap.
pub proof fn lemma_chunks_bounded<T>(s: Seq<T>, cap: int)
    requires
        cap > 0,
    ensures
        forall|k: int|
            0 <= k < chunks_of(s, cap).len() ==> #[trigger] chunks_of(s, cap)[k].len() <= cap,
    decreases s.len(),
{
    if s.len() > cap {
        lemma_chunks_bounded(s.skip(cap), cap);
        let c = seq![s.take(cap)] + chunks_of(s.skip(cap), cap);
        assert forall|k: int| 0 <= k < c.len() implies #[trigger] c[k].len() <= cap by {
            if k > 0 {
                assert(c[k] == chunks_of(s.skip(cap), cap)[k - 1]);
            }
        }
    }
}

/// Two characters equal up to ASCII case, as the store's `lower()`-based
/// duplicate query compares them.
pub open spec fn ascii_eq_char(a: char, b: char) -> bool {
    ||| a == b
    ||| (is_ascii_upper(a) && (b as u32) == (a as u32) + 32)
    ||| (is_ascii_upper(b) && (a as u32) == (b as u32) + 32)
}

pub open spec fn is_ascii_upper(c: char) -> bool {
    ('A' as u32) <= (c as u32) && (c as u32) <= ('Z' as u32)
}

/// Two texts equal up to ASCII case.
pub open spec fn ascii_eq(s: Seq<char>, t: Seq<char>) -> bool {
    s.len() == t.len() && forall|k: int| 0 <= k < s.len() ==> ascii_eq_char(s[k], t[k])
}

fn ascii_eq_chars(s: &Vec<char>, t: &Vec<char>) -> (r: bool)
    ensures
        r == ascii_eq(s@, t@),
{
    if s.len() != t.len() {
        return false;
    }
    let mut k: usize = 0;
    while k < s.len()
        invariant
            k <= s@.len(),
            s@.len() == t@.len(),
            forall|j: int| 0 <= j < k ==> ascii_eq_char(s@[j], t@[j]),
        decreases s@.len() - k,
    {
        let a = s[k];
        let b = t[k];
        let upper_a = ('A' as u32) <= (a as u32) && (a as u32) <= ('Z' as u32);
        let upper_b = ('A' as u32) <= (b as u32) && (b as u32) <= ('Z' as u32);
        let eq = a == b || (upper_a && (b as u32) == (a as u32) + 32) || (upper_b && (a as u32)
            == (b as u32) + 32);
        if !eq {
            proof {
                assert(!ascii_eq_char(s@[k as int], t@[k as int]));
            }
            return false;
        }
        k = k + 1;
    }
    true
}

/// The vocabulary known to the store, reduced to what the duplicate check
/// reads: each entry's text and language.
pub struct VocabSet {
    pub entries: Vec<(Vec<char>, Language)>,
}

pub open spec fn vocab_views(s: Seq<(Vec<char>, Language)>) -> Seq<(Seq<char>, Language)> {
    s.map_values(|e: (Vec<char>, Language)| (e.0@, e.1))
}

impl View for VocabSet {
    type V = Seq<(Seq<char>, Language)>;

    open spec fn view(&self) -> Seq<(Seq<char>, Language)> {
        vocab_views(self.entries@)
    }
}

/// Whether the known vocabulary holds `text` in `language`, up to ASCII
/// case.
pub open spec fn vocab_contains(
    known: Seq<(Seq<char>, Language)>,
    text: Seq<char>,
    language: Language,
) -> bool {
    exists|k: int|
        0 <= k < known.len() && ascii_eq(#[trigger] known[k].0, text) && known[k].1 == language
}

impl VocabSet {
    /// An empty vocabulary.
    pub fn new() -> (r: Self)
        ensures
            r@ == Seq::<(Seq<char>, Language)>::empty(),
    {
        let r = VocabSet { entries: Vec::new() };
        proof {
            assert(r@ =~= Seq::<(Seq<char>, Language)>::empty());
        }
        r
    }

    /// Records one stored word.
    pub fn insert(&mut self, text: Vec<char>, language: Language)
        ensures
            final(self)@ == old(self)@.push((text@, language)),
    {
        let ghost tv = text@;
        self.entries.push((text, language));
        proof {
            assert(final(self)@ =~= old(self)@.push((tv, language)));
        }
    }

    /// The case-insensitive duplicate check the store performs.
    pub fn contains(&self, text: &Vec<char>, language: Language) -> (r: bool)
        ensures
            r == vocab_contains(self@, text@, language),
    {
        let mut k: usize = 0;
        while k < self.entries.len()
            invariant
                k <= self.entries@.len(),
                forall|j: int|
                    0 <= j < k ==> !(ascii_eq(#[trigger] self@[j].0, text@) && self@[j].1
                        == language),
            decreases self.entries@.len() - k,
        {
            proof {
                assert(self@[k as int] == (self.entries@[k as int].0@, self.entries@[k as int].1));
            }
            let entry = &self.entries[k];
            if ascii_eq_chars(&entry.0, text) && language_eq(entry.1, language) {
                proof {
                    assert(ascii_eq(self@[k as int].0, text@) && self@[k as int].1 == language);
                }
                return true;
            }
            k = k + 1;
        }
        false
    }
}

/// Whether two languages are the same.
pub fn language_eq(a: Language, b: Language) -> (r: bool)
    ensures
        r == (a == b),
{
    match (a, b) {
        (Language::Dutch, Language::Dutch) => true,
        (Language::English, Language::English) => true,
        _ => false,
    }
}

/// A word the import decided to persist.
#[derive(Debug)]
pub struct NewWord {
    pub text: String,
    pub translation: String,
    pub language: Language,
    pub chapter: String,
    pub group: String,
}

/// Mathematical image of a [`NewWord`].
pub struct NewWordV {
    pub text: Seq<char>,
    pub translation: Seq<char>,
    pub language: Language,
    pub chapter: Seq<char>,
    pub group: Seq<char>,
}

impl View for NewWord {
    type V = NewWordV;

    open spec fn view(&self) -> NewWordV {
        NewWordV {
            text: self.text@,
            translation: self.translation@,
            language: self.language,
            chapter: self.chapter@,
            group: self.group@,
        }
    }
}

pub open spec fn word_views(s: Seq<NewWord>) -> Seq<NewWordV> {
    s.map_values(|w: NewWord| w@)
}

/// The one data inconsistency the import detects itself: the translation
/// capability answered with a different number of translations than texts.
#[derive(PartialEq, Eq, Structural, Clone, Copy, Debug)]
pub enum ImportError {
    CountMismatch,
}

/// Processing the pairs of one translated chunk, in order: a pair whose text
/// the known vocabulary already holds (case-insensitively, same language) is
/// skipped; any other becomes a new word, immediately known to later pairs.
pub open spec fn process_pairs(
    known: Seq<(Seq<char>, Language)>,
    chunk: Seq<GroupedItemV>,
    ts: Seq<Seq<char>>,
    chapter: Seq<char>,
) -> (Seq<(Seq<char>, Language)>, Seq<NewWordV>, int, int)
    recommends
        ts.len() == chunk.len(),
    decreases chunk.len(),
{
    if chunk.len() == 0 {
        (known, Seq::empty(), 0, 0)
    } else {
        let prev = process_pairs(known, chunk.drop_last(), ts.drop_last(), chapter);
        let it = chunk.last();
        let tr = ts.last();
        if vocab_contains(prev.0, it.text, Language::Dutch) {
            (prev.0, prev.1, prev.2, prev.3 + 1)
        } else {
            (
                prev.0.push((it.text, Language::Dutch)),
                prev.1.push(
                    NewWordV {
                        text: it.text,
                        translation: tr,
                        language: Language::Dutch,
                        chapter,
                        group: it.group,
                    },
                ),
                prev.2 + 1,
                prev.3,
            )
        }
    }
}

/// Mathematical image of an [`ImportRun`].
pub struct ImportRunV {
    pub items: Seq<GroupedItemV>,
    pub chapter: Seq<char>,
    pub known: Seq<(Seq<char>, Language)>,
    pub next: int,
    pub inserted: int,
    pub skipped: int,
    pub failed: bool,
}

/// The import orchestrator's state: the grouped items of one import, the
/// chapter they are filed under, the vocabulary known so far, how far the
/// translation has progressed, and the insert/skip counts.
pub struct ImportRun {
    items: Vec<GroupedItem>,
    chapter: String,
    known: VocabSet,
    next: usize,
    inserted: usize,
    skipped: usize,
    failed: bool,
}

impl View for ImportRun {
    type V = ImportRunV;

    closed spec fn view(&self) -> ImportRunV {
        ImportRunV {
            items: item_views(self.items@),
            chapter: self.chapter@,
            known: self.known@,
            next: self.next as int,
            inserted: self.inserted as int,
            skipped: self.skipped as int,
            failed: self.failed,
        }
    }
}

/// Well-formedness: progress stays within the items, and every processed
/// item was counted exactly once, as an insert or as a skip.
pub open spec fn run_wf(s: ImportRunV) -> bool {
    &&& 0 <= s.next <= s.items.len()
    &&& s.inserted >= 0
    &&& s.skipped >= 0
    &&& s.inserted + s.skipped == s.next
}

/// Where the pending chunk ends: at most [`CHUNK_CAP`] items past `next`.
pub open spec fn chunk_end(s: ImportRunV) -> int {
    if s.next + CHUNK_CAP <= s.items.len() {
        s.next + CHUNK_CAP as int
    } else {
        s.items.len() as int
    }
}

/// The items the next translation call carries.
pub open spec fn pending_chunk(s: ImportRunV) -> Seq<GroupedItemV> {
    s.items.subrange(s.next, chunk_end(s))
}

/// Whether another translation call is owed: not failed and items remain.
pub open spec fn has_pending(s: ImportRunV) -> bool {
    !s.failed && s.next < s.items.len()
}

/// What feeding one chunk's translations does: a count mismatch fails the
/// run and aborts the remaining work; otherwise each (item, translation)
/// pair is deduplicated against the vocabulary known so far and either
/// skipped or turned into a new word, and progress advances past the chunk.
pub open spec fn apply_chunk_spec(s: ImportRunV, ts: Seq<Seq<char>>) -> (
    ImportRunV,
    Result<Seq<NewWordV>, ImportError>,
) {
    let chunk = pending_chunk(s);
    if ts.len() != chunk.len() {
        (ImportRunV { failed: true, ..s }, Err(ImportError::CountMismatch))
    } else {
        let p = process_pairs(s.known, chunk, ts, s.chapter);
        (
            ImportRunV {
                known: p.0,
                next: chunk_end(s),
                inserted: s.inserted + p.2,
                skipped: s.skipped + p.3,
                ..s
            },
            Ok(p.1),
        )
    }
}

proof fn lemma_word_views_push(s: Seq<NewWord>)
    requires
        s.len() > 0,
    ensures
        word_views(s) == word_views(s.drop_last()).push(s.last()@),
{
    assert(word_views(s) =~= word_views(s.drop_last()).push(s.last()@)) by {
        assert forall|k: int| 0 <= k < s.len() implies word_views(s)[k] == word_views(
            s.drop_last(),
        ).push(s.last()@)[k] by {
            if k < s.len() - 1 {
                assert(s.drop_last()[k] == s[k]);
            }
        }
    }
}

/// Bounds on what one chunk contributes to the counts.
proof fn lemma_process_pairs_counts(
    known: Seq<(Seq<char>, Language)>,
    chunk: Seq<GroupedItemV>,
    ts: Seq<Seq<char>>,
    chapter: Seq<char>,
)
    ensures
        process_pairs(known, chunk, ts, chapter).2 >= 0,
        process_pairs(known, chunk, ts, chapter).3 >= 0,
        process_pairs(known, chunk, ts, chapter).2 + process_pairs(known, chunk, ts, chapter).3
            == chunk.len(),
    decreases chunk.len(),
{
    if chunk.len() > 0 {
        lemma_process_pairs_counts(known, chunk.drop_last(), ts.drop_last(), chapter);
    }
}

/// A run that finished without failing accounted for every item: the insert
/// and skip counts sum to the number of items imported.
pub proof fn lemma_run_complete(s: ImportRunV)
    requires
        run_wf(s),
        !has_pending(s),
        !s.failed,
    ensures
        s.inserted + s.skipped == s.items.len(),
{
}

impl ImportRun {
    /// Begins an import of `items` into `chapter`, against the vocabulary
    /// already `known` to the store.
    pub fn new(items: Vec<GroupedItem>, chapter: String, known: VocabSet) -> (r: Self)
        ensures
            r@ == (ImportRunV {
                items: item_views(items@),
                chapter: chapter@,
                known: known@,
                next: 0,
                inserted: 0,
                skipped: 0,
                failed: false,
            }),
            run_wf(r@),
    {
        ImportRun { items, chapter, known, next: 0, inserted: 0, skipped: 0, failed: false }
    }

    /// The texts of the next translation call, in item order; `None` once
    /// every item is translated or the run has failed.
    pub fn next_chunk(&self) -> (r: Option<Vec<String>>)
        requires
            run_wf(self@),
        ensures
            r is Some <==> has_pending(self@),
            r is Some ==> string_views(r->Some_0@) == pending_chunk(self@).map_values(
                |g: GroupedItemV| g.text,
            ),
    {
        if self.failed || self.next >= self.items.len() {
            return None;
        }
        let end = if self.items.len() - self.next >= CHUNK_CAP {
            self.next + CHUNK_CAP
        } else {
            self.items.len()
        };
        let ghost goal = pending_chunk(self@).map_values(|g: GroupedItemV| g.text);
        proof {
            assert(goal.len() == end - self.next);
        }
        let mut texts: Vec<String> = Vec::new();
        let mut k: usize = self.next;
        while k < end
            invariant
                self.next <= k <= end,
                end as int == chunk_end(self@),
                end <= self.items@.len(),
                goal == pending_chunk(self@).map_values(|g: GroupedItemV| g.text),
                goal.len() == end - self.next,
                string_views(texts@) == goal.take(k - self.next),
            decreases end - k,
        {
            let t = self.items[k].text.clone();
            let ghost prev = texts@;
            texts.push(t);
            proof {
                assert(self.items@[k as int]@ == item_views(self.items@)[k as int]);
                assert(goal[k - self.next] == pending_chunk(self@)[k - self.next].text);
                assert(pending_chunk(self@)[k - self.next] == item_views(self.items@)[k as int]);
                assert(string_views(texts@) =~= string_views(prev).push(self.items@[k as int].text@));
                assert(goal.take(k + 1 - self.next) =~= goal.take(k - self.next).push(
                    goal[k - self.next],
                ));
            }
            k = k + 1;
        }
        proof {
            assert(goal.take(goal.len() as int) =~= goal);
        }
        Some(texts)
    }

    /// Feeds back the translations of the pending chunk.  A count mismatch
    /// is a hard failure: the run aborts and no word of the chunk is
    /// produced.  Otherwise returns the new words for the shell to persist,
    /// already recorded as known so later duplicates are skipped.
    pub fn apply_chunk(&mut self, translations: Vec<String>) -> (r: Result<
        Vec<NewWord>,
        ImportError,
    >)
        requires
            run_wf(old(self)@),
            has_pending(old(self)@),
        ensures
            run_wf(final(self)@),
            final(self)@ == apply_chunk_spec(old(self)@, string_views(translations@)).0,
            r is Ok <==> apply_chunk_spec(old(self)@, string_views(translations@)).1 is Ok,
            r is Ok ==> word_views(r->Ok_0@) == apply_chunk_spec(
                old(self)@,
                string_views(translations@),
            ).1->Ok_0,
            r is Err ==> r->Err_0 == apply_chunk_spec(
                old(self)@,
                string_views(translations@),
            ).1->Err_0,
    {
        let end = if self.items.len() - self.next >= CHUNK_CAP {
            self.next + CHUNK_CAP
        } else {
            self.items.len()
        };
        let ghost s0 = old(self)@;
        let ghost chunkv = pending_chunk(s0);
        let ghost tsv = string_views(translations@);
        proof {
            assert(end as int == chunk_end(s0));
            assert(chunkv.len() == end - self.next);
        }
        let chunk_len = end - self.next;
        if translations.len() != chunk_len {
            self.failed = true;
            return Err(ImportError::CountMismatch);
        }
        let start = self.next;
        let mut words: Vec<NewWord> = Vec::new();
        let mut k: usize = 0;
        proof {
            assert(chunkv.take(0) =~= Seq::<GroupedItemV>::empty());
            assert(tsv.take(0) =~= Seq::<Seq<char>>::empty());
            assert(word_views(words@) =~= Seq::<NewWordV>::empty());
        }
        while k < chunk_len
            invariant
                0 <= k <= chunk_len,
                start + chunk_len == end,
                end <= self.items@.len(),
                start == s0.next,
                chunk_len == chunkv.len(),
                tsv.len() == chunk_len,
                tsv == string_views(translations@),
                chunkv == pending_chunk(s0),
                item_views(self.items@) == s0.items,
                self.chapter@ == s0.chapter,
                self.next as int == s0.next,
                self.failed == s0.failed,
                ({
                    let p = process_pairs(s0.known, chunkv.take(k as int), tsv.take(k as int), s0.chapter);
                    &&& self.known@ == p.0
                    &&& word_views(words@) == p.1
                    &&& self.inserted as int == s0.inserted + p.2
                    &&& self.skipped as int == s0.skipped + p.3
                }),
                self.inserted + self.skipped == s0.next + k,
            decreases chunk_len - k,
        {
            let ghost p_before = process_pairs(
                s0.known,
                chunkv.take(k as int),
                tsv.take(k as int),
                s0.chapter,
            );
            proof {
                lemma_process_pairs_counts(
                    s0.known,
                    chunkv.take(k + 1),
                    tsv.take(k + 1),
                    s0.chapter,
                );
                assert(chunkv.take(k + 1).drop_last() =~= chunkv.take(k as int));
                assert(chunkv.take(k + 1).last() == chunkv[k as int]);
                assert(tsv.take(k + 1).drop_last() =~= tsv.take(k as int));
                assert(tsv.take(k + 1).last() == tsv[k as int]);
                assert(chunkv[k as int] == item_views(self.items@)[start + k]);
                assert(self.items@[start + k]@ == item_views(self.items@)[start + k]);
                assert(tsv[k as int] == translations@[k as int]@);
            }
            let tchars = str_to_chars(self.items[start + k].text.as_str());
            if self.known.contains(&tchars, Language::Dutch) {
                self.skipped = self.skipped + 1;
            } else {
                self.known.insert(tchars, Language::Dutch);
                let w = NewWord {
                    text: self.items[start + k].text.clone(),
                    translation: translations[k].clone(),
                    language: Language::Dutch,
                    chapter: self.chapter.clone(),
                    group: self.items[start + k].group.clone(),
                };
                proof {
                    assert(w@ == (NewWordV {
                        text: chunkv[k as int].text,
                        translation: tsv[k as int],
                        language: Language::Dutch,
                        chapter: s0.chapter,
                        group: chunkv[k as int].group,
                    }));
                }
                let ghost prev_words = words@;
                words.push(w);
                proof {
                    lemma_word_views_push(words@);
                    assert(words@.drop_last() =~= prev_words);
                }
                self.inserted = self.inserted + 1;
            }
            k = k + 1;
        }
        proof {
            assert(chunkv.take(chunk_len as int) =~= chunkv);
            assert(tsv.take(chunk_len as int) =~= tsv);
        }
        self.next = end;
        Ok(words)
    }

    /// Records that the translation call for the pending chunk failed: the
    /// remaining work is abandoned, while what earlier chunks inserted
    /// stays counted and persisted.
    pub fn abort(&mut self)
        ensures
            final(self)@ == (ImportRunV { failed: true, ..old(self)@ }),
    {
        self.failed = true;
    }

    /// How many words this run inserted and skipped so far.
    pub fn counts(&self) -> (r: (usize, usize))
        ensures
            r.0 as int == self@.inserted,
            r.1 as int == self@.skipped,
    {
        (self.inserted, self.skipped)
    }

    /// Whether the run was aborted by a failure.
    pub fn is_failed(&self) -> (r: bool)
        ensures
            r == self@.failed,
    {
        self.failed
    }
}

} // verus!
