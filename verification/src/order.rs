//! A stable sort, specified once and reused for every ordering the pipeline
//! performs: entries by horizontal position, columns by vertical position,
//! buckets by centroid, and heights for the median.
//!
//! The sort is specified as repeated ordered insertion; an element is placed
//! after every element whose key is less than or equal to its own, so equal
//! keys keep their original order.

use vstd::prelude::*;

verus! {

/// `e` inserted into `s` after every element whose key is `<=` its own.
pub open spec fn insert_by<T>(e: T, s: Seq<T>, key: spec_fn(T) -> int) -> Seq<T>
    decreases s.len(),
{
    if s.len() == 0 {
        seq![e]
    } else if key(s[0]) <= key(e) {
        seq![s[0]] + insert_by(e, s.drop_first(), key)
    } else {
        seq![e] + s
    }
}

/// `s` stably sorted by `key`: each element in turn inserted into the sorted
/// run of those before it.
pub open spec fn sort_by_key<T>(s: Seq<T>, key: spec_fn(T) -> int) -> Seq<T>
    decreases s.len(),
{
    if s.len() == 0 {
        s
    } else {
        insert_by(s.last(), sort_by_key(s.drop_last(), key), key)
    }
}

/// Keys never decrease along `s`.
pub open spec fn sorted_by_key<T>(s: Seq<T>, key: spec_fn(T) -> int) -> bool {
    forall|i: int, j: int| 0 <= i < j < s.len() ==> key(s[i]) <= key(s[j])
}

/// Inserting at the first position whose key exceeds `key(e)` is what
/// `insert_by` does: the sequence splits exactly there.
pub proof fn lemma_insert_by_at<T>(e: T, s: Seq<T>, key: spec_fn(T) -> int, p: int)
    requires
        0 <= p <= s.len(),
        forall|k: int| 0 <= k < p ==> key(s[k]) <= key(e),
        p < s.len() ==> key(s[p]) > key(e),
    ensures
        insert_by(e, s, key) == s.take(p) + seq![e] + s.skip(p),
    decreases s.len(),
{
    if p == 0 {
        if s.len() == 0 {
            assert(insert_by(e, s, key) =~= s.take(0) + seq![e] + s.skip(0));
        } else {
            assert(key(s[0]) > key(e));
            assert(insert_by(e, s, key) =~= s.take(0) + seq![e] + s.skip(0));
        }
    } else {
        assert(key(s[0]) <= key(e));
        lemma_insert_by_at(e, s.drop_first(), key, p - 1);
        assert(seq![s[0]] + (s.drop_first().take(p - 1) + seq![e] + s.drop_first().skip(p - 1))
            =~= s.take(p) + seq![e] + s.skip(p));
    }
}

pub proof fn lemma_insert_by_len<T>(e: T, s: Seq<T>, key: spec_fn(T) -> int)
    ensures
        insert_by(e, s, key).len() == s.len() + 1,
    decreases s.len(),
{
    if s.len() > 0 && key(s[0]) <= key(e) {
        lemma_insert_by_len(e, s.drop_first(), key);
    }
}

pub proof fn lemma_sort_by_key_len<T>(s: Seq<T>, key: spec_fn(T) -> int)
    ensures
        sort_by_key(s, key).len() == s.len(),
    decreases s.len(),
{
    if s.len() > 0 {
        lemma_sort_by_key_len(s.drop_last(), key);
        lemma_insert_by_len(s.last(), sort_by_key(s.drop_last(), key), key);
    }
}

/// Ordered insertion keeps a sorted sequence sorted.
pub proof fn lemma_insert_by_sorted<T>(e: T, s: Seq<T>, key: spec_fn(T) -> int)
    requires
        sorted_by_key(s, key),
    ensures
        sorted_by_key(insert_by(e, s, key), key),
    decreases s.len(),
{
    lemma_insert_by_len(e, s, key);
    if s.len() == 0 {
    } else if key(s[0]) <= key(e) {
        assert(sorted_by_key(s.drop_first(), key));
        lemma_insert_by_sorted(e, s.drop_first(), key);
        let r = seq![s[0]] + insert_by(e, s.drop_first(), key);
        lemma_insert_by_head_keys(e, s.drop_first(), key, key(s[0]));
        assert forall|i: int, j: int| 0 <= i < j < r.len() implies key(r[i]) <= key(r[j]) by {
            if i > 0 {
                assert(r[i] == insert_by(e, s.drop_first(), key)[i - 1]);
                assert(r[j] == insert_by(e, s.drop_first(), key)[j - 1]);
            }
        }
    } else {
        let r = seq![e] + s;
        assert forall|i: int, j: int| 0 <= i < j < r.len() implies key(r[i]) <= key(r[j]) by {
            if i > 0 {
                assert(r[i] == s[i - 1]);
                assert(r[j] == s[j - 1]);
            }
        }
    }
}

/// Every key in the insertion result is at least the smallest key involved.
proof fn lemma_insert_by_head_keys<T>(e: T, s: Seq<T>, key: spec_fn(T) -> int, lo: int)
    requires
        lo <= key(e),
        forall|k: int| 0 <= k < s.len() ==> lo <= key(s[k]),
    ensures
        forall|k: int|
            0 <= k < insert_by(e, s, key).len() ==> lo <= key(#[trigger] insert_by(e, s, key)[k]),
    decreases s.len(),
{
    lemma_insert_by_len(e, s, key);
    if s.len() == 0 {
    } else if key(s[0]) <= key(e) {
        assert(forall|k: int| 0 <= k < s.drop_first().len() ==> lo <= key(s.drop_first()[k]));
        lemma_insert_by_head_keys(e, s.drop_first(), key, lo);
        let r = seq![s[0]] + insert_by(e, s.drop_first(), key);
        assert forall|k: int| 0 <= k < r.len() implies lo <= key(r[k]) by {
            if k > 0 {
                assert(r[k] == insert_by(e, s.drop_first(), key)[k - 1]);
            }
        }
    }
}

/// The specified sort indeed sorts.
pub proof fn lemma_sort_by_key_sorted<T>(s: Seq<T>, key: spec_fn(T) -> int)
    ensures
        sorted_by_key(sort_by_key(s, key), key),
    decreases s.len(),
{
    if s.len() > 0 {
        lemma_sort_by_key_sorted(s.drop_last(), key);
        lemma_insert_by_sorted(s.last(), sort_by_key(s.drop_last(), key), key);
    }
}

} // verus!
