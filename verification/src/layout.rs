//! Page-layout analysis: fixed-point page coordinates, the median entry
//! height, and the greedy single-pass clustering of entries into reading
//! columns by horizontal position.
//!
//! Coordinates are fixed-point fractions of the page side: `COORD_ONE`
//! stands for the full normalized extent.  OCR returns lines in no reliable
//! reading order on multi-column pages, so entries are sorted by ascending
//! horizontal position and each is assigned to the nearest existing bucket
//! when its distance to that bucket's running centroid stays within
//! `COLUMN_THRESHOLD`; otherwise it opens a new bucket.  The pass is greedy
//! and deliberately order-dependent, and its result is pinned exactly by
//! [`columns_spec`].

use vstd::prelude::*;
use vstd::arithmetic::div_mod::lemma_div_is_ordered;
use vstd::arithmetic::div_mod::lemma_div_multiples_vanish;
use vstd::arithmetic::mul::lemma_mul_inequality;
use vstd::arithmetic::mul::lemma_mul_nonnegative;
use vstd::arithmetic::mul::lemma_mul_upper_bound;
use crate::order::lemma_insert_by_at;
use crate::order::lemma_sort_by_key_len;
use crate::order::lemma_sort_by_key_sorted;
use crate::order::sort_by_key;
use crate::order::sorted_by_key;

verus! {

/// One full page side in fixed-point page coordinates.
pub const COORD_ONE: u32 = 10_000;

/// How far an entry may sit from a column centroid and still join the
/// column: 0.08 of the page width, in fixed-point coordinates.
pub const COLUMN_THRESHOLD: u32 = 800;

/// A raw OCR line: text, bounding box in fixed-point page coordinates with
/// the origin at the bottom-left, and recognizer confidence (also fixed
/// point).  Immutable input; the confidence is carried but never read.
pub struct RawLine {
    pub text: String,
    pub x: u32,
    pub y: u32,
    pub w: u32,
    pub h: u32,
    pub confidence: u32,
}

/// Mathematical image of a [`RawLine`].
pub struct RawLineV {
    pub text: Seq<char>,
    pub x: int,
    pub y: int,
    pub w: int,
    pub h: int,
    pub confidence: int,
}

impl View for RawLine {
    type V = RawLineV;

    open spec fn view(&self) -> RawLineV {
        RawLineV {
            text: self.text@,
            x: self.x as int,
            y: self.y as int,
            w: self.w as int,
            h: self.h as int,
            confidence: self.confidence as int,
        }
    }
}

/// A normalized entry: cleaned text and a top-origin vertical position, so
/// smaller `y_top` means higher on the page.
pub struct LineEntry {
    pub text: Vec<char>,
    pub x: u32,
    pub y_top: u32,
    pub height: u32,
}

/// Mathematical image of a [`LineEntry`].
pub struct EntryV {
    pub text: Seq<char>,
    pub x: int,
    pub y_top: int,
    pub height: int,
}

impl View for LineEntry {
    type V = EntryV;

    open spec fn view(&self) -> EntryV {
        EntryV {
            text: self.text@,
            x: self.x as int,
            y_top: self.y_top as int,
            height: self.height as int,
        }
    }
}

/// A column under construction: the running mean of its members' horizontal
/// positions, and the members in the order they joined.
pub struct ColumnBucket {
    pub center: u32,
    pub lines: Vec<LineEntry>,
}

/// Mathematical image of a [`ColumnBucket`].
pub struct BucketV {
    pub center: int,
    pub lines: Seq<EntryV>,
}

impl View for ColumnBucket {
    type V = BucketV;

    open spec fn view(&self) -> BucketV {
        BucketV { center: self.center as int, lines: entry_views(self.lines@) }
    }
}

pub open spec fn entry_views(s: Seq<LineEntry>) -> Seq<EntryV> {
    s.map_values(|e: LineEntry| e@)
}

pub open spec fn bucket_views(s: Seq<ColumnBucket>) -> Seq<BucketV> {
    s.map_values(|b: ColumnBucket| b@)
}

pub open spec fn column_views(s: Seq<Vec<LineEntry>>) -> Seq<Seq<EntryV>> {
    s.map_values(|v: Vec<LineEntry>| entry_views(v@))
}

/// Sort key: horizontal position.
pub open spec fn by_x() -> spec_fn(EntryV) -> int {
    |e: EntryV| e.x
}

/// Sort key: top-origin vertical position.
pub open spec fn by_y_top() -> spec_fn(EntryV) -> int {
    |e: EntryV| e.y_top
}

/// Sort key: bucket centroid.
pub open spec fn by_center() -> spec_fn(BucketV) -> int {
    |b: BucketV| b.center
}

/// Sort key: an integer is its own key.
pub open spec fn by_value() -> spec_fn(int) -> int {
    |v: int| v
}

pub open spec fn int_views(s: Seq<u32>) -> Seq<int> {
    s.map_values(|v: u32| v as int)
}

/// Viewing a non-empty sequence of columns splits as view-of-front plus
/// view-of-last.
proof fn lemma_column_views_push(s: Seq<Vec<LineEntry>>)
    requires
        s.len() > 0,
    ensures
        column_views(s) == column_views(s.drop_last()).push(entry_views(s.last()@)),
{
    assert(column_views(s) =~= column_views(s.drop_last()).push(entry_views(s.last()@))) by {
        assert forall|k: int| 0 <= k < s.len() implies column_views(s)[k] == column_views(
            s.drop_last(),
        ).push(entry_views(s.last()@))[k] by {
            if k < s.len() - 1 {
                assert(s.drop_last()[k] == s[k]);
            }
        }
    }
}

/// Mapping buckets to their member lists commutes with dropping the last.
proof fn lemma_lines_map_push(s: Seq<BucketV>)
    requires
        s.len() > 0,
    ensures
        s.map_values(|b: BucketV| b.lines) == s.drop_last().map_values(
            |b: BucketV| b.lines,
        ).push(s.last().lines),
{
    let f = |b: BucketV| b.lines;
    let lhs = s.map_values(f);
    let rhs = s.drop_last().map_values(f).push(s.last().lines);
    assert forall|k: int| 0 <= k < s.len() implies #[trigger] lhs[k] == rhs[k] by {
        if k < s.len() - 1 {
            assert(s.drop_last()[k] == s[k]);
        }
    }
    assert(lhs =~= rhs);
}

/// Taking the head of a suffix of `orig` viewed entry-wise: the head is the
/// element of `orig` at the cut, and the tail is the next suffix.
pub(crate) proof fn lemma_entry_views_step(rv: Seq<LineEntry>, orig: Seq<EntryV>, i: int)
    requires
        0 <= i,
        rv.len() > 0,
        entry_views(rv) == orig.skip(i),
        i + rv.len() == orig.len(),
    ensures
        rv[0]@ == orig[i],
        entry_views(rv.remove(0)) == orig.skip(i + 1),
{
    assert(entry_views(rv)[0] == rv[0]@);
    assert(orig.skip(i)[0] == orig[i]);
    assert(entry_views(rv.remove(0)) =~= orig.skip(i + 1)) by {
        assert forall|k: int| 0 <= k < rv.len() - 1 implies entry_views(rv.remove(0))[k]
            == orig.skip(i + 1)[k] by {
            assert(rv.remove(0)[k] == rv[k + 1]);
            assert(entry_views(rv)[k + 1] == rv[k + 1]@);
            assert(orig.skip(i)[k + 1] == orig[i + 1 + k]);
        }
    }
}

pub(crate) proof fn lemma_column_views_step(rv: Seq<Vec<LineEntry>>, orig: Seq<Seq<EntryV>>, i: int)
    requires
        0 <= i,
        rv.len() > 0,
        column_views(rv) == orig.skip(i),
        i + rv.len() == orig.len(),
    ensures
        entry_views(rv[0]@) == orig[i],
        column_views(rv.remove(0)) == orig.skip(i + 1),
{
    assert(column_views(rv)[0] == entry_views(rv[0]@));
    assert(orig.skip(i)[0] == orig[i]);
    assert(column_views(rv.remove(0)) =~= orig.skip(i + 1)) by {
        assert forall|k: int| 0 <= k < rv.len() - 1 implies column_views(rv.remove(0))[k]
            == orig.skip(i + 1)[k] by {
            assert(rv.remove(0)[k] == rv[k + 1]);
            assert(column_views(rv)[k + 1] == entry_views(rv[k + 1]@));
            assert(orig.skip(i)[k + 1] == orig[i + 1 + k]);
        }
    }
}

proof fn lemma_bucket_views_step(rv: Seq<ColumnBucket>, orig: Seq<BucketV>, i: int)
    requires
        0 <= i,
        rv.len() > 0,
        bucket_views(rv) == orig.skip(i),
        i + rv.len() == orig.len(),
    ensures
        rv[0]@ == orig[i],
        bucket_views(rv.remove(0)) == orig.skip(i + 1),
{
    assert(bucket_views(rv)[0] == rv[0]@);
    assert(orig.skip(i)[0] == orig[i]);
    assert(bucket_views(rv.remove(0)) =~= orig.skip(i + 1)) by {
        assert forall|k: int| 0 <= k < rv.len() - 1 implies bucket_views(rv.remove(0))[k]
            == orig.skip(i + 1)[k] by {
            assert(rv.remove(0)[k] == rv[k + 1]);
            assert(bucket_views(rv)[k + 1] == rv[k + 1]@);
            assert(orig.skip(i)[k + 1] == orig[i + 1 + k]);
        }
    }
}

proof fn lemma_int_views_step(rv: Seq<u32>, orig: Seq<int>, i: int)
    requires
        0 <= i,
        rv.len() > 0,
        int_views(rv) == orig.skip(i),
        i + rv.len() == orig.len(),
    ensures
        rv[0] as int == orig[i],
        int_views(rv.remove(0)) == orig.skip(i + 1),
{
    assert(int_views(rv)[0] == rv[0] as int);
    assert(orig.skip(i)[0] == orig[i]);
    assert(int_views(rv.remove(0)) =~= orig.skip(i + 1)) by {
        assert forall|k: int| 0 <= k < rv.len() - 1 implies int_views(rv.remove(0))[k]
            == orig.skip(i + 1)[k] by {
            assert(rv.remove(0)[k] == rv[k + 1]);
            assert(int_views(rv)[k + 1] == rv[k + 1] as int);
            assert(orig.skip(i)[k + 1] == orig[i + 1 + k]);
        }
    }
}

/// The median height: middle element of the sorted heights, or the mean of
/// the two middle elements when their number is even; 0 of no heights.
pub open spec fn median_spec(hs: Seq<int>) -> int {
    if hs.len() == 0 {
        0
    } else {
        let sorted = sort_by_key(hs, by_value());
        let mid = (hs.len() / 2) as int;
        if hs.len() % 2 == 0 {
            (sorted[mid - 1] + sorted[mid]) / 2
        } else {
            sorted[mid]
        }
    }
}

/// Stably sorts integer values ascending.
fn sort_u32(values: Vec<u32>) -> (r: Vec<u32>)
    ensures
        int_views(r@) == sort_by_key(int_views(values@), by_value()),
{
    let ghost orig = int_views(values@);
    let mut rest = values;
    let mut out: Vec<u32> = Vec::new();
    let ghost mut i: int = 0;
    proof {
        assert(int_views(rest@) =~= orig.skip(0));
        assert(int_views(out@) =~= sort_by_key(orig.take(0), by_value()));
    }
    while rest.len() > 0
        invariant
            0 <= i <= orig.len(),
            orig.len() - i == rest@.len(),
            int_views(rest@) == orig.skip(i),
            int_views(out@) == sort_by_key(orig.take(i), by_value()),
        decreases rest@.len(),
    {
        let ghost rv = rest@;
        let e = rest.remove(0);
        proof {
            lemma_int_views_step(rv, orig, i);
        }
        let mut idx: usize = 0;
        while idx < out.len() && out[idx] <= e
            invariant
                idx <= out@.len(),
                forall|k: int| 0 <= k < idx ==> int_views(out@)[k] <= e as int,
            decreases out@.len() - idx,
        {
            idx = idx + 1;
        }
        let ghost prev = int_views(out@);
        proof {
            assert(idx < out@.len() ==> prev[idx as int] > e as int);
            lemma_insert_by_at(e as int, prev, by_value(), idx as int);
        }
        out.insert(idx, e);
        proof {
            assert(int_views(out@) =~= prev.take(idx as int) + seq![e as int] + prev.skip(
                idx as int,
            ));
            assert(orig.take(i + 1).drop_last() =~= orig.take(i));
            assert(orig.take(i + 1).last() == orig[i]);
            i = i + 1;
        }
    }
    proof {
        assert(orig.take(orig.len() as int) =~= orig);
    }
    out
}

/// The median of the given heights, fixed point, consuming the collection
/// as the heights are reordered in place.
pub fn median(values: Vec<u32>) -> (r: u32)
    ensures
        r as int == median_spec(int_views(values@)),
{
    let ghost hs = int_views(values@);
    if values.len() == 0 {
        return 0;
    }
    let n = values.len();
    let sorted = sort_u32(values);
    proof {
        lemma_sort_by_key_len(hs, by_value());
    }
    let mid = n / 2;
    if n % 2 == 0 {
        let a = sorted[mid - 1];
        let b = sorted[mid];
        let sum = (a as u64) + (b as u64);
        let avg = sum / 2;
        proof {
            assert(avg as int == (int_views(sorted@)[mid - 1] + int_views(sorted@)[mid as int])
                / 2);
        }
        avg as u32
    } else {
        sorted[mid]
    }
}

/// The absolute distance between two positions.
pub open spec fn dist(a: int, b: int) -> int {
    if a >= b {
        a - b
    } else {
        b - a
    }
}

/// The index of the bucket whose centroid lies nearest to `x`; the earliest
/// such index on ties.  Meaningful only for non-empty `bs`.
pub open spec fn best_index(bs: Seq<BucketV>, x: int) -> int
    decreases bs.len(),
{
    if bs.len() <= 1 {
        0
    } else {
        let rest = best_index(bs.drop_last(), x);
        if dist(bs.last().center, x) < dist(bs[rest].center, x) {
            bs.len() - 1
        } else {
            rest
        }
    }
}

pub proof fn lemma_best_index_in_range(bs: Seq<BucketV>, x: int)
    requires
        bs.len() > 0,
    ensures
        0 <= best_index(bs, x) < bs.len(),
    decreases bs.len(),
{
    if bs.len() > 1 {
        lemma_best_index_in_range(bs.drop_last(), x);
    }
}

/// A bucket absorbing one entry: the centroid moves to the incremental
/// mean, rounded down, and the entry joins the member list.
pub open spec fn bucket_add(b: BucketV, e: EntryV) -> BucketV {
    BucketV {
        center: (b.center * b.lines.len() + e.x) / (b.lines.len() + 1) as int,
        lines: b.lines.push(e),
    }
}

/// A fresh bucket around one entry.
pub open spec fn bucket_new(e: EntryV) -> BucketV {
    BucketV { center: e.x, lines: seq![e] }
}

/// The greedy clustering pass over entries already sorted by `x`: each entry
/// joins the nearest bucket when within the threshold, else opens a new one.
pub open spec fn cluster(es: Seq<EntryV>) -> Seq<BucketV>
    decreases es.len(),
{
    if es.len() == 0 {
        Seq::empty()
    } else {
        let bs = cluster(es.drop_last());
        let e = es.last();
        if bs.len() == 0 {
            bs.push(bucket_new(e))
        } else {
            let bi = best_index(bs, e.x);
            if dist(bs[bi].center, e.x) <= COLUMN_THRESHOLD as int {
                bs.update(bi, bucket_add(bs[bi], e))
            } else {
                bs.push(bucket_new(e))
            }
        }
    }
}

/// What splitting into columns returns: entries sorted by ascending `x`,
/// clustered greedily, buckets ordered left to right by final centroid, and
/// each bucket's members kept in the order they joined.
pub open spec fn columns_spec(es: Seq<EntryV>) -> Seq<Seq<EntryV>> {
    sort_by_key(cluster(sort_by_key(es, by_x())), by_center()).map_values(|b: BucketV| b.lines)
}

/// The incremental mean of values bounded by `m` stays within `[0, m]`.
proof fn lemma_mean_bounded(c: int, x: int, n: int, m: int)
    requires
        0 <= c <= m,
        0 <= x <= m,
        n >= 0,
    ensures
        0 <= (c * n + x) / (n + 1) <= m,
{
    lemma_mul_inequality(c, m, n);
    assert(m * n + m == m * (n + 1)) by (nonlinear_arith);
    lemma_div_is_ordered(c * n + x, m * (n + 1), n + 1);
    lemma_div_multiples_vanish(m, n + 1);
    assert(m * (n + 1) == (n + 1) * m) by (nonlinear_arith);
    lemma_mul_nonnegative(c, n);
    lemma_div_is_ordered(0, c * n + x, n + 1);
}

impl ColumnBucket {
    /// Opens a column around its first entry.
    pub fn new(entry: LineEntry) -> (r: Self)
        ensures
            r@ == bucket_new(entry@),
    {
        let cx = entry.x;
        let mut lines: Vec<LineEntry> = Vec::new();
        let ghost ev = entry@;
        lines.push(entry);
        let r = ColumnBucket { center: cx, lines };
        proof {
            assert(entry_views(r.lines@) =~= seq![ev]);
        }
        r
    }

    /// Adds an entry, updating the centroid to the incremental mean of the
    /// members' horizontal positions.
    pub fn add(&mut self, entry: LineEntry)
        ensures
            final(self)@ == bucket_add(old(self)@, entry@),
    {
        let n = self.lines.len();
        let ghost ev = entry@;
        proof {
            lemma_mul_upper_bound(self.center as int, u32::MAX as int, n as int, usize::MAX as int);
            assert((u32::MAX as int) * (usize::MAX as int) + (u32::MAX as int) < (u128::MAX
                as int)) by (nonlinear_arith);
            lemma_mean_bounded(self.center as int, entry.x as int, n as int, u32::MAX as int);
        }
        let num = (self.center as u128) * (n as u128) + (entry.x as u128);
        let den = (n as u128) + 1;
        let q = num / den;
        self.center = q as u32;
        self.lines.push(entry);
        proof {
            assert(entry_views(self.lines@) =~= entry_views(old(self).lines@).push(ev));
        }
    }
}

/// Partitions entries into left-to-right reading columns by horizontal
/// position alone; within a column, members keep the order in which the
/// greedy pass assigned them.  The result is a function of the entries
/// alone: [`columns_spec`] pins column count, membership and order, so the
/// clustering is deterministic.
pub fn split_into_columns(entries: Vec<LineEntry>) -> (r: Vec<Vec<LineEntry>>)
    ensures
        column_views(r@) == columns_spec(entry_views(entries@)),
{
    let ghost orig = entry_views(entries@);
    let sorted = sort_entries_by_x(entries);
    let ghost sv = sort_by_key(orig, by_x());

    let mut buckets: Vec<ColumnBucket> = Vec::new();
    let mut rest = sorted;
    let ghost mut i: int = 0;
    proof {
        assert(entry_views(rest@) =~= sv.skip(0));
        assert(sv.take(0) =~= Seq::<EntryV>::empty());
        assert(bucket_views(buckets@) =~= cluster(sv.take(0)));
    }
    while rest.len() > 0
        invariant
            0 <= i <= sv.len(),
            sv.len() - i == rest@.len(),
            entry_views(rest@) == sv.skip(i),
            bucket_views(buckets@) == cluster(sv.take(i)),
        decreases rest@.len(),
    {
        let ghost rv = rest@;
        let e = rest.remove(0);
        proof {
            lemma_entry_views_step(rv, sv, i);
            assert(sv.take(i + 1).drop_last() =~= sv.take(i));
            assert(sv.take(i + 1).last() == sv[i]);
        }
        let ghost bs = bucket_views(buckets@);
        if buckets.len() == 0 {
            let b = ColumnBucket::new(e);
            buckets.push(b);
            proof {
                assert(bucket_views(buckets@) =~= bs.push(bucket_new(e@)));
            }
        } else {
            let mut best_idx: usize = 0;
            let mut best_dist: u32 = dist_u32(buckets[0].center, e.x);
            let mut k: usize = 1;
            proof {
                assert(bs.take(1).drop_last() =~= Seq::<BucketV>::empty());
                assert(bs.take(1) =~= seq![bs[0]]);
            }
            while k < buckets.len()
                invariant
                    1 <= k <= bs.len(),
                    bs == bucket_views(buckets@),
                    bs.len() == buckets@.len() > 0,
                    0 <= i < sv.len(),
                    e@ == sv[i],
                    best_idx < k,
                    best_idx as int == best_index(bs.take(k as int), e@.x),
                    best_dist as int == dist(bs[best_idx as int].center, e@.x),
                decreases bs.len() - k,
            {
                let d = dist_u32(buckets[k].center, e.x);
                proof {
                    assert(bs.take(k + 1).drop_last() =~= bs.take(k as int));
                    assert(bs.take(k + 1).last() == bs[k as int]);
                    lemma_best_index_in_range(bs.take(k as int), e@.x);
                }
                if d < best_dist {
                    best_idx = k;
                    best_dist = d;
                }
                k = k + 1;
            }
            proof {
                assert(bs.take(bs.len() as int) =~= bs);
                lemma_best_index_in_range(bs, e@.x);
            }
            if best_dist <= COLUMN_THRESHOLD {
                let ghost before = bucket_views(buckets@);
                let bucket = &mut buckets[best_idx];
                bucket.add(e);
                proof {
                    assert(bucket_views(buckets@) =~= before.update(
                        best_idx as int,
                        bucket_add(before[best_idx as int], sv[i]),
                    ));
                }
            } else {
                let b = ColumnBucket::new(e);
                buckets.push(b);
                proof {
                    assert(bucket_views(buckets@) =~= bs.push(bucket_new(sv[i])));
                }
            }
        }
        proof {
            i = i + 1;
        }
    }
    proof {
        assert(sv.take(sv.len() as int) =~= sv);
    }

    let ordered = sort_buckets_by_center(buckets);
    let ghost obs = sort_by_key(cluster(sv), by_center());

    let mut r: Vec<Vec<LineEntry>> = Vec::new();
    let mut brest = ordered;
    let ghost mut j: int = 0;
    proof {
        assert(bucket_views(brest@) =~= obs.skip(0));
        assert(column_views(r@) =~= obs.take(0).map_values(|b: BucketV| b.lines));
    }
    while brest.len() > 0
        invariant
            0 <= j <= obs.len(),
            obs.len() - j == brest@.len(),
            bucket_views(brest@) == obs.skip(j),
            column_views(r@) == obs.take(j).map_values(|b: BucketV| b.lines),
        decreases brest@.len(),
    {
        let ghost bv = brest@;
        let b = brest.remove(0);
        proof {
            lemma_bucket_views_step(bv, obs, j);
        }
        let ghost prev_r = r@;
        let ghost bl = b.lines@;
        r.push(b.lines);
        proof {
            assert(entry_views(bl) == obs[j].lines);
            assert(r@.drop_last() =~= prev_r);
            assert(r@.last()@ == bl);
            lemma_column_views_push(r@);
            assert(obs.take(j + 1).drop_last() =~= obs.take(j));
            assert(obs.take(j + 1).last() == obs[j]);
            lemma_lines_map_push(obs.take(j + 1));
            j = j + 1;
        }
    }
    proof {
        assert(obs.take(obs.len() as int) =~= obs);
    }
    r
}

/// The absolute distance between two fixed-point positions.
fn dist_u32(a: u32, b: u32) -> (r: u32)
    ensures
        r as int == dist(a as int, b as int),
{
    if a >= b {
        a - b
    } else {
        b - a
    }
}

/// Stably sorts entries by ascending horizontal position.
pub fn sort_entries_by_x(entries: Vec<LineEntry>) -> (r: Vec<LineEntry>)
    ensures
        entry_views(r@) == sort_by_key(entry_views(entries@), by_x()),
{
    let ghost orig = entry_views(entries@);
    let mut rest = entries;
    let mut out: Vec<LineEntry> = Vec::new();
    let ghost mut i: int = 0;
    proof {
        assert(entry_views(rest@) =~= orig.skip(0));
        assert(entry_views(out@) =~= sort_by_key(orig.take(0), by_x()));
    }
    while rest.len() > 0
        invariant
            0 <= i <= orig.len(),
            orig.len() - i == rest@.len(),
            entry_views(rest@) == orig.skip(i),
            entry_views(out@) == sort_by_key(orig.take(i), by_x()),
        decreases rest@.len(),
    {
        let ghost rv = rest@;
        let e = rest.remove(0);
        proof {
            lemma_entry_views_step(rv, orig, i);
        }
        let mut idx: usize = 0;
        while idx < out.len() && out[idx].x <= e.x
            invariant
                idx <= out@.len(),
                e@ == orig[i],
                entry_views(out@) == sort_by_key(orig.take(i), by_x()),
                forall|k: int| 0 <= k < idx ==> entry_views(out@)[k].x <= e@.x,
            decreases out@.len() - idx,
        {
            idx = idx + 1;
        }
        let ghost prev = entry_views(out@);
        proof {
            assert(idx < out@.len() ==> prev[idx as int].x > e@.x);
            lemma_insert_by_at(e@, prev, by_x(), idx as int);
        }
        out.insert(idx, e);
        proof {
            assert(entry_views(out@) =~= prev.take(idx as int) + seq![orig[i]] + prev.skip(
                idx as int,
            ));
            assert(orig.take(i + 1).drop_last() =~= orig.take(i));
            assert(orig.take(i + 1).last() == orig[i]);
            i = i + 1;
        }
    }
    proof {
        assert(orig.take(orig.len() as int) =~= orig);
    }
    out
}

/// Stably sorts entries by ascending top-origin vertical position, the
/// top-to-bottom reading order within one column.
pub fn sort_entries_by_y_top(entries: Vec<LineEntry>) -> (r: Vec<LineEntry>)
    ensures
        entry_views(r@) == sort_by_key(entry_views(entries@), by_y_top()),
{
    let ghost orig = entry_views(entries@);
    let mut rest = entries;
    let mut out: Vec<LineEntry> = Vec::new();
    let ghost mut i: int = 0;
    proof {
        assert(entry_views(rest@) =~= orig.skip(0));
        assert(entry_views(out@) =~= sort_by_key(orig.take(0), by_y_top()));
    }
    while rest.len() > 0
        invariant
            0 <= i <= orig.len(),
            orig.len() - i == rest@.len(),
            entry_views(rest@) == orig.skip(i),
            entry_views(out@) == sort_by_key(orig.take(i), by_y_top()),
        decreases rest@.len(),
    {
        let ghost rv = rest@;
        let e = rest.remove(0);
        proof {
            lemma_entry_views_step(rv, orig, i);
        }
        let mut idx: usize = 0;
        while idx < out.len() && out[idx].y_top <= e.y_top
            invariant
                idx <= out@.len(),
                e@ == orig[i],
                entry_views(out@) == sort_by_key(orig.take(i), by_y_top()),
                forall|k: int| 0 <= k < idx ==> entry_views(out@)[k].y_top <= e@.y_top,
            decreases out@.len() - idx,
        {
            idx = idx + 1;
        }
        let ghost prev = entry_views(out@);
        proof {
            assert(idx < out@.len() ==> prev[idx as int].y_top > e@.y_top);
            lemma_insert_by_at(e@, prev, by_y_top(), idx as int);
        }
        out.insert(idx, e);
        proof {
            assert(entry_views(out@) =~= prev.take(idx as int) + seq![orig[i]] + prev.skip(
                idx as int,
            ));
            assert(orig.take(i + 1).drop_last() =~= orig.take(i));
            assert(orig.take(i + 1).last() == orig[i]);
            i = i + 1;
        }
    }
    proof {
        assert(orig.take(orig.len() as int) =~= orig);
    }
    out
}

/// Stably sorts buckets by ascending centroid: left-to-right reading order.
fn sort_buckets_by_center(buckets: Vec<ColumnBucket>) -> (r: Vec<ColumnBucket>)
    ensures
        bucket_views(r@) == sort_by_key(bucket_views(buckets@), by_center()),
{
    let ghost orig = bucket_views(buckets@);
    let mut rest = buckets;
    let mut out: Vec<ColumnBucket> = Vec::new();
    let ghost mut i: int = 0;
    proof {
        assert(bucket_views(rest@) =~= orig.skip(0));
        assert(bucket_views(out@) =~= sort_by_key(orig.take(0), by_center()));
    }
    while rest.len() > 0
        invariant
            0 <= i <= orig.len(),
            orig.len() - i == rest@.len(),
            bucket_views(rest@) == orig.skip(i),
            bucket_views(out@) == sort_by_key(orig.take(i), by_center()),
        decreases rest@.len(),
    {
        let ghost rv = rest@;
        let b = rest.remove(0);
        proof {
            lemma_bucket_views_step(rv, orig, i);
        }
        let mut idx: usize = 0;
        while idx < out.len() && out[idx].center <= b.center
            invariant
                idx <= out@.len(),
                b@ == orig[i],
                bucket_views(out@) == sort_by_key(orig.take(i), by_center()),
                forall|k: int| 0 <= k < idx ==> bucket_views(out@)[k].center <= b@.center,
            decreases out@.len() - idx,
        {
            idx = idx + 1;
        }
        let ghost prev = bucket_views(out@);
        proof {
            assert(idx < out@.len() ==> prev[idx as int].center > b@.center);
            lemma_insert_by_at(b@, prev, by_center(), idx as int);
        }
        out.insert(idx, b);
        proof {
            assert(bucket_views(out@) =~= prev.take(idx as int) + seq![orig[i]] + prev.skip(
                idx as int,
            ));
            assert(orig.take(i + 1).drop_last() =~= orig.take(i));
            assert(orig.take(i + 1).last() == orig[i]);
            i = i + 1;
        }
    }
    proof {
        assert(orig.take(orig.len() as int) =~= orig);
    }
    out
}

/// Every column the clustering returns is sorted left to right.
pub proof fn lemma_columns_ordered(es: Seq<EntryV>)
    ensures
        sorted_by_key(sort_by_key(cluster(sort_by_key(es, by_x())), by_center()), by_center()),
{
    lemma_sort_by_key_sorted(cluster(sort_by_key(es, by_x())), by_center());
}

} // verus!
