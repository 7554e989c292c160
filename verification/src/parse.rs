//! From raw OCR lines to grouped vocabulary items: the line normalizer, the
//! heading classifier, and the item assembler that threads the "current
//! group" across columns.

use vstd::prelude::*;
use crate::layout::by_y_top;
use crate::layout::column_views;
use crate::layout::columns_spec;
use crate::layout::entry_views;
use crate::layout::int_views;
use crate::layout::lemma_column_views_step;
use crate::layout::lemma_entry_views_step;
use crate::layout::median;
use crate::layout::median_spec;
use crate::layout::sort_entries_by_y_top;
use crate::layout::split_into_columns;
use crate::layout::COORD_ONE;
use crate::layout::EntryV;
use crate::layout::LineEntry;
use crate::layout::RawLine;
use crate::layout::RawLineV;
use crate::order::sort_by_key;
use crate::order::sorted_by_key;
use crate::text::append_chars;
use crate::text::chapter_line_spec;
use crate::text::char_is_uppercase;
use crate::text::chars_to_string;
use crate::text::contains_char;
use crate::text::is_upper;
use crate::text::looks_like_chapter_line_chars;
use crate::text::looks_like_page_number_chars;
use crate::text::lower_of;
use crate::text::normalize_heading_chars;
use crate::text::normalize_heading_spec;
use crate::text::normalize_item_chars;
use crate::text::normalize_item_spec;
use crate::text::page_number_spec;
use crate::text::str_to_chars;
use crate::text::trim_chars;
use crate::text::trim_spec;

verus! {

/// A vocabulary item tagged with the heading group it falls under.
pub struct GroupedItem {
    pub text: String,
    pub group: String,
}

/// Mathematical image of a [`GroupedItem`].
pub struct GroupedItemV {
    pub text: Seq<char>,
    pub group: Seq<char>,
}

impl View for GroupedItem {
    type V = GroupedItemV;

    open spec fn view(&self) -> GroupedItemV {
        GroupedItemV { text: self.text@, group: self.group@ }
    }
}

pub open spec fn item_views(s: Seq<GroupedItem>) -> Seq<GroupedItemV> {
    s.map_values(|g: GroupedItem| g@)
}

pub open spec fn line_views(s: Seq<RawLine>) -> Seq<RawLineV> {
    s.map_values(|l: RawLine| l@)
}

pub open spec fn opt_text_view(o: Option<String>) -> Option<Seq<char>> {
    match o {
        Some(s) => Some(s@),
        None => None,
    }
}

/// The top-origin vertical position of a line box: the page height minus the
/// box top, clamped at the page edge.
pub open spec fn y_top_of(l: RawLineV) -> int {
    if l.y + l.h <= COORD_ONE as int {
        COORD_ONE as int - l.y - l.h
    } else {
        0
    }
}

/// The normalized entry a surviving raw line becomes.
pub open spec fn entry_of(l: RawLineV) -> EntryV {
    EntryV { text: trim_spec(l.text), x: l.x, y_top: y_top_of(l), height: l.h }
}

/// Whether the normalizer keeps a raw line: non-empty after trimming and
/// neither chapter-marker nor page-number noise.
pub open spec fn keeps_line(l: RawLineV) -> bool {
    let t = trim_spec(l.text);
    t.len() > 0 && !chapter_line_spec(lower_of(t)) && !page_number_spec(t)
}

/// The line normalizer: surviving lines, in input order, as entries.
pub open spec fn normalize_lines(ls: Seq<RawLineV>) -> Seq<EntryV>
    decreases ls.len(),
{
    if ls.len() == 0 {
        Seq::empty()
    } else {
        let rest = normalize_lines(ls.drop_last());
        if keeps_line(ls.last()) {
            rest.push(entry_of(ls.last()))
        } else {
            rest
        }
    }
}

/// Viewing a non-empty entry sequence splits as view-of-front plus last.
proof fn lemma_entry_views_push(s: Seq<LineEntry>)
    requires
        s.len() > 0,
    ensures
        entry_views(s) == entry_views(s.drop_last()).push(s.last()@),
{
    assert(entry_views(s) =~= entry_views(s.drop_last()).push(s.last()@)) by {
        assert forall|k: int| 0 <= k < s.len() implies entry_views(s)[k] == entry_views(
            s.drop_last(),
        ).push(s.last()@)[k] by {
            if k < s.len() - 1 {
                assert(s.drop_last()[k] == s[k]);
            }
        }
    }
}

proof fn lemma_item_views_push(s: Seq<GroupedItem>)
    requires
        s.len() > 0,
    ensures
        item_views(s) == item_views(s.drop_last()).push(s.last()@),
{
    assert(item_views(s) =~= item_views(s.drop_last()).push(s.last()@)) by {
        assert forall|k: int| 0 <= k < s.len() implies item_views(s)[k] == item_views(
            s.drop_last(),
        ).push(s.last()@)[k] by {
            if k < s.len() - 1 {
                assert(s.drop_last()[k] == s[k]);
            }
        }
    }
}

/// Filters and cleans raw OCR lines: trims the text, drops lines that are
/// empty, chapter markers or page numbers, and derives the top-origin
/// vertical coordinate.  Input noise is silently filtered, never an error.
pub fn normalize_raw_lines(lines: &[RawLine]) -> (r: Vec<LineEntry>)
    ensures
        entry_views(r@) == normalize_lines(line_views(lines@)),
{
    let ghost lv = line_views(lines@);
    let mut out: Vec<LineEntry> = Vec::new();
    let mut i: usize = 0;
    proof {
        assert(entry_views(out@) =~= normalize_lines(lv.take(0)));
    }
    while i < lines.len()
        invariant
            i <= lines@.len(),
            lv == line_views(lines@),
            lv.len() == lines@.len(),
            entry_views(out@) == normalize_lines(lv.take(i as int)),
        decreases lines@.len() - i,
    {
        let line = &lines[i];
        proof {
            assert(lv[i as int] == lines@[i as int]@);
            assert(lv.take(i + 1).drop_last() =~= lv.take(i as int));
            assert(lv.take(i + 1).last() == lv[i as int]);
        }
        let cs = str_to_chars(line.text.as_str());
        let t = trim_chars(&cs);
        if t.len() == 0 {
            proof {
                assert(!keeps_line(lv[i as int]));
            }
        } else if looks_like_chapter_line_chars(&t) || looks_like_page_number_chars(&t) {
            proof {
                assert(!keeps_line(lv[i as int]));
            }
        } else {
            let y_top = if line.y <= COORD_ONE && COORD_ONE - line.y >= line.h {
                COORD_ONE - line.y - line.h
            } else {
                0
            };
            let e = LineEntry { text: t, x: line.x, y_top, height: line.h };
            proof {
                assert(keeps_line(lv[i as int]));
                assert(e@ == entry_of(lv[i as int]));
            }
            let ghost prev_out = out@;
            out.push(e);
            proof {
                lemma_entry_views_push(out@);
                assert(out@.drop_last() =~= prev_out);
            }
        }
        i = i + 1;
    }
    proof {
        assert(lv.take(lv.len() as int) =~= lv);
    }
    out
}

/// The heading test: non-empty trimmed text free of `, - ( )`, an uppercase
/// first character, no other uppercase character, and tall enough against
/// the median entry height — at least 1.15 times it for multi-word text, at
/// least 0.8 times it for a single word.  A degenerate median of 0 means no
/// line is ever a heading.
pub open spec fn is_heading_spec(e: EntryV, med: int) -> bool {
    let t = trim_spec(e.text);
    &&& t.len() > 0
    &&& !t.contains(',')
    &&& !t.contains('-')
    &&& !t.contains('(')
    &&& !t.contains(')')
    &&& is_upper(t[0])
    &&& (forall|k: int| 1 <= k < t.len() ==> !is_upper(t[k]))
    &&& med > 0
    &&& (if t.contains(' ') {
        100 * e.height >= 115 * med
    } else {
        100 * e.height >= 80 * med
    })
}

/// Decides whether an entry is a section heading rather than a vocabulary
/// entry.
pub fn is_heading(entry: &LineEntry, median_height: u32) -> (r: bool)
    ensures
        r == is_heading_spec(entry@, median_height as int),
{
    let t = trim_chars(&entry.text);
    if t.len() == 0 {
        return false;
    }
    if contains_char(&t, ',') || contains_char(&t, '-') || contains_char(&t, '(')
        || contains_char(&t, ')') {
        return false;
    }
    if !char_is_uppercase(t[0]) {
        return false;
    }
    let mut k: usize = 1;
    while k < t.len()
        invariant
            1 <= k <= t@.len(),
            t@ == trim_spec(entry@.text),
            forall|j: int| 1 <= j < k ==> !is_upper(t@[j]),
        decreases t@.len() - k,
    {
        if char_is_uppercase(t[k]) {
            proof {
                assert(is_upper(trim_spec(entry@.text)[k as int]));
            }
            return false;
        }
        k = k + 1;
    }
    if median_height == 0 {
        return false;
    }
    let h100 = 100 * (entry.height as u64);
    if contains_char(&t, ' ') {
        h100 >= 115 * (median_height as u64)
    } else {
        h100 >= 80 * (median_height as u64)
    }
}

/// The group an item is filed under when no heading has been seen.
pub open spec fn group_or_default(g: Option<Seq<char>>) -> Seq<char> {
    match g {
        Some(s) => s,
        None => "Ungrouped"@,
    }
}

/// The assembler over one column, already sorted top to bottom: normalizes
/// each entry, drops the empty ones, lets headings update the current group
/// without being emitted, and tags every other entry with the group current
/// when it is met.  Returns the items and the group left for what follows.
pub open spec fn assemble_column(col: Seq<EntryV>, med: int, g: Option<Seq<char>>) -> (
    Seq<GroupedItemV>,
    Option<Seq<char>>,
)
    decreases col.len(),
{
    if col.len() == 0 {
        (Seq::empty(), g)
    } else {
        let prev = assemble_column(col.drop_last(), med, g);
        let e = col.last();
        let n = normalize_item_spec(e.text);
        if n.len() == 0 {
            prev
        } else if is_heading_spec(e, med) {
            (prev.0, Some(normalize_heading_spec(n)))
        } else {
            (prev.0.push(GroupedItemV { text: n, group: group_or_default(prev.1) }), prev.1)
        }
    }
}

/// The assembler over all columns, left to right: each column is sorted top
/// to bottom and assembled, the current group threading across column
/// boundaries.
pub open spec fn assemble_columns(cols: Seq<Seq<EntryV>>, med: int, g: Option<Seq<char>>) -> (
    Seq<GroupedItemV>,
    Option<Seq<char>>,
)
    decreases cols.len(),
{
    if cols.len() == 0 {
        (Seq::empty(), g)
    } else {
        let prev = assemble_columns(cols.drop_last(), med, g);
        let r = assemble_column(sort_by_key(cols.last(), by_y_top()), med, prev.1);
        (prev.0 + r.0, r.1)
    }
}

pub open spec fn heights_of(es: Seq<EntryV>) -> Seq<int> {
    es.map_values(|e: EntryV| e.height)
}

/// The whole pipeline: normalize, take the median height over all surviving
/// entries, split into columns, and assemble top to bottom, left to right,
/// seeded with the caller's initial group.
pub open spec fn parse_spec(lines: Seq<RawLineV>, init: Option<Seq<char>>) -> Seq<GroupedItemV> {
    let entries = normalize_lines(lines);
    if entries.len() == 0 {
        Seq::empty()
    } else {
        let med = median_spec(heights_of(entries));
        assemble_columns(columns_spec(entries), med, init).0
    }
}

/// Turns raw OCR lines into the ordered sequence of grouped vocabulary
/// items, seeded with the last group known for the chapter so a page that
/// continues a prior section does not reset to "Ungrouped".  The result is
/// pinned by [`parse_spec`]: a pure function of the lines and the seed.
pub fn parse_grouped_items(lines: &[RawLine], initial_group: Option<String>) -> (r: Vec<
    GroupedItem,
>)
    ensures
        item_views(r@) == parse_spec(line_views(lines@), opt_text_view(initial_group)),
{
    let ghost lv = line_views(lines@);
    let ghost ig = opt_text_view(initial_group);
    let entries = normalize_raw_lines(lines);
    let ghost ev = entry_views(entries@);
    if entries.len() == 0 {
        let r: Vec<GroupedItem> = Vec::new();
        proof {
            assert(item_views(r@) =~= parse_spec(lv, ig));
        }
        return r;
    }

    let mut heights: Vec<u32> = Vec::new();
    let mut i: usize = 0;
    proof {
        assert(int_views(heights@) =~= heights_of(ev).take(0));
    }
    while i < entries.len()
        invariant
            i <= entries@.len(),
            ev == entry_views(entries@),
            ev.len() == entries@.len(),
            int_views(heights@) == heights_of(ev).take(i as int),
        decreases entries@.len() - i,
    {
        let ghost hv = int_views(heights@);
        heights.push(entries[i].height);
        proof {
            assert(entries@[i as int]@ == ev[i as int]);
            assert(int_views(heights@) =~= hv.push(ev[i as int].height));
            assert(heights_of(ev).take(i + 1) =~= heights_of(ev).take(i as int).push(
                ev[i as int].height,
            ));
        }
        i = i + 1;
    }
    proof {
        assert(heights_of(ev).take(ev.len() as int) =~= heights_of(ev));
    }
    let med = median(heights);

    let cols = split_into_columns(entries);
    let ghost cv = columns_spec(ev);

    let mut items: Vec<GroupedItem> = Vec::new();
    let mut current_group: Option<String> = initial_group;
    let mut crest = cols;
    let ghost mut j: int = 0;
    proof {
        assert(column_views(crest@) =~= cv.skip(0));
        assert(item_views(items@) =~= assemble_columns(cv.take(0), med as int, ig).0);
    }
    while crest.len() > 0
        invariant
            0 <= j <= cv.len(),
            cv.len() - j == crest@.len(),
            med as int == median_spec(heights_of(ev)),
            column_views(crest@) == cv.skip(j),
            item_views(items@) == assemble_columns(cv.take(j), med as int, ig).0,
            opt_text_view(current_group) == assemble_columns(cv.take(j), med as int, ig).1,
        decreases crest@.len(),
    {
        let ghost crv = crest@;
        let col = crest.remove(0);
        proof {
            lemma_column_views_step(crv, cv, j);
            assert(cv.take(j + 1).drop_last() =~= cv.take(j));
            assert(cv.take(j + 1).last() == cv[j]);
        }
        let sorted = sort_entries_by_y_top(col);
        let ghost sv = sort_by_key(cv[j], by_y_top());
        let ghost g0 = opt_text_view(current_group);
        let ghost items0 = item_views(items@);

        let mut erest = sorted;
        let ghost mut k: int = 0;
        proof {
            assert(entry_views(erest@) =~= sv.skip(0));
            assert(item_views(items@) =~= items0 + assemble_column(sv.take(0), med as int, g0).0);
        }
        while erest.len() > 0
            invariant
                0 <= k <= sv.len(),
                sv.len() - k == erest@.len(),
                entry_views(erest@) == sv.skip(k),
                item_views(items@) == items0 + assemble_column(sv.take(k), med as int, g0).0,
                opt_text_view(current_group) == assemble_column(sv.take(k), med as int, g0).1,
            decreases erest@.len(),
        {
            let ghost erv = erest@;
            let e = erest.remove(0);
            proof {
                lemma_entry_views_step(erv, sv, k);
                assert(sv.take(k + 1).drop_last() =~= sv.take(k));
                assert(sv.take(k + 1).last() == sv[k]);
            }
            let n = normalize_item_chars(&e.text);
            if n.len() > 0 {
                if is_heading(&e, med) {
                    let h = normalize_heading_chars(&n);
                    current_group = Some(chars_to_string(&h));
                } else {
                    let text = chars_to_string(&n);
                    let group = match &current_group {
                        Some(s) => s.clone(),
                        None => "Ungrouped".to_owned(),
                    };
                    let item = GroupedItem { text, group };
                    proof {
                        assert(item@ == (GroupedItemV {
                            text: normalize_item_spec(sv[k].text),
                            group: group_or_default(opt_text_view(current_group)),
                        }));
                    }
                    let ghost prev_items = items@;
                    items.push(item);
                    proof {
                        lemma_item_views_push(items@);
                        assert(items@.drop_last() =~= prev_items);
                        assert((items0 + assemble_column(sv.take(k), med as int, g0).0).push(
                            items@.last()@) =~= items0 + assemble_column(
                            sv.take(k),
                            med as int,
                            g0,
                        ).0.push(items@.last()@));
                    }
                }
            }
            proof {
                assert(item_views(items@) =~= items0 + assemble_column(
                    sv.take(k + 1),
                    med as int,
                    g0,
                ).0);
                k = k + 1;
            }
        }
        proof {
            assert(sv.take(sv.len() as int) =~= sv);
            assert(item_views(items@) =~= assemble_columns(cv.take(j + 1), med as int, ig).0);
            j = j + 1;
        }
    }
    proof {
        assert(cv.take(cv.len() as int) =~= cv);
    }
    items
}

pub open spec fn string_views(s: Seq<String>) -> Seq<Seq<char>> {
    s.map_values(|x: String| x@)
}

proof fn lemma_string_views_push(s: Seq<String>)
    requires
        s.len() > 0,
    ensures
        string_views(s) == string_views(s.drop_last()).push(s.last()@),
{
    assert(string_views(s) =~= string_views(s.drop_last()).push(s.last()@)) by {
        assert forall|k: int| 0 <= k < s.len() implies string_views(s)[k] == string_views(
            s.drop_last(),
        ).push(s.last()@)[k] by {
            if k < s.len() - 1 {
                assert(s.drop_last()[k] == s[k]);
            }
        }
    }
}

/// The preview rendering of grouped items: a bracketed group header above
/// every run of consecutive items sharing a group, then one indented,
/// dashed line per item.
pub open spec fn preview_lines_spec(items: Seq<GroupedItemV>) -> Seq<Seq<char>>
    decreases items.len(),
{
    if items.len() == 0 {
        Seq::empty()
    } else {
        let prev = preview_lines_spec(items.drop_last());
        let it = items.last();
        let fresh = items.len() == 1 || items[items.len() - 2].group != it.group;
        let with_header = if fresh {
            prev.push(seq!['['] + it.group + seq![']'])
        } else {
            prev
        };
        with_header.push(seq![' ', ' ', '-', ' '] + it.text)
    }
}

/// Renders grouped items for the import preview: a `[group]` header wherever
/// the group changes, and `  - text` for every item.
pub fn build_preview_lines(items: &Vec<GroupedItem>) -> (r: Vec<String>)
    ensures
        string_views(r@) == preview_lines_spec(item_views(items@)),
{
    let ghost iv = item_views(items@);
    let mut lines: Vec<String> = Vec::new();
    let mut i: usize = 0;
    proof {
        assert(string_views(lines@) =~= preview_lines_spec(iv.take(0)));
    }
    while i < items.len()
        invariant
            i <= items@.len(),
            iv == item_views(items@),
            iv.len() == items@.len(),
            string_views(lines@) == preview_lines_spec(iv.take(i as int)),
        decreases items@.len() - i,
    {
        proof {
            assert(iv.take(i + 1).drop_last() =~= iv.take(i as int));
            assert(iv.take(i + 1).last() == iv[i as int]);
            assert(items@[i as int]@ == iv[i as int]);
            if i > 0 {
                assert(iv.take(i + 1)[i - 1] == iv[i - 1]);
                assert(items@[i - 1]@ == iv[i - 1]);
            }
        }
        let fresh = if i == 0 {
            true
        } else {
            items[i - 1].group != items[i].group
        };
        if fresh {
            let mut h: Vec<char> = Vec::new();
            h.push('[');
            let gs = str_to_chars(items[i].group.as_str());
            append_chars(&mut h, &gs);
            h.push(']');
            proof {
                assert(h@ =~= seq!['['] + iv[i as int].group + seq![']']);
            }
            let header = chars_to_string(&h);
            let ghost prev_lines = lines@;
            lines.push(header);
            proof {
                lemma_string_views_push(lines@);
                assert(lines@.drop_last() =~= prev_lines);
            }
        }
        let mut b: Vec<char> = Vec::new();
        b.push(' ');
        b.push(' ');
        b.push('-');
        b.push(' ');
        let ts = str_to_chars(items[i].text.as_str());
        append_chars(&mut b, &ts);
        proof {
            assert(b@ =~= seq![' ', ' ', '-', ' '] + iv[i as int].text);
        }
        let body = chars_to_string(&b);
        let ghost prev_lines = lines@;
        lines.push(body);
        proof {
            lemma_string_views_push(lines@);
            assert(lines@.drop_last() =~= prev_lines);
        }
        i = i + 1;
    }
    proof {
        assert(iv.take(iv.len() as int) =~= iv);
    }
    lines
}

/// The entries of one sorted column whose normalized text is emitted as an
/// item, in emission order: the non-empty, non-heading ones.
pub open spec fn column_sources(col: Seq<EntryV>, med: int) -> Seq<EntryV>
    decreases col.len(),
{
    if col.len() == 0 {
        Seq::empty()
    } else {
        let prev = column_sources(col.drop_last(), med);
        let e = col.last();
        if normalize_item_spec(e.text).len() == 0 || is_heading_spec(e, med) {
            prev
        } else {
            prev.push(e)
        }
    }
}

/// The emitted source entries of all columns, left to right, each column
/// sorted top to bottom first.
pub open spec fn assemble_sources(cols: Seq<Seq<EntryV>>, med: int) -> Seq<EntryV>
    decreases cols.len(),
{
    if cols.len() == 0 {
        Seq::empty()
    } else {
        assemble_sources(cols.drop_last(), med) + column_sources(
            sort_by_key(cols.last(), by_y_top()),
            med,
        )
    }
}

/// Heading exclusivity within a column: no emitted item's source entry is
/// classified as a heading.
pub proof fn lemma_headings_not_emitted(col: Seq<EntryV>, med: int)
    ensures
        forall|k: int|
            0 <= k < column_sources(col, med).len() ==> !is_heading_spec(
                #[trigger] column_sources(col, med)[k],
                med,
            ),
    decreases col.len(),
{
    if col.len() > 0 {
        lemma_headings_not_emitted(col.drop_last(), med);
        let prev = column_sources(col.drop_last(), med);
        let e = col.last();
        if !(normalize_item_spec(e.text).len() == 0 || is_heading_spec(e, med)) {
            assert forall|k: int| 0 <= k < column_sources(col, med).len() implies !is_heading_spec(
                #[trigger] column_sources(col, med)[k],
                med,
            ) by {
                if k < prev.len() {
                    assert(column_sources(col, med)[k] == prev[k]);
                } else {
                    assert(column_sources(col, med)[k] == e);
                }
            }
        }
    }
}

/// The items assembled from one column align one to one, in order, with its
/// emitted source entries: item `k` carries the normalized text of source
/// `k`, whatever the incoming group.
pub proof fn lemma_column_items_align(col: Seq<EntryV>, med: int, g: Option<Seq<char>>)
    ensures
        assemble_column(col, med, g).0.len() == column_sources(col, med).len(),
        forall|k: int|
            0 <= k < column_sources(col, med).len() ==> #[trigger] assemble_column(
                col,
                med,
                g,
            ).0[k].text == normalize_item_spec(column_sources(col, med)[k].text),
    decreases col.len(),
{
    if col.len() > 0 {
        lemma_column_items_align(col.drop_last(), med, g);
    }
}

/// In a column sorted top to bottom, every emitted source sits no lower than
/// the column's last entry.
proof fn lemma_column_sources_le_last(col: Seq<EntryV>, med: int)
    requires
        sorted_by_key(col, by_y_top()),
        col.len() > 0,
    ensures
        forall|k: int|
            0 <= k < column_sources(col, med).len() ==> (#[trigger] column_sources(col, med)[k]).y_top
                <= col.last().y_top,
    decreases col.len(),
{
    let e = col.last();
    let prev = column_sources(col.drop_last(), med);
    if col.len() > 1 {
        assert(sorted_by_key(col.drop_last(), by_y_top()));
        lemma_column_sources_le_last(col.drop_last(), med);
        assert(col.drop_last().last() == col[col.len() - 2]);
        assert(by_y_top()(col[col.len() - 2]) <= by_y_top()(col.last()));
        assert(col[col.len() - 2].y_top <= col.last().y_top);
    } else {
        assert(col.drop_last().len() == 0);
        assert(prev.len() == 0);
    }
    assert forall|k: int| 0 <= k < column_sources(col, med).len() implies (#[trigger] column_sources(
        col,
        med,
    )[k]).y_top <= col.last().y_top by {
        if !(normalize_item_spec(e.text).len() == 0 || is_heading_spec(e, med)) {
            if k < prev.len() {
                assert(column_sources(col, med)[k] == prev[k]);
                assert(prev[k].y_top <= col[col.len() - 2].y_top);
            } else {
                assert(column_sources(col, med)[k] == e);
            }
        } else {
            assert(column_sources(col, med)[k] == prev[k]);
            assert(prev[k].y_top <= col[col.len() - 2].y_top);
        }
    }
}

/// Column reading order: within one column, sorted top to bottom, the
/// emitted items keep that order — for two entries with `y_top` of the
/// first below the second's, the first item precedes the second.
pub proof fn lemma_column_reading_order(col: Seq<EntryV>, med: int)
    requires
        sorted_by_key(col, by_y_top()),
    ensures
        sorted_by_key(column_sources(col, med), by_y_top()),
    decreases col.len(),
{
    if col.len() > 0 {
        assert(sorted_by_key(col.drop_last(), by_y_top()));
        lemma_column_reading_order(col.drop_last(), med);
        let e = col.last();
        if !(normalize_item_spec(e.text).len() == 0 || is_heading_spec(e, med)) {
            let prev = column_sources(col.drop_last(), med);
            let r = prev.push(e);
            if col.len() > 1 {
                lemma_column_sources_le_last(col.drop_last(), med);
                assert(col.drop_last().last() == col[col.len() - 2]);
            }
            assert forall|i: int, j: int| 0 <= i < j < r.len() implies by_y_top()(r[i])
                <= by_y_top()(r[j]) by {
                if j < r.len() - 1 {
                    assert(r[i] == prev[i] && r[j] == prev[j]);
                } else {
                    if i < r.len() - 1 {
                        assert(r[i] == prev[i]);
                        assert(prev[i].y_top <= col[col.len() - 2].y_top);
                    }
                }
            }
        }
    }
}

/// The items assembled over all columns align one to one, in order, with
/// the emitted sources over all columns.
pub proof fn lemma_items_align(cols: Seq<Seq<EntryV>>, med: int, g: Option<Seq<char>>)
    ensures
        assemble_columns(cols, med, g).0.len() == assemble_sources(cols, med).len(),
        forall|k: int|
            0 <= k < assemble_sources(cols, med).len() ==> #[trigger] assemble_columns(
                cols,
                med,
                g,
            ).0[k].text == normalize_item_spec(assemble_sources(cols, med)[k].text),
    decreases cols.len(),
{
    if cols.len() > 0 {
        lemma_items_align(cols.drop_last(), med, g);
        let prev = assemble_columns(cols.drop_last(), med, g);
        let sorted = sort_by_key(cols.last(), by_y_top());
        lemma_column_items_align(sorted, med, prev.1);
        let ps = assemble_sources(cols.drop_last(), med);
        let cs = column_sources(sorted, med);
        assert forall|k: int| 0 <= k < assemble_sources(cols, med).len() implies #[trigger]
        assemble_columns(cols, med, g).0[k].text == normalize_item_spec(
            assemble_sources(cols, med)[k].text,
        ) by {
            if k < ps.len() {
                assert(assemble_columns(cols, med, g).0[k] == prev.0[k]);
                assert(assemble_sources(cols, med)[k] == ps[k]);
            } else {
                assert(assemble_columns(cols, med, g).0[k] == assemble_column(
                    sorted,
                    med,
                    prev.1,
                ).0[k - ps.len()]);
                assert(assemble_sources(cols, med)[k] == cs[k - ps.len()]);
            }
        }
    }
}

/// Heading exclusivity: a line classified as a heading is never emitted —
/// every assembled item carries the normalized text of a source entry that
/// the classifier did not mark as a heading.
pub proof fn lemma_heading_exclusivity(cols: Seq<Seq<EntryV>>, med: int)
    ensures
        forall|k: int|
            0 <= k < assemble_sources(cols, med).len() ==> !is_heading_spec(
                #[trigger] assemble_sources(cols, med)[k],
                med,
            ),
    decreases cols.len(),
{
    if cols.len() > 0 {
        lemma_heading_exclusivity(cols.drop_last(), med);
        let sorted = sort_by_key(cols.last(), by_y_top());
        lemma_headings_not_emitted(sorted, med);
        let ps = assemble_sources(cols.drop_last(), med);
        let cs = column_sources(sorted, med);
        assert forall|k: int| 0 <= k < assemble_sources(cols, med).len() implies !is_heading_spec(
            #[trigger] assemble_sources(cols, med)[k],
            med,
        ) by {
            if k < ps.len() {
                assert(assemble_sources(cols, med)[k] == ps[k]);
            } else {
                assert(assemble_sources(cols, med)[k] == cs[k - ps.len()]);
            }
        }
    }
}

} // verus!
