//! Field specifications: the comma-separated list of dotted paths that a user
//! asks for.

use vstd::prelude::*;
use crate::counts::capped_sum;
use crate::text::{
    chars_of, lemma_strs_push, split, split_text, string_of, strs, trim, trim_text,
};
use crate::trie::spec_texts;

verus! {

/// The trimmed texts of `parts`, without those that are empty.
pub open spec fn clean_segments(parts: Seq<Seq<char>>) -> Seq<Seq<char>>
    decreases parts.len(),
{
    if parts.len() == 0 {
        Seq::empty()
    } else {
        let before = clean_segments(parts.drop_last());
        let segment = trim_text(parts.last());
        if segment.len() > 0 {
            before.push(segment)
        } else {
            before
        }
    }
}

/// The segments of one entry of the list: the entry is trimmed and split at
/// dots, and each piece is trimmed; empty pieces are dropped.
pub open spec fn segments_of(entry: Seq<char>) -> Seq<Seq<char>> {
    clean_segments(split_text(trim_text(entry), '.'))
}

/// The specifications of `entries`, without those that have no segment.
pub open spec fn specifications_of(entries: Seq<Seq<char>>) -> Seq<Seq<Seq<char>>>
    decreases entries.len(),
{
    if entries.len() == 0 {
        Seq::empty()
    } else {
        let before = specifications_of(entries.drop_last());
        let segments = segments_of(entries.last());
        if segments.len() > 0 {
            before.push(segments)
        } else {
            before
        }
    }
}

/// The field specifications that a comma-separated list stands for.
pub open spec fn field_specifications(text: Seq<char>) -> Seq<Seq<Seq<char>>> {
    specifications_of(split_text(text, ','))
}

/// Every specification has a segment, and every segment a character.
pub proof fn lemma_specifications_nonempty(entries: Seq<Seq<char>>)
    ensures
        forall|i: int|
            0 <= i < specifications_of(entries).len() ==> {
                let segments = #[trigger] specifications_of(entries)[i];
                &&& segments.len() > 0
                &&& forall|j: int| 0 <= j < segments.len() ==> (#[trigger] segments[j]).len() > 0
            },
    decreases entries.len(),
{
    if entries.len() > 0 {
        let before = specifications_of(entries.drop_last());
        lemma_specifications_nonempty(entries.drop_last());
        lemma_segments_nonempty(split_text(trim_text(entries.last()), '.'));
        assert forall|i: int| 0 <= i < specifications_of(entries).len() implies {
            let segments = #[trigger] specifications_of(entries)[i];
            &&& segments.len() > 0
            &&& forall|j: int| 0 <= j < segments.len() ==> (#[trigger] segments[j]).len() > 0
        } by {
            if i < before.len() {
                assert(specifications_of(entries)[i] == before[i]);
            }
        }
    }
}

proof fn lemma_segments_nonempty(parts: Seq<Seq<char>>)
    ensures
        forall|j: int| 0 <= j < clean_segments(parts).len() ==> (#[trigger] clean_segments(
            parts,
        )[j]).len() > 0,
    decreases parts.len(),
{
    if parts.len() > 0 {
        let before = clean_segments(parts.drop_last());
        lemma_segments_nonempty(parts.drop_last());
        assert forall|j: int| 0 <= j < clean_segments(parts).len() implies (#[trigger] clean_segments(
            parts,
        )[j]).len() > 0 by {
            if j < before.len() {
                assert(clean_segments(parts)[j] == before[j]);
            }
        }
    }
}

/// The segments of one entry of the list.
fn parse_segments(entry: &str) -> (out: Vec<String>)
    ensures
        strs(out@) == segments_of(entry@),
{
    let trimmed = trim(&chars_of(entry));
    let parts = split(&trimmed, '.');
    let mut out: Vec<String> = Vec::new();
    let mut i: usize = 0;
    assert(strs(out@) =~= Seq::empty());
    while i < parts.len()
        invariant
            i <= parts.len(),
            strs(out@) == clean_segments(strs(parts@).take(i as int)),
        decreases parts.len() - i,
    {
        proof {
            let next = strs(parts@).take(i + 1);
            assert(next.drop_last() =~= strs(parts@).take(i as int));
            assert(next.last() == parts@[i as int]@);
        }
        let segment = trim(&chars_of(parts[i].as_str()));
        if segment.len() > 0 {
            let owned = string_of(&segment);
            proof {
                lemma_strs_push(out@, owned);
            }
            out.push(owned);
        }
        i += 1;
    }
    assert(strs(parts@).take(parts.len() as int) =~= strs(parts@));
    out
}

/// Parses a comma-separated list of dotted paths. Entries and segments are
/// trimmed; empty segments and entries without a segment are dropped.
pub fn parse_field_specifications(field_specs: &str) -> (out: Vec<Vec<String>>)
    ensures
        spec_texts(out@) == field_specifications(field_specs@),
{
    let entries = split(&chars_of(field_specs), ',');
    let mut out: Vec<Vec<String>> = Vec::new();
    let mut i: usize = 0;
    assert(spec_texts(out@) =~= Seq::empty());
    while i < entries.len()
        invariant
            i <= entries.len(),
            spec_texts(out@) == specifications_of(strs(entries@).take(i as int)),
        decreases entries.len() - i,
    {
        proof {
            let next = strs(entries@).take(i + 1);
            assert(next.drop_last() =~= strs(entries@).take(i as int));
            assert(next.last() == entries@[i as int]@);
        }
        let segments = parse_segments(entries[i].as_str());
        if segments.len() > 0 {
            let ghost before = out@;
            out.push(segments);
            assert(spec_texts(out@) =~= spec_texts(before).push(strs(segments@)));
        }
        i += 1;
    }
    assert(strs(entries@).take(entries.len() as int) =~= strs(entries@));
    out
}

/// What a list of specifications lost in parsing.
#[derive(Clone, Copy, Debug, PartialEq, Eq)]
pub struct Dropped {
    /// Entries without a segment.
    pub specifications: usize,
    /// Empty segments of the entries that were kept.
    pub segments: usize,
}

/// The number of `entries` that have no segment.
pub open spec fn dropped_specifications(entries: Seq<Seq<char>>) -> nat
    decreases entries.len(),
{
    if entries.len() == 0 {
        0
    } else if segments_of(entries.last()).len() == 0 {
        dropped_specifications(entries.drop_last()) + 1
    } else {
        dropped_specifications(entries.drop_last())
    }
}

/// The number of empty segments of `entry`, where it has a segment at all.
pub open spec fn empty_segments(entry: Seq<char>) -> int {
    if segments_of(entry).len() == 0 {
        0
    } else {
        split_text(trim_text(entry), '.').len() - segments_of(entry).len()
    }
}

/// The number of empty segments in those of `entries` that are kept, held
/// at the largest value that a count can take.
pub open spec fn dropped_segments(entries: Seq<Seq<char>>) -> usize
    decreases entries.len(),
{
    if entries.len() == 0 {
        0
    } else {
        capped_sum(dropped_segments(entries.drop_last()) as int, empty_segments(entries.last()))
    }
}

/// Every entry of a list either gives a specification or is dropped.
pub proof fn lemma_entries_kept_or_dropped(entries: Seq<Seq<char>>)
    ensures
        specifications_of(entries).len() + dropped_specifications(entries) == entries.len(),
    decreases entries.len(),
{
    if entries.len() > 0 {
        lemma_entries_kept_or_dropped(entries.drop_last());
    }
}

proof fn lemma_segments_kept(parts: Seq<Seq<char>>)
    ensures
        clean_segments(parts).len() <= parts.len(),
    decreases parts.len(),
{
    if parts.len() > 0 {
        lemma_segments_kept(parts.drop_last());
    }
}

/// Counts what `parse_field_specifications` drops from a comma-separated
/// list: the entries without a segment, and the empty segments of the
/// others.
pub fn count_dropped(field_specs: &str) -> (dropped: Dropped)
    ensures
        dropped.specifications == dropped_specifications(split_text(field_specs@, ',')),
        dropped.segments == dropped_segments(split_text(field_specs@, ',')),
{
    let entries = split(&chars_of(field_specs), ',');
    let mut dropped = Dropped { specifications: 0, segments: 0 };
    let mut i: usize = 0;
    while i < entries.len()
        invariant
            i <= entries.len(),
            dropped.specifications <= i,
            dropped.specifications == dropped_specifications(strs(entries@).take(i as int)),
            dropped.segments == dropped_segments(strs(entries@).take(i as int)),
        decreases entries.len() - i,
    {
        proof {
            let next = strs(entries@).take(i + 1);
            assert(next.drop_last() =~= strs(entries@).take(i as int));
            assert(next.last() == entries@[i as int]@);
            lemma_segments_kept(split_text(trim_text(entries@[i as int]@), '.'));
        }
        let parts = split(&trim(&chars_of(entries[i].as_str())), '.');
        let kept = parse_segments(entries[i].as_str());
        assert(parts@.len() == strs(parts@).len() && kept@.len() == strs(kept@).len());
        if kept.len() == 0 {
            dropped.specifications = dropped.specifications + 1;
        } else {
            dropped.segments = dropped.segments.saturating_add(parts.len() - kept.len());
        }
        i += 1;
    }
    assert(strs(entries@).take(entries.len() as int) =~= strs(entries@));
    dropped
}

} // verus!
