//! A story and its most frequent words and letters.

use crate::frequency::{
    counts, graphemes_of, letter_freq, lists, tally, unicode_words_of, word_freq, Frequencies,
    StringCount,
};
use vstd::prelude::*;

verus! {

/// `sorted` with `e` put behind every entry whose count is at least its
/// own.
pub open spec fn insert_by_count(sorted: Seq<StringCount>, e: StringCount) -> Seq<StringCount>
    decreases sorted.len(),
{
    if sorted.len() == 0 {
        seq![e]
    } else if sorted.last().1 >= e.1 {
        sorted.push(e)
    } else {
        insert_by_count(sorted.drop_last(), e).push(sorted.last())
    }
}

/// The entries with the largest count first, entries of one count in the
/// order they came in.
pub open spec fn sorted_by_count(entries: Seq<StringCount>) -> Seq<StringCount>
    decreases entries.len(),
{
    if entries.len() == 0 {
        entries
    } else {
        insert_by_count(sorted_by_count(entries.drop_last()), entries.last())
    }
}

/// The counts fall, or stay, from each entry to the next.
pub open spec fn is_falling(entries: Seq<StringCount>) -> bool {
    forall|i: int, j: int| 0 <= i <= j < entries.len() ==> entries[i].1 >= entries[j].1
}

/// What is kept of the first `i` of `entries` where `n` places are to be
/// had: the first `n` as they come; from then on they are sorted, and each
/// further entry that counts more than the first one kept goes in front,
/// and the last one kept goes out.
pub open spec fn kept(n: nat, entries: Seq<StringCount>, i: nat) -> Seq<StringCount>
    decreases i,
{
    if i == 0 || n == 0 {
        Seq::empty()
    } else if i <= n {
        kept(n, entries, (i - 1) as nat).push(entries[i - 1])
    } else {
        let before = kept(n, entries, (i - 1) as nat);
        let top = if i == n + 1 {
            sorted_by_count(before)
        } else {
            before
        };
        if entries[i - 1].1 > top[0].1 {
            seq![entries[i - 1]] + top.drop_last()
        } else {
            top
        }
    }
}

/// `sorted` with `e` put in at `p` is `insert_by_count`, where `p` is
/// just behind the last entry whose count is at least that of `e`.
proof fn lemma_insert_position(sorted: Seq<StringCount>, e: StringCount, p: int)
    requires
        0 <= p <= sorted.len(),
        forall|j: int| p <= j < sorted.len() ==> sorted[j].1 < e.1,
        p > 0 ==> sorted[p - 1].1 >= e.1,
    ensures
        insert_by_count(sorted, e) == sorted.insert(p, e),
    decreases sorted.len() - p,
{
    if sorted.len() == 0 {
        assert(seq![e] =~= sorted.insert(p, e));
    } else if p == sorted.len() {
        assert(sorted.push(e) =~= sorted.insert(p, e));
    } else {
        lemma_insert_position(sorted.drop_last(), e, p);
        assert(sorted.drop_last().insert(p, e).push(sorted.last()) =~= sorted.insert(p, e));
    }
}

/// Putting an entry in by its count keeps falling counts falling, and
/// adds one entry.
pub proof fn lemma_insert_keeps_falling(sorted: Seq<StringCount>, e: StringCount)
    requires
        is_falling(sorted),
    ensures
        is_falling(insert_by_count(sorted, e)),
        insert_by_count(sorted, e).len() == sorted.len() + 1,
        insert_by_count(sorted, e).to_multiset() == sorted.to_multiset().insert(e),
    decreases sorted.len(),
{
    broadcast use vstd::seq_lib::group_to_multiset_ensures;

    if sorted.len() == 0 {
        assert(seq![e] =~= Seq::<StringCount>::empty().push(e));
        assert(sorted =~= Seq::<StringCount>::empty());
    } else if sorted.last().1 >= e.1 {
    } else {
        let front = sorted.drop_last();
        assert(is_falling(front));
        lemma_insert_keeps_falling(front, e);
        let placed = insert_by_count(front, e);
        assert(front.push(sorted.last()) =~= sorted);
        assert forall|i: int| 0 <= i < placed.len() implies placed[i].1 >= sorted.last().1 by {
            assert(placed.to_multiset().count(placed[i]) > 0);
            if placed[i] != e {
                assert(front.to_multiset().count(placed[i]) > 0);
                let k = choose|k: int| 0 <= k < front.len() && front[k] == placed[i];
                assert(sorted[k] == placed[i]);
            }
        }
    }
}

/// Sorting by count gives the same entries with falling counts.
pub proof fn lemma_sorted_by_count(entries: Seq<StringCount>)
    ensures
        is_falling(sorted_by_count(entries)),
        sorted_by_count(entries).len() == entries.len(),
        sorted_by_count(entries).to_multiset() == entries.to_multiset(),
    decreases entries.len(),
{
    broadcast use vstd::seq_lib::group_to_multiset_ensures;

    if entries.len() > 0 {
        lemma_sorted_by_count(entries.drop_last());
        lemma_insert_keeps_falling(sorted_by_count(entries.drop_last()), entries.last());
        assert(entries.drop_last().push(entries.last()) =~= entries);
    }
}

/// Sorts the entries, the largest count first, entries of one count in the
/// order they came in.
pub fn sort_by_count(entries: Vec<StringCount>) -> (sorted: Vec<StringCount>)
    ensures
        sorted@ == sorted_by_count(entries@),
{
    let mut rest = entries;
    let mut sorted: Vec<StringCount> = Vec::new();
    let ghost all = rest@;
    let ghost mut done: int = 0;
    while rest.len() > 0
        invariant
            0 <= done <= all.len(),
            rest@ == all.skip(done),
            sorted@ == sorted_by_count(all.take(done)),
        decreases rest@.len(),
    {
        let e = rest.remove(0);
        let mut p: usize = sorted.len();
        while p > 0 && sorted[p - 1].1 < e.1
            invariant
                p <= sorted@.len(),
                forall|j: int| p <= j < sorted@.len() ==> sorted@[j].1 < e.1,
            decreases p,
        {
            p = p - 1;
        }
        proof {
            lemma_insert_position(sorted@, e, p as int);
            assert(all.take(done + 1).drop_last() =~= all.take(done));
            assert(all.take(done + 1).last() == e);
            assert(all.skip(done).remove(0) =~= all.skip(done + 1));
            done = done + 1;
        }
        sorted.insert(p, e);
    }
    proof {
        assert(all.take(done) =~= all);
    }
    sorted
}

/// Keeps up to `n` of the entries: the first `n` as they come; where
/// there are more, those are sorted by count, and each further entry that
/// counts more than the first one kept takes the front and drives the
/// last one out. With no place to be had nothing is kept.
pub fn top_n_of(n: usize, entries: Vec<StringCount>) -> (top: Vec<StringCount>)
    ensures
        top@ == kept(n as nat, entries@, entries@.len()),
        top@.len() <= n,
{
    let mut rest = entries;
    let mut top: Vec<StringCount> = Vec::new();
    if n == 0 {
        return top;
    }
    let ghost all = rest@;
    let total: usize = rest.len();
    let mut index: usize = 0;
    while rest.len() > 0
        invariant
            n > 0,
            index <= all.len() == total,
            rest@ == all.skip(index as int),
            top@ == kept(n as nat, all, index as nat),
            index <= n ==> top@.len() == index,
            index > n ==> top@.len() == n,
        decreases rest@.len(),
    {
        let entry = rest.remove(0);
        proof {
            assert(all.skip(index as int).remove(0) =~= all.skip(index + 1));
            assert(entry == all[index as int]);
        }
        if index < n {
            top.push(entry);
        } else {
            if index == n {
                proof {
                    lemma_sorted_by_count(top@);
                }
                top = sort_by_count(top);
            }
            if entry.1 > top[0].1 {
                top.pop();
                top.insert(0, entry);
                proof {
                    let before = if index == n {
                        sorted_by_count(kept(n as nat, all, index as nat))
                    } else {
                        kept(n as nat, all, index as nat)
                    };
                    assert(top@ =~= seq![entry] + before.drop_last());
                }
            }
        }
        index = index + 1;
    }
    top
}

/// Keeps up to `n` of the table's entries as `top_n_of` does, in an order
/// in which the table hands them out.
pub fn top_n_entries(n: usize, table: &Frequencies) -> (top: Vec<StringCount>)
    ensures
        exists|order: Seq<StringCount>|
            lists(order, counts(*table)) && top@ == kept(n as nat, order, order.len()),
        top@.len() <= n,
{
    let order = table.entries();
    top_n_of(n, order)
}

/// A text written with backslash escapes, read as `unescape::unescape`
/// reads it; `None` where an escape is not well formed.
pub uninterp spec fn unescaped_of(text: Seq<char>) -> Option<Seq<char>>;

/// Calls `unescape::unescape`.
#[verifier::external_body]
fn unescape_text(text: &str) -> (plain: Option<String>)
    ensures
        match plain {
            Some(s) => unescaped_of(text@) == Some(s@),
            None => unescaped_of(text@).is_none(),
        },
{
    unescape::unescape(text)
}

/// A story with up to five of its words and of its letters.
#[derive(Debug)]
pub struct StoryReport {
    pub story: String,
    pub words: Vec<StringCount>,
    pub letters: Vec<StringCount>,
}

/// `report` tells of `story`: it holds the story itself, and up to five
/// entries of its word counts and of its letter counts, kept as
/// `top_n_of` keeps them.
pub open spec fn tells_of(report: StoryReport, story: Seq<char>) -> bool {
    &&& report.story@ == story
    &&& exists|order: Seq<StringCount>|
        lists(order, tally(unicode_words_of(story))) && report.words@ == kept(
            5,
            order,
            order.len(),
        )
    &&& exists|order: Seq<StringCount>|
        lists(order, tally(graphemes_of(story, true))) && report.letters@ == kept(
            5,
            order,
            order.len(),
        )
}

/// Counts the words and letters of a story and keeps five of each.
pub fn report_on(story: String) -> (report: StoryReport)
    ensures
        tells_of(report, story@),
{
    let words = word_freq(story.as_str());
    let letters = letter_freq(story.as_str());
    let words = top_n_entries(5, &words);
    let letters = top_n_entries(5, &letters);
    StoryReport { story, words, letters }
}

/// Reads a story as it came, with its escapes written out, and reports
/// on what it says; `None` where an escape is not well formed.
pub fn read_story_text(raw: &str) -> (report: Option<StoryReport>)
    ensures
        match report {
            Some(r) => unescaped_of(raw@).is_some() && tells_of(r, unescaped_of(raw@).unwrap()),
            None => unescaped_of(raw@).is_none(),
        },
{
    match unescape_text(raw) {
        Some(story) => Some(report_on(story)),
        None => None,
    }
}

} // verus!
