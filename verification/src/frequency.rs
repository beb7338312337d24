//! Counting how often each text occurs: a table of counts kept in a hash
//! map, and the cutting of a text into words and letters.

use unicode_segmentation::UnicodeSegmentation;
use vstd::prelude::*;

verus! {

/// A table from texts to how often each was seen, kept in a
/// `hashbrown::HashMap`. What it holds is known through `counts` alone.
#[verifier::external_body]
pub struct Frequencies {
    map: hashbrown::HashMap<String, u32>,
}

/// A text and how often it was seen.
#[derive(Debug)]
pub struct StringCount(pub String, pub u32);

/// What a table holds: each text that was seen, with its count.
pub uninterp spec fn counts(table: Frequencies) -> Map<Seq<char>, u32>;

/// The words of a text, in their order, as `unicode_segmentation` cuts
/// them out.
pub uninterp spec fn unicode_words_of(text: Seq<char>) -> Seq<Seq<char>>;

/// The grapheme clusters of a text, extended ones or legacy ones, in
/// their order, as `unicode_segmentation` cuts them out.
pub uninterp spec fn graphemes_of(text: Seq<char>, extended: bool) -> Seq<Seq<char>>;

/// A text in lower case, as `str::to_lowercase` writes it.
pub uninterp spec fn lowercase_of(text: Seq<char>) -> Seq<char>;

/// The contents of each of `items`.
pub open spec fn texts(items: Seq<String>) -> Seq<Seq<char>> {
    items.map_values(|s: String| s@)
}

/// Calls `hashbrown::HashMap::new`: the new map holds nothing.
#[verifier::external_body]
fn empty_table() -> (made: Frequencies)
    ensures
        counts(made) =~= Map::empty(),
{
    Frequencies { map: hashbrown::HashMap::new() }
}

/// Calls `hashbrown::HashMap::get`: the count held for `key`, if any.
#[verifier::external_body]
fn lookup(table: &Frequencies, key: &str) -> (count: Option<u32>)
    ensures
        count == (if counts(*table).contains_key(key@) {
            Some(counts(*table)[key@])
        } else {
            None
        }),
{
    table.map.get(key).copied()
}

/// Calls `hashbrown::HashMap::insert`: afterwards the map holds `count`
/// for `key` and is otherwise as before.
#[verifier::external_body]
fn store(table: &mut Frequencies, key: String, count: u32)
    ensures
        counts(*final(table)) == counts(*old(table)).insert(key@, count),
{
    table.map.insert(key, count);
}

/// Calls `UnicodeSegmentation::unicode_words` and hands the words out as
/// owned strings, in their order.
#[verifier::external_body]
fn unicode_words(text: &str) -> (words: Vec<String>)
    ensures
        texts(words@) == unicode_words_of(text@),
{
    text.unicode_words().map(|w| w.to_string()).collect()
}

/// Calls `UnicodeSegmentation::graphemes` and hands the clusters out as
/// owned strings, in their order.
#[verifier::external_body]
fn graphemes(text: &str, extended: bool) -> (letters: Vec<String>)
    ensures
        texts(letters@) == graphemes_of(text@, extended),
{
    text.graphemes(extended).map(|g| g.to_string()).collect()
}

/// Calls `str::to_lowercase`.
#[verifier::external_body]
fn lowercase(text: &str) -> (lower: String)
    ensures
        lower@ == lowercase_of(text@),
{
    text.to_lowercase()
}

/// `order` lists what the table holds: each text with its count, each
/// once.
pub open spec fn lists(order: Seq<StringCount>, table: Map<Seq<char>, u32>) -> bool {
    &&& forall|i: int|
        0 <= i < order.len() ==> table.contains_key(#[trigger] order[i].0@) && table[order[i].0@]
            == order[i].1
    &&& forall|i: int, j: int|
        0 <= i < j < order.len() ==> #[trigger] order[i].0@ != #[trigger] order[j].0@
    &&& forall|text: Seq<char>| #[trigger]
        table.contains_key(text) ==> exists|i: int| 0 <= i < order.len() && order[i].0@ == text
}

/// Walks the map with `hashbrown::HashMap::iter` and hands out each text
/// with its count. The map fixes no order: all that is claimed is that
/// each of its entries comes once.
#[verifier::external_body]
fn entries_of(table: &Frequencies) -> (order: Vec<StringCount>)
    ensures
        lists(order@, counts(*table)),
{
    table.map.iter().map(|entry| StringCount(entry.0.to_string(), *entry.1)).collect()
}

/// The table after `text` was seen once more: its count goes up by one,
/// and stays where a `u32` ends.
pub open spec fn seen(table: Map<Seq<char>, u32>, text: Seq<char>) -> Map<Seq<char>, u32> {
    if !table.contains_key(text) {
        table.insert(text, 1)
    } else if table[text] < u32::MAX {
        table.insert(text, (table[text] + 1) as u32)
    } else {
        table
    }
}

/// The table after each of `items` was seen in lower case.
pub open spec fn tally(items: Seq<Seq<char>>) -> Map<Seq<char>, u32>
    decreases items.len(),
{
    if items.len() == 0 {
        Map::empty()
    } else {
        seen(tally(items.drop_last()), lowercase_of(items.last()))
    }
}

impl Frequencies {
    /// A table that has seen nothing.
    pub fn new() -> (table: Frequencies)
        ensures
            counts(table) =~= Map::empty(),
    {
        empty_table()
    }

    /// How often `text` was seen: zero where it never was.
    pub fn count_of(&self, text: &str) -> (count: u32)
        ensures
            count == (if counts(*self).contains_key(text@) {
                counts(*self)[text@]
            } else {
                0
            }),
    {
        match lookup(self, text) {
            Some(count) => count,
            None => 0,
        }
    }

    /// What the table holds, each text with its count, in an order of the
    /// table's own choosing.
    pub fn entries(&self) -> (order: Vec<StringCount>)
        ensures
            lists(order@, counts(*self)),
    {
        entries_of(self)
    }

    /// Sees `text` once more.
    pub fn see(&mut self, text: String)
        ensures
            counts(*final(self)) == seen(counts(*old(self)), text@),
    {
        match lookup(self, text.as_str()) {
            None => store(self, text, 1),
            Some(count) => {
                if count < u32::MAX {
                    store(self, text, count + 1);
                }
            },
        }
    }
}

/// Sees each of `items` in lower case.
fn tally_of(items: &Vec<String>) -> (table: Frequencies)
    ensures
        counts(table) == tally(texts(items@)),
{
    let mut table = Frequencies::new();
    let mut i: usize = 0;
    while i < items.len()
        invariant
            i <= items@.len(),
            counts(table) == tally(texts(items@).take(i as int)),
        decreases items@.len() - i,
    {
        let lower = lowercase(items[i].as_str());
        proof {
            let all = texts(items@);
            assert(all.take(i + 1).drop_last() == all.take(i as int));
            assert(all.take(i + 1).last() == items@[i as int]@);
        }
        table.see(lower);
        i = i + 1;
    }
    proof {
        assert(texts(items@).take(items@.len() as int) == texts(items@));
    }
    table
}

/// How often each word of `text` occurs in it, whatever its case.
pub fn word_freq(text: &str) -> (freq: Frequencies)
    ensures
        counts(freq) == tally(unicode_words_of(text@)),
{
    let words = unicode_words(text);
    tally_of(&words)
}

/// How often each letter of `text` occurs in it, whatever its case; a
/// letter is an extended grapheme cluster.
pub fn letter_freq(text: &str) -> (freq: Frequencies)
    ensures
        counts(freq) == tally(graphemes_of(text@, true)),
{
    let letters = graphemes(text, true);
    tally_of(&letters)
}

} // verus!
