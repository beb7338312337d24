use learn_more_rust::frequency::{letter_freq, word_freq, Frequencies, StringCount};
use learn_more_rust::story::{read_story_text, report_on, sort_by_count, top_n_entries, top_n_of};

fn entry(text: &str, count: u32) -> StringCount {
    StringCount(text.to_string(), count)
}

fn pairs(entries: &[StringCount]) -> Vec<(&str, u32)> {
    entries.iter().map(|e| (e.0.as_str(), e.1)).collect()
}

#[test]
fn words_are_counted_whatever_their_case() {
    let freq = word_freq("The quick (\"brown\") fox can't jump 32.3 feet, right? the FOX!");
    assert_eq!(freq.count_of("the"), 2);
    assert_eq!(freq.count_of("fox"), 2);
    assert_eq!(freq.count_of("can't"), 1);
    assert_eq!(freq.count_of("32.3"), 1);
    assert_eq!(freq.count_of("The"), 0);
    assert_eq!(freq.count_of("FOX"), 0);
    assert_eq!(freq.count_of("?"), 0);
    assert_eq!(freq.count_of(""), 0);
}

#[test]
fn an_empty_text_has_no_words_or_letters() {
    assert_eq!(word_freq("").count_of(""), 0);
    assert_eq!(letter_freq("").count_of(""), 0);
    assert_eq!(top_n_entries(5, &word_freq("")).len(), 0);
}

#[test]
fn letters_are_counted_by_grapheme() {
    let freq = letter_freq("Aa\r\ne\u{301}E\u{301} a");
    assert_eq!(freq.count_of("a"), 3);
    assert_eq!(freq.count_of("A"), 0);
    assert_eq!(freq.count_of("\r\n"), 1);
    assert_eq!(freq.count_of("e\u{301}"), 2);
    assert_eq!(freq.count_of("e"), 0);
    assert_eq!(freq.count_of(" "), 1);
}

#[test]
fn a_table_counts_what_it_sees() {
    let mut table = Frequencies::new();
    assert_eq!(table.count_of("x"), 0);
    table.see("x".to_string());
    table.see("y".to_string());
    table.see("x".to_string());
    assert_eq!(table.count_of("x"), 2);
    assert_eq!(table.count_of("y"), 1);
    assert_eq!(table.count_of("z"), 0);
}

#[test]
fn sorting_puts_large_counts_first_and_keeps_ties_in_order() {
    let sorted = sort_by_count(vec![
        entry("a", 2),
        entry("b", 5),
        entry("c", 2),
        entry("d", 9),
        entry("e", 5),
    ]);
    assert_eq!(
        pairs(&sorted),
        vec![("d", 9), ("b", 5), ("e", 5), ("a", 2), ("c", 2)]
    );
    assert_eq!(sort_by_count(Vec::new()).len(), 0);
}

#[test]
fn fewer_entries_than_places_stay_as_they_came() {
    let top = top_n_of(5, vec![entry("a", 1), entry("b", 3), entry("c", 2)]);
    assert_eq!(pairs(&top), vec![("a", 1), ("b", 3), ("c", 2)]);
}

#[test]
fn further_entries_take_the_front_when_they_count_more() {
    let top = top_n_of(
        2,
        vec![
            entry("a", 1),
            entry("b", 3),
            entry("c", 2),
            entry("d", 7),
            entry("e", 7),
            entry("f", 9),
        ],
    );
    assert_eq!(pairs(&top), vec![("f", 9), ("d", 7)]);
    let top = top_n_of(2, vec![entry("a", 1), entry("b", 3), entry("c", 3)]);
    assert_eq!(pairs(&top), vec![("b", 3), ("a", 1)]);
}

#[test]
fn no_places_keep_nothing() {
    assert_eq!(top_n_of(0, vec![entry("a", 1)]).len(), 0);
    assert_eq!(top_n_of(0, Vec::new()).len(), 0);
    assert_eq!(top_n_of(3, Vec::new()).len(), 0);
}

#[test]
fn top_entries_of_a_table_come_from_the_table() {
    let freq = word_freq("one two two three three three");
    let top = top_n_entries(5, &freq);
    let mut found = pairs(&top);
    found.sort();
    assert_eq!(found, vec![("one", 1), ("three", 3), ("two", 2)]);
    let top = top_n_entries(1, &freq);
    assert_eq!(top.len(), 1);
    assert_eq!(freq.count_of(top[0].0.as_str()), top[0].1);
    assert_eq!(top_n_entries(0, &freq).len(), 0);
}

#[test]
fn a_story_is_read_with_its_escapes() {
    let report = read_story_text("Hi\\tthere\\nhi \\u0041").unwrap();
    assert_eq!(report.story, "Hi\tthere\nhi A");
    let mut words = pairs(&report.words);
    words.sort();
    assert_eq!(words, vec![("a", 1), ("hi", 2), ("there", 1)]);
    assert_eq!(report.letters.len(), 5);
    assert!(read_story_text("bad \\q escape").is_none());
    assert!(read_story_text("cut \\").is_none());
}

#[test]
fn a_report_keeps_five_of_each() {
    let report = report_on("a b c d e f g a".to_string());
    assert_eq!(report.story, "a b c d e f g a");
    assert_eq!(report.words.len(), 5);
    assert_eq!(report.letters.len(), 5);
    for e in report.words.iter() {
        assert_eq!(e.1, if e.0 == "a" { 2 } else { 1 });
    }
}
