use learn_more_rust::bytes::int_of_bytes;
use learn_more_rust::data_types::MyBox;
use learn_more_rust::dedup::without_duplicates;
use learn_more_rust::lines::{answer_of, is_yes};
use learn_more_rust::macro_learning::{hello_text, Hello};
use learn_more_rust::matching::match_stuff;
use learn_more_rust::my_macros::my_vec;

struct Something;

impl Hello for Something {
    fn hello() -> String {
        hello_text("Something")
    }
}

#[test]
fn test_hello_macro() {
    assert_eq!(Something::hello(), "Hello, Macro! My name is Something");
}

#[test]
fn creates_vector() {
    let v = my_vec(&[1, 2, 3]);
    assert_eq!(*v.first().unwrap(), 1);
    assert_eq!(*v.get(1).unwrap(), 1);
    assert_eq!(*v.get(2).unwrap(), 2);
    assert_eq!(*v.get(3).unwrap(), 2);
    assert_eq!(*v.get(4).unwrap(), 3);
    assert_eq!(*v.get(5).unwrap(), 3);
    assert_eq!(v.len(), 6);
}

#[test]
fn creates_empty_vector() {
    let none: [u8; 0] = [];
    assert_eq!(my_vec(&none).len(), 0);
}

#[test]
fn box_holds_its_value() {
    let my_box = MyBox::new(5);
    assert_eq!(*my_box, 5);
    let text_box = MyBox::new("five".to_string());
    assert_eq!(text_box.len(), 4);
    assert_eq!(*text_box, "five");
}

#[test]
fn match_stuff_names_the_first_case_that_fits() {
    assert_eq!(
        match_stuff(3, "cat", true),
        "N is between 1 and 5, the string is \"cat\" and f is negative."
    );
    assert_eq!(
        match_stuff(8, "cat", false),
        "N is between 1 & 10, the string is \"cat\" and f is positive."
    );
    assert_eq!(
        match_stuff(2, "dog", false),
        "N is between 2 & 4, the string is \"dog\" and f is negative."
    );
    assert_eq!(match_stuff(0, "stick", true), "something else");
    assert_eq!(match_stuff(8, "cat", true), "something else");
    assert_eq!(match_stuff(5, "cat", false), "N is between 1 & 10, the string is \"cat\" and f is positive.");
    assert_eq!(match_stuff(2, "dog", true), "something else");
    assert_eq!(match_stuff(5, "dog", false), "something else");
    assert_eq!(match_stuff(0, "cat", false), "something else");
    assert_eq!(match_stuff(11, "cat", false), "something else");
}

#[test]
fn lists_lose_their_repetitions() {
    let has_duplicates = [
        (1, 1),
        (1, 2),
        (1, 2),
        (1, 3),
        (2, 1),
        (2, 1),
        (2, 2),
        (2, 3),
        (2, 3),
        (2, 4),
        (2, 4),
        (2, 1),
    ];
    assert_eq!(
        without_duplicates(&has_duplicates),
        vec![(1, 1), (1, 2), (1, 3), (2, 1), (2, 2), (2, 3), (2, 4)]
    );
    assert_eq!(without_duplicates(&[]), vec![]);
    assert_eq!(without_duplicates(&[(5, 5), (5, 5), (5, 5)]), vec![(5, 5)]);
}

#[test]
fn numbers_are_read_most_significant_byte_first() {
    assert_eq!(int_of_bytes(&[0, 10, 1, 1]), 655617);
    assert_eq!(int_of_bytes(&[0, 0, 0, 1]), 1);
    assert_eq!(int_of_bytes(&[1, 0, 0, 0]), 16777216);
    assert_eq!(int_of_bytes(&[255, 255, 255, 255]), -1);
    assert_eq!(int_of_bytes(&[128, 0, 0, 0]), i32::MIN);
    assert_eq!(int_of_bytes(&[127, 255, 255, 255, 9]), i32::MAX);
    assert_eq!(int_of_bytes(&[1, 2, 3]), 0);
    assert_eq!(int_of_bytes(&[]), 0);
}

#[test]
fn lines_say_yes_or_something_else() {
    assert!(is_yes("y"));
    assert!(is_yes("Y\n"));
    assert!(is_yes("  y \r\n"));
    assert!(!is_yes("yes"));
    assert!(!is_yes("n"));
    assert!(!is_yes(""));
    assert_eq!(answer_of("  buy a boat \n"), "buy a boat");
    assert_eq!(answer_of("\n"), "");
}
