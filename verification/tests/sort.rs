use linecount::sort::{arrange, bubble_sort, position};
use linecount::{Detail, Sort};
use std::str::FromStr;

fn row(language: &'static str, code: i32, comment: i32, blank: i32, size: u64, file: i32) -> Detail {
    Detail { language, blank, comment, code, size, file }
}

fn names(total: &[Detail]) -> Vec<&'static str> {
    total.iter().map(|d| d.language).collect()
}

fn sample() -> Vec<Detail> {
    vec![
        row("Rust", 10, 1, 7, 300, 2),
        row("C", 30, 3, 5, 100, 9),
        row("Go", 20, 2, 6, 200, 1),
        row("Ada", 20, 9, 1, 50, 4),
    ]
}

#[test]
fn position_is_the_place_of_the_first_letter() {
    assert_eq!(position("Ada"), 0);
    assert_eq!(position("C++"), 2);
    assert_eq!(position("Rust"), 17);
    assert_eq!(position("Zig"), 25);
}

#[test]
fn position_of_other_names_is_zero() {
    assert_eq!(position(""), 0);
    assert_eq!(position("rust"), 0);
    assert_eq!(position("9base"), 0);
    assert_eq!(position("Éclair"), 0);
    assert_eq!(position("[x]"), 0);
    assert_eq!(position("@"), 0);
}

#[test]
fn bubble_sort_puts_items_behind_those_they_belong_behind() {
    let sorted = bubble_sort(vec![3, 1, 2, 5, 4], |a: &i32, b: &i32| a > b);
    assert_eq!(sorted, vec![1, 2, 3, 4, 5]);
    let sorted = bubble_sort(vec![3, 1, 2, 5, 4], |a: &i32, b: &i32| a < b);
    assert_eq!(sorted, vec![5, 4, 3, 2, 1]);
    let sorted = bubble_sort(Vec::<i32>::new(), |a: &i32, b: &i32| a > b);
    assert_eq!(sorted, Vec::<i32>::new());
    let sorted = bubble_sort(vec![7], |a: &i32, b: &i32| a > b);
    assert_eq!(sorted, vec![7]);
}

#[test]
fn bubble_sort_keeps_items_that_rank_alike_in_order() {
    let items = vec![(2, 'a'), (1, 'b'), (2, 'c'), (1, 'd'), (0, 'e'), (2, 'f')];
    let sorted = bubble_sort(items, |a: &(i32, char), b: &(i32, char)| a.0 > b.0);
    assert_eq!(sorted, vec![(0, 'e'), (1, 'b'), (1, 'd'), (2, 'a'), (2, 'c'), (2, 'f')]);
}

#[test]
fn bubble_sort_takes_items_that_cannot_be_copied() {
    let items = vec![String::from("pear"), String::from("fig"), String::from("apple")];
    let sorted = bubble_sort(items, |a: &String, b: &String| a.len() > b.len());
    assert_eq!(sorted, vec!["fig", "pear", "apple"]);
}

#[test]
fn counters_are_ordered_from_the_largest_down() {
    assert_eq!(names(&arrange(sample(), Sort::Code)), vec!["C", "Go", "Ada", "Rust"]);
    assert_eq!(names(&arrange(sample(), Sort::Comment)), vec!["Ada", "C", "Go", "Rust"]);
    assert_eq!(names(&arrange(sample(), Sort::Blank)), vec!["Rust", "Go", "C", "Ada"]);
    assert_eq!(names(&arrange(sample(), Sort::File)), vec!["C", "Ada", "Rust", "Go"]);
    assert_eq!(names(&arrange(sample(), Sort::Size)), vec!["Rust", "Go", "C", "Ada"]);
}

#[test]
fn languages_are_ordered_by_first_letter() {
    assert_eq!(names(&arrange(sample(), Sort::Language)), vec!["Ada", "C", "Go", "Rust"]);
    let total = vec![row("Go", 0, 0, 0, 0, 0), row("C++", 0, 0, 0, 0, 0), row("C", 0, 0, 0, 0, 0)];
    // Names with the same first letter keep the order they came in.
    assert_eq!(names(&arrange(total, Sort::Language)), vec!["C++", "C", "Go"]);
}

#[test]
fn arrange_keeps_every_total() {
    let sorted = arrange(sample(), Sort::Code);
    assert_eq!(sorted.len(), 4);
    assert_eq!(sorted[0], row("C", 30, 3, 5, 100, 9));
    assert_eq!(sorted[3], row("Rust", 10, 1, 7, 300, 2));
    assert_eq!(arrange(Vec::new(), Sort::Size), Vec::new());
}

#[test]
fn sort_goes_by_its_name() {
    assert_eq!(Sort::from_str("language"), Ok(Sort::Language));
    assert_eq!(Sort::from_str("code"), Ok(Sort::Code));
    assert_eq!(Sort::from_str("comment"), Ok(Sort::Comment));
    assert_eq!(Sort::from_str("blank"), Ok(Sort::Blank));
    assert_eq!(Sort::from_str("file"), Ok(Sort::File));
    assert_eq!(Sort::from_str("size"), Ok(Sort::Size));
    assert_eq!(Sort::from_name("size"), Ok(Sort::Size));
    assert_eq!("code".parse::<Sort>(), Ok(Sort::Code));
}

#[test]
fn sort_by_another_name_is_an_error() {
    assert_eq!(Sort::from_str("Code"), Err(()));
    assert_eq!(Sort::from_str(""), Err(()));
    assert_eq!(Sort::from_str("lines"), Err(()));
    assert_eq!(Sort::from_name("codes"), Err(()));
}

#[test]
fn sort_is_by_language_unless_told() {
    assert_eq!(Sort::default(), Sort::Language);
}
