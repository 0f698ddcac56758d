use linecount::detail::{aggregate, find, merge};
use linecount::parse::Data;
use linecount::Detail;

fn file(language: &'static str, code: i32, comment: i32, blank: i32, size: u64) -> Data {
    Data { language, blank, comment, code, size }
}

fn sorted_by_name(mut total: Vec<Detail>) -> Vec<Detail> {
    total.sort_by(|a, b| a.language.cmp(b.language));
    total
}

#[test]
fn two_files_of_one_language() {
    let total = aggregate(vec![vec![file("Rust", 3, 1, 0, 100), file("Rust", 5, 0, 2, 50)]]);
    assert_eq!(
        total,
        vec![Detail { language: "Rust", code: 8, comment: 1, blank: 2, size: 150, file: 2 }]
    );
}

#[test]
fn two_files_of_one_language_from_two_workers() {
    let total = aggregate(vec![vec![file("Rust", 3, 1, 0, 100)], vec![file("Rust", 5, 0, 2, 50)]]);
    assert_eq!(
        total,
        vec![Detail { language: "Rust", code: 8, comment: 1, blank: 2, size: 150, file: 2 }]
    );
}

#[test]
fn nothing_merged_gives_no_totals() {
    assert_eq!(aggregate(vec![]), vec![]);
    assert_eq!(aggregate(vec![vec![], vec![]]), vec![]);
}

#[test]
fn languages_stand_in_the_order_they_are_met() {
    let total = aggregate(vec![
        vec![file("Rust", 1, 0, 0, 1), file("C", 2, 0, 0, 2)],
        vec![file("Go", 3, 0, 0, 3), file("Rust", 4, 0, 0, 4)],
    ]);
    let names: Vec<&str> = total.iter().map(|d| d.language).collect();
    assert_eq!(names, vec!["Rust", "C", "Go"]);
    assert_eq!(total[0].code, 5);
    assert_eq!(total[0].file, 2);
    assert_eq!(total[1].file, 1);
    assert_eq!(total[2].size, 3);
}

#[test]
fn every_order_gives_the_same_totals() {
    let a = file("Rust", 3, 1, 0, 100);
    let b = file("C", 5, 0, 2, 50);
    let c = file("Rust", 7, 2, 1, 25);
    let orders = [
        vec![a, b, c],
        vec![a, c, b],
        vec![b, a, c],
        vec![b, c, a],
        vec![c, a, b],
        vec![c, b, a],
    ];
    let expected = sorted_by_name(aggregate(vec![vec![a, b, c]]));
    assert_eq!(
        expected,
        vec![
            Detail { language: "C", code: 5, comment: 0, blank: 2, size: 50, file: 1 },
            Detail { language: "Rust", code: 10, comment: 3, blank: 1, size: 125, file: 2 },
        ]
    );
    for order in orders {
        assert_eq!(sorted_by_name(aggregate(vec![order.clone()])), expected);
        // One worker for each file.
        let split: Vec<Vec<Data>> = order.iter().map(|d| vec![*d]).collect();
        assert_eq!(sorted_by_name(aggregate(split)), expected);
    }
}

#[test]
fn counters_stay_at_their_largest_value() {
    let total = aggregate(vec![vec![
        file("Rust", i32::MAX - 1, 1, 0, u64::MAX - 1),
        file("Rust", 5, i32::MAX, 0, 7),
    ]]);
    assert_eq!(
        total,
        vec![Detail {
            language: "Rust",
            code: i32::MAX,
            comment: i32::MAX,
            blank: 0,
            size: u64::MAX,
            file: 2
        }]
    );
}

#[test]
fn add_counts_a_file_in() {
    let mut detail = Detail { language: "Rust", code: 3, comment: 1, blank: 0, size: 100, file: 1 };
    detail.add(file("Rust", 5, 0, 2, 50));
    assert_eq!(
        detail,
        Detail { language: "Rust", code: 8, comment: 1, blank: 2, size: 150, file: 2 }
    );
    let mut full = Detail { language: "C", code: 0, comment: 0, blank: 0, size: 0, file: i32::MAX };
    full.add(file("C", 1, 1, 1, 1));
    assert_eq!(full.file, i32::MAX);
    assert_eq!((full.code, full.comment, full.blank, full.size), (1, 1, 1, 1));
}

#[test]
fn into_detail_starts_with_one_file() {
    let detail = file("Go", 4, 3, 2, 1).into_detail();
    assert_eq!(detail, Detail { language: "Go", code: 4, comment: 3, blank: 2, size: 1, file: 1 });
}

#[test]
fn merge_finds_the_entry_or_adds_one() {
    let mut total = Vec::new();
    merge(&mut total, file("Rust", 1, 1, 1, 1));
    merge(&mut total, file("C", 2, 2, 2, 2));
    merge(&mut total, file("Rust", 3, 3, 3, 3));
    assert_eq!(find(&total, "Rust"), Some(0));
    assert_eq!(find(&total, "C"), Some(1));
    assert_eq!(find(&total, "Go"), None);
    assert_eq!(total.len(), 2);
    assert_eq!(total[0], Detail { language: "Rust", code: 4, comment: 4, blank: 4, size: 4, file: 2 });
}

#[test]
fn languages_are_told_apart_by_name_not_by_place() {
    let name = String::from("Rust");
    let leaked: &'static str = Box::leak(name.into_boxed_str());
    let total = aggregate(vec![vec![file("Rust", 1, 0, 0, 1), file(leaked, 2, 0, 0, 2)]]);
    assert_eq!(total.len(), 1);
    assert_eq!(total[0].code, 3);
}
