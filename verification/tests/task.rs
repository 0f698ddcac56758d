use linecount::config::Language;
use linecount::detail::aggregate;
use linecount::parse::{classify, Data};
use linecount::task::{plan, pool_for, pool_size, Action, Event, Task, Work};
use linecount::Detail;
use std::io::ErrorKind;
use std::path::PathBuf;

const HASH: Language = Language { name: "Hash", extension: &["h"], single: &["#"], multi: &[] };

const C: Language =
    Language { name: "C", extension: &["c"], single: &["//"], multi: &[("/*", "*/")] };

fn pulled<'a>(path: &str, language: &'a Language) -> Event<'a> {
    Event::Pulled(Some(Work::Parse(PathBuf::from(path), language)))
}

fn read(text: &str) -> Event<'static> {
    Event::Read(String::from(text), text.len() as u64)
}

#[test]
fn empty_pull_is_tried_again() {
    let mut task = Task::new(false);
    assert!(matches!(task.step(Event::Pulled(None)), Action::Pull));
    assert!(matches!(task.step(Event::Pulled(None)), Action::Pull));
    assert_eq!(task.into_results(), Vec::new());
}

#[test]
fn file_is_read_and_counted() {
    let mut task = Task::new(false);
    match task.step(pulled("a.h", &HASH)) {
        Action::Load(path) => assert_eq!(path, PathBuf::from("a.h")),
        other => panic!("{:?}", other),
    }
    assert!(matches!(task.step(read("# one\nx = 1\n\n")), Action::Pull));
    assert_eq!(
        task.into_results(),
        vec![Data { language: "Hash", blank: 1, comment: 1, code: 1, size: 13 }]
    );
}

#[test]
fn files_are_counted_in_the_order_they_are_read() {
    let mut task = Task::new(false);
    task.step(pulled("a.h", &HASH));
    task.step(read("x"));
    task.step(Event::Pulled(None));
    task.step(pulled("b.c", &C));
    task.step(read("// y\n"));
    task.step(pulled("c.h", &HASH));
    task.step(read(""));
    assert!(matches!(task.step(Event::Pulled(Some(Work::Quit))), Action::Return));
    assert_eq!(
        task.into_results(),
        vec![classify("x", &HASH, 1), classify("// y\n", &C, 5), classify("", &HASH, 0)]
    );
}

#[test]
fn termination_token_ends_the_worker() {
    let mut task = Task::new(true);
    assert!(matches!(task.step(Event::Pulled(Some(Work::Quit))), Action::Return));
    // Nothing is taken in after that.
    assert!(matches!(task.step(pulled("a.h", &HASH)), Action::Return));
    assert!(matches!(task.step(read("x")), Action::Return));
    assert!(matches!(task.step(Event::Pulled(None)), Action::Return));
    assert!(matches!(
        task.step(Event::Unreadable(ErrorKind::NotFound, PathBuf::from("a.h"))),
        Action::Return
    ));
    assert_eq!(task.into_results(), Vec::new());
}

#[test]
fn unreadable_file_is_reported_where_reports_are_wanted() {
    let mut task = Task::new(true);
    task.step(pulled("a.h", &HASH));
    match task.step(Event::Unreadable(ErrorKind::PermissionDenied, PathBuf::from("a.h"))) {
        Action::Report(kind, path) => {
            assert_eq!(kind, ErrorKind::PermissionDenied);
            assert_eq!(path, PathBuf::from("a.h"));
        }
        other => panic!("{:?}", other),
    }
    // The worker goes on.
    task.step(pulled("b.h", &HASH));
    assert!(matches!(task.step(read("x")), Action::Pull));
    assert_eq!(task.into_results().len(), 1);
}

#[test]
fn unreadable_file_is_passed_over_where_no_reports_are_wanted() {
    let mut task = Task::new(false);
    task.step(pulled("a.h", &HASH));
    assert!(matches!(
        task.step(Event::Unreadable(ErrorKind::InvalidData, PathBuf::from("a.h"))),
        Action::Pull
    ));
    assert_eq!(task.into_results(), Vec::new());
}

#[test]
fn what_cannot_be_counted_is_passed_over() {
    let mut task = Task::new(true);
    task.step(pulled("dir.h", &HASH));
    assert!(matches!(task.step(Event::Invalid), Action::Pull));
    // The text of a file that was given up is not counted.
    assert!(matches!(task.step(read("x")), Action::Pull));
    assert_eq!(task.into_results(), Vec::new());
}

#[test]
fn text_that_no_file_was_asked_for_is_not_counted() {
    let mut task = Task::new(false);
    assert!(matches!(task.step(read("x")), Action::Pull));
    assert_eq!(task.into_results(), Vec::new());
}

#[test]
fn plan_puts_the_tokens_behind_the_jobs() {
    let jobs = vec![(PathBuf::from("a.h"), &HASH), (PathBuf::from("b.c"), &C)];
    let queue = plan(jobs, 3);
    assert_eq!(queue.len(), 5);
    match &queue[0] {
        Work::Parse(path, language) => {
            assert_eq!(path, &PathBuf::from("a.h"));
            assert_eq!(language.name, "Hash");
        }
        Work::Quit => panic!("a token before the jobs"),
    }
    match &queue[1] {
        Work::Parse(path, language) => {
            assert_eq!(path, &PathBuf::from("b.c"));
            assert_eq!(language.name, "C");
        }
        Work::Quit => panic!("a token before the jobs"),
    }
    assert!(matches!(queue[2], Work::Quit));
    assert!(matches!(queue[3], Work::Quit));
    assert!(matches!(queue[4], Work::Quit));
}

#[test]
fn plan_without_jobs_or_workers() {
    assert_eq!(plan(Vec::new(), 0).len(), 0);
    let queue = plan(Vec::new(), 2);
    assert_eq!(queue.len(), 2);
    assert!(matches!(queue[0], Work::Quit));
    let queue = plan(vec![(PathBuf::from("a.h"), &HASH)], 0);
    assert_eq!(queue.len(), 1);
    assert!(matches!(queue[0], Work::Parse(..)));
}

#[test]
fn pool_has_a_worker() {
    assert!(pool_size() >= 1);
    assert_eq!(pool_for(0), 1);
}

#[test]
fn pool_has_a_worker_for_each_processor() {
    assert_eq!(pool_for(1), 1);
    assert_eq!(pool_for(8), 8);
    assert_eq!(pool_for(usize::MAX), usize::MAX);
}

/// Runs the queue through `workers` workers that take turns at pulling.
fn run(files: &[(&str, &'static Language, &str)], workers: usize) -> Vec<Vec<Data>> {
    let jobs = files.iter().map(|(path, language, _)| (PathBuf::from(path), *language)).collect();
    let mut queue = std::collections::VecDeque::from(plan(jobs, workers));
    let mut tasks: Vec<Task> = (0..workers).map(|_| Task::new(false)).collect();
    let mut done = vec![false; workers];
    let mut turn = 0;
    while done.iter().any(|d| !d) {
        let i = turn % workers;
        turn += 1;
        if done[i] {
            continue;
        }
        match tasks[i].step(Event::Pulled(queue.pop_front())) {
            Action::Load(path) => {
                let text = files.iter().find(|f| PathBuf::from(f.0) == path).unwrap().2;
                tasks[i].step(Event::Read(String::from(text), text.len() as u64));
            }
            Action::Return => done[i] = true,
            Action::Pull | Action::Report(..) => {}
        }
    }
    assert!(queue.is_empty());
    tasks.into_iter().map(|task| task.into_results()).collect()
}

fn by_name(mut total: Vec<Detail>) -> Vec<Detail> {
    total.sort_by(|a, b| a.language.cmp(b.language));
    total
}

#[test]
fn totals_do_not_depend_on_the_number_of_workers() {
    let files: Vec<(&str, &'static Language, &str)> = vec![
        ("a.h", &HASH, "# a\nx\n\n"),
        ("b.c", &C, "/* b\n */\nint x;\n"),
        ("c.h", &HASH, "y\nz\n"),
        ("d.c", &C, "// d\n"),
        ("e.c", &C, "\n\n"),
    ];
    let single = run(&files, 1);
    assert_eq!(single.len(), 1);
    assert_eq!(single[0].len(), 5);
    let expected = by_name(aggregate(single));
    assert_eq!(
        expected,
        vec![
            Detail { language: "C", blank: 2, comment: 3, code: 1, size: 23, file: 3 },
            Detail { language: "Hash", blank: 1, comment: 1, code: 3, size: 11, file: 2 },
        ]
    );
    for workers in 2..8 {
        let lists = run(&files, workers);
        assert_eq!(lists.len(), workers);
        assert_eq!(lists.iter().map(|l| l.len()).sum::<usize>(), 5);
        assert_eq!(by_name(aggregate(lists)), expected);
    }
}
