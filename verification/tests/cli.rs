use linecount::cli::{
    force, force_to_glob, is_listed, matches_any, Arguments, Base, Options, Refusal,
};
use linecount::config::Config;
use linecount::output::Format;
use linecount::Sort;
use std::path::PathBuf;

fn texts(values: &[&str]) -> Vec<String> {
    values.iter().map(|s| s.to_string()).collect()
}

fn arguments() -> Arguments {
    Arguments {
        work_dir: PathBuf::from("."),
        base: Base::Current,
        print_error: false,
        excluded: None,
        included: None,
        output: String::from("table"),
        sort: String::from("language"),
        extension: None,
    }
}

fn options(included: Option<&[&str]>, excluded: Option<&[&str]>, extension: Option<&[&str]>) -> Options {
    Options::from_arguments(Arguments {
        included: included.map(texts),
        excluded: excluded.map(texts),
        extension: extension.map(texts),
        ..arguments()
    })
    .unwrap()
}

#[test]
fn pattern_is_written_like_the_paths_of_the_walk() {
    assert_eq!(force(Base::Current, "src"), "./src");
    assert_eq!(force(Base::Current, "./src"), "./src");
    assert_eq!(force(Base::Current, "/src"), ".//src");
    assert_eq!(force(Base::Current, "."), "./.");
    assert_eq!(force(Base::Current, ""), "./");
    assert_eq!(force(Base::Root, "src"), "/src");
    assert_eq!(force(Base::Root, "/src"), "/src");
    assert_eq!(force(Base::Root, "./src"), "/./src");
    assert_eq!(force(Base::Plain, "src"), "src");
    assert_eq!(force(Base::Plain, "./src"), "./src");
    assert_eq!(force(Base::Plain, "/src"), "/src");
}

#[test]
fn patterns_are_compiled_from_the_rewritten_text() {
    let patterns = force_to_glob(Base::Current, &texts(&["src/*.rs", "./doc/**"])).unwrap();
    assert_eq!(patterns.len(), 2);
    assert_eq!(patterns[0].as_str(), "./src/*.rs");
    assert_eq!(patterns[1].as_str(), "./doc/**");
    assert!(patterns[0].matches("./src/main.rs"));
    assert!(!patterns[0].matches("src/main.rs"));
    assert_eq!(force_to_glob(Base::Root, &Vec::new()).unwrap().len(), 0);
}

#[test]
fn first_pattern_that_does_not_compile_fails_them_all() {
    let failure = force_to_glob(Base::Root, &texts(&["*.rs", "a**b", "[x"])).unwrap_err();
    assert_eq!(failure.pattern, "/a**b");
    assert_eq!(failure.cause.pos, 1);
    let failure = force_to_glob(Base::Plain, &texts(&["[x"])).unwrap_err();
    assert_eq!(failure.pattern, "[x");
    assert_eq!(failure.cause.msg, "invalid range pattern");
}

#[test]
fn one_matching_pattern_is_enough() {
    let patterns = force_to_glob(Base::Plain, &texts(&["*.c", "src/*.rs"])).unwrap();
    assert!(matches_any(&patterns, "src/main.rs"));
    assert!(matches_any(&patterns, "a.c"));
    assert!(!matches_any(&patterns, "main.rs"));
    assert!(!matches_any(&patterns, "*.c."));
    assert!(!matches_any(&Vec::new(), "a.c"));
}

#[test]
fn extension_is_listed_as_a_whole() {
    let wanted = texts(&["rs", "c"]);
    assert!(is_listed(&wanted, "rs"));
    assert!(is_listed(&wanted, "c"));
    assert!(!is_listed(&wanted, "r"));
    assert!(!is_listed(&wanted, "RS"));
    assert!(!is_listed(&Vec::new(), "rs"));
}

#[test]
fn file_of_a_known_language_is_taken_in() {
    let config = Config::standard();
    let all = options(None, None, None);
    assert_eq!(all.select(Some("./src/main.rs"), Some("rs"), &config).unwrap().name, "Rust");
    assert_eq!(all.select(Some("./a.htm"), Some("htm"), &config).unwrap().name, "HTML");
    assert!(all.select(Some("./a.xyz"), Some("xyz"), &config).is_none());
    assert!(all.select(Some("./Makefile"), None, &config).is_none());
    // A path that cannot be written as text is held against no pattern.
    assert_eq!(all.select(None, Some("rs"), &config).unwrap().name, "Rust");
}

#[test]
fn file_must_match_a_pattern_to_take_in() {
    let config = Config::standard();
    let some = options(Some(&["src/*", "*.c"]), None, None);
    assert_eq!(some.select(Some("./src/main.rs"), Some("rs"), &config).unwrap().name, "Rust");
    assert_eq!(some.select(Some("./a.c"), Some("c"), &config).unwrap().name, "C");
    assert!(some.select(Some("./doc/main.rs"), Some("rs"), &config).is_none());
    assert!(some.select(None, Some("rs"), &config).is_none());
    let none = options(Some(&[]), None, None);
    assert!(none.select(Some("./src/main.rs"), Some("rs"), &config).is_none());
}

#[test]
fn file_must_match_no_pattern_to_leave_out() {
    let config = Config::standard();
    let some = options(None, Some(&["target/**", "*.c"]), None);
    assert_eq!(some.select(Some("./src/main.rs"), Some("rs"), &config).unwrap().name, "Rust");
    assert!(some.select(Some("./target/debug/build.rs"), Some("rs"), &config).is_none());
    assert!(some.select(Some("./a.c"), Some("c"), &config).is_none());
    assert_eq!(some.select(None, Some("c"), &config).unwrap().name, "C");
    let both = options(Some(&["src/**"]), Some(&["src/gen/**"]), None);
    assert!(both.select(Some("./src/a.rs"), Some("rs"), &config).is_some());
    assert!(both.select(Some("./src/gen/a.rs"), Some("rs"), &config).is_none());
}

#[test]
fn file_must_have_an_extension_that_is_wanted() {
    let config = Config::standard();
    let some = options(None, None, Some(&["rs", "xyz"]));
    assert_eq!(some.select(Some("./a.rs"), Some("rs"), &config).unwrap().name, "Rust");
    assert!(some.select(Some("./a.c"), Some("c"), &config).is_none());
    // Wanted, but of no known language.
    assert!(some.select(Some("./a.xyz"), Some("xyz"), &config).is_none());
}

#[test]
fn options_take_the_arguments_over() {
    let options = Options::from_arguments(Arguments {
        work_dir: PathBuf::from("/srv/code"),
        base: Base::Root,
        print_error: true,
        excluded: Some(texts(&["target"])),
        included: Some(texts(&["/srv/code/*", "lib/*"])),
        output: String::from("markdown"),
        sort: String::from("size"),
        extension: Some(texts(&["rs"])),
    })
    .unwrap();
    assert_eq!(options.work_dir, PathBuf::from("/srv/code"));
    assert!(options.print_error);
    assert_eq!(options.excluded.unwrap()[0].as_str(), "/target");
    let included = options.included.unwrap();
    assert_eq!(included[0].as_str(), "/srv/code/*");
    assert_eq!(included[1].as_str(), "/lib/*");
    assert_eq!(options.format, Format::Markdown);
    assert_eq!(options.sort, Sort::Size);
    assert_eq!(options.extension, Some(texts(&["rs"])));
    let plain = Options::from_arguments(arguments()).unwrap();
    assert!(plain.excluded.is_none());
    assert!(plain.included.is_none());
    assert!(plain.extension.is_none());
    assert_eq!(plain.format, Format::Table);
    assert_eq!(plain.sort, Sort::Language);
}

#[test]
fn malformed_pattern_turns_the_command_line_down() {
    let refusal =
        Options::from_arguments(Arguments { excluded: Some(texts(&["***"])), ..arguments() })
            .unwrap_err();
    match refusal {
        Refusal::Glob(failure) => assert_eq!(failure.pattern, "./***"),
        other => panic!("{:?}", other),
    }
    let refusal = Options::from_arguments(Arguments {
        included: Some(texts(&["ok", "[!"])),
        output: String::from("pdf"),
        ..arguments()
    })
    .unwrap_err();
    match refusal {
        Refusal::Glob(failure) => assert_eq!(failure.pattern, "./[!"),
        other => panic!("{:?}", other),
    }
}

#[test]
fn unknown_format_turns_the_command_line_down() {
    let refusal = Options::from_arguments(Arguments {
        output: String::from("pdf"),
        sort: String::from("age"),
        ..arguments()
    })
    .unwrap_err();
    assert!(matches!(refusal, Refusal::Output(name) if name == "pdf"));
}

#[test]
fn unknown_column_turns_the_command_line_down() {
    let refusal =
        Options::from_arguments(Arguments { sort: String::from("age"), ..arguments() }).unwrap_err();
    assert!(matches!(refusal, Refusal::Sort(name) if name == "age"));
}
