use linecount::config::{Config, Language};
use linecount::languages::language_list;

const TABLE: &[Language] = &[
    Language { name: "First", extension: &["a", "b"], single: &["#"], multi: &[] },
    Language { name: "Second", extension: &["b", "c"], single: &["//"], multi: &[("/*", "*/")] },
    Language { name: "A longer name", extension: &[], single: &[], multi: &[] },
];

#[test]
fn get_finds_the_language_of_an_extension() {
    let config = Config(TABLE);
    assert_eq!(config.get("a").unwrap().name, "First");
    assert_eq!(config.get("c").unwrap().name, "Second");
}

#[test]
fn get_takes_the_first_language_that_lists_the_extension() {
    let config = Config(TABLE);
    assert_eq!(config.get("b").unwrap().name, "First");
}

#[test]
fn get_knows_no_other_extension() {
    let config = Config(TABLE);
    assert!(config.get("d").is_none());
    assert!(config.get("").is_none());
    assert!(config.get("A").is_none());
    assert!(config.get("ab").is_none());
    assert!(Config(&[]).get("a").is_none());
}

#[test]
fn claims_goes_by_the_whole_extension() {
    assert!(TABLE[0].claims("a"));
    assert!(TABLE[0].claims("b"));
    assert!(!TABLE[0].claims("c"));
    assert!(!TABLE[2].claims(""));
}

#[test]
fn all_language_is_the_table() {
    let config = Config(TABLE);
    assert_eq!(config.all_language().len(), 3);
    assert_eq!(config.all_language()[1].name, "Second");
}

#[test]
fn standard_table_knows_its_languages() {
    let config = Config::standard();
    assert_eq!(config.all_language().len(), 39);
    assert_eq!(config.all_language()[0].name, "ASP.NET");
    assert_eq!(config.all_language()[38].name, "YAML");
    assert_eq!(config.get("rs").unwrap().name, "Rust");
    assert_eq!(config.get("rs").unwrap().single, &["//", "///"]);
    assert_eq!(config.get("rs").unwrap().multi, &[("/*", "*/")]);
    assert_eq!(config.get("py").unwrap().multi, &[("'''", "'''"), ("\"\"\"", "\"\"\"")]);
    assert_eq!(config.get("yaml").unwrap().name, "YAML");
    assert_eq!(config.get("sitemap").unwrap().name, "ASP.NET");
    assert_eq!(config.get("json").unwrap().single.len(), 0);
    assert_eq!(config.get("m").unwrap().name, "ObjectiveC");
    assert_eq!(config.get("mm").unwrap().name, "Objective-C++");
    assert!(config.get("exe").is_none());
    assert!(config.get("RS").is_none());
}

#[test]
fn standard_table_lists_every_extension_once() {
    let config = Config::standard();
    let mut seen = std::collections::HashSet::new();
    for language in config.all_language() {
        for extension in language.extension {
            assert!(seen.insert(*extension), "{}", extension);
            assert_eq!(config.get(extension).unwrap().name, language.name);
        }
    }
}

#[test]
fn listing_has_a_line_for_each_language() {
    let list = language_list(&Config(TABLE));
    assert_eq!(
        list,
        vec![
            "First            .a .b",
            "Second           .b .c",
            "A longer name    ",
        ]
    );
    assert_eq!(language_list(&Config(&[])), Vec::<String>::new());
}

#[test]
fn listing_of_the_standard_table() {
    let list = language_list(&Config::standard());
    assert_eq!(list.len(), 39);
    assert_eq!(list[0], "ASP.NET           .asax .ascx .asmx .aspx .master .sitemap .webinfo");
    assert_eq!(list[1], "C                 .c");
    assert_eq!(list[12], "JavaScript JSX    .jsx");
}
