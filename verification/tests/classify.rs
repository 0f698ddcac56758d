use linecount::config::{Config, Language};
use linecount::parse::{classify, classify_line, CommentState, Data, LineKind};

const HASH: Language = Language { name: "Hash", extension: &["h"], single: &["#"], multi: &[] };

const C: Language =
    Language { name: "C", extension: &["c"], single: &["//"], multi: &[("/*", "*/")] };

const PYTHON: Language = Language {
    name: "Python",
    extension: &["py"],
    single: &["#"],
    multi: &[("'''", "'''"), ("\"\"\"", "\"\"\"")],
};

const PERL: Language =
    Language { name: "Perl", extension: &["pl"], single: &["#"], multi: &[("=", "=")] };

const VUE: Language = Language {
    name: "Vue",
    extension: &["vue"],
    single: &["//"],
    multi: &[("<!--", "-->"), ("/*", "*/")],
};

fn counts(data: Data) -> (i32, i32, i32) {
    (data.blank, data.comment, data.code)
}

#[test]
fn all_blank_text_counts_every_line_as_blank() {
    assert_eq!(counts(classify("\n\n\n", &C, 0)), (3, 0, 0));
    assert_eq!(counts(classify("  \n\t\n \r\n", &C, 0)), (3, 0, 0));
    assert_eq!(counts(classify("   ", &C, 0)), (1, 0, 0));
    for n in 0..40usize {
        let text = "  \n".repeat(n);
        assert_eq!(counts(classify(&text, &PYTHON, 0)), (n as i32, 0, 0));
    }
}

#[test]
fn empty_text_has_no_line() {
    assert_eq!(counts(classify("", &C, 7)), (0, 0, 0));
}

#[test]
fn line_feed_at_the_end_opens_no_line() {
    assert_eq!(counts(classify("x = 1\n", &HASH, 0)), (0, 0, 1));
    assert_eq!(counts(classify("x = 1", &HASH, 0)), (0, 0, 1));
    assert_eq!(counts(classify("x = 1\n\n", &HASH, 0)), (1, 0, 1));
}

#[test]
fn marker_after_blank_space_makes_a_comment() {
    let (kind, state) = classify_line("  # hello  ", CommentState::Outside, &HASH);
    assert_eq!(kind, LineKind::Comment);
    assert_eq!(state, CommentState::Outside);
    assert_eq!(counts(classify("  # hello  ", &HASH, 0)), (0, 1, 0));
}

#[test]
fn marker_inside_a_line_makes_no_comment() {
    let (kind, _) = classify_line("x = 1 # hello", CommentState::Outside, &HASH);
    assert_eq!(kind, LineKind::Code);
}

#[test]
fn block_comment_on_one_line_is_closed_again() {
    let (kind, state) = classify_line("/* comment */", CommentState::Outside, &C);
    assert_eq!(kind, LineKind::Comment);
    assert_eq!(state, CommentState::Outside);
    assert_eq!(counts(classify("/* comment */", &C, 0)), (0, 1, 0));
    assert_eq!(counts(classify("/* comment */\nint x;", &C, 0)), (0, 1, 1));
}

#[test]
fn block_comment_over_three_lines() {
    assert_eq!(counts(classify("/* start\nmiddle\nend */", &C, 0)), (0, 3, 0));
    assert_eq!(counts(classify("/* start\nmiddle\nend */\nint x;", &C, 0)), (0, 3, 1));
    let (kind, state) = classify_line("/* start", CommentState::Outside, &C);
    assert_eq!((kind, state), (LineKind::Comment, CommentState::Inside(0)));
    let (kind, state) = classify_line("middle", state, &C);
    assert_eq!((kind, state), (LineKind::Comment, CommentState::Inside(0)));
    let (kind, state) = classify_line("end */", state, &C);
    assert_eq!((kind, state), (LineKind::Comment, CommentState::Outside));
}

#[test]
fn six_line_file_with_hash_comments() {
    let text = ["", "# comment", "x = 1", "", "# another", "y = 2"].join("\n");
    let data = classify(&text, &HASH, 42);
    assert_eq!(data.language, "Hash");
    assert_eq!(data.blank, 2);
    assert_eq!(data.comment, 2);
    assert_eq!(data.code, 2);
    assert_eq!(data.size, 42);
}

#[test]
fn blank_line_in_a_block_comment_is_blank() {
    assert_eq!(counts(classify("/*\n\n*/\nx", &C, 0)), (1, 2, 1));
}

#[test]
fn token_that_opens_and_closes_alike_does_not_close_itself() {
    let (kind, state) = classify_line("'''", CommentState::Outside, &PYTHON);
    assert_eq!((kind, state), (LineKind::Comment, CommentState::Inside(0)));
    let (kind, state) = classify_line("'''", state, &PYTHON);
    assert_eq!((kind, state), (LineKind::Comment, CommentState::Outside));
    // Five characters leave no room for both tokens.
    let (_, state) = classify_line("'''''", CommentState::Outside, &PYTHON);
    assert_eq!(state, CommentState::Inside(0));
    // Six do.
    let (_, state) = classify_line("''''''", CommentState::Outside, &PYTHON);
    assert_eq!(state, CommentState::Outside);
    let (_, state) = classify_line("'''doc'''", CommentState::Outside, &PYTHON);
    assert_eq!(state, CommentState::Outside);
    assert_eq!(counts(classify("'''\ndoc\n'''\nx = 1\n", &PYTHON, 0)), (0, 3, 1));
}

#[test]
fn one_character_token_stays_open_on_a_line_of_its_own() {
    let (kind, state) = classify_line("=", CommentState::Outside, &PERL);
    assert_eq!((kind, state), (LineKind::Comment, CommentState::Inside(0)));
    let (kind, state) = classify_line("x =", state, &PERL);
    assert_eq!((kind, state), (LineKind::Comment, CommentState::Outside));
    let (_, state) = classify_line("==", CommentState::Outside, &PERL);
    assert_eq!(state, CommentState::Outside);
}

#[test]
fn second_pair_is_kept_apart_from_the_first() {
    let (kind, state) = classify_line("\"\"\"", CommentState::Outside, &PYTHON);
    assert_eq!((kind, state), (LineKind::Comment, CommentState::Inside(1)));
    // The closing token of the other pair does not close it.
    let (kind, state) = classify_line("'''", state, &PYTHON);
    assert_eq!((kind, state), (LineKind::Comment, CommentState::Inside(1)));
    let (kind, state) = classify_line("end \"\"\"", state, &PYTHON);
    assert_eq!((kind, state), (LineKind::Comment, CommentState::Outside));
}

#[test]
fn first_pair_that_opens_wins() {
    let (_, state) = classify_line("/* a", CommentState::Outside, &VUE);
    assert_eq!(state, CommentState::Inside(1));
    let (_, state) = classify_line("<!-- a", CommentState::Outside, &VUE);
    assert_eq!(state, CommentState::Inside(0));
}

#[test]
fn block_comment_goes_before_single_line_marker() {
    let lua = Language { name: "Lua", extension: &["lua"], single: &["--"], multi: &[("--[[", "]]")] };
    let (kind, state) = classify_line("--[[ long", CommentState::Outside, &lua);
    assert_eq!((kind, state), (LineKind::Comment, CommentState::Inside(0)));
    let (kind, state) = classify_line("-- short", CommentState::Outside, &lua);
    assert_eq!((kind, state), (LineKind::Comment, CommentState::Outside));
}

#[test]
fn line_in_a_block_comment_that_opens_again_is_comment() {
    let (kind, state) = classify_line("/* again", CommentState::Inside(0), &C);
    assert_eq!((kind, state), (LineKind::Comment, CommentState::Inside(0)));
    let (kind, state) = classify_line("/* again */", CommentState::Inside(0), &C);
    assert_eq!((kind, state), (LineKind::Comment, CommentState::Outside));
}

#[test]
fn state_that_names_no_pair_counts_as_outside() {
    let (kind, state) = classify_line("int x;", CommentState::Inside(5), &C);
    assert_eq!((kind, state), (LineKind::Code, CommentState::Outside));
    let (kind, state) = classify_line("", CommentState::Inside(5), &C);
    assert_eq!((kind, state), (LineKind::Blank, CommentState::Inside(5)));
}

#[test]
fn blank_space_of_every_script_is_trimmed() {
    let (kind, _) = classify_line("\u{3000}\u{a0}# x\u{2003}", CommentState::Outside, &HASH);
    assert_eq!(kind, LineKind::Comment);
    let (kind, _) = classify_line("\u{2028}\u{85}\u{1680}", CommentState::Outside, &HASH);
    assert_eq!(kind, LineKind::Blank);
    // A zero-width space is no blank space.
    let (kind, _) = classify_line("\u{200b}", CommentState::Outside, &HASH);
    assert_eq!(kind, LineKind::Code);
}

#[test]
fn trimming_agrees_with_the_standard_library() {
    for n in 0..0x3100u32 {
        if let Some(c) = char::from_u32(n) {
            let line = c.to_string();
            let (kind, _) = classify_line(&line, CommentState::Outside, &HASH);
            let expected = if line.trim().is_empty() {
                LineKind::Blank
            } else if c == '#' {
                LineKind::Comment
            } else {
                LineKind::Code
            };
            assert_eq!(kind, expected, "character {:x}", n);
        }
    }
}

#[test]
fn lines_agree_with_the_standard_library() {
    let texts = ["", "\n", "a", "a\n", "a\nb", "a\n\nb\n", "\n\na", "a\r\nb\r\n", "a\n \n"];
    for text in texts {
        let data = classify(text, &HASH, 0);
        assert_eq!((data.blank + data.comment + data.code) as usize, text.lines().count());
    }
}

#[test]
fn file_of_the_standard_table() {
    let config = Config::standard();
    let rust = config.get("rs").unwrap();
    let text = "// one\nfn main() {\n    /* two\n       lines */\n\n    let x = 1; // code\n}\n";
    let data = classify(text, rust, 70);
    assert_eq!(data.language, "Rust");
    assert_eq!(counts(data), (1, 3, 3));
    assert_eq!(data.size, 70);
}
