//! The languages known from the start.

use crate::config::{Config, Language};
use crate::layout::{left, push_left, push_line, texts};
use vstd::prelude::*;
use vstd::string::{StringExecFns, StringSliceAdditionalSpecFns};

verus! {

/// The languages known from the start, in table order.
pub open spec fn standard_languages() -> Seq<Language> {
    seq![
        Language { name: "ASP.NET", extension: &["asax", "ascx", "asmx", "aspx", "master", "sitemap", "webinfo"], single: &[], multi: &[("<!--", "-->"), ("<%--", "-->")] },
        Language { name: "C", extension: &["c"], single: &["//"], multi: &[("/*", "*/")] },
        Language { name: "CSS", extension: &["css", "scss", "sass", "less"], single: &["//"], multi: &[("/*", "*/")] },
        Language { name: "C++", extension: &["cpp"], single: &["//"], multi: &[("/*", "*/")] },
        Language { name: "CoffeeScript", extension: &["coffee"], single: &["#"], multi: &[("###", "###")] },
        Language { name: "C#", extension: &["cs"], single: &["//", "///"], multi: &[("/*", "*/")] },
        Language { name: "D", extension: &["d"], single: &["//", "///"], multi: &[("/*", "*/")] },
        Language { name: "Dart", extension: &["dart"], single: &["//", "///"], multi: &[("/*", "*/")] },
        Language { name: "Go", extension: &["go"], single: &["//"], multi: &[("/*", "*/")] },
        Language { name: "HTML", extension: &["htm", "html"], single: &[], multi: &[("<!--", "-->")] },
        Language { name: "Haskell", extension: &["hs"], single: &["--"], multi: &[("{-", "-}")] },
        Language { name: "JavaScript", extension: &["js", "mjs"], single: &["//"], multi: &[("/*", "*/")] },
        Language { name: "JavaScript JSX", extension: &["jsx"], single: &["//"], multi: &[("/*", "*/")] },
        Language { name: "JSON", extension: &["json"], single: &[], multi: &[] },
        Language { name: "Julia", extension: &["jl"], single: &["#"], multi: &[("#=", "=#")] },
        Language { name: "Java", extension: &["java"], single: &["//"], multi: &[("/*", "*/")] },
        Language { name: "LLVM", extension: &["ll"], single: &[","], multi: &[] },
        Language { name: "Lua", extension: &["lua"], single: &["--"], multi: &[("--[[", "]]")] },
        Language { name: "Markdown", extension: &["md", "markdown"], single: &[], multi: &[] },
        Language { name: "Nim", extension: &["nim"], single: &["#"], multi: &[("＃[", "]#")] },
        Language { name: "ObjectiveC", extension: &["m"], single: &["//", "///"], multi: &[("/*", "*/")] },
        Language { name: "Objective-C++", extension: &["mm"], single: &["//"], multi: &[("/*", "*/")] },
        Language { name: "PHP", extension: &["php"], single: &["//", "#"], multi: &[("/*", "*/")] },
        Language { name: "Python", extension: &["py"], single: &["#"], multi: &[("'''", "'''"), ("\"\"\"", "\"\"\"")] },
        Language { name: "Perl", extension: &["pl", "pm"], single: &["#"], multi: &[("=", "=")] },
        Language { name: "R", extension: &["r"], single: &["#"], multi: &[] },
        Language { name: "Rust", extension: &["rs"], single: &["//", "///"], multi: &[("/*", "*/")] },
        Language { name: "Ruby", extension: &["rb"], single: &["#"], multi: &[("=", "=")] },
        Language { name: "Swift", extension: &["swift"], single: &["//"], multi: &[("/*", "*/")] },
        Language { name: "Scala", extension: &["sc"], single: &["//"], multi: &[("/*", "*/")] },
        Language { name: "Shell", extension: &["sh", "bash", "zsh", "fish"], single: &["#"], multi: &[] },
        Language { name: "SQL", extension: &["sql"], single: &["--"], multi: &[("/*", "*/")] },
        Language { name: "TypeScript", extension: &["ts"], single: &["//"], multi: &[("/*", "*/")] },
        Language { name: "TypeScript JSX", extension: &["tsx"], single: &["//"], multi: &[("/*", "*/")] },
        Language { name: "TOML", extension: &["toml"], single: &["#"], multi: &[] },
        Language { name: "Vue", extension: &["vue"], single: &["//"], multi: &[("<!--", "-->"), ("/*", "*/")] },
        Language { name: "VimScript", extension: &["vim"], single: &[], multi: &[] },
        Language { name: "XML", extension: &["xml"], single: &[], multi: &[("<!--", "-->")] },
        Language { name: "YAML", extension: &["yml", "yaml"], single: &["#"], multi: &[] },
    ]
}

impl Config {
    /// The table of the languages known from the start.
    pub fn standard() -> (config: Config)
        ensures
            config.0@ == standard_languages(),
    {
        Config(
            &[
                Language { name: "ASP.NET", extension: &["asax", "ascx", "asmx", "aspx", "master", "sitemap", "webinfo"], single: &[], multi: &[("<!--", "-->"), ("<%--", "-->")] },
                Language { name: "C", extension: &["c"], single: &["//"], multi: &[("/*", "*/")] },
                Language { name: "CSS", extension: &["css", "scss", "sass", "less"], single: &["//"], multi: &[("/*", "*/")] },
                Language { name: "C++", extension: &["cpp"], single: &["//"], multi: &[("/*", "*/")] },
                Language { name: "CoffeeScript", extension: &["coffee"], single: &["#"], multi: &[("###", "###")] },
                Language { name: "C#", extension: &["cs"], single: &["//", "///"], multi: &[("/*", "*/")] },
                Language { name: "D", extension: &["d"], single: &["//", "///"], multi: &[("/*", "*/")] },
                Language { name: "Dart", extension: &["dart"], single: &["//", "///"], multi: &[("/*", "*/")] },
                Language { name: "Go", extension: &["go"], single: &["//"], multi: &[("/*", "*/")] },
                Language { name: "HTML", extension: &["htm", "html"], single: &[], multi: &[("<!--", "-->")] },
                Language { name: "Haskell", extension: &["hs"], single: &["--"], multi: &[("{-", "-}")] },
                Language { name: "JavaScript", extension: &["js", "mjs"], single: &["//"], multi: &[("/*", "*/")] },
                Language { name: "JavaScript JSX", extension: &["jsx"], single: &["//"], multi: &[("/*", "*/")] },
                Language { name: "JSON", extension: &["json"], single: &[], multi: &[] },
                Language { name: "Julia", extension: &["jl"], single: &["#"], multi: &[("#=", "=#")] },
                Language { name: "Java", extension: &["java"], single: &["//"], multi: &[("/*", "*/")] },
                Language { name: "LLVM", extension: &["ll"], single: &[","], multi: &[] },
                Language { name: "Lua", extension: &["lua"], single: &["--"], multi: &[("--[[", "]]")] },
                Language { name: "Markdown", extension: &["md", "markdown"], single: &[], multi: &[] },
                Language { name: "Nim", extension: &["nim"], single: &["#"], multi: &[("＃[", "]#")] },
                Language { name: "ObjectiveC", extension: &["m"], single: &["//", "///"], multi: &[("/*", "*/")] },
                Language { name: "Objective-C++", extension: &["mm"], single: &["//"], multi: &[("/*", "*/")] },
                Language { name: "PHP", extension: &["php"], single: &["//", "#"], multi: &[("/*", "*/")] },
                Language { name: "Python", extension: &["py"], single: &["#"], multi: &[("'''", "'''"), ("\"\"\"", "\"\"\"")] },
                Language { name: "Perl", extension: &["pl", "pm"], single: &["#"], multi: &[("=", "=")] },
                Language { name: "R", extension: &["r"], single: &["#"], multi: &[] },
                Language { name: "Rust", extension: &["rs"], single: &["//", "///"], multi: &[("/*", "*/")] },
                Language { name: "Ruby", extension: &["rb"], single: &["#"], multi: &[("=", "=")] },
                Language { name: "Swift", extension: &["swift"], single: &["//"], multi: &[("/*", "*/")] },
                Language { name: "Scala", extension: &["sc"], single: &["//"], multi: &[("/*", "*/")] },
                Language { name: "Shell", extension: &["sh", "bash", "zsh", "fish"], single: &["#"], multi: &[] },
                Language { name: "SQL", extension: &["sql"], single: &["--"], multi: &[("/*", "*/")] },
                Language { name: "TypeScript", extension: &["ts"], single: &["//"], multi: &[("/*", "*/")] },
                Language { name: "TypeScript JSX", extension: &["tsx"], single: &["//"], multi: &[("/*", "*/")] },
                Language { name: "TOML", extension: &["toml"], single: &["#"], multi: &[] },
                Language { name: "Vue", extension: &["vue"], single: &["//"], multi: &[("<!--", "-->"), ("/*", "*/")] },
                Language { name: "VimScript", extension: &["vim"], single: &[], multi: &[] },
                Language { name: "XML", extension: &["xml"], single: &[], multi: &[("<!--", "-->")] },
                Language { name: "YAML", extension: &["yml", "yaml"], single: &["#"], multi: &[] },
            ],
        )
    }
}

/// The extensions as they are listed: each with its dot, a space between
/// each two of them.
pub open spec fn dotted(extensions: Seq<Seq<char>>) -> Seq<char>
    decreases extensions.len(),
{
    if extensions.len() == 0 {
        Seq::empty()
    } else if extensions.len() == 1 {
        "."@ + extensions[0]
    } else {
        dotted(extensions.drop_last()) + " "@ + "."@ + extensions.last()
    }
}

/// The length in bytes of the longest name among `languages`.
pub open spec fn widest(languages: Seq<Language>) -> nat
    decreases languages.len(),
{
    if languages.len() == 0 {
        0
    } else {
        let before = widest(languages.drop_last());
        let last = languages.last().name.spec_bytes().len();
        if last > before {
            last
        } else {
            before
        }
    }
}

/// The line of the listing for `language`: its name at the left of a column
/// of `width` characters, four spaces, and its extensions.
pub open spec fn listing_line(language: Language, width: nat) -> Seq<char> {
    left(language.name@, width) + "    "@ + dotted(language.extensions())
}

/// The extensions of `language` as they are listed.
fn dotted_text(language: &Language) -> (text: String)
    ensures
        text@ == dotted(language.extensions()),
{
    let mut text = String::new();
    let mut i: usize = 0;
    let ghost all = language.extensions();
    assert(all.take(0) =~= Seq::<Seq<char>>::empty());
    while i < language.extension.len()
        invariant
            i <= language.extension@.len(),
            all == language.extensions(),
            text@ == dotted(all.take(i as int)),
        decreases language.extension@.len() - i,
    {
        proof {
            assert(all.take(i + 1).drop_last() =~= all.take(i as int));
            assert(all.take(i + 1).last() == language.extension@[i as int]@);
        }
        if i > 0 {
            text.append(" ");
        }
        text.append(".");
        text.append(language.extension[i]);
        i += 1;
        assert(text@ =~= dotted(all.take(i as int)));
    }
    assert(all.take(i as int) =~= all);
    text
}

/// The listing of the languages of `config`: a line for each, in table
/// order, the names in a column as wide as the longest of them.
pub fn language_list(config: &Config) -> (list: Vec<String>)
    ensures
        texts(list@) == Seq::new(
            config.0@.len(),
            |i: int| listing_line(config.0@[i], widest(config.0@)),
        ),
{
    let mut n: usize = 0;
    let mut i: usize = 0;
    while i < config.0.len()
        invariant
            i <= config.0@.len(),
            n == widest(config.0@.take(i as int)),
        decreases config.0@.len() - i,
    {
        proof {
            assert(config.0@.take(i + 1).drop_last() =~= config.0@.take(i as int));
            assert(config.0@.take(i + 1).last() == config.0@[i as int]);
        }
        let len = config.0[i].name.as_bytes().len();
        if len > n {
            n = len;
        }
        i += 1;
    }
    assert(config.0@.take(i as int) =~= config.0@);
    let mut list: Vec<String> = Vec::new();
    let mut k: usize = 0;
    assert(texts(list@) =~= Seq::new(0, |i: int| listing_line(config.0@[i], n as nat)));
    while k < config.0.len()
        invariant
            k <= config.0@.len(),
            n == widest(config.0@),
            texts(list@) == Seq::new(k as nat, |i: int| listing_line(config.0@[i], n as nat)),
        decreases config.0@.len() - k,
    {
        let language = &config.0[k];
        let ext = dotted_text(language);
        let mut line = String::new();
        push_left(&mut line, language.name, n);
        line.append("    ");
        line.append(ext.as_str());
        assert(line@ =~= listing_line(config.0@[k as int], n as nat));
        push_line(&mut list, line);
        k += 1;
        assert(texts(list@) =~= Seq::new(k as nat, |i: int| listing_line(config.0@[i], n as nat)));
    }
    list
}

} // verus!
