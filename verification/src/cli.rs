//! What a run was asked to do, and which files that takes in: the glob
//! patterns to include and to leave out, the extensions wanted, and the
//! language table.

use crate::config::{Config, Language};
use crate::output::Format;
use crate::sort::Sort;
use crate::text::{begins_with, same_text};
use glob::{Pattern, PatternError};
use std::path::PathBuf;
use vstd::prelude::*;
use vstd::string::StringExecFns;

verus! {

/// `glob::Pattern`, a compiled glob pattern.
#[verifier::external_type_specification]
#[verifier::external_body]
pub struct ExPattern(Pattern);

/// `glob::PatternError`, which says where a glob pattern is malformed.
#[verifier::external_type_specification]
#[verifier::external_body]
pub struct ExPatternError(PatternError);

/// The text that `pattern` holds: the one it was compiled from, as
/// `glob::Pattern::as_str` hands it out.
pub uninterp spec fn pattern_text(pattern: Pattern) -> Seq<char>;

/// Whether `glob::Pattern::new` takes `text` for a glob pattern. The crate
/// reads path separators as the platform it is built for does.
pub uninterp spec fn glob_valid(text: Seq<char>) -> bool;

/// Whether the glob pattern written `pattern` matches `path`, as
/// `glob::Pattern::matches` decides it with its default options, on the
/// platform the crate is built for.
pub uninterp spec fn glob_matches(pattern: Seq<char>, path: Seq<char>) -> bool;

/// Compiles a glob pattern with `glob::Pattern::new`. Whether that succeeds
/// depends on the text alone, and the pattern that comes back keeps the text
/// it was made from; the error is the crate's own.
#[verifier::external_body]
fn compile(text: &str) -> (r: Result<Pattern, PatternError>)
    ensures
        r is Ok == glob_valid(text@),
        r matches Ok(pattern) ==> pattern_text(pattern) == text@,
{
    Pattern::new(text)
}

/// Asks `glob::Pattern::matches` whether `pattern` matches `path`. The
/// answer depends on the text of the pattern and on the path, and on
/// nothing else.
#[verifier::external_body]
fn matches(pattern: &Pattern, path: &str) -> (hit: bool)
    ensures
        hit == glob_matches(pattern_text(*pattern), path@),
{
    pattern.matches(path)
}

/// How the directory to walk is written, as far as glob patterns care.
#[derive(Debug, Clone, Copy, PartialEq, Eq)]
pub enum Base {
    /// It starts at the current directory: `.` or `./src`.
    Current,
    /// It starts at the root: `/src`.
    Root,
    /// Anything else: `src`.
    Plain,
}

/// A glob pattern that could not be compiled.
#[derive(Debug)]
pub struct GlobFailure {
    /// The pattern as it was handed to the compiler.
    pub pattern: String,
    /// What the compiler found wrong with it.
    pub cause: PatternError,
}

/// What a run was asked to do.
#[derive(Debug)]
pub struct Options {
    pub work_dir: PathBuf,
    pub print_error: bool,
    pub excluded: Option<Vec<Pattern>>,
    pub included: Option<Vec<Pattern>>,
    pub format: Format,
    pub sort: Sort,
    pub extension: Option<Vec<String>>,
}

/// The pattern `value` written the way the paths under the directory are:
/// with `./` in front where the directory starts at the current one, with
/// `/` in front where it starts at the root, unless it is written so
/// already.
pub open spec fn forced(base: Base, value: Seq<char>) -> Seq<char> {
    match base {
        Base::Current => if "./"@.is_prefix_of(value) {
            value
        } else {
            "./"@ + value
        },
        Base::Root => if "/"@.is_prefix_of(value) {
            value
        } else {
            "/"@ + value
        },
        Base::Plain => value,
    }
}

/// The pattern `value` written the way the paths under the directory are.
pub fn force(base: Base, value: &str) -> (text: String)
    ensures
        text@ == forced(base, value@),
{
    match base {
        Base::Current => {
            if begins_with(value, "./") {
                value.to_owned()
            } else {
                let mut text = "./".to_owned();
                text.append(value);
                text
            }
        },
        Base::Root => {
            if begins_with(value, "/") {
                value.to_owned()
            } else {
                let mut text = "/".to_owned();
                text.append(value);
                text
            }
        },
        Base::Plain => value.to_owned(),
    }
}

/// Whether `values[i]`, rewritten for `base`, is the first of `values` that
/// is no glob pattern.
pub open spec fn fails_at(base: Base, values: Seq<String>, i: int) -> bool {
    &&& 0 <= i < values.len()
    &&& !glob_valid(forced(base, values[i]@))
    &&& forall|j: int| 0 <= j < i ==> glob_valid(forced(base, (#[trigger] values[j])@))
}

/// Whether each of `values`, rewritten for `base`, is a glob pattern.
pub open spec fn each_valid(base: Base, values: Seq<String>) -> bool {
    forall|i: int| 0 <= i < values.len() ==> glob_valid(forced(base, (#[trigger] values[i])@))
}

/// Whether `patterns` are `values`, one for one, rewritten for `base` and
/// compiled.
pub open spec fn made_from(base: Base, values: Seq<String>, patterns: Seq<Pattern>) -> bool {
    &&& patterns.len() == values.len()
    &&& forall|i: int|
        0 <= i < values.len() ==> pattern_text(#[trigger] patterns[i]) == forced(
            base,
            values[i]@,
        )
}

/// Compiles the glob patterns `values` for a walk of a directory written as
/// `base` says, each rewritten to read like the paths of that walk. The
/// first pattern that does not compile fails them all, and is handed back
/// as it was given to the compiler.
pub fn force_to_glob(base: Base, values: &Vec<String>) -> (r: Result<Vec<Pattern>, GlobFailure>)
    ensures
        match r {
            Ok(patterns) => each_valid(base, values@) && made_from(base, values@, patterns@),
            Err(failure) => exists|i: int|
                fails_at(base, values@, i) && failure.pattern@ == forced(base, values@[i]@),
        },
{
    let mut patterns: Vec<Pattern> = Vec::new();
    let mut i: usize = 0;
    while i < values.len()
        invariant
            i <= values@.len(),
            each_valid(base, values@.take(i as int)),
            made_from(base, values@.take(i as int), patterns@),
        decreases values@.len() - i,
    {
        let text = force(base, values[i].as_str());
        match compile(text.as_str()) {
            Ok(pattern) => {
                patterns.push(pattern);
            },
            Err(cause) => {
                proof {
                    assert forall|j: int| 0 <= j < i implies glob_valid(
                        forced(base, (#[trigger] values@[j])@),
                    ) by {
                        assert(values@.take(i as int)[j] == values@[j]);
                    }
                    assert(fails_at(base, values@, i as int));
                }
                return Err(GlobFailure { pattern: text, cause });
            },
        }
        proof {
            let before = values@.take(i as int);
            let after = values@.take(i + 1);
            assert forall|j: int| 0 <= j < after.len() implies glob_valid(
                forced(base, (#[trigger] after[j])@),
            ) by {
                if j < i {
                    assert(before[j] == after[j]);
                }
            }
            assert forall|j: int| 0 <= j < after.len() implies pattern_text(
                #[trigger] patterns@[j],
            ) == forced(base, after[j]@) by {
                if j < i {
                    assert(before[j] == after[j]);
                }
            }
        }
        i += 1;
    }
    proof {
        assert(values@.take(i as int) == values@);
    }
    Ok(patterns)
}

/// Whether one of `patterns` matches `path`.
pub open spec fn any_matches(patterns: Seq<Pattern>, path: Seq<char>) -> bool {
    exists|i: int|
        0 <= i < patterns.len() && glob_matches(pattern_text(#[trigger] patterns[i]), path)
}

/// Whether one of `patterns` matches `path`.
pub fn matches_any(patterns: &Vec<Pattern>, path: &str) -> (hit: bool)
    ensures
        hit == any_matches(patterns@, path@),
{
    let mut i: usize = 0;
    while i < patterns.len()
        invariant
            i <= patterns@.len(),
            forall|j: int|
                0 <= j < i ==> !glob_matches(pattern_text(#[trigger] patterns@[j]), path@),
        decreases patterns@.len() - i,
    {
        if matches(&patterns[i], path) {
            return true;
        }
        i += 1;
    }
    false
}

/// Whether `extension` is one of `wanted`.
pub open spec fn lists(wanted: Seq<String>, extension: Seq<char>) -> bool {
    exists|i: int| 0 <= i < wanted.len() && (#[trigger] wanted[i])@ == extension
}

/// Whether `extension` is one of `wanted`.
pub fn is_listed(wanted: &Vec<String>, extension: &str) -> (hit: bool)
    ensures
        hit == lists(wanted@, extension@),
{
    let mut i: usize = 0;
    while i < wanted.len()
        invariant
            i <= wanted@.len(),
            forall|j: int| 0 <= j < i ==> (#[trigger] wanted@[j])@ != extension@,
        decreases wanted@.len() - i,
    {
        if same_text(wanted[i].as_str(), extension) {
            return true;
        }
        i += 1;
    }
    false
}

impl Options {
    /// Whether a file passes the filters of the run. Its path as text, where
    /// it can be written as text, must match one of the patterns to
    /// include, if there are any, and none of those to leave out. It must
    /// have an extension that can be written as text, and one of those
    /// wanted, if any are named.
    pub open spec fn passes(&self, path: Option<Seq<char>>, extension: Option<Seq<char>>) -> bool {
        &&& self.included matches Some(included) ==> path is Some && any_matches(
            included@,
            path.unwrap(),
        )
        &&& self.excluded matches Some(excluded) ==> !(path is Some && any_matches(
            excluded@,
            path.unwrap(),
        ))
        &&& extension is Some
        &&& self.extension matches Some(wanted) ==> lists(wanted@, extension.unwrap())
    }

    /// The language that a file is counted under: that of its extension in
    /// the table, where the file passes the filters.
    pub open spec fn chosen(
        &self,
        path: Option<Seq<char>>,
        extension: Option<Seq<char>>,
        config: Config,
    ) -> Option<Language> {
        if self.passes(path, extension) {
            config.lookup(extension.unwrap())
        } else {
            None
        }
    }

    /// The language to count a file under, if the run takes the file in: it
    /// has to pass the filters, and the table has to know its extension.
    /// `path` is the path of the file and `extension` the extension of that
    /// path, each as text where it can be written as text.
    pub fn select<'a>(&self, path: Option<&str>, extension: Option<&str>, config: &'a Config) -> (r:
        Option<&'a Language>)
        ensures
            match r {
                Some(language) => self.chosen(view_of(path), view_of(extension), *config) == Some(
                    *language,
                ),
                None => self.chosen(view_of(path), view_of(extension), *config) is None,
            },
    {
        if let Some(included) = &self.included {
            match path {
                Some(text) => {
                    if !matches_any(included, text) {
                        return None;
                    }
                },
                None => {
                    return None;
                },
            }
        }
        if let Some(excluded) = &self.excluded {
            if let Some(text) = path {
                if matches_any(excluded, text) {
                    return None;
                }
            }
        }
        let ext = match extension {
            Some(ext) => ext,
            None => {
                return None;
            },
        };
        if let Some(wanted) = &self.extension {
            if !is_listed(wanted, ext) {
                return None;
            }
        }
        config.get(ext)
    }
}

/// The characters of a text that may be missing.
pub open spec fn view_of(text: Option<&str>) -> Option<Seq<char>> {
    match text {
        Some(s) => Some(s@),
        None => None,
    }
}

/// What the command line gave, word for word.
#[derive(Debug)]
pub struct Arguments {
    /// The directory to walk.
    pub work_dir: PathBuf,
    /// How that directory is written.
    pub base: Base,
    pub print_error: bool,
    /// The glob patterns of the files to leave out, if any were given.
    pub excluded: Option<Vec<String>>,
    /// The glob patterns of the files to take in, if any were given.
    pub included: Option<Vec<String>>,
    /// The name of the format of the report.
    pub output: String,
    /// The name of the column to order the report by.
    pub sort: String,
    pub extension: Option<Vec<String>>,
}

/// Why a command line was turned down.
#[derive(Debug)]
pub enum Refusal {
    /// A glob pattern does not compile.
    Glob(GlobFailure),
    /// No format goes by this name.
    Output(String),
    /// No column goes by this name.
    Sort(String),
}

/// Whether all the patterns of an option, rewritten for `base`, are glob
/// patterns. An option that was not given has none.
pub open spec fn all_valid(base: Base, values: Option<Vec<String>>) -> bool {
    values matches Some(list) ==> each_valid(base, list@)
}

/// Whether `patterns` are the patterns of an option, rewritten for `base`
/// and compiled. An option that was not given stays so.
pub open spec fn compiled(
    base: Base,
    values: Option<Vec<String>>,
    patterns: Option<Vec<Pattern>>,
) -> bool {
    match (values, patterns) {
        (Some(list), Some(made)) => made_from(base, list@, made@),
        (None, None) => true,
        _ => false,
    }
}

/// Whether `text` is the first pattern of an option that, rewritten for
/// `base`, is no glob pattern.
pub open spec fn first_failure(base: Base, values: Option<Vec<String>>, text: Seq<char>) -> bool {
    values matches Some(list) && exists|i: int|
        fails_at(base, list@, i) && text == forced(base, list@[i]@)
}

/// Compiles the patterns of one option, where the option was given.
fn globs(base: Base, values: &Option<Vec<String>>) -> (r: Result<Option<Vec<Pattern>>, GlobFailure>)
    ensures
        match r {
            Ok(patterns) => all_valid(base, *values) && compiled(base, *values, patterns),
            Err(failure) => first_failure(base, *values, failure.pattern@),
        },
{
    match values {
        Some(list) => match force_to_glob(base, list) {
            Ok(patterns) => Ok(Some(patterns)),
            Err(failure) => Err(failure),
        },
        None => Ok(None),
    }
}

impl Options {
    /// What the run is to do, from what the command line gave. The glob
    /// patterns are compiled, those to leave out first, and the names of the
    /// format and of the column are looked up; the first of these that
    /// fails turns the command line down.
    pub fn from_arguments(arguments: Arguments) -> (r: Result<Options, Refusal>)
        ensures
            match r {
                Ok(options) => {
                    &&& options.work_dir == arguments.work_dir
                    &&& options.print_error == arguments.print_error
                    &&& all_valid(arguments.base, arguments.excluded)
                    &&& compiled(arguments.base, arguments.excluded, options.excluded)
                    &&& all_valid(arguments.base, arguments.included)
                    &&& compiled(arguments.base, arguments.included, options.included)
                    &&& Format::named(arguments.output@) == Some(options.format)
                    &&& Sort::named(arguments.sort@) == Some(options.sort)
                    &&& options.extension == arguments.extension
                },
                Err(Refusal::Glob(failure)) => {
                    ||| first_failure(arguments.base, arguments.excluded, failure.pattern@)
                    ||| all_valid(arguments.base, arguments.excluded) && first_failure(
                        arguments.base,
                        arguments.included,
                        failure.pattern@,
                    )
                },
                Err(Refusal::Output(name)) => {
                    &&& all_valid(arguments.base, arguments.excluded)
                    &&& all_valid(arguments.base, arguments.included)
                    &&& Format::named(arguments.output@) is None
                    &&& name == arguments.output
                },
                Err(Refusal::Sort(name)) => {
                    &&& all_valid(arguments.base, arguments.excluded)
                    &&& all_valid(arguments.base, arguments.included)
                    &&& Format::named(arguments.output@) is Some
                    &&& Sort::named(arguments.sort@) is None
                    &&& name == arguments.sort
                },
            },
    {
        let excluded = match globs(arguments.base, &arguments.excluded) {
            Ok(patterns) => patterns,
            Err(failure) => {
                return Err(Refusal::Glob(failure));
            },
        };
        let included = match globs(arguments.base, &arguments.included) {
            Ok(patterns) => patterns,
            Err(failure) => {
                return Err(Refusal::Glob(failure));
            },
        };
        let format = match Format::from_name(arguments.output.as_str()) {
            Ok(format) => format,
            Err(_) => {
                return Err(Refusal::Output(arguments.output));
            },
        };
        let sort = match Sort::from_name(arguments.sort.as_str()) {
            Ok(sort) => sort,
            Err(_) => {
                return Err(Refusal::Sort(arguments.sort));
            },
        };
        Ok(
            Options {
                work_dir: arguments.work_dir,
                print_error: arguments.print_error,
                excluded,
                included,
                format,
                sort,
                extension: arguments.extension,
            },
        )
    }
}

} // verus!
