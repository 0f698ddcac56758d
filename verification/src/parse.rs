//! The line classifier: which lines of a text are blank, which are comment
//! and which are code, given the comment syntax of its language.

use crate::config::{Language, Syntax};
use crate::count::{add_capped, capped};
use crate::text::{
    ends_with, line_end, lines, starts_with, to_chars, trim, trim_bounds, lemma_line_len_bounds,
    line_len,
};
use vstd::prelude::*;

verus! {

/// What a line counts as.
#[derive(Debug, Clone, Copy, PartialEq, Eq)]
pub enum LineKind {
    Blank,
    Comment,
    Code,
}

/// Whether a block comment is open between two lines, and which one.
#[derive(Debug, Clone, Copy, PartialEq, Eq)]
pub enum CommentState {
    /// In no block comment.
    Outside,
    /// In a block comment of the language's pair with this index.
    Inside(usize),
}

/// How many lines of each kind a text holds.
pub struct Tally {
    pub blank: nat,
    pub comment: nat,
    pub code: nat,
}

impl Tally {
    /// No line at all.
    pub open spec fn zero() -> Tally {
        Tally { blank: 0, comment: 0, code: 0 }
    }

    /// This tally and one line of `kind` more.
    pub open spec fn with(self, kind: LineKind) -> Tally {
        match kind {
            LineKind::Blank => Tally { blank: self.blank + 1, ..self },
            LineKind::Comment => Tally { comment: self.comment + 1, ..self },
            LineKind::Code => Tally { code: self.code + 1, ..self },
        }
    }

    /// Number of lines counted.
    pub open spec fn lines(self) -> nat {
        self.blank + self.comment + self.code
    }
}

/// The counts of one file.
#[derive(Debug, Clone, Copy, PartialEq, Eq)]
pub struct Data {
    /// Name of the file's language.
    pub language: &'static str,
    pub blank: i32,
    pub comment: i32,
    pub code: i32,
    /// Size of the file in bytes, as the file system gave it.
    pub size: u64,
}

/// Index of the first pair from `from` on whose opening token begins `line`.
pub open spec fn opening_from(
    line: Seq<char>,
    multi: Seq<(Seq<char>, Seq<char>)>,
    from: int,
) -> Option<int>
    decreases multi.len() - from,
{
    if from < 0 || from >= multi.len() {
        None
    } else if multi[from].0.is_prefix_of(line) {
        Some(from)
    } else {
        opening_from(line, multi, from + 1)
    }
}

/// Whether one of the single-line markers begins `line`.
pub open spec fn marked(line: Seq<char>, single: Seq<Seq<char>>) -> bool {
    exists|i: int| 0 <= i < single.len() && (#[trigger] single[i]).is_prefix_of(line)
}

/// Whether `line` closes the block comment of `pair`. A comment that the
/// same line has opened is closed only where the line has room for both
/// tokens, one after the other: a token that opens and closes alike does
/// not close what it has just opened.
pub open spec fn closes(line: Seq<char>, pair: (Seq<char>, Seq<char>), opened_here: bool) -> bool {
    pair.1.is_suffix_of(line) && (opened_here ==> line.len() >= pair.0.len() + pair.1.len())
}

/// What `line`, a line without blank space at its ends, counts as when it
/// is met in `state`, and the state it leaves behind.
///
/// An empty line is blank and changes nothing. In a block comment every
/// other line is comment, and the comment ends with the line that ends with
/// its closing token. Outside, the first pair whose opening token begins the
/// line makes it comment and opens that pair's comment, which the same line
/// may close again. A line that opens none is comment if a single-line
/// marker begins it, and code otherwise. A state that names no pair of the
/// syntax counts as `Outside`.
pub open spec fn line_step(line: Seq<char>, state: CommentState, syntax: Syntax) -> (
    LineKind,
    CommentState,
) {
    if line.len() == 0 {
        (LineKind::Blank, state)
    } else {
        match state {
            CommentState::Inside(i) if i < syntax.multi.len() => {
                if closes(line, syntax.multi[i as int], false) {
                    (LineKind::Comment, CommentState::Outside)
                } else {
                    (LineKind::Comment, state)
                }
            },
            _ => match opening_from(line, syntax.multi, 0) {
                Some(i) => {
                    if closes(line, syntax.multi[i], true) {
                        (LineKind::Comment, CommentState::Outside)
                    } else {
                        (LineKind::Comment, CommentState::Inside(i as usize))
                    }
                },
                None => {
                    if marked(line, syntax.single) {
                        (LineKind::Comment, CommentState::Outside)
                    } else {
                        (LineKind::Code, CommentState::Outside)
                    }
                },
            },
        }
    }
}

/// The state and the tally after `rows`, each trimmed and then taken in
/// turn, starting from `state` and `tally`.
pub open spec fn scan(rows: Seq<Seq<char>>, syntax: Syntax, state: CommentState, tally: Tally) -> (
    CommentState,
    Tally,
)
    decreases rows.len(),
{
    if rows.len() == 0 {
        (state, tally)
    } else {
        let (kind, next) = line_step(trim(rows.first()), state, syntax);
        scan(rows.drop_first(), syntax, next, tally.with(kind))
    }
}

/// The tally of `text` under `syntax`: its lines, taken from the first on,
/// starting outside any comment.
pub open spec fn tally_of(text: Seq<char>, syntax: Syntax) -> Tally {
    scan(lines(text), syntax, CommentState::Outside, Tally::zero()).1
}

/// The counts of a file of `size` bytes that holds `text` and is written in
/// `language`, as counters hold them.
pub open spec fn counted(text: Seq<char>, language: Language, size: u64) -> Data {
    let tally = tally_of(text, language.syntax());
    Data {
        language: language.name,
        blank: capped(tally.blank as int) as i32,
        comment: capped(tally.comment as int) as i32,
        code: capped(tally.code as int) as i32,
        size,
    }
}

/// The comment tokens of a language as characters, ready to be compared.
struct Tokens {
    single: Vec<Vec<char>>,
    multi: Vec<(Vec<char>, Vec<char>)>,
}

impl Tokens {
    spec fn syntax(&self) -> Syntax {
        Syntax {
            single: Seq::new(self.single@.len(), |i: int| self.single@[i]@),
            multi: Seq::new(self.multi@.len(), |i: int| (self.multi@[i].0@, self.multi@[i].1@)),
        }
    }

    fn new(language: &Language) -> (tokens: Tokens)
        ensures
            tokens.syntax() == language.syntax(),
    {
        let mut single: Vec<Vec<char>> = Vec::new();
        let mut i: usize = 0;
        while i < language.single.len()
            invariant
                i <= language.single@.len(),
                single@.len() == i,
                forall|j: int| 0 <= j < i ==> (#[trigger] single@[j])@ == language.single@[j]@,
            decreases language.single@.len() - i,
        {
            single.push(to_chars(language.single[i]));
            i += 1;
        }
        let mut multi: Vec<(Vec<char>, Vec<char>)> = Vec::new();
        let mut k: usize = 0;
        while k < language.multi.len()
            invariant
                k <= language.multi@.len(),
                multi@.len() == k,
                forall|j: int|
                    0 <= j < k ==> (#[trigger] multi@[j]).0@ == language.multi@[j].0@ && multi@[j].1@
                        == language.multi@[j].1@,
            decreases language.multi@.len() - k,
        {
            let pair = &language.multi[k];
            multi.push((to_chars(pair.0), to_chars(pair.1)));
            k += 1;
        }
        let tokens = Tokens { single, multi };
        proof {
            assert(tokens.syntax().single =~= language.syntax().single);
            assert(tokens.syntax().multi =~= language.syntax().multi);
        }
        tokens
    }

    /// The first pair whose opening token begins the line `chars[a..b]`.
    fn opening(&self, chars: &Vec<char>, a: usize, b: usize) -> (found: Option<usize>)
        requires
            a <= b <= chars.len(),
        ensures
            match found {
                Some(i) => opening_from(chars@.subrange(a as int, b as int), self.syntax().multi, 0)
                    == Some(i as int) && i < self.multi@.len(),
                None => opening_from(chars@.subrange(a as int, b as int), self.syntax().multi, 0)
                    is None,
            },
    {
        let ghost line = chars@.subrange(a as int, b as int);
        let mut i: usize = 0;
        while i < self.multi.len()
            invariant
                a <= b <= chars.len(),
                i <= self.multi@.len(),
                line == chars@.subrange(a as int, b as int),
                opening_from(line, self.syntax().multi, 0) == opening_from(
                    line,
                    self.syntax().multi,
                    i as int,
                ),
            decreases self.multi@.len() - i,
        {
            if starts_with(chars, a, b, &self.multi[i].0) {
                return Some(i);
            }
            i += 1;
        }
        None
    }

    /// Whether a single-line marker begins the line `chars[a..b]`.
    fn marks(&self, chars: &Vec<char>, a: usize, b: usize) -> (r: bool)
        requires
            a <= b <= chars.len(),
        ensures
            r == marked(chars@.subrange(a as int, b as int), self.syntax().single),
    {
        let ghost line = chars@.subrange(a as int, b as int);
        let mut i: usize = 0;
        while i < self.single.len()
            invariant
                a <= b <= chars.len(),
                i <= self.single@.len(),
                line == chars@.subrange(a as int, b as int),
                forall|j: int|
                    0 <= j < i ==> !(#[trigger] self.syntax().single[j]).is_prefix_of(line),
            decreases self.single@.len() - i,
        {
            if starts_with(chars, a, b, &self.single[i]) {
                proof {
                    assert(self.syntax().single[i as int].is_prefix_of(line));
                }
                return true;
            }
            i += 1;
        }
        false
    }

    /// Whether the line `chars[a..b]` closes the comment of pair `i`.
    fn closing(&self, chars: &Vec<char>, a: usize, b: usize, i: usize, opened_here: bool) -> (r:
        bool)
        requires
            a <= b <= chars.len(),
            i < self.multi@.len(),
        ensures
            r == closes(
                chars@.subrange(a as int, b as int),
                self.syntax().multi[i as int],
                opened_here,
            ),
    {
        let pair = &self.multi[i];
        if !ends_with(chars, a, b, &pair.1) {
            return false;
        }
        // The line ends with the closing token, so it is at least that long.
        !opened_here || b - a - pair.1.len() >= pair.0.len()
    }

    /// One step of the classifier on the trimmed line `chars[a..b]`.
    fn step(&self, chars: &Vec<char>, a: usize, b: usize, state: CommentState) -> (r: (
        LineKind,
        CommentState,
    ))
        requires
            a <= b <= chars.len(),
        ensures
            r == line_step(chars@.subrange(a as int, b as int), state, self.syntax()),
    {
        if a == b {
            return (LineKind::Blank, state);
        }
        if let CommentState::Inside(i) = state {
            if i < self.multi.len() {
                if self.closing(chars, a, b, i, false) {
                    return (LineKind::Comment, CommentState::Outside);
                }
                return (LineKind::Comment, state);
            }
        }
        match self.opening(chars, a, b) {
            Some(i) => {
                if self.closing(chars, a, b, i, true) {
                    (LineKind::Comment, CommentState::Outside)
                } else {
                    (LineKind::Comment, CommentState::Inside(i))
                }
            },
            None => {
                if self.marks(chars, a, b) {
                    (LineKind::Comment, CommentState::Outside)
                } else {
                    (LineKind::Code, CommentState::Outside)
                }
            },
        }
    }
}

/// What `line` counts as when it is met in `state`, and the state after it.
/// Blank space at either end of the line is not looked at.
pub fn classify_line(line: &str, state: CommentState, language: &Language) -> (r: (
    LineKind,
    CommentState,
))
    ensures
        r == line_step(trim(line@), state, language.syntax()),
{
    let tokens = Tokens::new(language);
    let chars = to_chars(line);
    let (a, b) = trim_bounds(&chars, 0, chars.len());
    proof {
        assert(chars@.subrange(0, chars@.len() as int) == chars@);
    }
    tokens.step(&chars, a, b, state)
}

/// Counts the blank, comment and code lines of `text`, a file of `size`
/// bytes written in `language`.
pub fn classify(text: &str, language: &Language, size: u64) -> (data: Data)
    ensures
        data == counted(text@, *language, size),
        data.blank >= 0 && data.comment >= 0 && data.code >= 0,
{
    let tokens = Tokens::new(language);
    let chars = to_chars(text);
    let mut state = CommentState::Outside;
    let mut blank: i32 = 0;
    let mut comment: i32 = 0;
    let mut code: i32 = 0;
    let ghost mut tally = Tally::zero();
    let ghost syntax = language.syntax();
    let mut pos: usize = 0;
    proof {
        assert(chars@.skip(0) == chars@);
    }
    while pos < chars.len()
        invariant
            pos <= chars.len(),
            chars@ == text@,
            tokens.syntax() == syntax,
            syntax == language.syntax(),
            scan(lines(text@), syntax, CommentState::Outside, Tally::zero()) == scan(
                lines(chars@.skip(pos as int)),
                syntax,
                state,
                tally,
            ),
            blank == capped(tally.blank as int),
            comment == capped(tally.comment as int),
            code == capped(tally.code as int),
        decreases chars.len() - pos,
    {
        let end = line_end(&chars, pos);
        let (a, b) = trim_bounds(&chars, pos, end);
        let (kind, next) = tokens.step(&chars, a, b, state);
        proof {
            let rest = chars@.skip(pos as int);
            let n = line_len(rest);
            lemma_line_len_bounds(rest);
            let row = chars@.subrange(pos as int, end as int);
            let after: int = if end < chars.len() { end + 1 } else { end as int };
            if n < rest.len() {
                assert(rest.take(n) == row);
                assert(rest.skip(n + 1) == chars@.skip(after));
                assert(lines(rest) == seq![row] + lines(chars@.skip(after)));
            } else {
                assert(rest == row);
                assert(lines(chars@.skip(after)) == Seq::<Seq<char>>::empty());
                assert(lines(rest) == seq![row] + lines(chars@.skip(after)));
            }
            assert(lines(rest).first() == row);
            assert(lines(rest).drop_first() == lines(chars@.skip(after)));
            tally = tally.with(kind);
        }
        match kind {
            LineKind::Blank => {
                blank = add_capped(blank, 1);
            },
            LineKind::Comment => {
                comment = add_capped(comment, 1);
            },
            LineKind::Code => {
                code = add_capped(code, 1);
            },
        }
        state = next;
        pos = if end < chars.len() { end + 1 } else { end };
    }
    Data { language: language.name, blank, comment, code, size }
}

/// Every row is counted once: after a scan the tally has grown by the
/// number of rows.
pub proof fn lemma_scan_counts(
    rows: Seq<Seq<char>>,
    syntax: Syntax,
    state: CommentState,
    tally: Tally,
)
    ensures
        scan(rows, syntax, state, tally).1.lines() == tally.lines() + rows.len(),
    decreases rows.len(),
{
    if rows.len() > 0 {
        let (kind, next) = line_step(trim(rows.first()), state, syntax);
        lemma_scan_counts(rows.drop_first(), syntax, next, tally.with(kind));
    }
}

/// Rows that are blank once trimmed are counted as blank, and leave the
/// state as it was.
pub proof fn lemma_scan_blank(
    rows: Seq<Seq<char>>,
    syntax: Syntax,
    state: CommentState,
    tally: Tally,
)
    requires
        forall|i: int| 0 <= i < rows.len() ==> trim(#[trigger] rows[i]).len() == 0,
    ensures
        scan(rows, syntax, state, tally) == (
            state,
            Tally { blank: tally.blank + rows.len(), ..tally },
        ),
    decreases rows.len(),
{
    if rows.len() > 0 {
        let rest = rows.drop_first();
        assert(trim(rows[0]).len() == 0);
        assert forall|i: int| 0 <= i < rest.len() implies trim(#[trigger] rest[i]).len() == 0 by {
            assert(rest[i] == rows[i + 1]);
        }
        lemma_scan_blank(rest, syntax, state, tally.with(LineKind::Blank));
    }
}

/// Every line of a text is counted as exactly one of blank, comment and
/// code.
pub proof fn lemma_every_line_counted(text: Seq<char>, syntax: Syntax)
    ensures
        tally_of(text, syntax).lines() == lines(text).len(),
{
    lemma_scan_counts(lines(text), syntax, CommentState::Outside, Tally::zero());
}

/// A text all of whose lines are blank has as many blank lines as it has
/// lines, and neither comment nor code.
pub proof fn lemma_blank_text(text: Seq<char>, syntax: Syntax)
    requires
        forall|i: int| 0 <= i < lines(text).len() ==> trim(#[trigger] lines(text)[i]).len() == 0,
    ensures
        tally_of(text, syntax) == (Tally { blank: lines(text).len(), comment: 0, code: 0 }),
{
    lemma_scan_blank(lines(text), syntax, CommentState::Outside, Tally::zero());
}

/// A line that is not blank and that a single-line marker begins is
/// comment, never code, in whatever state it is met.
pub proof fn lemma_marked_line(line: Seq<char>, state: CommentState, syntax: Syntax)
    requires
        trim(line).len() > 0,
        marked(trim(line), syntax.single),
    ensures
        line_step(trim(line), state, syntax).0 == LineKind::Comment,
{
}

/// A line that opens a block comment and has room to close it again is one
/// comment line, and leaves no comment open.
pub proof fn lemma_block_on_one_line(line: Seq<char>, syntax: Syntax, i: int)
    requires
        trim(line).len() > 0,
        opening_from(trim(line), syntax.multi, 0) == Some(i),
        closes(trim(line), syntax.multi[i], true),
    ensures
        line_step(trim(line), CommentState::Outside, syntax) == (
            LineKind::Comment,
            CommentState::Outside,
        ),
{
}

/// Inside the block comment of pair `i`, rows that are not blank are all
/// comment up to and with the first that ends with the closing token, which
/// leaves no comment open.
pub proof fn lemma_block_goes_on(rows: Seq<Seq<char>>, syntax: Syntax, i: usize, tally: Tally)
    requires
        rows.len() > 0,
        i < syntax.multi.len(),
        forall|j: int| 0 <= j < rows.len() ==> trim(#[trigger] rows[j]).len() > 0,
        forall|j: int|
            0 <= j < rows.len() - 1 ==> !syntax.multi[i as int].1.is_suffix_of(
                trim(#[trigger] rows[j]),
            ),
        syntax.multi[i as int].1.is_suffix_of(trim(rows.last())),
    ensures
        scan(rows, syntax, CommentState::Inside(i), tally) == (
            CommentState::Outside,
            Tally { comment: tally.comment + rows.len(), ..tally },
        ),
    decreases rows.len(),
{
    let rest = rows.drop_first();
    assert(trim(rows[0]).len() > 0);
    if rows.len() == 1 {
        assert(rows.last() == rows[0]);
        assert(scan(rest, syntax, CommentState::Outside, tally.with(LineKind::Comment)) == (
            CommentState::Outside,
            tally.with(LineKind::Comment),
        ));
    } else {
        assert(!syntax.multi[i as int].1.is_suffix_of(trim(rows[0])));
        assert forall|j: int| 0 <= j < rest.len() implies trim(#[trigger] rest[j]).len() > 0 by {
            assert(rest[j] == rows[j + 1]);
        }
        assert forall|j: int| 0 <= j < rest.len() - 1 implies !syntax.multi[i as int].1.is_suffix_of(
            trim(#[trigger] rest[j]),
        ) by {
            assert(rest[j] == rows[j + 1]);
        }
        assert(rest.last() == rows.last());
        lemma_block_goes_on(rest, syntax, i, tally.with(LineKind::Comment));
    }
}

/// A block comment over several rows: where the first row opens the comment
/// of pair `i` and does not close it, and of the rows after it only the last
/// ends with the closing token, every row is comment and no comment is left
/// open.
pub proof fn lemma_block_over_lines(rows: Seq<Seq<char>>, syntax: Syntax, i: usize, tally: Tally)
    requires
        rows.len() >= 2,
        i < syntax.multi.len(),
        forall|j: int| 0 <= j < rows.len() ==> trim(#[trigger] rows[j]).len() > 0,
        opening_from(trim(rows[0]), syntax.multi, 0) == Some(i as int),
        !closes(trim(rows[0]), syntax.multi[i as int], true),
        forall|j: int|
            1 <= j < rows.len() - 1 ==> !syntax.multi[i as int].1.is_suffix_of(
                trim(#[trigger] rows[j]),
            ),
        syntax.multi[i as int].1.is_suffix_of(trim(rows.last())),
    ensures
        scan(rows, syntax, CommentState::Outside, tally) == (
            CommentState::Outside,
            Tally { comment: tally.comment + rows.len(), ..tally },
        ),
{
    let rest = rows.drop_first();
    assert(trim(rows[0]).len() > 0);
    assert forall|j: int| 0 <= j < rest.len() implies trim(#[trigger] rest[j]).len() > 0 by {
        assert(rest[j] == rows[j + 1]);
    }
    assert forall|j: int| 0 <= j < rest.len() - 1 implies !syntax.multi[i as int].1.is_suffix_of(
        trim(#[trigger] rest[j]),
    ) by {
        assert(rest[j] == rows[j + 1]);
    }
    assert(rest.last() == rows.last());
    lemma_block_goes_on(rest, syntax, i, tally.with(LineKind::Comment));
}

} // verus!
