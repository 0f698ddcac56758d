//! The report: the totals of every language and of all of them together,
//! laid out as a table, as HTML or as Markdown.

use crate::count::{add_capped, add_capped_size, capped, capped_size};
use crate::detail::{Detail, Sums};
use crate::layout::{
    decimal, decimal_text, joined, left, push_left, push_line, push_right, right, texts,
};
use crate::text::same_text;
use std::str::FromStr;
use vstd::prelude::*;
use vstd::string::{StrSliceExecFns, StringExecFns};

verus! {

/// The layouts a report can be written in.
#[derive(Debug, Clone, Copy, PartialEq, Eq)]
pub enum Format {
    Table,
    Html,
    Markdown,
}

impl Format {
    /// The format that goes by the name `value`.
    pub open spec fn named(value: Seq<char>) -> Option<Format> {
        if value == "table"@ {
            Some(Format::Table)
        } else if value == "html"@ {
            Some(Format::Html)
        } else if value == "markdown"@ {
            Some(Format::Markdown)
        } else {
            None
        }
    }

    /// The format that goes by the name `value`: `table`, `html` or
    /// `markdown`.
    pub fn from_name(value: &str) -> (r: Result<Format, ()>)
        ensures
            r == match Format::named(value@) {
                Some(format) => Ok::<Format, ()>(format),
                None => Err::<Format, ()>(()),
            },
    {
        if same_text(value, "table") {
            Ok(Format::Table)
        } else if same_text(value, "html") {
            Ok(Format::Html)
        } else if same_text(value, "markdown") {
            Ok(Format::Markdown)
        } else {
            Err(())
        }
    }
}

impl FromStr for Format {
    type Err = ();

    /// The format that goes by the name `value`, as [`Format::from_name`]
    /// finds it.
    fn from_str(value: &str) -> (r: Result<Self, Self::Err>)
        ensures
            r == match Format::named(value@) {
                Some(format) => Ok::<Format, ()>(format),
                None => Err::<Format, ()>(()),
            },
    {
        Format::from_name(value)
    }
}

/// `s` with a comma after every digit that has a multiple of three digits
/// behind it.
pub open spec fn grouped(s: Seq<char>) -> Seq<char> {
    grouped_to(s, s.len())
}

/// The part of [`grouped`] that the first `k` characters of `s` give.
pub open spec fn grouped_to(s: Seq<char>, k: nat) -> Seq<char>
    decreases k,
{
    if k == 0 {
        Seq::empty()
    } else {
        let i = (k - 1) as nat;
        let head = grouped_to(s, i).push(s[i as int]);
        if i != s.len() - 1 && (s.len() - 1 - i) % 3 == 0 {
            head.push(',')
        } else {
            head
        }
    }
}

/// `num` in decimal with its digits in groups of three: `1234567` reads
/// `1,234,567`.
pub fn format_number(num: i32) -> (rst: String)
    ensures
        rst@ == grouped(decimal(num as int)),
{
    let text = decimal_text(num);
    let num = text.as_str();
    let len = num.unicode_len();
    let mut rst = String::new();
    let mut i: usize = 0;
    assert(rst@ =~= grouped_to(num@, 0));
    while i < len
        invariant
            i <= len,
            len == num@.len(),
            rst@ == grouped_to(num@, i as nat),
        decreases len - i,
    {
        let ch = num.substring_char(i, i + 1);
        assert(ch@ =~= seq![num@[i as int]]);
        rst.append(ch);
        if i != len - 1 && (len - 1 - i) % 3 == 0 {
            proof {
                reveal_strlit(",");
            }
            rst.append(",");
        }
        i += 1;
        assert(rst@ =~= grouped_to(num@, i as nat));
    }
    rst
}

/// The sums over all of `details`.
pub open spec fn grand(details: Seq<Detail>) -> Sums
    decreases details.len(),
{
    if details.len() == 0 {
        Sums::zero()
    } else {
        let before = grand(details.drop_last());
        let last = details.last();
        Sums {
            blank: before.blank + last.blank,
            comment: before.comment + last.comment,
            code: before.code + last.code,
            size: before.size + last.size,
            file: before.file + last.file,
        }
    }
}

/// The totals of every language, and of all of them together.
#[derive(Debug)]
pub struct Output {
    pub data: Vec<Detail>,
    pub total_code: i32,
    pub total_comment: i32,
    pub total_blank: i32,
    pub total_file: i32,
    pub total_size: u64,
}

/// The sizes of a report as they are to be shown: one text for each
/// language, in the order of the report, and one for all of them together.
/// How a number of bytes is written is the caller's choice.
#[derive(Debug)]
pub struct SizeText {
    pub rows: Vec<String>,
    pub total: String,
}

/// A horizontal rule of the table, between the corners `from` and `to`.
pub open spec fn rule(from: Seq<char>, to: Seq<char>) -> Seq<char> {
    from + bar(78) + to
}

/// `n` horizontal strokes.
pub open spec fn bar(n: nat) -> Seq<char>
    decreases n,
{
    if n == 0 {
        Seq::empty()
    } else {
        bar((n - 1) as nat) + "─"@
    }
}

/// A row of the table: the name at the left of its cell, the five figures
/// at the right of theirs.
pub open spec fn table_row(
    language: Seq<char>,
    code: Seq<char>,
    comment: Seq<char>,
    blank: Seq<char>,
    file: Seq<char>,
    size: Seq<char>,
) -> Seq<char> {
    "│ "@ + left(language, 14) + right(code, 12) + right(comment, 12) + right(blank, 12) + right(
        file,
        12,
    ) + right(size, 14) + " │"@
}

/// A row of the Markdown table: every cell at the left.
pub open spec fn markdown_row(
    language: Seq<char>,
    code: Seq<char>,
    comment: Seq<char>,
    blank: Seq<char>,
    file: Seq<char>,
    size: Seq<char>,
) -> Seq<char> {
    "| "@ + left(language, 14) + " | "@ + left(code, 12) + " | "@ + left(comment, 12) + " | "@
        + left(blank, 12) + " | "@ + left(file, 12) + " | "@ + left(size, 14) + " |"@
}

/// The line of the Markdown table between the heading and the rows: the
/// names at the left of their column, the figures at the right of theirs.
pub const MARKDOWN_RULE: &'static str =
    "| :------------- | -----------: | -----------: | -----------: | -----------: | -------------: |";

/// The heading of the HTML table.
pub const HTML_HEAD: &'static str = "   <thead>\n        <tr>\n            <th>Language</th>\n            <th>Code</th>\n            <th>Comment</th>\n            <th>Blank</th>\n            <th>File</th>\n            <th>Size</th>\n        </tr>\n    </thead>";

/// The heading of the HTML table.
pub open spec fn html_head() -> Seq<char> {
    HTML_HEAD@
}

/// A cell of the HTML table, on a line of its own.
pub open spec fn html_cell(text: Seq<char>) -> Seq<char> {
    "            <td>"@ + text + "</td>\n"@
}

/// A row of the HTML table between `open` and `close`.
pub open spec fn html_row(
    open: Seq<char>,
    language: Seq<char>,
    code: Seq<char>,
    comment: Seq<char>,
    blank: Seq<char>,
    file: Seq<char>,
    size: Seq<char>,
    close: Seq<char>,
) -> Seq<char> {
    open + html_cell(language) + html_cell(code) + html_cell(comment) + html_cell(blank)
        + html_cell(file) + html_cell(size) + close
}

fn rule_text(from: &str, to: &str) -> (line: String)
    ensures
        line@ == rule(from@, to@),
{
    let mut line = from.to_owned();
    let mut i: usize = 0;
    assert(line@ =~= from@ + bar(0));
    while i < 78
        invariant
            i <= 78,
            line@ == from@ + bar(i as nat),
        decreases 78 - i,
    {
        line.append("─");
        i += 1;
        assert(line@ =~= from@ + bar(i as nat));
    }
    line.append(to);
    line
}

fn table_row_text(
    language: &str,
    code: &str,
    comment: &str,
    blank: &str,
    file: &str,
    size: &str,
) -> (line: String)
    ensures
        line@ == table_row(language@, code@, comment@, blank@, file@, size@),
{
    let mut line = "│ ".to_owned();
    push_left(&mut line, language, 14);
    push_right(&mut line, code, 12);
    push_right(&mut line, comment, 12);
    push_right(&mut line, blank, 12);
    push_right(&mut line, file, 12);
    push_right(&mut line, size, 14);
    line.append(" │");
    line
}

fn markdown_row_text(
    language: &str,
    code: &str,
    comment: &str,
    blank: &str,
    file: &str,
    size: &str,
) -> (line: String)
    ensures
        line@ == markdown_row(language@, code@, comment@, blank@, file@, size@),
{
    let mut line = "| ".to_owned();
    push_left(&mut line, language, 14);
    line.append(" | ");
    push_left(&mut line, code, 12);
    line.append(" | ");
    push_left(&mut line, comment, 12);
    line.append(" | ");
    push_left(&mut line, blank, 12);
    line.append(" | ");
    push_left(&mut line, file, 12);
    line.append(" | ");
    push_left(&mut line, size, 14);
    line.append(" |");
    line
}

fn push_html_cell(line: &mut String, text: &str)
    ensures
        final(line)@ == old(line)@ + html_cell(text@),
{
    line.append("            <td>");
    line.append(text);
    line.append("</td>\n");
    assert(final(line)@ =~= old(line)@ + html_cell(text@));
}

fn html_row_text(
    open: &str,
    language: &str,
    code: &str,
    comment: &str,
    blank: &str,
    file: &str,
    size: &str,
    close: &str,
) -> (line: String)
    ensures
        line@ == html_row(open@, language@, code@, comment@, blank@, file@, size@, close@),
{
    let mut line = open.to_owned();
    push_html_cell(&mut line, language);
    push_html_cell(&mut line, code);
    push_html_cell(&mut line, comment);
    push_html_cell(&mut line, blank);
    push_html_cell(&mut line, file);
    push_html_cell(&mut line, size);
    line.append(close);
    line
}

impl Default for Output {
    fn default() -> (out: Output)
        ensures
            out.data@.len() == 0,
            out.total_code == 0,
            out.total_comment == 0,
            out.total_blank == 0,
            out.total_file == 0,
            out.total_size == 0,
    {
        Output {
            data: Vec::new(),
            total_code: 0,
            total_comment: 0,
            total_blank: 0,
            total_file: 0,
            total_size: 0,
        }
    }
}

impl Output {
    /// The report on `data`: the totals over all languages are the sums of
    /// the languages' counters, each held at its largest value once there.
    pub fn new(data: Vec<Detail>) -> (out: Output)
        requires
            forall|i: int| 0 <= i < data@.len() ==> (#[trigger] data@[i]).wf(),
        ensures
            out.data == data,
            out.total_code == capped(grand(data@).code),
            out.total_comment == capped(grand(data@).comment),
            out.total_blank == capped(grand(data@).blank),
            out.total_file == capped(grand(data@).file),
            out.total_size == capped_size(grand(data@).size),
    {
        let mut total_code: i32 = 0;
        let mut total_comment: i32 = 0;
        let mut total_blank: i32 = 0;
        let mut total_file: i32 = 0;
        let mut total_size: u64 = 0;
        let mut i: usize = 0;
        while i < data.len()
            invariant
                i <= data@.len(),
                forall|i: int| 0 <= i < data@.len() ==> (#[trigger] data@[i]).wf(),
                grand(data@.take(i as int)).wf(),
                total_code == capped(grand(data@.take(i as int)).code),
                total_comment == capped(grand(data@.take(i as int)).comment),
                total_blank == capped(grand(data@.take(i as int)).blank),
                total_file == capped(grand(data@.take(i as int)).file),
                total_size == capped_size(grand(data@.take(i as int)).size),
            decreases data@.len() - i,
        {
            let detail = &data[i];
            proof {
                assert(data@.take(i + 1).drop_last() == data@.take(i as int));
                assert(data@.take(i + 1).last() == data@[i as int]);
                assert(data@[i as int].wf());
            }
            total_code = add_capped(total_code, detail.code);
            total_comment = add_capped(total_comment, detail.comment);
            total_blank = add_capped(total_blank, detail.blank);
            total_file = add_capped(total_file, detail.file);
            total_size = add_capped_size(total_size, detail.size);
            i += 1;
        }
        proof {
            assert(data@.take(i as int) == data@);
        }
        Output { data, total_code, total_comment, total_blank, total_file, total_size }
    }

    /// The row of the table for the language at `i`.
    pub open spec fn table_item(&self, sizes: SizeText, i: int) -> Seq<char> {
        let item = self.data@[i];
        table_row(
            item.language@,
            decimal(item.code as int),
            decimal(item.comment as int),
            decimal(item.blank as int),
            decimal(item.file as int),
            sizes.rows@[i]@,
        )
    }

    /// The lines of the report as a table.
    pub open spec fn table_lines(&self, sizes: SizeText) -> Seq<Seq<char>> {
        seq![
            rule("╭"@, "╮"@),
            table_row("Language"@, "Code"@, "Comment"@, "Blank"@, "File"@, "Size"@),
            rule("├"@, "┤"@),
        ] + Seq::new(self.data@.len(), |i: int| self.table_item(sizes, i)) + seq![
            rule("├"@, "┤"@),
            table_row(
                "Total"@,
                grouped(decimal(self.total_code as int)),
                grouped(decimal(self.total_comment as int)),
                grouped(decimal(self.total_blank as int)),
                grouped(decimal(self.total_file as int)),
                sizes.total@,
            ),
            rule("╰"@, "╯"@),
        ]
    }

    /// Appends the report as a table to `data`: a heading, a row for each
    /// language, and the totals.
    pub fn table(&self, sizes: &SizeText, data: &mut Vec<String>)
        requires
            sizes.rows@.len() == self.data@.len(),
        ensures
            texts(final(data)@) == texts(old(data)@) + self.table_lines(*sizes),
    {
        let ghost start = texts(data@);
        let ghost head = seq![
            rule("╭"@, "╮"@),
            table_row("Language"@, "Code"@, "Comment"@, "Blank"@, "File"@, "Size"@),
            rule("├"@, "┤"@),
        ];
        push_line(data, rule_text("╭", "╮"));
        push_line(data, table_row_text("Language", "Code", "Comment", "Blank", "File", "Size"));
        push_line(data, rule_text("├", "┤"));
        assert(texts(data@) =~= start + head + Seq::new(0, |i: int| self.table_item(*sizes, i)));
        let mut i: usize = 0;
        while i < self.data.len()
            invariant
                i <= self.data@.len(),
                sizes.rows@.len() == self.data@.len(),
                texts(data@) == start + head + Seq::new(
                    i as nat,
                    |i: int| self.table_item(*sizes, i),
                ),
            decreases self.data@.len() - i,
        {
            let item = &self.data[i];
            let code = decimal_text(item.code);
            let comment = decimal_text(item.comment);
            let blank = decimal_text(item.blank);
            let file = decimal_text(item.file);
            let line = table_row_text(
                item.language,
                code.as_str(),
                comment.as_str(),
                blank.as_str(),
                file.as_str(),
                sizes.rows[i].as_str(),
            );
            push_line(data, line);
            i += 1;
            assert(texts(data@) =~= start + head + Seq::new(
                i as nat,
                |i: int| self.table_item(*sizes, i),
            ));
        }
        let code = format_number(self.total_code);
        let comment = format_number(self.total_comment);
        let blank = format_number(self.total_blank);
        let file = format_number(self.total_file);
        push_line(data, rule_text("├", "┤"));
        push_line(
            data,
            table_row_text(
                "Total",
                code.as_str(),
                comment.as_str(),
                blank.as_str(),
                file.as_str(),
                sizes.total.as_str(),
            ),
        );
        push_line(data, rule_text("╰", "╯"));
        assert(texts(data@) =~= start + self.table_lines(*sizes));
    }

    /// The row of the HTML table for the language at `i`.
    pub open spec fn html_item(&self, sizes: SizeText, i: int) -> Seq<char> {
        let item = self.data@[i];
        html_row(
            "        <tr>\n"@,
            item.language@,
            decimal(item.code as int),
            decimal(item.comment as int),
            decimal(item.blank as int),
            decimal(item.file as int),
            sizes.rows@[i]@,
            "        </tr>"@,
        )
    }

    /// The lines of the report as an HTML table.
    pub open spec fn html_lines(&self, sizes: SizeText) -> Seq<Seq<char>> {
        seq![
            "<table>"@,
            html_head(),
            "    <tbody>"@,
        ] + Seq::new(self.data@.len(), |i: int| self.html_item(sizes, i)) + seq![
            "    </tbody>"@,
            html_row(
                "    <tfoot>\n        <tr>\n"@,
                "Total"@,
                grouped(decimal(self.total_code as int)),
                grouped(decimal(self.total_comment as int)),
                grouped(decimal(self.total_blank as int)),
                grouped(decimal(self.total_file as int)),
                sizes.total@,
                "        </tr>\n    </tfoot>"@,
            ),
            "</table>"@,
        ]
    }

    /// Appends the report as an HTML table to `data`: a heading, a row for
    /// each language, and the totals.
    pub fn html(&self, sizes: &SizeText, data: &mut Vec<String>)
        requires
            sizes.rows@.len() == self.data@.len(),
        ensures
            texts(final(data)@) == texts(old(data)@) + self.html_lines(*sizes),
    {
        let ghost start = texts(data@);
        let ghost head = seq![
            "<table>"@,
            html_head(),
            "    <tbody>"@,
        ];
        push_line(data, "<table>".to_owned());
        push_line(data, HTML_HEAD.to_owned());
        push_line(data, "    <tbody>".to_owned());
        assert(texts(data@) =~= start + head + Seq::new(0, |i: int| self.html_item(*sizes, i)));
        let mut i: usize = 0;
        while i < self.data.len()
            invariant
                i <= self.data@.len(),
                sizes.rows@.len() == self.data@.len(),
                texts(data@) == start + head + Seq::new(
                    i as nat,
                    |i: int| self.html_item(*sizes, i),
                ),
            decreases self.data@.len() - i,
        {
            let item = &self.data[i];
            let code = decimal_text(item.code);
            let comment = decimal_text(item.comment);
            let blank = decimal_text(item.blank);
            let file = decimal_text(item.file);
            let line = html_row_text(
                "        <tr>\n",
                item.language,
                code.as_str(),
                comment.as_str(),
                blank.as_str(),
                file.as_str(),
                sizes.rows[i].as_str(),
                "        </tr>",
            );
            push_line(data, line);
            i += 1;
            assert(texts(data@) =~= start + head + Seq::new(
                i as nat,
                |i: int| self.html_item(*sizes, i),
            ));
        }
        let code = format_number(self.total_code);
        let comment = format_number(self.total_comment);
        let blank = format_number(self.total_blank);
        let file = format_number(self.total_file);
        push_line(data, "    </tbody>".to_owned());
        push_line(
            data,
            html_row_text(
                "    <tfoot>\n        <tr>\n",
                "Total",
                code.as_str(),
                comment.as_str(),
                blank.as_str(),
                file.as_str(),
                sizes.total.as_str(),
                "        </tr>\n    </tfoot>",
            ),
        );
        push_line(data, "</table>".to_owned());
        assert(texts(data@) =~= start + self.html_lines(*sizes));
    }

    /// The row of the Markdown table for the language at `i`.
    pub open spec fn markdown_item(&self, sizes: SizeText, i: int) -> Seq<char> {
        let item = self.data@[i];
        markdown_row(
            item.language@,
            decimal(item.code as int),
            decimal(item.comment as int),
            decimal(item.blank as int),
            decimal(item.file as int),
            sizes.rows@[i]@,
        )
    }

    /// The lines of the report as a Markdown table.
    pub open spec fn markdown_lines(&self, sizes: SizeText) -> Seq<Seq<char>> {
        seq![
            markdown_row("Language"@, "Code"@, "Comment"@, "Blank"@, "File"@, "Size"@),
            MARKDOWN_RULE@,
        ] + Seq::new(self.data@.len(), |i: int| self.markdown_item(sizes, i)) + seq![
            markdown_row(
                "Total"@,
                grouped(decimal(self.total_code as int)),
                grouped(decimal(self.total_comment as int)),
                grouped(decimal(self.total_blank as int)),
                grouped(decimal(self.total_file as int)),
                sizes.total@,
            ),
        ]
    }

    /// Appends the report as a Markdown table to `data`: a heading, a row
    /// for each language, and the totals.
    pub fn markdown(&self, sizes: &SizeText, data: &mut Vec<String>)
        requires
            sizes.rows@.len() == self.data@.len(),
        ensures
            texts(final(data)@) == texts(old(data)@) + self.markdown_lines(*sizes),
    {
        let ghost start = texts(data@);
        let ghost head = seq![
            markdown_row("Language"@, "Code"@, "Comment"@, "Blank"@, "File"@, "Size"@),
            MARKDOWN_RULE@,
        ];
        push_line(data, markdown_row_text("Language", "Code", "Comment", "Blank", "File", "Size"));
        push_line(
            data,
            MARKDOWN_RULE.to_owned(),
        );
        assert(texts(data@) =~= start + head + Seq::new(
            0,
            |i: int| self.markdown_item(*sizes, i),
        ));
        let mut i: usize = 0;
        while i < self.data.len()
            invariant
                i <= self.data@.len(),
                sizes.rows@.len() == self.data@.len(),
                texts(data@) == start + head + Seq::new(
                    i as nat,
                    |i: int| self.markdown_item(*sizes, i),
                ),
            decreases self.data@.len() - i,
        {
            let item = &self.data[i];
            let code = decimal_text(item.code);
            let comment = decimal_text(item.comment);
            let blank = decimal_text(item.blank);
            let file = decimal_text(item.file);
            let line = markdown_row_text(
                item.language,
                code.as_str(),
                comment.as_str(),
                blank.as_str(),
                file.as_str(),
                sizes.rows[i].as_str(),
            );
            push_line(data, line);
            i += 1;
            assert(texts(data@) =~= start + head + Seq::new(
                i as nat,
                |i: int| self.markdown_item(*sizes, i),
            ));
        }
        let code = format_number(self.total_code);
        let comment = format_number(self.total_comment);
        let blank = format_number(self.total_blank);
        let file = format_number(self.total_file);
        push_line(
            data,
            markdown_row_text(
                "Total",
                code.as_str(),
                comment.as_str(),
                blank.as_str(),
                file.as_str(),
                sizes.total.as_str(),
            ),
        );
        assert(texts(data@) =~= start + self.markdown_lines(*sizes));
    }

    /// The lines of the report in `format`.
    pub open spec fn lines(&self, format: Format, sizes: SizeText) -> Seq<Seq<char>> {
        match format {
            Format::Table => self.table_lines(sizes),
            Format::Html => self.html_lines(sizes),
            Format::Markdown => self.markdown_lines(sizes),
        }
    }

    /// The report in `format`, its lines joined by line feeds. There is no
    /// report where `sizes` has not one text for each language.
    pub fn render(&self, format: Format, sizes: &SizeText) -> (report: Option<String>)
        ensures
            report is Some == (sizes.rows@.len() == self.data@.len()),
            report matches Some(text) ==> text@ == joined(self.lines(format, *sizes)),
    {
        if sizes.rows.len() != self.data.len() {
            return None;
        }
        let mut data: Vec<String> = Vec::new();
        assert(texts(data@) =~= Seq::<Seq<char>>::empty());
        match format {
            Format::Table => self.table(sizes, &mut data),
            Format::Html => self.html(sizes, &mut data),
            Format::Markdown => self.markdown(sizes, &mut data),
        }
        assert(texts(data@) =~= self.lines(format, *sizes));
        Some(join_lines(&data))
    }
}

/// `lines` with a line feed between each two of them.
fn join_lines(lines: &Vec<String>) -> (text: String)
    ensures
        text@ == joined(texts(lines@)),
{
    let mut text = String::new();
    let mut i: usize = 0;
    assert(texts(lines@).take(0) =~= Seq::<Seq<char>>::empty());
    while i < lines.len()
        invariant
            i <= lines@.len(),
            text@ == joined(texts(lines@).take(i as int)),
        decreases lines@.len() - i,
    {
        let ghost before = texts(lines@).take(i as int);
        let ghost after = texts(lines@).take(i + 1);
        proof {
            assert(after.drop_last() =~= before);
            assert(after.last() == lines@[i as int]@);
        }
        if i > 0 {
            proof {
                reveal_strlit("\n");
            }
            text.append("\n");
        }
        text.append(lines[i].as_str());
        i += 1;
        assert(text@ =~= joined(after));
    }
    assert(texts(lines@).take(i as int) =~= texts(lines@));
    text
}

} // verus!
