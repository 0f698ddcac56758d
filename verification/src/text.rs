//! Characters, lines and trimming: the small vocabulary the line classifier
//! is written in.

use vstd::prelude::*;
use vstd::string::StringSliceAdditionalSpecFns;

verus! {

/// The characters that count as blank space: the Unicode `White_Space` set.
pub open spec fn is_space(c: char) -> bool {
    let n = c as u32;
    ||| 0x09 <= n <= 0x0D
    ||| n == 0x20
    ||| n == 0x85
    ||| n == 0xA0
    ||| n == 0x1680
    ||| 0x2000 <= n <= 0x200A
    ||| n == 0x2028
    ||| n == 0x2029
    ||| n == 0x202F
    ||| n == 0x205F
    ||| n == 0x3000
}

/// `s` without its leading blank space.
pub open spec fn trim_start(s: Seq<char>) -> Seq<char>
    decreases s.len(),
{
    if s.len() > 0 && is_space(s.first()) {
        trim_start(s.drop_first())
    } else {
        s
    }
}

/// `s` without its trailing blank space.
pub open spec fn trim_end(s: Seq<char>) -> Seq<char>
    decreases s.len(),
{
    if s.len() > 0 && is_space(s.last()) {
        trim_end(s.drop_last())
    } else {
        s
    }
}

/// `s` without blank space at either end.
pub open spec fn trim(s: Seq<char>) -> Seq<char> {
    trim_end(trim_start(s))
}

/// Number of characters before the first line feed of `t`, or all of them
/// when it holds none.
pub open spec fn line_len(t: Seq<char>) -> int
    decreases t.len(),
{
    if t.len() == 0 || t.first() == '\n' {
        0
    } else {
        1 + line_len(t.drop_first())
    }
}

/// The lines of `t`: the pieces between line feeds. A line feed at the very
/// end closes the last line and opens no further one, so the empty text has
/// no line and `"a\n"` has one.
pub open spec fn lines(t: Seq<char>) -> Seq<Seq<char>>
    decreases t.len(),
{
    if t.len() == 0 {
        Seq::empty()
    } else {
        let n = line_len(t);
        if n < t.len() {
            proof {
                lemma_line_len_bounds(t);
            }
            seq![t.take(n)] + lines(t.skip(n + 1))
        } else {
            seq![t]
        }
    }
}

/// A line ends at the first line feed and holds none itself.
pub proof fn lemma_line_len_bounds(t: Seq<char>)
    ensures
        0 <= line_len(t) <= t.len(),
        line_len(t) < t.len() ==> t[line_len(t)] == '\n',
        forall|i: int| 0 <= i < line_len(t) ==> t[i] != '\n',
    decreases t.len(),
{
    if t.len() == 0 || t.first() == '\n' {
    } else {
        let rest = t.drop_first();
        lemma_line_len_bounds(rest);
        assert forall|i: int| 0 <= i < line_len(t) implies t[i] != '\n' by {
            if i > 0 {
                assert(t[i] == rest[i - 1]);
            }
        }
        if line_len(t) < t.len() {
            assert(t[line_len(t)] == rest[line_len(rest)]);
        }
    }
}

/// Whether `c` is blank space.
pub fn is_whitespace(c: char) -> (r: bool)
    ensures
        r == is_space(c),
{
    let n: u32 = c as u32;
    (0x09 <= n && n <= 0x0D) || n == 0x20 || n == 0x85 || n == 0xA0 || n == 0x1680 || (0x2000 <= n
        && n <= 0x200A) || n == 0x2028 || n == 0x2029 || n == 0x202F || n == 0x205F || n == 0x3000
}

/// The characters of `s`, in order.
pub fn to_chars(s: &str) -> (r: Vec<char>)
    ensures
        r@ == s@,
{
    let mut out: Vec<char> = Vec::new();
    let it = s.chars();
    for c in iter: it
        invariant
            out@ == iter.seq().take(iter.index()),
            iter.seq() == s@,
    {
        out.push(c);
    }
    out
}

/// Whether two strings hold the same characters.
pub fn same_text(a: &str, b: &str) -> (r: bool)
    ensures
        r == (a@ == b@),
{
    let x = a.as_bytes();
    let y = b.as_bytes();
    proof {
        vstd::utf8::encode_utf8_decode_utf8(a@);
        vstd::utf8::encode_utf8_decode_utf8(b@);
    }
    if x.len() != y.len() {
        return false;
    }
    let mut i: usize = 0;
    while i < x.len()
        invariant
            i <= x.len(),
            x.len() == y.len(),
            x@.take(i as int) == y@.take(i as int),
            x@ == a.spec_bytes(),
            y@ == b.spec_bytes(),
        decreases x.len() - i,
    {
        if x[i] != y[i] {
            return false;
        }
        proof {
            assert(x@.take(i + 1) == x@.take(i as int).push(x@[i as int]));
            assert(y@.take(i + 1) == y@.take(i as int).push(y@[i as int]));
        }
        i += 1;
    }
    proof {
        assert(x@.take(i as int) == x@);
        assert(y@.take(i as int) == y@);
    }
    true
}

/// Index just past the line that starts at `from`: that of its line feed,
/// or the end of `chars`.
pub fn line_end(chars: &Vec<char>, from: usize) -> (end: usize)
    requires
        from <= chars.len(),
    ensures
        from <= end <= chars.len(),
        end - from == line_len(chars@.skip(from as int)),
{
    let mut end: usize = from;
    while end < chars.len() && chars[end] != '\n'
        invariant
            from <= end <= chars.len(),
            line_len(chars@.skip(from as int)) == (end - from) + line_len(chars@.skip(end as int)),
        decreases chars.len() - end,
    {
        proof {
            assert(chars@.skip(end as int).drop_first() == chars@.skip(end + 1));
        }
        end += 1;
    }
    end
}

/// Bounds of the line `chars[from..to]` once blank space is cut from both
/// of its ends.
pub fn trim_bounds(chars: &Vec<char>, from: usize, to: usize) -> (r: (usize, usize))
    requires
        from <= to <= chars.len(),
    ensures
        from <= r.0 <= r.1 <= to,
        chars@.subrange(r.0 as int, r.1 as int) == trim(chars@.subrange(from as int, to as int)),
{
    let mut a: usize = from;
    while a < to && is_whitespace(chars[a])
        invariant
            from <= a <= to <= chars.len(),
            trim_start(chars@.subrange(from as int, to as int)) == trim_start(
                chars@.subrange(a as int, to as int),
            ),
        decreases to - a,
    {
        proof {
            assert(chars@.subrange(a as int, to as int).drop_first() == chars@.subrange(
                a + 1,
                to as int,
            ));
        }
        a += 1;
    }
    let mut b: usize = to;
    while a < b && is_whitespace(chars[b - 1])
        invariant
            a <= b <= to <= chars.len(),
            trim_end(chars@.subrange(a as int, to as int)) == trim_end(
                chars@.subrange(a as int, b as int),
            ),
        decreases b - a,
    {
        proof {
            assert(chars@.subrange(a as int, b as int).drop_last() == chars@.subrange(
                a as int,
                b - 1,
            ));
        }
        b -= 1;
    }
    (a, b)
}

/// Whether the line `chars[from..to]` begins with `token`.
pub fn starts_with(chars: &Vec<char>, from: usize, to: usize, token: &Vec<char>) -> (r: bool)
    requires
        from <= to <= chars.len(),
    ensures
        r == token@.is_prefix_of(chars@.subrange(from as int, to as int)),
{
    let n = token.len();
    if n > to - from {
        return false;
    }
    let ghost line = chars@.subrange(from as int, to as int);
    let mut i: usize = 0;
    while i < n
        invariant
            i <= n <= to - from,
            from <= to <= chars.len(),
            n == token.len(),
            line == chars@.subrange(from as int, to as int),
            forall|j: int| 0 <= j < i ==> token@[j] == line[j],
        decreases n - i,
    {
        if token[i] != chars[from + i] {
            proof {
                assert(line[i as int] != token@[i as int]);
                assert(line.subrange(0, n as int)[i as int] == line[i as int]);
            }
            return false;
        }
        i += 1;
    }
    proof {
        assert(token@ =~= line.subrange(0, n as int));
    }
    true
}

/// Whether the line `chars[from..to]` ends with `token`.
pub fn ends_with(chars: &Vec<char>, from: usize, to: usize, token: &Vec<char>) -> (r: bool)
    requires
        from <= to <= chars.len(),
    ensures
        r == token@.is_suffix_of(chars@.subrange(from as int, to as int)),
{
    let n = token.len();
    if n > to - from {
        return false;
    }
    let ghost line = chars@.subrange(from as int, to as int);
    let base: usize = to - n;
    let mut i: usize = 0;
    while i < n
        invariant
            i <= n <= to - from,
            from <= to <= chars.len(),
            n == token.len(),
            base == to - n,
            line == chars@.subrange(from as int, to as int),
            forall|j: int| 0 <= j < i ==> token@[j] == line[line.len() - n + j],
        decreases n - i,
    {
        if token[i] != chars[base + i] {
            proof {
                let tail = line.subrange(line.len() - n, line.len() as int);
                assert(tail[i as int] == line[line.len() - n + i]);
            }
            return false;
        }
        i += 1;
    }
    proof {
        assert(token@ =~= line.subrange(line.len() - n, line.len() as int));
    }
    true
}

/// Whether `s` begins with `token`.
pub fn begins_with(s: &str, token: &str) -> (r: bool)
    ensures
        r == token@.is_prefix_of(s@),
{
    let chars = to_chars(s);
    let token = to_chars(token);
    proof {
        assert(chars@.subrange(0, chars@.len() as int) == chars@);
    }
    starts_with(&chars, 0, chars.len(), &token)
}

} // verus!
