//! Text building blocks: decimal numbers, padding and line splitting.

use vstd::prelude::*;
use vstd::string::StringExecFns;
use vstd::string::StrSliceExecFns;

verus! {

/// `String::push` appends one character and changes nothing else.
pub assume_specification[ String::push ](s: &mut String, ch: char)
    ensures
        final(s)@ == old(s)@.push(ch),
;

/// The views of a sequence of strings, in order.
pub open spec fn texts(v: Seq<String>) -> Seq<Seq<char>> {
    v.map_values(|s: String| s@)
}

/// The view of a text that may be missing.
pub open spec fn text_of(o: Option<String>) -> Option<Seq<char>> {
    match o {
        Some(s) => Some(s@),
        None => None,
    }
}

/// A copy of a text that may be missing.
pub fn copy_text(o: &Option<String>) -> (c: Option<String>)
    ensures
        text_of(c) == text_of(*o),
{
    match o {
        Some(s) => Some(s.clone()),
        None => None,
    }
}

/// The character that writes the digit `d`.
pub open spec fn digit(d: int) -> char {
    if d == 0 {
        '0'
    } else if d == 1 {
        '1'
    } else if d == 2 {
        '2'
    } else if d == 3 {
        '3'
    } else if d == 4 {
        '4'
    } else if d == 5 {
        '5'
    } else if d == 6 {
        '6'
    } else if d == 7 {
        '7'
    } else if d == 8 {
        '8'
    } else {
        '9'
    }
}

/// `n` written in base ten, without leading zeros.
pub open spec fn decimal(n: nat) -> Seq<char>
    decreases n,
{
    if n < 10 {
        seq![digit(n as int)]
    } else {
        decimal(n / 10).push(digit((n % 10) as int))
    }
}

fn digit_char(d: u128) -> (c: char)
    requires
        d < 10,
    ensures
        c == digit(d as int),
{
    if d == 0 {
        '0'
    } else if d == 1 {
        '1'
    } else if d == 2 {
        '2'
    } else if d == 3 {
        '3'
    } else if d == 4 {
        '4'
    } else if d == 5 {
        '5'
    } else if d == 6 {
        '6'
    } else if d == 7 {
        '7'
    } else if d == 8 {
        '8'
    } else {
        '9'
    }
}

/// Writes `n` in base ten.
pub fn decimal_text(n: u128) -> (out: String)
    ensures
        out@ == decimal(n as nat),
    decreases n,
{
    if n < 10 {
        let mut out = String::new();
        out.push(digit_char(n));
        out
    } else {
        let mut out = decimal_text(n / 10);
        out.push(digit_char(n % 10));
        out
    }
}

/// `count` copies of `fill`.
pub open spec fn filler(count: int, fill: char) -> Seq<char> {
    Seq::new(
        if count > 0 {
            count as nat
        } else {
            0
        },
        |i: int| fill,
    )
}

/// `s` followed by as many `fill` as it lacks to be `width` characters long.
pub open spec fn pad_end(s: Seq<char>, width: int, fill: char) -> Seq<char> {
    s + filler(width - s.len(), fill)
}

/// `s` preceded by as many `fill` as it lacks to be `width` characters long.
pub open spec fn pad_start(s: Seq<char>, width: int, fill: char) -> Seq<char> {
    filler(width - s.len(), fill) + s
}

fn filler_text(count: usize, fill: char) -> (out: String)
    ensures
        out@ == filler(count as int, fill),
{
    let mut out = String::new();
    let mut i: usize = 0;
    while i < count
        invariant
            i <= count,
            out@ == filler(i as int, fill),
        decreases count - i,
    {
        out.push(fill);
        i += 1;
        assert(out@ =~= filler(i as int, fill));
    }
    out
}

fn missing(s: &str, width: usize) -> (gap: usize)
    ensures
        gap as int == (if width as int > s@.len() {
            width as int - s@.len()
        } else {
            0
        }),
{
    let have: usize = s.unicode_len();
    if have < width {
        width - have
    } else {
        0
    }
}

/// Pads `s` at its end with `fill` up to `width` characters; a longer `s`
/// comes back whole.
pub fn pad_end_text(s: &str, width: usize, fill: char) -> (out: String)
    ensures
        out@ == pad_end(s@, width as int, fill),
{
    let pad = filler_text(missing(s, width), fill);
    let mut out = String::from_str(s);
    out.append(pad.as_str());
    assert(filler(width as int - s@.len(), fill) =~= pad@);
    out
}

/// Pads `s` at its start with `fill` up to `width` characters; a longer `s`
/// comes back whole.
pub fn pad_start_text(s: &str, width: usize, fill: char) -> (out: String)
    ensures
        out@ == pad_start(s@, width as int, fill),
{
    let mut out = filler_text(missing(s, width), fill);
    assert(filler(width as int - s@.len(), fill) =~= out@);
    out.append(s);
    out
}

/// The position of the first line feed in `s`, or its length if it has none.
pub open spec fn first_break(s: Seq<char>) -> int
    decreases s.len(),
{
    if s.len() == 0 || s[0] == '\n' {
        0
    } else {
        1 + first_break(s.drop_first())
    }
}

/// `line` without a carriage return at its end.
pub open spec fn trim_cr(line: Seq<char>) -> Seq<char> {
    if line.len() > 0 && line.last() == '\r' {
        line.drop_last()
    } else {
        line
    }
}

/// The lines of a text. A line ends at a line feed, or at a carriage return
/// directly before one; neither belongs to the line. What follows the last
/// line feed is a line only if it is not empty, and keeps a carriage return
/// at its end.
pub open spec fn lines_of(s: Seq<char>) -> Seq<Seq<char>>
    decreases s.len(),
{
    let k = first_break(s);
    if s.len() == 0 {
        Seq::empty()
    } else if 0 <= k < s.len() {
        seq![trim_cr(s.subrange(0, k))] + lines_of(s.subrange(k + 1, s.len() as int))
    } else {
        seq![s]
    }
}

/// No line feed occurs in `s`.
pub open spec fn unbroken(s: Seq<char>) -> bool {
    forall|i: int| 0 <= i < s.len() ==> s[i] != '\n'
}

proof fn lemma_first_break(head: Seq<char>, rest: Seq<char>)
    requires
        unbroken(head),
        rest.len() == 0 || rest[0] == '\n',
    ensures
        first_break(head + rest) == head.len(),
    decreases head.len(),
{
    if head.len() > 0 {
        assert((head + rest).drop_first() =~= head.drop_first() + rest);
        lemma_first_break(head.drop_first(), rest);
    } else {
        assert(head + rest =~= rest);
    }
}

proof fn lemma_lines_cut(head: Seq<char>, rest: Seq<char>)
    requires
        unbroken(head),
        rest.len() > 0,
        rest[0] == '\n',
    ensures
        lines_of(head + rest) == seq![trim_cr(head)] + lines_of(rest.drop_first()),
{
    let s = head + rest;
    lemma_first_break(head, rest);
    assert(s.subrange(0, head.len() as int) =~= head);
    assert(s.subrange(head.len() as int + 1, s.len() as int) =~= rest.drop_first());
}

proof fn lemma_lines_tail(head: Seq<char>)
    requires
        unbroken(head),
    ensures
        lines_of(head) == (if head.len() == 0 {
            Seq::<Seq<char>>::empty()
        } else {
            seq![head]
        }),
{
    lemma_first_break(head, Seq::empty());
    assert(head + Seq::<char>::empty() =~= head);
}

/// Splits a text into its lines.
pub fn split_lines(text: &str) -> (lines: Vec<String>)
    ensures
        texts(lines@) == lines_of(text@),
{
    let mut lines: Vec<String> = Vec::new();
    let mut line = String::new();
    let mut held: bool = false;
    let ghost mut open: Seq<char> = Seq::empty();
    proof {
        assert(open + text@.skip(0) =~= text@);
        assert(texts(lines@) + lines_of(text@) =~= lines_of(text@));
    }
    for c in it: text.chars()
        invariant
            it.seq() == text@,
            open == if held {
                line@.push('\r')
            } else {
                line@
            },
            unbroken(open),
            !held ==> line@.len() == 0 || line@.last() != '\r',
            lines_of(text@) == texts(lines@) + lines_of(open + text@.skip(it.index() as int)),
    {
        let ghost rest = text@.skip(it.index() as int);
        let ghost before = texts(lines@);
        assert(rest.len() > 0 && rest[0] == c);
        assert(rest.drop_first() =~= text@.skip(it.index() + 1));
        if c == '\n' {
            let ghost shown = line@;
            proof {
                lemma_lines_cut(open, rest);
                assert(trim_cr(open) =~= shown);
            }
            lines.push(line);
            line = String::new();
            held = false;
            proof {
                assert(texts(lines@) =~= before.push(shown));
                open = Seq::empty();
                assert(open + rest.drop_first() =~= rest.drop_first());
                assert(texts(lines@) + lines_of(rest.drop_first()) =~= before + (seq![shown]
                    + lines_of(rest.drop_first())));
            }
        } else {
            if held {
                line.push('\r');
            }
            if c == '\r' {
                held = true;
            } else {
                held = false;
                line.push(c);
            }
            proof {
                let grown = open.push(c);
                assert(grown + rest.drop_first() =~= open + rest);
                open = grown;
            }
        }
    }
    if held {
        line.push('\r');
    }
    proof {
        assert(text@.skip(text@.len() as int) =~= Seq::<char>::empty());
        assert(open + Seq::<char>::empty() =~= open);
        lemma_lines_tail(open);
    }
    if !line.as_str().is_empty() {
        let ghost before = texts(lines@);
        lines.push(line);
        assert(texts(lines@) =~= before + seq![open]);
    } else {
        assert(texts(lines@) + Seq::<Seq<char>>::empty() =~= texts(lines@));
    }
    lines
}

} // verus!
