//! The diff engine: an ordered list of tagged lines that turns one text into
//! another. The alignment comes from the `diff` crate; this module makes
//! sure that what it returned replays both texts before it hands it on.

use crate::text::{lines_of, split_lines, texts};
use vstd::prelude::*;

verus! {

/// How a line of a diff relates to the two texts.
#[derive(Clone, Copy, Debug, PartialEq, Eq, Structural)]
pub enum Tag {
    /// The line stands in the old text only.
    Removed,
    /// The line stands in both texts.
    Common,
    /// The line stands in the new text only.
    Added,
}

impl Tag {
    /// The number that stands for the tag on the wire.
    pub open spec fn wire(self) -> int {
        match self {
            Tag::Removed => -1,
            Tag::Common => 0,
            Tag::Added => 1,
        }
    }

    /// The number that stands for the tag on the wire: -1 for a removed
    /// line, 0 for a common one, 1 for an added one.
    pub fn direction(self) -> (d: i8)
        ensures
            d == self.wire(),
    {
        match self {
            Tag::Removed => -1,
            Tag::Common => 0,
            Tag::Added => 1,
        }
    }
}

/// One line of a diff.
#[derive(Clone, Debug, PartialEq, Eq)]
pub struct DiffLine {
    pub tag: Tag,
    pub text: String,
}

impl View for DiffLine {
    type V = (Tag, Seq<char>);

    open spec fn view(&self) -> (Tag, Seq<char>) {
        (self.tag, self.text@)
    }
}

/// The views of the lines of a diff, in order.
pub open spec fn entries(v: Seq<DiffLine>) -> Seq<(Tag, Seq<char>)> {
    v.map_values(|d: DiffLine| d@)
}

/// The texts of the entries of `d` whose tag is not `skip`, in order. With
/// `Tag::Added` skipped this is the old side of the diff, with `Tag::Removed`
/// skipped the new side.
pub open spec fn side(d: Seq<(Tag, Seq<char>)>, skip: Tag) -> Seq<Seq<char>>
    decreases d.len(),
{
    if d.len() == 0 {
        Seq::empty()
    } else if d.last().0 == skip {
        side(d.drop_last(), skip)
    } else {
        side(d.drop_last(), skip).push(d.last().1)
    }
}

/// `d` turns `old` into `new`: its removed and common lines are `old`, its
/// added and common lines are `new`.
pub open spec fn replay(old: Seq<Seq<char>>, new: Seq<Seq<char>>, d: Seq<(Tag, Seq<char>)>) -> bool {
    side(d, Tag::Added) == old && side(d, Tag::Removed) == new
}

/// The diff that removes every line of `old` and then adds every line of
/// `new`.
pub open spec fn plain(old: Seq<Seq<char>>, new: Seq<Seq<char>>) -> Seq<(Tag, Seq<char>)> {
    Seq::new(old.len(), |i: int| (Tag::Removed, old[i])) + Seq::new(
        new.len(),
        |i: int| (Tag::Added, new[i]),
    )
}

/// The alignment that `diff::slice` computes for two sequences of lines.
pub uninterp spec fn slice_diff(left: Seq<Seq<char>>, right: Seq<Seq<char>>) -> Seq<
    (Tag, Seq<char>),
>;

/// The table of the alignment has a row for each line of the one text and a
/// column for each line of the other, and one more of each; its cells are four
/// bytes wide. It fits if their number of bytes is one that memory can be
/// asked for.
pub open spec fn table_fits(rows: nat, columns: nat) -> bool {
    (rows + 1) * (columns + 1) * 4 <= isize::MAX
}

/// What comes of an alignment `raw` that was computed for `old` and `new`: the
/// alignment itself if it replays both, else the plain diff.
pub open spec fn settled(
    old: Seq<Seq<char>>,
    new: Seq<Seq<char>>,
    raw: Seq<(Tag, Seq<char>)>,
) -> Seq<(Tag, Seq<char>)> {
    if replay(old, new, raw) {
        raw
    } else {
        plain(old, new)
    }
}

/// The diff of two sequences of lines.
pub open spec fn line_diff(old: Seq<Seq<char>>, new: Seq<Seq<char>>) -> Seq<(Tag, Seq<char>)> {
    if table_fits(old.len(), new.len()) {
        settled(old, new, slice_diff(old, new))
    } else {
        plain(old, new)
    }
}

/// The diff of two texts, line by line.
pub open spec fn text_diff(old: Seq<char>, new: Seq<char>) -> Seq<(Tag, Seq<char>)> {
    line_diff(lines_of(old), lines_of(new))
}

proof fn lemma_side_push(d: Seq<(Tag, Seq<char>)>, e: (Tag, Seq<char>), skip: Tag)
    ensures
        side(d.push(e), skip) == (if e.0 == skip {
            side(d, skip)
        } else {
            side(d, skip).push(e.1)
        }),
{
    assert(d.push(e).drop_last() =~= d);
}

proof fn lemma_side_prefix(d: Seq<(Tag, Seq<char>)>, k: int, skip: Tag)
    requires
        0 <= k <= d.len(),
    ensures
        side(d.take(k), skip).len() <= side(d, skip).len(),
        forall|i: int|
            0 <= i < side(d.take(k), skip).len() ==> side(d, skip)[i] == side(d.take(k), skip)[i],
    decreases d.len(),
{
    if k == d.len() {
        assert(d.take(k) =~= d);
    } else {
        assert(d.take(k) =~= d.drop_last().take(k));
        lemma_side_prefix(d.drop_last(), k, skip);
    }
}

proof fn lemma_side_concat(a: Seq<(Tag, Seq<char>)>, b: Seq<(Tag, Seq<char>)>, skip: Tag)
    ensures
        side(a + b, skip) == side(a, skip) + side(b, skip),
    decreases b.len(),
{
    if b.len() == 0 {
        assert(a + b =~= a);
        assert(side(a, skip) + side(b, skip) =~= side(a, skip));
    } else {
        assert((a + b).drop_last() =~= a + b.drop_last());
        lemma_side_concat(a, b.drop_last(), skip);
        assert(side(a + b, skip) =~= side(a, skip) + side(b, skip));
    }
}

proof fn lemma_side_uniform(lines: Seq<Seq<char>>, tag: Tag, skip: Tag)
    ensures
        side(Seq::new(lines.len(), |i: int| (tag, lines[i])), skip) == (if tag == skip {
            Seq::<Seq<char>>::empty()
        } else {
            lines
        }),
    decreases lines.len(),
{
    let d = Seq::new(lines.len(), |i: int| (tag, lines[i]));
    if lines.len() > 0 {
        let fewer = lines.drop_last();
        assert(d.drop_last() =~= Seq::new(fewer.len(), |i: int| (tag, fewer[i])));
        lemma_side_uniform(fewer, tag, skip);
        if tag != skip {
            assert(fewer.push(lines.last()) =~= lines);
        }
    }
}

/// The plain diff of two sequences of lines replays both.
pub proof fn lemma_plain_replays(old: Seq<Seq<char>>, new: Seq<Seq<char>>)
    ensures
        replay(old, new, plain(old, new)),
{
    let a = Seq::new(old.len(), |i: int| (Tag::Removed, old[i]));
    let b = Seq::new(new.len(), |i: int| (Tag::Added, new[i]));
    lemma_side_concat(a, b, Tag::Added);
    lemma_side_concat(a, b, Tag::Removed);
    lemma_side_uniform(old, Tag::Removed, Tag::Added);
    lemma_side_uniform(old, Tag::Removed, Tag::Removed);
    lemma_side_uniform(new, Tag::Added, Tag::Added);
    lemma_side_uniform(new, Tag::Added, Tag::Removed);
    assert(old + Seq::<Seq<char>>::empty() =~= old);
    assert(Seq::<Seq<char>>::empty() + new =~= new);
}

/// The diff of two sequences of lines replays both: its removed and common
/// lines, read in order, are the old lines, and its added and common lines
/// are the new ones.
pub proof fn lemma_diff_replays(old: Seq<Seq<char>>, new: Seq<Seq<char>>)
    ensures
        side(line_diff(old, new), Tag::Added) == old,
        side(line_diff(old, new), Tag::Removed) == new,
{
    lemma_plain_replays(old, new);
}

/// One step of a replay: whether the line at `at` of `lines` is `text`.
fn line_is(lines: &Vec<String>, at: usize, text: &String) -> (same: bool)
    ensures
        same == (at < lines@.len() && texts(lines@)[at as int] == text@),
{
    if at < lines.len() {
        lines[at] == *text
    } else {
        false
    }
}

/// Whether `d` turns `old` into `new`.
pub fn replays(old: &Vec<String>, new: &Vec<String>, d: &Vec<DiffLine>) -> (ok: bool)
    ensures
        ok == replay(texts(old@), texts(new@), entries(d@)),
{
    let ghost all = entries(d@);
    let ghost o = texts(old@);
    let ghost n = texts(new@);
    let mut i: usize = 0;
    let mut j: usize = 0;
    let mut k: usize = 0;
    assert(all.take(0) =~= Seq::empty());
    assert(o.take(0) =~= Seq::empty());
    assert(n.take(0) =~= Seq::empty());
    while k < d.len()
        invariant
            all == entries(d@),
            o == texts(old@),
            n == texts(new@),
            k <= d@.len(),
            i <= old@.len(),
            j <= new@.len(),
            side(all.take(k as int), Tag::Added) == o.take(i as int),
            side(all.take(k as int), Tag::Removed) == n.take(j as int),
        decreases d@.len() - k,
    {
        let e = &d[k];
        let ghost seen = all.take(k as int);
        proof {
            assert(all.take(k + 1) =~= seen.push(all[k as int]));
            assert(all[k as int] == (e.tag, e.text@));
            lemma_side_push(seen, all[k as int], Tag::Added);
            lemma_side_push(seen, all[k as int], Tag::Removed);
            lemma_side_prefix(all, k + 1, Tag::Added);
            lemma_side_prefix(all, k + 1, Tag::Removed);
        }
        let on_old: bool = match e.tag {
            Tag::Added => false,
            _ => true,
        };
        let on_new: bool = match e.tag {
            Tag::Removed => false,
            _ => true,
        };
        if on_old {
            if !line_is(old, i, &e.text) {
                proof {
                    let grown = side(all.take(k + 1), Tag::Added);
                    assert(grown[i as int] == e.text@);
                    assert(side(all, Tag::Added)[i as int] == e.text@);
                }
                return false;
            }
            assert(i < old.len());
            assert(o.take(i + 1) =~= o.take(i as int).push(e.text@));
            i += 1;
        }
        if on_new {
            if !line_is(new, j, &e.text) {
                proof {
                    let grown = side(all.take(k + 1), Tag::Removed);
                    assert(grown[j as int] == e.text@);
                    assert(side(all, Tag::Removed)[j as int] == e.text@);
                }
                return false;
            }
            assert(j < new.len());
            assert(n.take(j + 1) =~= n.take(j as int).push(e.text@));
            j += 1;
        }
        k += 1;
    }
    proof {
        assert(all.take(k as int) =~= all);
        if i == old@.len() {
            assert(o.take(i as int) =~= o);
        }
        if j == new@.len() {
            assert(n.take(j as int) =~= n);
        }
    }
    i == old.len() && j == new.len()
}

/// The plain diff of two sequences of lines.
pub fn plain_diff(old: &Vec<String>, new: &Vec<String>) -> (out: Vec<DiffLine>)
    ensures
        entries(out@) == plain(texts(old@), texts(new@)),
{
    let ghost o = texts(old@);
    let ghost n = texts(new@);
    let mut out: Vec<DiffLine> = Vec::new();
    let mut i: usize = 0;
    while i < old.len()
        invariant
            o == texts(old@),
            i <= old@.len(),
            entries(out@) == Seq::new(i as nat, |k: int| (Tag::Removed, o[k])),
        decreases old@.len() - i,
    {
        let ghost before = entries(out@);
        out.push(DiffLine { tag: Tag::Removed, text: old[i].clone() });
        assert(entries(out@) =~= before.push((Tag::Removed, o[i as int])));
        i += 1;
        assert(entries(out@) =~= Seq::new(i as nat, |k: int| (Tag::Removed, o[k])));
    }
    let ghost first = entries(out@);
    let mut j: usize = 0;
    assert(first + Seq::new(0, |k: int| (Tag::Added, n[k])) =~= first);
    while j < new.len()
        invariant
            n == texts(new@),
            j <= new@.len(),
            entries(out@) == first + Seq::new(j as nat, |k: int| (Tag::Added, n[k])),
        decreases new@.len() - j,
    {
        let ghost before = entries(out@);
        out.push(DiffLine { tag: Tag::Added, text: new[j].clone() });
        assert(entries(out@) =~= before.push((Tag::Added, n[j as int])));
        j += 1;
        assert(entries(out@) =~= first + Seq::new(j as nat, |k: int| (Tag::Added, n[k])));
    }
    out
}

/// Whether the table of an alignment of `rows` lines with `columns` lines
/// fits.
pub fn fits(rows: usize, columns: usize) -> (ok: bool)
    ensures
        ok == table_fits(rows as nat, columns as nat),
{
    let limit: usize = isize::MAX as usize / 4;
    match (rows.checked_add(1), columns.checked_add(1)) {
        (Some(r), Some(c)) => match r.checked_mul(c) {
            Some(cells) => {
                assert(cells == (rows + 1) * (columns + 1));
                cells <= limit
            },
            None => {
                assert((rows + 1) * (columns + 1) > usize::MAX);
                false
            },
        },
        (None, _) => {
            assert((rows + 1) * (columns + 1) >= rows + 1) by (nonlinear_arith);
            false
        },
        (_, None) => {
            assert((rows + 1) * (columns + 1) >= columns + 1) by (nonlinear_arith);
            false
        },
    }
}

/// `diff::slice` on two sequences of lines: the crate's alignment of them,
/// each entry with the line of the left sequence where it has one and with
/// that of the right sequence otherwise. Nothing is claimed of the alignment
/// but that the same lines give the same one. Left out are the inputs whose
/// table the crate could not ask memory for.
#[verifier::external_body]
fn align(old: &Vec<String>, new: &Vec<String>) -> (out: Vec<DiffLine>)
    requires
        table_fits(old@.len(), new@.len()),
    ensures
        entries(out@) == slice_diff(texts(old@), texts(new@)),
{
    diff::slice(old, new).into_iter().map(
        |d| match d {
            diff::Result::Left(l) => DiffLine { tag: Tag::Removed, text: l.clone() },
            diff::Result::Both(l, _) => DiffLine { tag: Tag::Common, text: l.clone() },
            diff::Result::Right(r) => DiffLine { tag: Tag::Added, text: r.clone() },
        },
    ).collect()
}

/// Settles on a diff of `old` and `new`, given an alignment `raw` that was
/// computed for them: `raw` itself if it replays both, else the plain diff.
pub fn settle(old: &Vec<String>, new: &Vec<String>, raw: Vec<DiffLine>) -> (out: Vec<DiffLine>)
    ensures
        entries(out@) == settled(texts(old@), texts(new@), entries(raw@)),
{
    if replays(old, new, &raw) {
        raw
    } else {
        plain_diff(old, new)
    }
}

/// The diff of two sequences of lines: the alignment of the `diff` crate
/// where its table fits and it replays both sequences, else the plain diff.
pub fn diff_lines(old: &Vec<String>, new: &Vec<String>) -> (out: Vec<DiffLine>)
    ensures
        entries(out@) == line_diff(texts(old@), texts(new@)),
{
    if fits(old.len(), new.len()) {
        let raw = align(old, new);
        settle(old, new, raw)
    } else {
        plain_diff(old, new)
    }
}

/// The diff of two texts, line by line.
pub fn diff(old_text: &str, new_text: &str) -> (out: Vec<DiffLine>)
    ensures
        entries(out@) == text_diff(old_text@, new_text@),
{
    let old = split_lines(old_text);
    let new = split_lines(new_text);
    diff_lines(&old, &new)
}

} // verus!
