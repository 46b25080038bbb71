//! The poller: one pass over a snapshot that holds each file against what
//! was just seen of it, reports the files that changed and brings the
//! snapshot up to date.

use crate::diff::{diff, text_diff};
use crate::node::{
    files, files_in, lemma_trees, own, selective, shaped, stocked, trees, Node, NodeType, Tree,
};
use crate::notification::{notices, Notice, Notification, Timestamp};
use crate::text::{copy_text, text_of};
use vstd::prelude::*;

verus! {

/// What was just seen of one file.
#[derive(Clone, Debug, PartialEq, Eq)]
pub struct Observation {
    /// Its modification time, in milliseconds since the start of 1970; none
    /// where the file system would not tell it.
    pub modified: Option<u128>,
    /// Its text; none where it could not be read or is too large. It is
    /// looked at only where the time differs from the one in the snapshot.
    pub content: Option<String>,
}

/// An observation as a value of mathematics.
pub struct Sighting {
    pub modified: Option<u128>,
    pub content: Option<Seq<char>>,
}

impl View for Observation {
    type V = Sighting;

    open spec fn view(&self) -> Sighting {
        Sighting { modified: self.modified, content: text_of(self.content) }
    }
}

/// The views of a sequence of observations, in order.
pub open spec fn sightings(v: Seq<Observation>) -> Seq<Sighting> {
    v.map_values(|o: Observation| o@)
}

/// What was seen of the file at place `at`. Of a file beyond the end of the
/// observations nothing was seen: neither a time nor a text.
pub open spec fn seen_at(seen: Seq<Sighting>, at: int) -> Sighting {
    if 0 <= at < seen.len() {
        seen[at]
    } else {
        Sighting { modified: None, content: None }
    }
}

/// A file is stale where the time just seen is not the one in the snapshot;
/// an unknown time differs from every known one.
pub open spec fn stale(t: Tree, o: Sighting) -> bool {
    t.kind == NodeType::File && o.modified != t.modified
}

/// A node brought up to date with what was seen of it, its children left
/// aside. A file takes the time that was seen, and where it is stale the
/// text that was read, be there one or not. A folder stays as it is.
pub open spec fn refreshed(t: Tree, o: Sighting) -> Tree {
    if t.kind == NodeType::File {
        Tree {
            modified: o.modified,
            content: if stale(t, o) {
                o.content
            } else {
                t.content
            },
            ..t
        }
    } else {
        t
    }
}

/// A tree after a pass. The files of the tree are counted in the order in
/// which a walk meets them, a node before its children and the children in
/// their order; the file with number `k` is held against the observation at
/// place `at + k`.
pub open spec fn polled(t: Tree, seen: Seq<Sighting>, at: int) -> Tree
    decreases t,
{
    Tree { children: polled_all(t.children, seen, at + own(t)), ..refreshed(t, seen_at(seen, at)) }
}

/// A sequence of trees after a pass that holds its first file against the
/// observation at place `at`.
pub open spec fn polled_all(ts: Seq<Tree>, seen: Seq<Sighting>, at: int) -> Seq<Tree>
    decreases ts,
{
    Seq::new(
        ts.len(),
        |i: int|
            if 0 <= i < ts.len() {
                polled(ts[i], seen, at + files_in(ts, i as nat))
            } else {
                arbitrary()
            },
    )
}

/// `polled_all` keeps the length and polls each tree in its place, after the
/// files of the trees before it.
pub proof fn lemma_polled_all(ts: Seq<Tree>, seen: Seq<Sighting>, at: int)
    ensures
        polled_all(ts, seen, at).len() == ts.len(),
        forall|i: int|
            0 <= i < ts.len() ==> (#[trigger] polled_all(ts, seen, at)[i]) == polled(
                ts[i],
                seen,
                at + files_in(ts, i as nat),
            ),
{
    reveal_with_fuel(polled_all, 2);
}

/// The notification of a change of the file `t` to the text that `o` holds.
pub open spec fn change_notice(t: Tree, o: Sighting, now: Timestamp) -> Notice {
    Notice { time: now, path: t.path, diff: text_diff(t.content->0, o.content->0) }
}

/// What a pass reports of the node itself: one notification for a stale file
/// of which both the text in the snapshot and the text just read are there,
/// with the diff of the two; nothing otherwise.
pub open spec fn report(t: Tree, o: Sighting, now: Timestamp) -> Seq<Notice> {
    if stale(t, o) && t.content is Some && o.content is Some {
        seq![change_notice(t, o, now)]
    } else {
        Seq::empty()
    }
}

/// What a pass reports of a tree, in the order of the walk.
pub open spec fn reports(t: Tree, seen: Seq<Sighting>, at: int, now: Timestamp) -> Seq<Notice>
    decreases t,
{
    report(t, seen_at(seen, at), now) + reports_in(
        t.children,
        seen,
        at + own(t),
        now,
        t.children.len(),
    )
}

/// What a pass reports of the first `k` of a sequence of trees.
pub open spec fn reports_in(
    ts: Seq<Tree>,
    seen: Seq<Sighting>,
    at: int,
    now: Timestamp,
    k: nat,
) -> Seq<Notice>
    decreases ts, k,
{
    if k == 0 || k > ts.len() {
        Seq::empty()
    } else {
        reports_in(ts, seen, at, now, (k - 1) as nat) + reports(
            ts[k - 1],
            seen,
            at + files_in(ts, (k - 1) as nat),
            now,
        )
    }
}

/// A pass changes neither what a node is nor how many files its tree holds.
pub proof fn lemma_polled_files(t: Tree, seen: Seq<Sighting>, at: int)
    ensures
        polled(t, seen, at).kind == t.kind,
        polled(t, seen, at).path == t.path,
        polled(t, seen, at).name == t.name,
        polled(t, seen, at).children.len() == t.children.len(),
        files(polled(t, seen, at)) == files(t),
    decreases t,
{
    lemma_polled_all(t.children, seen, at + own(t));
    lemma_polled_counts_in(t.children, seen, at + own(t), t.children.len());
}

/// A pass does not change how many files the first `k` of a sequence of
/// trees hold.
pub proof fn lemma_polled_counts_in(ts: Seq<Tree>, seen: Seq<Sighting>, at: int, k: nat)
    requires
        k <= ts.len(),
    ensures
        files_in(polled_all(ts, seen, at), k) == files_in(ts, k),
    decreases ts, k,
{
    lemma_polled_all(ts, seen, at);
    if k > 0 {
        lemma_polled_counts_in(ts, seen, at, (k - 1) as nat);
        lemma_polled_files(ts[k - 1], seen, at + files_in(ts, (k - 1) as nat));
    }
}

/// A pass keeps what a build established: the files of the tree are still
/// those that the filter selects, its folders still hold files, and files
/// and folders still have their form.
pub proof fn lemma_polled_keeps(t: Tree, seen: Seq<Sighting>, at: int, targets: Seq<Seq<char>>)
    ensures
        selective(t, targets) ==> selective(polled(t, seen, at), targets),
        stocked(t) ==> stocked(polled(t, seen, at)),
        shaped(t) ==> shaped(polled(t, seen, at)),
    decreases t,
{
    let p = polled(t, seen, at);
    lemma_polled_files(t, seen, at);
    lemma_polled_all(t.children, seen, at + own(t));
    assert forall|i: int| 0 <= i < t.children.len() implies (selective(t.children[i], targets)
        ==> selective(#[trigger] p.children[i], targets)) && (stocked(t.children[i]) ==> stocked(
        p.children[i],
    )) && (shaped(t.children[i]) ==> shaped(p.children[i])) by {
        lemma_polled_keeps(
            t.children[i],
            seen,
            at + own(t) + files_in(t.children, i as nat),
            targets,
        );
    }
}

/// A second pass that sees what the first one saw reports nothing.
pub proof fn lemma_second_pass_silent(t: Tree, seen: Seq<Sighting>, at: int, now: Timestamp)
    ensures
        reports(polled(t, seen, at), seen, at, now) == Seq::<Notice>::empty(),
    decreases t,
{
    let p = polled(t, seen, at);
    lemma_polled_files(t, seen, at);
    lemma_silent_in(t.children, seen, at + own(t), now, t.children.len());
    assert(report(p, seen_at(seen, at), now) + Seq::<Notice>::empty() =~= Seq::<Notice>::empty());
}

proof fn lemma_silent_in(ts: Seq<Tree>, seen: Seq<Sighting>, at: int, now: Timestamp, k: nat)
    requires
        k <= ts.len(),
    ensures
        reports_in(polled_all(ts, seen, at), seen, at, now, k) == Seq::<Notice>::empty(),
    decreases ts, k,
{
    lemma_polled_all(ts, seen, at);
    if k > 0 {
        let ps = polled_all(ts, seen, at);
        lemma_silent_in(ts, seen, at, now, (k - 1) as nat);
        lemma_polled_counts_in(ts, seen, at, (k - 1) as nat);
        lemma_second_pass_silent(ts[k - 1], seen, at + files_in(ts, (k - 1) as nat), now);
        assert(reports_in(ps, seen, at, now, k) =~= Seq::<Notice>::empty());
    }
}

/// A file whose time differs from the one that was seen, and of which both
/// the text in the snapshot and the text just read are there, is reported
/// once, with the diff of the two texts, and takes the new time and text.
pub proof fn lemma_change_reported(t: Tree, seen: Seq<Sighting>, at: int, now: Timestamp)
    requires
        shaped(t),
        t.kind == NodeType::File,
        seen_at(seen, at).modified != t.modified,
        t.content is Some,
        seen_at(seen, at).content is Some,
    ensures
        reports(t, seen, at, now) == seq![change_notice(t, seen_at(seen, at), now)],
        polled(t, seen, at) == (Tree {
            modified: seen_at(seen, at).modified,
            content: seen_at(seen, at).content,
            ..t
        }),
{
    lemma_polled_all(t.children, seen, at + 1);
    assert(polled(t, seen, at).children =~= t.children);
    assert(reports(t, seen, at, now) =~= report(t, seen_at(seen, at), now));
}

/// A file whose time differs from the one that was seen and whose text can no
/// longer be read is not reported: it takes the new time and loses its
/// text.
pub proof fn lemma_unreadable_silent(t: Tree, seen: Seq<Sighting>, at: int, now: Timestamp)
    requires
        shaped(t),
        t.kind == NodeType::File,
        seen_at(seen, at).modified != t.modified,
        seen_at(seen, at).content is None,
    ensures
        reports(t, seen, at, now) == Seq::<Notice>::empty(),
        polled(t, seen, at) == (Tree { modified: seen_at(seen, at).modified, content: None, ..t }),
{
    lemma_polled_all(t.children, seen, at + 1);
    assert(polled(t, seen, at).children =~= t.children);
    assert(reports(t, seen, at, now) =~= report(t, seen_at(seen, at), now));
}

/// The place `at`, or the end of `len` observations if it lies beyond.
pub open spec fn within(at: int, len: int) -> int {
    if at < len {
        at
    } else {
        len
    }
}

/// Whether two times are the same: two known times that are equal, or two
/// unknown ones.
pub fn same_time(a: Option<u128>, b: Option<u128>) -> (same: bool)
    ensures
        same == (a == b),
{
    match (a, b) {
        (Some(x), Some(y)) => x == y,
        (None, None) => true,
        _ => false,
    }
}

impl Node {
    /// One pass over the snapshot. The files are counted in the order of the
    /// walk, a node before its children, and the file with number `k` is held
    /// against `seen[k]`; of a file beyond the end of `seen` nothing was seen.
    /// Each file takes the time that was seen of it. A file whose time
    /// differs takes the text that was read, and where it had a text and has
    /// one now, a notification with their diff, stamped `now`, is appended to
    /// `out`.
    pub fn poll(&mut self, seen: &Vec<Observation>, now: Timestamp, out: &mut Vec<Notification>)
        ensures
            final(self)@ == polled(old(self)@, sightings(seen@), 0),
            notices(final(out)@) == notices(old(out)@) + reports(
                old(self)@,
                sightings(seen@),
                0,
                now,
            ),
    {
        let _ = self.poll_from(seen, 0, Ghost(0), now, out);
    }

    /// Holds the node itself against what was just seen of it, its children
    /// left aside: `live` is the time that was seen and `fresh` the text that
    /// was read. A file takes the time, and where its time differs the text;
    /// where it had a text and has one now, a notification with their diff,
    /// stamped `now`, is appended to `out`. A folder stays as it is.
    pub fn refresh(
        &mut self,
        live: Option<u128>,
        fresh: &Option<String>,
        now: Timestamp,
        out: &mut Vec<Notification>,
    )
        ensures
            final(self)@ == refreshed(
                old(self)@,
                Sighting { modified: live, content: text_of(*fresh) },
            ),
            final(self).children == old(self).children,
            notices(final(out)@) == notices(old(out)@) + report(
                old(self)@,
                Sighting { modified: live, content: text_of(*fresh) },
                now,
            ),
    {
        let ghost said = notices(out@);
        match self.kind {
            NodeType::File => {
                if !same_time(live, self.modified) {
                    match (&self.content, fresh) {
                        (Some(before), Some(after)) => {
                            let note = Notification {
                                time: now,
                                path: self.path.clone(),
                                diff: diff(before.as_str(), after.as_str()),
                            };
                            let ghost n = note@;
                            out.push(note);
                            assert(notices(out@) =~= said + seq![n]);
                        },
                        _ => {
                            assert(notices(out@) =~= said + Seq::<Notice>::empty());
                        },
                    }
                    self.content = copy_text(fresh);
                } else {
                    assert(notices(out@) =~= said + Seq::<Notice>::empty());
                }
                self.modified = live;
            },
            NodeType::Folder => {
                assert(notices(out@) =~= said + Seq::<Notice>::empty());
            },
        }
    }

    fn poll_from(
        &mut self,
        seen: &Vec<Observation>,
        at: usize,
        Ghost(place): Ghost<int>,
        now: Timestamp,
        out: &mut Vec<Notification>,
    ) -> (next: usize)
        requires
            0 <= place,
            at == within(place, seen.len() as int),
        ensures
            final(self)@ == polled(old(self)@, sightings(seen@), place),
            notices(final(out)@) == notices(old(out)@) + reports(
                old(self)@,
                sightings(seen@),
                place,
                now,
            ),
            next == within(place + files(old(self)@), seen.len() as int),
        decreases *old(self),
    {
        let ghost was = old(self)@;
        let ghost all = sightings(seen@);
        let ghost base = place + own(was);
        let ghost said = notices(old(out)@);
        if at < seen.len() {
            self.refresh(seen[at].modified, &seen[at].content, now, out);
        } else {
            self.refresh(None, &None, now, out);
        }
        let cursor: usize = match self.kind {
            NodeType::File => if at < seen.len() {
                at + 1
            } else {
                at
            },
            NodeType::Folder => at,
        };
        proof {
            lemma_trees(old(self).children@);
            assert(self@ == refreshed(was, seen_at(all, place)));
        }
        let next = Node::poll_all(&mut self.children, seen, cursor, Ghost(base), now, out);
        proof {
            assert(notices(out@) =~= said + reports(was, all, place, now));
        }
        next
    }

    fn poll_all(
        children: &mut Vec<Node>,
        seen: &Vec<Observation>,
        at: usize,
        Ghost(place): Ghost<int>,
        now: Timestamp,
        out: &mut Vec<Notification>,
    ) -> (next: usize)
        requires
            0 <= place,
            at == within(place, seen.len() as int),
        ensures
            trees(final(children)@) == polled_all(trees(old(children)@), sightings(seen@), place),
            notices(final(out)@) == notices(old(out)@) + reports_in(
                trees(old(children)@),
                sightings(seen@),
                place,
                now,
                old(children)@.len(),
            ),
            next == within(
                place + files_in(trees(old(children)@), old(children)@.len()),
                seen.len() as int,
            ),
        decreases *old(children),
    {
        let ghost ts = trees(old(children)@);
        let ghost all = sightings(seen@);
        let ghost said = notices(old(out)@);
        let mut cursor: usize = at;
        let mut i: usize = 0;
        proof {
            lemma_trees(old(children)@);
            assert(said + reports_in(ts, all, place, now, 0) =~= said);
        }
        while i < children.len()
            invariant
                0 <= place,
                all == sightings(seen@),
                ts.len() == old(children).len(),
                forall|j: int| 0 <= j < ts.len() ==> ts[j] == (#[trigger] old(children)[j])@,
                children.len() == old(children).len(),
                i <= children.len(),
                forall|j: int|
                    0 <= j < i ==> (#[trigger] children[j])@ == polled(
                        ts[j],
                        all,
                        place + files_in(ts, j as nat),
                    ),
                forall|j: int| i <= j < children.len() ==> #[trigger] children[j] == old(children)[j],
                cursor == within(place + files_in(ts, i as nat), seen.len() as int),
                notices(out@) == said + reports_in(ts, all, place, now, i as nat),
            decreases children.len() - i,
        {
            let ghost told = notices(out@);
            proof {
                vstd::std_specs::vec::axiom_vec_index_decreases(*old(children), i as int);
                assert(children[i as int] == old(children)[i as int]);
                assert(children[i as int]@ == ts[i as int]);
            }
            cursor = children[i].poll_from(
                seen,
                cursor,
                Ghost(place + files_in(ts, i as nat)),
                now,
                out,
            );
            proof {
                let step = reports(ts[i as int], all, place + files_in(ts, i as nat), now);
                assert(notices(out@) == told + step);
                assert(notices(out@) =~= said + (reports_in(ts, all, place, now, i as nat) + step));
            }
            i += 1;
        }
        proof {
            lemma_trees(children@);
            lemma_polled_all(ts, all, place);
            assert(trees(children@) =~= polled_all(ts, all, place));
        }
        cursor
    }
}

} // verus!
