//! The file tree: the snapshot as a whole, how it is listed for the console
//! and which files it watches.

use crate::config::Config;
use crate::node::{built, failing, fresh, lemma_trees, FileError, Node, Scan, Tree};
use crate::notification::{notices, Notification, Timestamp};
use crate::node::{files, files_in, own, NodeType};
use crate::poll::{
    lemma_polled_all, lemma_polled_files, polled, polled_all, reports, seen_at, sightings,
    Observation, Sighting,
};
use crate::text::{decimal, decimal_text, pad_end, pad_end_text, texts};
use vstd::prelude::*;
use vstd::string::StrSliceExecFns;
use vstd::string::StringExecFns;

verus! {

/// The number of characters of a name that a listing shows.
pub const NAME_WIDTH: usize = 60;

/// The width to which the column of names is filled with dots.
pub const COLUMN_WIDTH: usize = 80;

/// A name as a listing shows it: whole if it has at most `NAME_WIDTH`
/// characters, else its first `NAME_WIDTH` characters and three dots.
pub open spec fn shown_name(name: Seq<char>) -> Seq<char> {
    if name.len() > NAME_WIDTH {
        name.subrange(0, NAME_WIDTH as int) + "..."@
    } else {
        name
    }
}

/// The number that a listing shows for a time: the time itself, or the
/// largest number of 128 bits for one that is not known.
pub open spec fn shown_time(modified: Option<u128>) -> nat {
    match modified {
        Some(t) => t as nat,
        None => u128::MAX as nat,
    }
}

/// The line of a listing for one node, behind the prefix `prev`.
pub open spec fn row(prev: Seq<char>, t: Tree) -> Seq<char> {
    pad_end(prev + "└── "@ + shown_name(t.name), COLUMN_WIDTH as int, '.') + " Last Modified: -"@
        + decimal(shown_time(t.modified)) + " millis"@
}

/// The listing of a tree: the line of the node, then the listings of its
/// children in their order, each behind a prefix that is one step longer.
pub open spec fn rows(prev: Seq<char>, t: Tree) -> Seq<Seq<char>>
    decreases t,
{
    seq![row(prev, t)] + rows_in(prev + "│  "@, t.children, t.children.len())
}

/// The listings of the first `k` of a sequence of trees, one after the
/// other.
pub open spec fn rows_in(prev: Seq<char>, ts: Seq<Tree>, k: nat) -> Seq<Seq<char>>
    decreases ts, k,
{
    if k == 0 || k > ts.len() {
        Seq::empty()
    } else {
        rows_in(prev, ts, (k - 1) as nat) + rows(prev, ts[k - 1])
    }
}

/// A file that a snapshot watches, with the time that the snapshot holds
/// for it.
#[derive(Clone, Debug, PartialEq, Eq)]
pub struct Watch {
    pub path: String,
    pub modified: Option<u128>,
}

impl View for Watch {
    type V = (Seq<char>, Option<u128>);

    open spec fn view(&self) -> (Seq<char>, Option<u128>) {
        (self.path@, self.modified)
    }
}

/// The views of a sequence of watched files, in order.
pub open spec fn watches(v: Seq<Watch>) -> Seq<(Seq<char>, Option<u128>)> {
    v.map_values(|w: Watch| w@)
}

/// The files of a tree in the order in which a pass counts them: a node
/// before its children, the children in their order.
pub open spec fn listing(t: Tree) -> Seq<(Seq<char>, Option<u128>)>
    decreases t,
{
    (if t.kind == NodeType::File {
        seq![(t.path, t.modified)]
    } else {
        Seq::empty()
    }) + listing_in(t.children, t.children.len())
}

/// The files of the first `k` of a sequence of trees.
pub open spec fn listing_in(ts: Seq<Tree>, k: nat) -> Seq<(Seq<char>, Option<u128>)>
    decreases ts, k,
{
    if k == 0 || k > ts.len() {
        Seq::empty()
    } else {
        listing_in(ts, (k - 1) as nat) + listing(ts[k - 1])
    }
}

/// A tree watches as many files as a pass counts in it.
pub proof fn lemma_listing_counts(t: Tree)
    ensures
        listing(t).len() == files(t),
    decreases t,
{
    lemma_listing_counts_in(t.children, t.children.len());
}

proof fn lemma_listing_counts_in(ts: Seq<Tree>, n: nat)
    requires
        n <= ts.len(),
    ensures
        listing_in(ts, n).len() == files_in(ts, n),
    decreases ts, n,
{
    if n > 0 {
        lemma_listing_counts_in(ts, (n - 1) as nat);
        lemma_listing_counts(ts[n - 1]);
    }
}

/// A pass holds the watched file with number `k` against the observation at
/// place `at + k`: after the pass the snapshot has for that file its old path
/// and the time that was seen there.
pub proof fn lemma_listing_after_pass(t: Tree, seen: Seq<Sighting>, at: int, k: int)
    requires
        0 <= k < files(t),
    ensures
        listing(polled(t, seen, at)).len() == files(t),
        listing(polled(t, seen, at))[k] == (listing(t)[k].0, seen_at(seen, at + k).modified),
    decreases t,
{
    let p = polled(t, seen, at);
    lemma_polled_files(t, seen, at);
    lemma_listing_counts(p);
    lemma_listing_counts(t);
    lemma_listing_counts_in(t.children, t.children.len());
    lemma_polled_all(t.children, seen, at + own(t));
    lemma_listing_counts_in(p.children, p.children.len());
    if k >= own(t) {
        lemma_listing_after_pass_in(t.children, seen, at + own(t), t.children.len(), k - own(t));
    }
}

proof fn lemma_listing_after_pass_in(ts: Seq<Tree>, seen: Seq<Sighting>, at: int, n: nat, k: int)
    requires
        n <= ts.len(),
        0 <= k < files_in(ts, n),
    ensures
        listing_in(polled_all(ts, seen, at), n).len() == files_in(ts, n),
        listing_in(polled_all(ts, seen, at), n)[k] == (
            listing_in(ts, n)[k].0,
            seen_at(seen, at + k).modified,
        ),
    decreases ts, n,
{
    let ps = polled_all(ts, seen, at);
    let before = files_in(ts, (n - 1) as nat);
    lemma_polled_all(ts, seen, at);
    lemma_listing_counts_in(ts, (n - 1) as nat);
    lemma_listing_counts_in(ps, (n - 1) as nat);
    lemma_listing_counts_in(ps, n);
    lemma_listing_counts(ts[n - 1]);
    lemma_listing_counts(ps[n - 1]);
    crate::poll::lemma_polled_counts_in(ts, seen, at, (n - 1) as nat);
    lemma_polled_files(ts[n - 1], seen, at + before);
    if k < before {
        lemma_listing_after_pass_in(ts, seen, at, (n - 1) as nat, k);
    } else {
        lemma_listing_after_pass(ts[n - 1], seen, at + before, k - before);
    }
}

/// The node at the head of a tree that was filled from a scan of `path`: the
/// node that was built for the scan, and an empty folder named `root` at
/// `path` where the scan gave none.
pub open spec fn head_of(top: Option<Tree>, path: Seq<char>) -> Tree {
    match top {
        Some(t) => t,
        None => fresh(path),
    }
}

impl Node {
    /// The listing of the tree below this node for the console, line by
    /// line, behind the prefix `prev`.
    pub fn display(&self, prev: &str) -> (out: Vec<String>)
        ensures
            texts(out@) == rows(prev@, self@),
    {
        let mut out: Vec<String> = Vec::new();
        assert(texts(out@) =~= Seq::empty());
        self.display_into(prev, &mut out);
        assert(texts(out@) =~= rows(prev@, self@));
        out
    }

    fn display_into(&self, prev: &str, out: &mut Vec<String>)
        ensures
            texts(final(out)@) == texts(old(out)@) + rows(prev@, self@),
        decreases self,
    {
        let ghost said = texts(old(out)@);
        let ghost ts = self@.children;
        let mut column = String::from_str(prev);
        column.append("└── ");
        if self.name.as_str().unicode_len() > NAME_WIDTH {
            column.append(self.name.as_str().substring_char(0, NAME_WIDTH));
            column.append("...");
        } else {
            column.append(self.name.as_str());
        }
        let mut line = pad_end_text(column.as_str(), COLUMN_WIDTH, '.');
        line.append(" Last Modified: -");
        let time: u128 = match self.modified {
            Some(t) => t,
            None => u128::MAX,
        };
        line.append(decimal_text(time).as_str());
        line.append(" millis");
        let mut deeper = String::from_str(prev);
        deeper.append("│  ");
        proof {
            assert(column@ =~= prev@ + "└── "@ + shown_name(self@.name));
            assert(line@ =~= row(prev@, self@));
        }
        out.push(line);
        let ghost first = texts(out@);
        let mut i: usize = 0;
        proof {
            lemma_trees(self.children@);
            assert(first =~= said + seq![row(prev@, self@)]);
            assert(first + rows_in(deeper@, ts, 0) =~= first);
        }
        while i < self.children.len()
            invariant
                i <= self.children.len(),
                ts == self@.children,
                ts.len() == self.children.len(),
                forall|j: int| 0 <= j < ts.len() ==> ts[j] == (#[trigger] self.children[j])@,
                texts(out@) == first + rows_in(deeper@, ts, i as nat),
            decreases self.children.len() - i,
        {
            let ghost told = texts(out@);
            proof {
                vstd::std_specs::vec::axiom_vec_index_decreases(self.children, i as int);
            }
            self.children[i].display_into(deeper.as_str(), out);
            proof {
                assert(ts[i as int] == self.children[i as int]@);
                assert(texts(out@) =~= first + (rows_in(deeper@, ts, i as nat) + rows(
                    deeper@,
                    ts[i as int],
                )));
            }
            i += 1;
        }
        proof {
            assert(texts(out@) =~= said + rows(prev@, self@));
        }
    }

    /// The files that the tree below this node watches, in the order in
    /// which a pass counts them, each with the time that the snapshot holds
    /// for it.
    pub fn watched(&self) -> (out: Vec<Watch>)
        ensures
            watches(out@) == listing(self@),
    {
        let mut out: Vec<Watch> = Vec::new();
        assert(watches(out@) =~= Seq::empty());
        self.watched_into(&mut out);
        assert(watches(out@) =~= listing(self@));
        out
    }

    fn watched_into(&self, out: &mut Vec<Watch>)
        ensures
            watches(final(out)@) == watches(old(out)@) + listing(self@),
        decreases self,
    {
        let ghost said = watches(old(out)@);
        let ghost ts = self@.children;
        match self.kind {
            NodeType::File => {
                out.push(Watch { path: self.path.clone(), modified: self.modified });
                assert(watches(out@) =~= said + seq![(self@.path, self@.modified)]);
            },
            NodeType::Folder => {
                assert(watches(out@) =~= said + Seq::<(Seq<char>, Option<u128>)>::empty());
            },
        }
        let ghost first = watches(out@);
        let mut i: usize = 0;
        proof {
            lemma_trees(self.children@);
            assert(first + listing_in(ts, 0) =~= first);
        }
        while i < self.children.len()
            invariant
                i <= self.children.len(),
                ts == self@.children,
                ts.len() == self.children.len(),
                forall|j: int| 0 <= j < ts.len() ==> ts[j] == (#[trigger] self.children[j])@,
                watches(out@) == first + listing_in(ts, i as nat),
            decreases self.children.len() - i,
        {
            proof {
                vstd::std_specs::vec::axiom_vec_index_decreases(self.children, i as int);
            }
            self.children[i].watched_into(out);
            proof {
                assert(ts[i as int] == self.children[i as int]@);
                assert(watches(out@) =~= first + (listing_in(ts, i as nat) + listing(ts[i as int])));
            }
            i += 1;
        }
        proof {
            assert(watches(out@) =~= said + listing(self@));
        }
    }
}

/// The snapshot of a watched directory.
#[derive(Debug, PartialEq, Eq)]
pub struct FileTree {
    pub head: Node,
}

impl FileTree {
    /// A tree of the directory at `path` that holds nothing yet: an empty
    /// folder named `root` at that path.
    pub fn new(path: &str) -> (tree: FileTree)
        ensures
            tree.head@ == fresh(path@),
    {
        FileTree { head: Node::new(path) }
    }

    /// Fills the tree from a scan of the watched directory: the head becomes
    /// the node that `Node::build` gives for the scan, and an empty folder
    /// named `root` at the path of the scan where it gives none. Where the
    /// build fails the tree stays as it was.
    pub fn fill(&mut self, scan: &Scan, config: &Config) -> (out: Result<(), FileError>)
        ensures
            out is Err <==> failing(scan@, texts(config.targets@)),
            out matches Err(e) ==> e == FileError::Metadata && *final(self) == *old(self),
            out is Ok ==> final(self).head@ == head_of(
                built(scan@, texts(config.targets@)),
                scan@.path(),
            ),
    {
        match Node::build(scan, config) {
            Ok(Some(node)) => {
                self.head = node;
                Ok(())
            },
            Ok(None) => {
                self.head = Node::new(scan.path().as_str());
                Ok(())
            },
            Err(e) => Err(e),
        }
    }

    /// The listing of the tree for the console, line by line.
    pub fn display(&self) -> (out: Vec<String>)
        ensures
            texts(out@) == rows(""@, self.head@),
    {
        self.head.display("")
    }

    /// The files that the tree watches, in the order in which a pass counts
    /// them.
    pub fn watched(&self) -> (out: Vec<Watch>)
        ensures
            watches(out@) == listing(self.head@),
    {
        self.head.watched()
    }

    /// One pass over the tree: see `Node::poll`.
    pub fn poll(&mut self, seen: &Vec<Observation>, now: Timestamp, out: &mut Vec<Notification>)
        ensures
            final(self).head@ == polled(old(self).head@, sightings(seen@), 0),
            notices(final(out)@) == notices(old(out)@) + reports(
                old(self).head@,
                sightings(seen@),
                0,
                now,
            ),
    {
        self.head.poll(seen, now, out);
    }
}

} // verus!
