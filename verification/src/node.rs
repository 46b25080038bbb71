//! The snapshot: a tree of the tracked files under a directory, built from a
//! scan of it and pruned of the folders that hold none.

use crate::config::{file_name, path_file_name, selected, Config};
use crate::text::{copy_text, text_of, texts};
use vstd::prelude::*;
use vstd::string::StringExecFns;

verus! {

/// What a node stands for.
#[derive(Clone, Copy, Debug, PartialEq, Eq, Structural)]
pub enum NodeType {
    File,
    Folder,
}

/// Why a file could not be read, or a snapshot not be built.
#[derive(Clone, Copy, Debug, PartialEq, Eq, Structural)]
pub enum FileError {
    /// The file could not be opened.
    Open,
    /// The file system would not say what it knows of the file.
    Metadata,
    /// The file is larger than a snapshot keeps.
    TooLarge,
    /// The file's text could not be read: reading broke off, or what was
    /// read is no text.
    Read,
}

/// What asking for a file's modification time gave.
#[derive(Clone, Copy, Debug, PartialEq, Eq, Structural)]
pub enum Stat {
    /// The time, in milliseconds since the start of 1970.
    At(u128),
    /// There is no such file.
    Missing,
    /// The file system failed in another way.
    Failed,
}

impl Stat {
    /// The time that a node records for this answer.
    pub open spec fn time(self) -> Option<u128> {
        match self {
            Stat::At(t) => Some(t),
            _ => None,
        }
    }

    /// The time that a node records for this answer.
    pub fn modified(self) -> (t: Option<u128>)
        ensures
            t == self.time(),
    {
        match self {
            Stat::At(t) => Some(t),
            _ => None,
        }
    }
}

/// One entry of the file system as a scan found it.
#[derive(Debug, PartialEq, Eq)]
pub enum Scan {
    /// Something that is no directory.
    File {
        path: String,
        /// Its modification time.
        stat: Stat,
        /// Its text, where it could be read and is not too large.
        content: Option<String>,
    },
    /// A directory and what it lists, in the order in which it lists it. One
    /// that cannot be listed has no entries.
    Folder { path: String, entries: Vec<Scan> },
}

/// A scan as a value of mathematics.
pub enum Found {
    File { path: Seq<char>, stat: Stat, content: Option<Seq<char>> },
    Folder { path: Seq<char>, entries: Seq<Found> },
}

impl View for Scan {
    type V = Found;

    open spec fn view(&self) -> Found
        decreases self,
    {
        match self {
            Scan::File { path, stat, content } => Found::File {
                path: path@,
                stat: *stat,
                content: text_of(*content),
            },
            Scan::Folder { path, entries } => Found::Folder {
                path: path@,
                entries: finds(entries@),
            },
        }
    }
}

/// One entry of a snapshot.
#[derive(Debug, PartialEq, Eq)]
pub struct Node {
    pub kind: NodeType,
    /// The path of the entry.
    pub path: String,
    /// The last component of the path.
    pub name: String,
    /// When the file was last seen modified, in milliseconds since the start
    /// of 1970, where that is known.
    pub modified: Option<u128>,
    /// The file's text as it was last read, where it could be read.
    pub content: Option<String>,
    /// What a folder holds, in the order of the scan.
    pub children: Vec<Node>,
}

/// A node as a value of mathematics.
pub struct Tree {
    pub kind: NodeType,
    pub path: Seq<char>,
    pub name: Seq<char>,
    pub modified: Option<u128>,
    pub content: Option<Seq<char>>,
    pub children: Seq<Tree>,
}

impl View for Node {
    type V = Tree;

    open spec fn view(&self) -> Tree
        decreases self,
    {
        Tree {
            kind: self.kind,
            path: self.path@,
            name: self.name@,
            modified: self.modified,
            content: text_of(self.content),
            children: trees(self.children@),
        }
    }
}

/// The views of a sequence of nodes, in order.
pub open spec fn trees(v: Seq<Node>) -> Seq<Tree>
    decreases v,
{
    Seq::new(
        v.len(),
        |i: int|
            if 0 <= i < v.len() {
                v[i]@
            } else {
                arbitrary()
            },
    )
}

/// The views of a sequence of scans, in order.
pub open spec fn finds(v: Seq<Scan>) -> Seq<Found>
    decreases v,
{
    Seq::new(
        v.len(),
        |i: int|
            if 0 <= i < v.len() {
                v[i]@
            } else {
                arbitrary()
            },
    )
}

/// `trees` keeps the length and views each node in its place.
pub proof fn lemma_trees(v: Seq<Node>)
    ensures
        trees(v).len() == v.len(),
        forall|i: int| 0 <= i < v.len() ==> (#[trigger] trees(v)[i]) == v[i]@,
{
    reveal_with_fuel(trees, 2);
}

/// `finds` keeps the length and views each scan in its place.
pub proof fn lemma_finds(v: Seq<Scan>)
    ensures
        finds(v).len() == v.len(),
        forall|i: int| 0 <= i < v.len() ==> (#[trigger] finds(v)[i]) == v[i]@,
{
    reveal_with_fuel(finds, 2);
}

/// The name of the node at `path`: the last component of the path, and
/// `root` for a path that has none.
pub open spec fn name_of(path: Seq<char>) -> Seq<char> {
    match path_file_name(path) {
        Some(name) => name,
        None => "root"@,
    }
}

/// A folder that holds nothing.
pub open spec fn barren(t: Tree) -> bool {
    t.kind == NodeType::Folder && t.children.len() == 0
}

/// Of the outcomes of building a folder's entries, those that stay in the
/// snapshot: the nodes that were built, but for the folders that hold
/// nothing.
pub open spec fn keep(outcomes: Seq<Option<Tree>>) -> Seq<Tree>
    decreases outcomes.len(),
{
    if outcomes.len() == 0 {
        Seq::empty()
    } else {
        match outcomes.last() {
            Some(t) if !barren(t) => keep(outcomes.drop_last()).push(t),
            _ => keep(outcomes.drop_last()),
        }
    }
}

/// The node that stands for a scan where no file system failure stops the
/// build: none for a file that is not tracked; for a tracked file, its time
/// and text; for a folder, what stays of its entries, in their order.
pub open spec fn built(scan: Found, targets: Seq<Seq<char>>) -> Option<Tree>
    decreases scan,
{
    match scan {
        Found::File { path, stat, content } => if selected(targets, path) {
            Some(
                Tree {
                    kind: NodeType::File,
                    path: path,
                    name: name_of(path),
                    modified: stat.time(),
                    content: content,
                    children: Seq::empty(),
                },
            )
        } else {
            None
        },
        Found::Folder { path, entries } => Some(
            Tree {
                kind: NodeType::Folder,
                path: path,
                name: name_of(path),
                modified: None,
                content: None,
                children: keep(outcomes(entries, targets)),
            },
        ),
    }
}

/// What building each of a folder's entries gives, in their order.
pub open spec fn outcomes(entries: Seq<Found>, targets: Seq<Seq<char>>) -> Seq<Option<Tree>>
    decreases entries,
{
    Seq::new(
        entries.len(),
        |i: int|
            if 0 <= i < entries.len() {
                built(entries[i], targets)
            } else {
                None
            },
    )
}

/// `outcomes` keeps the length and builds each entry in its place.
pub proof fn lemma_outcomes(entries: Seq<Found>, targets: Seq<Seq<char>>)
    ensures
        outcomes(entries, targets).len() == entries.len(),
        forall|i: int|
            0 <= i < entries.len() ==> (#[trigger] outcomes(entries, targets)[i]) == built(
                entries[i],
                targets,
            ),
{
    reveal_with_fuel(outcomes, 2);
}

/// A build fails on a scan that holds a tracked file of which the file
/// system would not tell the time.
pub open spec fn failing(scan: Found, targets: Seq<Seq<char>>) -> bool
    decreases scan,
{
    match scan {
        Found::File { path, stat, content } => selected(targets, path) && stat == Stat::Failed,
        Found::Folder { path, entries } => exists|i: int|
            0 <= i < entries.len() && failing(#[trigger] entries[i], targets),
    }
}

/// One for a file, nothing for a folder.
pub open spec fn own(t: Tree) -> nat {
    if t.kind == NodeType::File {
        1
    } else {
        0
    }
}

/// The number of files in a tree.
pub open spec fn files(t: Tree) -> nat
    decreases t,
{
    own(t) + files_in(t.children, t.children.len())
}

/// The number of files in the first `k` of a sequence of trees.
pub open spec fn files_in(ts: Seq<Tree>, k: nat) -> nat
    decreases ts, k,
{
    if k == 0 || k > ts.len() {
        0
    } else {
        files_in(ts, (k - 1) as nat) + files(ts[k - 1])
    }
}

/// Every file of the tree is one that the filter selects.
pub open spec fn selective(t: Tree, targets: Seq<Seq<char>>) -> bool
    decreases t,
{
    &&& t.kind == NodeType::File ==> selected(targets, t.path)
    &&& forall|i: int| 0 <= i < t.children.len() ==> selective(#[trigger] t.children[i], targets)
}

/// Every folder of the tree holds a file, be it directly or in a folder
/// below.
pub open spec fn stocked(t: Tree) -> bool
    decreases t,
{
    &&& t.kind == NodeType::Folder ==> files(t) > 0
    &&& forall|i: int| 0 <= i < t.children.len() ==> stocked(#[trigger] t.children[i])
}

/// The nodes of the tree have their form: a file holds no nodes, and a
/// folder has neither a time nor a text.
pub open spec fn shaped(t: Tree) -> bool
    decreases t,
{
    &&& t.kind == NodeType::File ==> t.children.len() == 0
    &&& t.kind == NodeType::Folder ==> t.modified is None && t.content is None
    &&& forall|i: int| 0 <= i < t.children.len() ==> shaped(#[trigger] t.children[i])
}

proof fn lemma_files_in_reach(ts: Seq<Tree>, k: nat, j: int)
    requires
        0 <= j < k <= ts.len(),
    ensures
        files_in(ts, k) >= files(ts[j]),
    decreases k,
{
    if j < k - 1 {
        lemma_files_in_reach(ts, (k - 1) as nat, j);
    }
}

proof fn lemma_keep_from(outcomes: Seq<Option<Tree>>)
    ensures
        forall|i: int|
            0 <= i < keep(outcomes).len() ==> !barren(#[trigger] keep(outcomes)[i]) && exists|
                j: int,
            |
                0 <= j < outcomes.len() && outcomes[j] == Some(keep(outcomes)[i]),
    decreases outcomes.len(),
{
    if outcomes.len() > 0 {
        let fewer = outcomes.drop_last();
        lemma_keep_from(fewer);
        assert forall|i: int| 0 <= i < keep(outcomes).len() implies !barren(
            #[trigger] keep(outcomes)[i],
        ) && exists|j: int| 0 <= j < outcomes.len() && outcomes[j] == Some(keep(outcomes)[i]) by {
            if i < keep(fewer).len() {
                let j = choose|j: int| 0 <= j < fewer.len() && fewer[j] == Some(keep(fewer)[i]);
                assert(outcomes[j] == Some(keep(outcomes)[i]));
            } else {
                assert(outcomes[outcomes.len() - 1] == Some(keep(outcomes)[i]));
            }
        }
    }
}

proof fn lemma_built_sound(scan: Found, targets: Seq<Seq<char>>)
    ensures
        built(scan, targets) matches Some(t) ==> selective(t, targets) && shaped(t) && (forall|
            i: int,
        |
            0 <= i < t.children.len() ==> stocked(#[trigger] t.children[i])),
    decreases scan,
{
    match scan {
        Found::File { path, stat, content } => {},
        Found::Folder { path, entries } => {
            let t = built(scan, targets)->0;
            let results = outcomes(entries, targets);
            lemma_outcomes(entries, targets);
            lemma_keep_from(results);
            assert forall|i: int| 0 <= i < t.children.len() implies selective(
                #[trigger] t.children[i],
                targets,
            ) && shaped(t.children[i]) && stocked(t.children[i]) by {
                let c = t.children[i];
                let j = choose|j: int| 0 <= j < results.len() && results[j] == Some(c);
                lemma_built_sound(entries[j], targets);
                if c.kind == NodeType::Folder {
                    assert(stocked(c.children[0]));
                    lemma_files_in_reach(c.children, c.children.len(), 0);
                }
            }
        },
    }
}

/// A snapshot leaves out what the filter does not select: every file of a
/// tree that was built is one whose path has an extension among the
/// targets.
pub proof fn lemma_build_selects(scan: Found, targets: Seq<Seq<char>>)
    ensures
        built(scan, targets) matches Some(t) ==> selective(t, targets) && shaped(t),
{
    lemma_built_sound(scan, targets);
}

/// A snapshot is pruned: in a tree that was built, every folder below the
/// head holds a file, be it directly or in a folder below; and so does the
/// head itself unless it holds nothing.
pub proof fn lemma_build_prunes(scan: Found, targets: Seq<Seq<char>>)
    ensures
        built(scan, targets) matches Some(t) ==> (forall|i: int|
            0 <= i < t.children.len() ==> stocked(#[trigger] t.children[i])),
        built(scan, targets) matches Some(t) ==> (t.children.len() > 0 ==> stocked(t)),
{
    lemma_built_sound(scan, targets);
    if built(scan, targets) is Some {
        let t = built(scan, targets)->0;
        if t.children.len() > 0 {
            assert(stocked(t.children[0]));
            lemma_files_in_reach(t.children, t.children.len(), 0);
        }
    }
}

/// The view of a node that may be missing.
pub open spec fn tree_of(o: Option<Node>) -> Option<Tree> {
    match o {
        Some(n) => Some(n@),
        None => None,
    }
}

proof fn lemma_keep_push(outcomes: Seq<Option<Tree>>, next: Option<Tree>)
    ensures
        keep(outcomes.push(next)) == (match next {
            Some(t) if !barren(t) => keep(outcomes).push(t),
            _ => keep(outcomes),
        }),
{
    assert(outcomes.push(next).drop_last() =~= outcomes);
}

/// The largest size, in bytes, of a file whose text a snapshot keeps: ten
/// mebibytes.
pub const CONTENT_LIMIT: u64 = 10 * 1024 * 1024;

/// Whether a file's text is to be read, from whether the file could be
/// opened and what the file system says of its size: the first of these
/// that fails names the error, and a file of a known size within the limit
/// is read.
pub open spec fn read_verdict(opened: bool, size: Option<u64>) -> Result<(), FileError> {
    if !opened {
        Err(FileError::Open)
    } else {
        match size {
            None => Err(FileError::Metadata),
            Some(bytes) => if bytes > CONTENT_LIMIT {
                Err(FileError::TooLarge)
            } else {
                Ok(())
            },
        }
    }
}

/// What comes of reading a file: the error of the verdict where the file is
/// not to be read; else the text that the read gave, and `FileError::Read`
/// where it gave none.
pub open spec fn read_outcome(opened: bool, size: Option<u64>, text: Option<Seq<char>>) -> Result<
    Seq<char>,
    FileError,
> {
    match read_verdict(opened, size) {
        Err(e) => Err(e),
        Ok(_) => match text {
            Some(t) => Ok(t),
            None => Err(FileError::Read),
        },
    }
}

/// The view of what came of reading a file.
pub open spec fn outcome_of(r: Result<String, FileError>) -> Result<Seq<char>, FileError> {
    match r {
        Ok(t) => Ok(t@),
        Err(e) => Err(e),
    }
}

/// A folder named `root` at `path` that holds nothing.
pub open spec fn fresh(path: Seq<char>) -> Tree {
    Tree {
        kind: NodeType::Folder,
        path: path,
        name: "root"@,
        modified: None,
        content: None,
        children: Seq::empty(),
    }
}

impl Found {
    /// The path of the entry.
    pub open spec fn path(self) -> Seq<char> {
        match self {
            Found::File { path, stat, content } => path,
            Found::Folder { path, entries } => path,
        }
    }
}

impl Scan {
    /// The path of the entry.
    pub fn path(&self) -> (path: &String)
        ensures
            path@ == self@.path(),
    {
        match self {
            Scan::File { path, stat, content } => path,
            Scan::Folder { path, entries } => path,
        }
    }
}

impl Node {
    /// Decides whether a file's text is to be read. `opened` says whether the
    /// file could be opened, `size` what the file system says of its size in
    /// bytes. The answer is `FileError::Open` for a file that could not be
    /// opened, else `FileError::Metadata` for one of unknown size, else
    /// `FileError::TooLarge` for one of more than `CONTENT_LIMIT` bytes, and
    /// `Ok` for every other.
    pub fn readable(opened: bool, size: Option<u64>) -> (verdict: Result<(), FileError>)
        ensures
            verdict == read_verdict(opened, size),
    {
        if !opened {
            return Err(FileError::Open);
        }
        match size {
            None => Err(FileError::Metadata),
            Some(bytes) => if bytes > CONTENT_LIMIT {
                Err(FileError::TooLarge)
            } else {
                Ok(())
            },
        }
    }

    /// What comes of reading a file. `opened` says whether the file could be
    /// opened, `size` what the file system says of its size in bytes, and
    /// `text` what reading the file as text gave: nothing where the read
    /// failed or was not tried. A file that is not to be read gives the error
    /// of `readable`, whatever `text` holds; a read that gave no text gives
    /// `FileError::Read`; every other gives the text.
    pub fn read(opened: bool, size: Option<u64>, text: Option<String>) -> (out: Result<
        String,
        FileError,
    >)
        ensures
            outcome_of(out) == read_outcome(opened, size, text_of(text)),
    {
        match Node::readable(opened, size) {
            Err(e) => Err(e),
            Ok(_) => match text {
                Some(t) => Ok(t),
                None => Err(FileError::Read),
            },
        }
    }

    /// A folder named `root` at `path` that holds nothing.
    pub fn new(path: &str) -> (node: Node)
        ensures
            node@ == fresh(path@),
    {
        let node = Node {
            kind: NodeType::Folder,
            path: String::from_str(path),
            name: String::from_str("root"),
            modified: None,
            content: None,
            children: Vec::new(),
        };
        proof {
            lemma_trees(node.children@);
            assert(node@.children =~= Seq::empty());
        }
        node
    }

    /// Builds the node that stands for a scan. A file that is not tracked
    /// gives no node. A folder keeps, in their order, the nodes of its
    /// entries, but for the folders among them that hold nothing. The build
    /// fails, with `FileError::Metadata`, exactly where the scan holds a
    /// tracked file of which the file system would not tell the time.
    pub fn build(scan: &Scan, config: &Config) -> (out: Result<Option<Node>, FileError>)
        ensures
            out is Err <==> failing(scan@, texts(config.targets@)),
            out matches Err(e) ==> e == FileError::Metadata,
            out matches Ok(node) ==> tree_of(node) == built(scan@, texts(config.targets@)),
        decreases scan,
    {
        let ghost targets = texts(config.targets@);
        match scan {
            Scan::File { path, stat, content } => {
                if !config.tracks(path.as_str()) {
                    return Ok(None);
                }
                match stat {
                    Stat::Failed => {
                        return Err(FileError::Metadata);
                    },
                    _ => {},
                }
                let name = match file_name(path.as_str()) {
                    Some(name) => name,
                    None => String::from_str("root"),
                };
                let node = Node {
                    kind: NodeType::File,
                    path: path.clone(),
                    name: name,
                    modified: stat.modified(),
                    content: copy_text(content),
                    children: Vec::new(),
                };
                proof {
                    lemma_trees(node.children@);
                    assert(node@.children =~= Seq::empty());
                }
                Ok(Some(node))
            },
            Scan::Folder { path, entries } => {
                let ghost found = finds(entries@);
                let ghost outcomes = outcomes(found, targets);
                proof {
                    lemma_finds(entries@);
                    lemma_outcomes(found, targets);
                }
                let mut children: Vec<Node> = Vec::new();
                let mut i: usize = 0;
                assert(outcomes.take(0) =~= Seq::empty());
                proof {
                    lemma_trees(children@);
                    assert(trees(children@) =~= Seq::empty());
                }
                while i < entries.len()
                    invariant
                        i <= entries.len(),
                        targets == texts(config.targets@),
                        scan@ == (Found::Folder { path: path@, entries: found }),
                        *scan == (Scan::Folder { path: *path, entries: *entries }),
                        found.len() == entries.len(),
                        forall|j: int| 0 <= j < entries.len() ==> found[j] == entries[j]@,
                        outcomes.len() == found.len(),
                        forall|j: int|
                            0 <= j < found.len() ==> outcomes[j] == built(found[j], targets),
                        forall|j: int| 0 <= j < i ==> !failing(found[j], targets),
                        trees(children@) == keep(outcomes.take(i as int)),
                    decreases entries.len() - i,
                {
                    proof {
                        vstd::std_specs::vec::axiom_vec_index_decreases(*entries, i as int);
                        lemma_keep_push(outcomes.take(i as int), outcomes[i as int]);
                        assert(outcomes.take(i + 1) =~= outcomes.take(i as int).push(
                            outcomes[i as int],
                        ));
                    }
                    let ghost before = trees(children@);
                    match Node::build(&entries[i], config) {
                        Err(e) => {
                            assert(failing(found[i as int], targets));
                            return Err(e);
                        },
                        Ok(None) => {},
                        Ok(Some(child)) => {
                            proof {
                                lemma_trees(child.children@);
                            }
                            let empty: bool = match child.kind {
                                NodeType::Folder => child.children.len() == 0,
                                NodeType::File => false,
                            };
                            if !empty {
                                let ghost t = child@;
                                let ghost held = children@;
                                children.push(child);
                                proof {
                                    lemma_trees(held);
                                    lemma_trees(children@);
                                    assert(trees(children@) =~= before.push(t));
                                }
                            }
                        },
                    }
                    i += 1;
                }
                assert(outcomes.take(i as int) =~= outcomes);
                let name = match file_name(path.as_str()) {
                    Some(name) => name,
                    None => String::from_str("root"),
                };
                let node = Node {
                    kind: NodeType::Folder,
                    path: path.clone(),
                    name: name,
                    modified: None,
                    content: None,
                    children: children,
                };
                Ok(Some(node))
            },
        }
    }
}

} // verus!
