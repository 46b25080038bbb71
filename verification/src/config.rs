//! The configuration of a run and the filter that it defines: which files
//! are tracked.

use crate::text::{text_of, texts};
use vstd::prelude::*;
use vstd::string::StringExecFns;

verus! {

/// What a run is configured with.
#[derive(Clone, Debug, PartialEq, Eq)]
pub struct Config {
    /// The extensions of the files to track, without the dot.
    pub targets: Vec<String>,
    /// The addresses that notifications are sent to, in order.
    pub endpoints: Vec<String>,
}

/// The last component that `std::path::Path::file_name` finds in a path.
pub uninterp spec fn path_file_name(path: Seq<char>) -> Option<Seq<char>>;

/// `std::path::Path::file_name` on a path that is valid UTF-8: the last
/// component that std finds in it, if it finds one. Which part of the path
/// that is, is left to std; all that is relied on is that the same path gives
/// the same answer.
#[verifier::external_body]
pub(crate) fn file_name(path: &str) -> (name: Option<String>)
    ensures
        text_of(name) == path_file_name(path@),
{
    std::path::Path::new(path).file_name().and_then(|n| n.to_str()).map(|n| n.to_string())
}

/// The place of the last dot in `s`, or -1 if it has none.
pub open spec fn last_dot(s: Seq<char>) -> int
    decreases s.len(),
{
    if s.len() == 0 {
        -1
    } else if s.last() == '.' {
        s.len() - 1
    } else {
        last_dot(s.drop_last())
    }
}

/// The extension of a file name: what follows its last dot. A name without a
/// dot has none, nor has one whose only dot is its first character.
pub open spec fn extension_in(name: Seq<char>) -> Option<Seq<char>> {
    if last_dot(name) <= 0 {
        None
    } else {
        Some(name.subrange(last_dot(name) + 1, name.len() as int))
    }
}

/// A path is selected if its last component has an extension and that
/// extension, compared character by character, is one of `targets`. A path
/// without a last component is not selected.
pub open spec fn selected(targets: Seq<Seq<char>>, path: Seq<char>) -> bool {
    match path_file_name(path) {
        Some(name) => match extension_in(name) {
            Some(e) => targets.contains(e),
            None => false,
        },
        None => false,
    }
}

/// The extension of a file name, if it has one.
pub fn extension_of(name: &str) -> (ext: Option<String>)
    ensures
        text_of(ext) == extension_in(name@),
{
    let mut after = String::new();
    let mut dotted: bool = false;
    let mut hidden: bool = false;
    for c in it: name.chars()
        invariant
            it.seq() == name@,
            dotted == (last_dot(name@.take(it.index() as int)) >= 0),
            hidden == (last_dot(name@.take(it.index() as int)) == 0),
            -1 <= last_dot(name@.take(it.index() as int)) < it.index(),
            after@ == name@.subrange(
                last_dot(name@.take(it.index() as int)) + 1,
                it.index() as int,
            ),
    {
        let ghost seen = name@.take(it.index() as int);
        proof {
            assert(name@.take(it.index() + 1).drop_last() =~= seen);
            assert(name@.take(it.index() + 1).last() == c);
        }
        if c == '.' {
            hidden = !dotted && after.as_str().is_empty();
            dotted = true;
            after = String::new();
            assert(after@ =~= name@.subrange(it.index() + 1, it.index() + 1));
        } else {
            after.push(c);
            assert(after@ =~= name@.subrange(last_dot(seen) + 1, it.index() + 1));
        }
    }
    assert(name@.take(name@.len() as int) =~= name@);
    if dotted && !hidden {
        Some(after)
    } else {
        None
    }
}

/// Whether `word` is one of `words`.
pub fn holds(words: &Vec<String>, word: &String) -> (found: bool)
    ensures
        found == texts(words@).contains(word@),
{
    let mut i: usize = 0;
    while i < words.len()
        invariant
            i <= words@.len(),
            forall|k: int| 0 <= k < i ==> texts(words@)[k] != word@,
        decreases words@.len() - i,
    {
        if words[i] == *word {
            assert(texts(words@)[i as int] == word@);
            return true;
        }
        i += 1;
    }
    false
}

impl Config {
    /// The configuration that is used where none is given: text, JSON, TOML
    /// and Rust files, reported to one local endpoint.
    pub fn default() -> (c: Config)
        ensures
            texts(c.targets@) == seq!["txt"@, "json"@, "toml"@, "rs"@],
            texts(c.endpoints@) == seq!["localhost:9996"@],
    {
        let mut targets: Vec<String> = Vec::new();
        targets.push(String::from_str("txt"));
        targets.push(String::from_str("json"));
        targets.push(String::from_str("toml"));
        targets.push(String::from_str("rs"));
        let mut endpoints: Vec<String> = Vec::new();
        endpoints.push(String::from_str("localhost:9996"));
        assert(texts(targets@) =~= seq!["txt"@, "json"@, "toml"@, "rs"@]);
        assert(texts(endpoints@) =~= seq!["localhost:9996"@]);
        Config { targets, endpoints }
    }

    /// The tracked-type filter: whether a file at `path` belongs in a
    /// snapshot.
    pub fn tracks(&self, path: &str) -> (yes: bool)
        ensures
            yes == selected(texts(self.targets@), path@),
    {
        match file_name(path) {
            Some(name) => match extension_of(name.as_str()) {
                Some(e) => holds(&self.targets, &e),
                None => false,
            },
            None => false,
        }
    }
}

} // verus!
