//! Which entries of a directory tree are handed on as candidate files.

use vstd::prelude::*;
use vstd::string::StrSliceExecFns;

verus! {

/// What an entry of a directory is, as far as a look at it could tell.
#[derive(Clone, Copy, Debug, PartialEq, Eq)]
pub enum EntryKind {
    /// Anything that can be read as a file.
    File,
    /// A directory.
    Directory,
    /// The entry was listed, but was gone when it was looked at.
    Missing,
}

/// What becomes of an entry that a walk through a directory tree has met.
#[derive(Clone, Copy, Debug, PartialEq, Eq)]
pub enum Verdict {
    /// The entry is a candidate file.
    Continue,
    /// The entry is no candidate; if it is a directory, what is inside it is
    /// still visited.
    Ignore,
    /// The entry is no candidate and, if it is a directory, nothing inside it
    /// is visited.
    IgnoreDir,
}

/// The name begins with a dot.
pub open spec fn is_hidden(name: Seq<char>) -> bool {
    name.len() > 0 && name[0] == '.'
}

/// The name ends with `.md`.
pub open spec fn has_markdown_suffix(name: Seq<char>) -> bool {
    &&& name.len() >= 3
    &&& name[name.len() - 3] == '.'
    &&& name[name.len() - 2] == 'm'
    &&& name[name.len() - 1] == 'd'
}

/// The verdict on an entry with the given name and kind. A hidden directory
/// is cut off with all that it holds. Of the rest, an entry whose name does
/// not end with `.md` is passed over, and so is one that is a directory or
/// that went missing: only files with the suffix are candidates.
pub open spec fn verdict_of(name: Seq<char>, kind: EntryKind) -> Verdict {
    if is_hidden(name) && kind == EntryKind::Directory {
        Verdict::IgnoreDir
    } else if !has_markdown_suffix(name) {
        Verdict::Ignore
    } else if kind != EntryKind::File {
        Verdict::Ignore
    } else {
        Verdict::Continue
    }
}

/// A walk that keeps to the verdicts reaches what lies below the directories
/// named by `ancestors`, the outermost first: none of them is cut off.
pub open spec fn reached(ancestors: Seq<Seq<char>>) -> bool {
    forall|i: int|
        0 <= i < ancestors.len() ==> verdict_of(#[trigger] ancestors[i], EntryKind::Directory)
            != Verdict::IgnoreDir
}

/// A walk that keeps to the verdicts hands on the entry with the given name
/// and kind that lies below the directories named by `ancestors`.
pub open spec fn is_candidate(ancestors: Seq<Seq<char>>, name: Seq<char>, kind: EntryKind) -> bool {
    reached(ancestors) && verdict_of(name, kind) == Verdict::Continue
}

/// Tells whether `name` begins with a dot.
pub fn starts_with_dot(name: &str) -> (hidden: bool)
    ensures
        hidden == is_hidden(name@),
{
    name.unicode_len() > 0 && name.get_char(0) == '.'
}

/// Tells whether `name` ends with `.md`.
pub fn ends_with_markdown_suffix(name: &str) -> (matches: bool)
    ensures
        matches == has_markdown_suffix(name@),
{
    let n = name.unicode_len();
    n >= 3 && name.get_char(n - 3) == '.' && name.get_char(n - 2) == 'm' && name.get_char(n - 1)
        == 'd'
}

/// Decides what becomes of an entry with the given name and kind.
pub fn filter_entry(name: &str, kind: EntryKind) -> (verdict: Verdict)
    ensures
        verdict == verdict_of(name@, kind),
        verdict == Verdict::Continue ==> has_markdown_suffix(name@) && kind == EntryKind::File,
        is_hidden(name@) && kind == EntryKind::Directory ==> verdict == Verdict::IgnoreDir,
{
    let is_directory = match kind {
        EntryKind::Directory => true,
        _ => false,
    };
    let is_file = match kind {
        EntryKind::File => true,
        _ => false,
    };
    if is_directory && starts_with_dot(name) {
        Verdict::IgnoreDir
    } else if !ends_with_markdown_suffix(name) {
        Verdict::Ignore
    } else if !is_file {
        Verdict::Ignore
    } else {
        Verdict::Continue
    }
}

/// Nothing below a hidden directory is a candidate, however deep it lies and
/// whatever its name and kind are.
pub proof fn lemma_hidden_directory_hides_subtree(
    ancestors: Seq<Seq<char>>,
    at: int,
    name: Seq<char>,
    kind: EntryKind,
)
    requires
        0 <= at < ancestors.len(),
        is_hidden(ancestors[at]),
    ensures
        !is_candidate(ancestors, name, kind),
{
    assert(verdict_of(ancestors[at], EntryKind::Directory) == Verdict::IgnoreDir);
}

/// An entry whose name does not end with `.md` is no candidate, wherever in
/// the tree it lies; neither is a directory, nor an entry that went missing.
pub proof fn lemma_candidates_are_markdown_files(
    ancestors: Seq<Seq<char>>,
    name: Seq<char>,
    kind: EntryKind,
)
    ensures
        is_candidate(ancestors, name, kind) ==> has_markdown_suffix(name) && kind
            == EntryKind::File,
        !has_markdown_suffix(name) ==> !is_candidate(ancestors, name, kind),
{
}

/// Passing over an entry for its name does not cut off a directory: a
/// directory that is not hidden is always entered.
pub proof fn lemma_plain_directory_is_entered(name: Seq<char>)
    requires
        !is_hidden(name),
    ensures
        verdict_of(name, EntryKind::Directory) == Verdict::Ignore,
{
}

} // verus!
