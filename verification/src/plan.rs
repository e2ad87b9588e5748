//! What is done with one file once its text has been looked at.

use crate::fence::{
    regex_captures, rewrite_of, text_of, transform_dataview_queries, FenceMatch, BODY_GROUP,
    FENCE_PATTERN,
};
use vstd::prelude::*;
use vstd::string::StringExecFns;

verus! {

/// What is done with a file.
#[derive(Clone, Debug, PartialEq, Eq)]
pub enum FileAction {
    /// The file holds nothing to rewrite: it is neither written nor moved.
    Untouched,
    /// Nothing on disk changes; `message` is shown in place of a write.
    Preview { message: String },
    /// The file is first moved to the name `backup`, and `content` is then
    /// written under the file's own name.
    Replace { backup: String, content: String },
}

/// A `FileAction` with its texts as sequences of characters.
pub ghost enum FileActionView {
    Untouched,
    Preview { message: Seq<char> },
    Replace { backup: Seq<char>, content: Seq<char> },
}

impl View for FileAction {
    type V = FileActionView;

    open spec fn view(&self) -> FileActionView {
        match self {
            FileAction::Untouched => FileActionView::Untouched,
            FileAction::Preview { message } => FileActionView::Preview { message: message@ },
            FileAction::Replace { backup, content } => FileActionView::Replace {
                backup: backup@,
                content: content@,
            },
        }
    }
}

/// The name under which a file is kept before it is overwritten.
pub open spec fn backup_name(filename: Seq<char>) -> Seq<char> {
    filename + ".orig"@
}

/// What a dry run shows for a file: three line feeds, the file's name, two
/// line feeds, and the text that would have been written.
pub open spec fn preview_text(filename: Seq<char>, content: Seq<char>) -> Seq<char> {
    "\n\n\n"@ + filename + "\n\n"@ + content
}

/// The action for a file, given the rewritten text where there is one. A
/// file without it is left alone. A dry run, which only `Some(true)` asks
/// for, shows the text; any other run replaces the file and keeps a backup.
pub open spec fn planned(
    filename: Seq<char>,
    rewritten: Option<Seq<char>>,
    dryrun: Option<bool>,
) -> FileActionView {
    match rewritten {
        None => FileActionView::Untouched,
        Some(content) => if dryrun == Some(true) {
            FileActionView::Preview { message: preview_text(filename, content) }
        } else {
            FileActionView::Replace { backup: backup_name(filename), content }
        },
    }
}

/// The name under which `filename` is kept before it is overwritten.
pub fn backup_path(filename: &str) -> (backup: String)
    ensures
        backup@ == backup_name(filename@),
{
    let mut backup = String::from_str(filename);
    backup.append(".orig");
    backup
}

/// Decides what is done with the file `filename`, given the rewritten text
/// where there is one.
pub fn plan_update(filename: &str, rewritten: Option<String>, dryrun: Option<bool>) -> (action:
    FileAction)
    ensures
        action@ == planned(filename@, text_of(rewritten), dryrun),
        rewritten is None ==> action is Untouched,
        dryrun == Some(true) ==> !(action is Replace),
{
    let preview = match dryrun {
        Some(flag) => flag,
        None => false,
    };
    match rewritten {
        None => FileAction::Untouched,
        Some(content) => {
            if preview {
                let mut message = String::from_str("\n\n\n");
                message.append(filename);
                message.append("\n\n");
                message.append(content.as_str());
                FileAction::Preview { message }
            } else {
                FileAction::Replace { backup: backup_path(filename), content }
            }
        },
    }
}

/// Decides what is done with the file `filename` that holds the text `input`:
/// the text is searched for fenced `dataview` blocks, and the action is the
/// one planned for what rewriting them gives.
pub fn process_file(filename: &str, input: &str, dryrun: Option<bool>) -> (action: FileAction)
    ensures
        action@ == planned(
            filename@,
            match regex_captures(FENCE_PATTERN@, input@, BODY_GROUP as int) {
                Some(found) => rewrite_of(input@, found),
                None => None,
            },
            dryrun,
        ),
        regex_captures(FENCE_PATTERN@, input@, BODY_GROUP as int) == Some(
            Seq::<FenceMatch>::empty(),
        ) ==> action is Untouched,
        dryrun == Some(true) ==> !(action is Replace),
{
    plan_update(filename, transform_dataview_queries(input), dryrun)
}

} // verus!
