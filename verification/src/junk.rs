//! The junk filter: names that are never sorted.

use crate::paths::{file_name, file_name_of, join, lemma_file_name_of_join, separator};
use crate::text::same_text;
use vstd::prelude::*;

verus! {

/// The name of the file in which a run records its moves.
pub const RUN_LOG_NAME: &'static str = "organizer_log.txt";

/// Whether a name begins with a dot, the mark of a hidden entry.
pub open spec fn is_hidden(name: Seq<char>) -> bool {
    name.len() > 0 && name[0] == '.'
}

/// Whether a path is left alone by every run: it has no file name, its file
/// name is hidden, or it is the thumbnail cache or the desktop settings that
/// an operating system leaves behind, or the run log.
pub open spec fn is_junk(path: Seq<char>) -> bool {
    is_junk_name(file_name(path))
}

/// Whether a name alone marks a file as junk.
pub open spec fn is_junk_name(name: Seq<char>) -> bool {
    ||| name.len() == 0
    ||| is_hidden(name)
    ||| name == "Thumbs.db"@
    ||| name == "desktop.ini"@
    ||| name == "organizer_log.txt"@
}

/// In whatever directory an entry lies, it is junk exactly where its name
/// says so: every hidden name and each of the three known names is junk
/// everywhere, and no other name is junk anywhere.
pub proof fn lemma_junk_in_any_directory(dir: Seq<char>, name: Seq<char>)
    requires
        !name.contains(separator()),
    ensures
        is_junk(join(dir, name)) == is_junk_name(name),
        is_hidden(name) ==> is_junk(join(dir, name)),
{
    lemma_file_name_of_join(dir, name);
}

/// Computes `is_hidden`.
pub fn is_hidden_name(name: &str) -> (hidden: bool)
    ensures
        hidden == is_hidden(name@),
{
    name.unicode_len() > 0 && name.get_char(0) == '.'
}

/// Computes `is_junk`.
pub fn is_hidden_or_junk(path: &str) -> (junk: bool)
    ensures
        junk == is_junk(path@),
{
    let name = file_name_of(path);
    name.unicode_len() == 0 || is_hidden_name(name) || same_text(name, "Thumbs.db") || same_text(
        name,
        "desktop.ini",
    ) || same_text(name, RUN_LOG_NAME)
}

} // verus!
