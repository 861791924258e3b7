//! Exporting a transcript: the file type offered in the save dialog.
use vstd::prelude::*;
use crate::text::{split_char, split_on, views};

verus! {

/// The extension the save dialog filters by: what follows the last `.` of the suggested
/// file name (all of it when it has none).
pub open spec fn export_extension_spec(default_filename: Seq<char>) -> Seq<char> {
    split_on(default_filename, '.').last()
}

/// The extension of a suggested export file name.
pub fn export_extension(default_filename: &str) -> (r: String)
    ensures
        r@ == export_extension_spec(default_filename@),
{
    let parts = split_char(default_filename, '.');
    proof {
        crate::text::lemma_split_on_nonempty(default_filename@, '.');
        assert(views(parts@)[parts@.len() - 1] == parts@[parts@.len() - 1]@);
    }
    parts[parts.len() - 1].clone()
}

} // verus!
