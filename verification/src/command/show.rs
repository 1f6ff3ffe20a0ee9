//! `show <id>`: the note with the given id.
use vstd::prelude::*;

verus! {

/// Arguments of `show`: the id of the note (`YYYYMMDDTHHMMSSZ`), which
/// `crate::flow::entry_path_for_id` turns into its path.
pub struct Args {
    pub id: String,
}

} // verus!
