//! The staging workspace: a scratch tree that every extraction run starts
//! from empty and removes again after a successful merge.

use vstd::prelude::*;

use crate::tree::Tree;

verus! {

/// What resetting a workspace leaves, whatever it held before: no files and
/// no directories.
pub open spec fn reset_model(
    files: Map<Seq<Seq<char>>, Seq<u8>>,
    dirs: Seq<Seq<Seq<char>>>,
) -> (Map<Seq<Seq<char>>, Seq<u8>>, Seq<Seq<Seq<char>>>) {
    (Map::empty(), Seq::empty())
}

/// Empty the staging workspace, removing whatever a previous run left in it.
pub fn reset_folder(folder: &mut Tree)
    ensures
        (final(folder).file_map(), final(folder).dir_paths()) == reset_model(
            old(folder).file_map(),
            old(folder).dir_paths(),
        ),
{
    folder.clear_all();
}

/// Resetting is idempotent: a second reset changes nothing, and after either
/// reset the workspace is empty, whatever it held before.
pub proof fn lemma_reset_idempotent(files: Map<Seq<Seq<char>>, Seq<u8>>, dirs: Seq<Seq<Seq<char>>>)
    ensures
        reset_model(reset_model(files, dirs).0, reset_model(files, dirs).1) == reset_model(
            files,
            dirs,
        ),
        reset_model(files, dirs).0 == Map::<Seq<Seq<char>>, Seq<u8>>::empty(),
        reset_model(files, dirs).1 == Seq::<Seq<Seq<char>>>::empty(),
{
}

} // verus!
