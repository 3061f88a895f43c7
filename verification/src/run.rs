//! The orchestration of one extraction run: reset the staging workspace,
//! extract the archive into it with marker filtering against the target
//! tree, require the canonical `Assets` subtree on both sides, merge it into
//! the target, clean the workspace up, and report.

use vstd::prelude::*;
use vstd::string::StringExecFns;

use std::io::Cursor;

use crate::extract::{extract_model, extract_zip};
use crate::report::{join_uncopy_files, report_text};
use crate::tree::{Tree, dirs_under, is_exists_folder, merged_files, model_has_dir};
use crate::workspace::reset_folder;
use crate::zipio::{
    entry_readable, open_archive, zip_entries, zip_entries_of, zip_parses, zip_reads_fully,
};

verus! {

/// The canonical content subtree that archive and target must both hold.
pub open spec fn assets_name() -> Seq<char> {
    "Assets"@
}

pub open spec fn msg_success() -> Seq<char> {
    "processed successfully\n"@
}

/// The failure message for an unopenable archive starts with this; the
/// underlying cause follows.
pub open spec fn msg_open_error() -> Seq<char> {
    "failed to open the zip archive: "@
}

/// The failure message for an unreadable entry starts with this; the
/// underlying cause follows.
pub open spec fn msg_read_error() -> Seq<char> {
    "failed to read the zip archive: "@
}

pub open spec fn msg_no_assets_in_zip() -> Seq<char> {
    "the zip archive has no Assets folder"@
}

pub open spec fn msg_no_assets_in_unity() -> Seq<char> {
    "the Unity folder has no Assets folder"@
}

/// What a successful run guarantees, given the archive's entries and the
/// target tree before and after: the archive's extraction staged an `Assets`
/// subtree, the target already had one, the target's files are the old ones
/// merged with the staged `Assets` files (staged content winning), and the
/// message reports success plus every excluded name.
pub open spec fn run_success_post(
    ents: Seq<(Seq<char>, Seq<u8>)>,
    unity0_files: Map<Seq<Seq<char>>, Seq<u8>>,
    unity0_dirs: Seq<Seq<Seq<char>>>,
    unity1_files: Map<Seq<Seq<char>>, Seq<u8>>,
    unity1_dirs: Seq<Seq<Seq<char>>>,
    msg: Seq<char>,
) -> bool {
    let m = extract_model(
        (Map::empty(), Seq::empty(), Seq::empty()),
        Some(unity0_files.dom()),
        ents,
    );
    &&& model_has_dir(m.0.dom(), m.1, seq![assets_name()])
    &&& model_has_dir(unity0_files.dom(), unity0_dirs, seq![assets_name()])
    &&& unity1_files == merged_files(assets_name(), m.0, unity0_files)
    &&& unity1_dirs == unity0_dirs + dirs_under(assets_name(), m.1)
    &&& msg == report_text(msg_success(), m.2)
}

/// Run the whole extraction state machine on an opened archive.
///
/// The run succeeds exactly when every entry reads, the staged tree holds an
/// `Assets` directory and the target holds one too. On failure the target
/// tree is untouched and the message says which step failed (a read failure
/// carries the underlying cause after `msg_read_error`); a failure with all
/// entries readable leaves the full extraction in the staging tree for
/// inspection.
pub fn run_extraction(
    archive: &mut zip::ZipArchive<Cursor<Vec<u8>>>,
    staging: &mut Tree,
    unity_folder: &mut Tree,
) -> (r: (bool, String))
    ensures
        zip_entries(*final(archive)) == zip_entries(*old(archive)),
        forall|j: int| #[trigger] entry_readable(*final(archive), j) == entry_readable(
            *old(archive),
            j,
        ),
        ({
            let ents = zip_entries(*old(archive));
            let m = extract_model(
                (Map::empty(), Seq::empty(), Seq::empty()),
                Some(old(unity_folder).file_map().dom()),
                ents,
            );
            let staging_ok = model_has_dir(m.0.dom(), m.1, seq![assets_name()]);
            let target_ok = old(unity_folder).has_dir(seq![assets_name()]);
            let all_readable = forall|i: int|
                0 <= i < ents.len() ==> #[trigger] entry_readable(*old(archive), i);
            &&& r.0 == (all_readable && staging_ok && target_ok)
            &&& r.0 ==> run_success_post(
                ents,
                old(unity_folder).file_map(),
                old(unity_folder).dir_paths(),
                final(unity_folder).file_map(),
                final(unity_folder).dir_paths(),
                r.1@,
            )
            &&& r.0 ==> final(staging).file_map() == Map::<Seq<Seq<char>>, Seq<u8>>::empty()
                && final(staging).dir_paths() == Seq::<Seq<Seq<char>>>::empty()
            &&& !r.0 ==> final(unity_folder).file_map() == old(unity_folder).file_map()
                && final(unity_folder).dir_paths() == old(unity_folder).dir_paths()
            &&& !r.0 ==> ((msg_read_error().is_prefix_of(r.1@) && !all_readable) || (r.1@
                == msg_no_assets_in_zip() && all_readable && !staging_ok) || (r.1@
                == msg_no_assets_in_unity() && all_readable && staging_ok && !target_ok))
            &&& (!r.0 && all_readable) ==> final(staging).file_map() == m.0
                && final(staging).dir_paths() == m.1
        }),
{
    reset_folder(staging);
    let excluded = match extract_zip(archive, staging, Some(unity_folder)) {
        Ok(ex) => ex,
        Err(e) => {
            let mut msg: String = "failed to read the zip archive: ".to_owned();
            msg.append(e.detail().as_str());
            proof {
                assert(msg_read_error().is_prefix_of(msg@)) by {
                    assert(msg@.subrange(0, msg_read_error().len() as int) =~= msg_read_error());
                }
            }
            return (false, msg);
        },
    };
    if !is_exists_folder(staging, "Assets") {
        return (false, "the zip archive has no Assets folder".to_owned());
    }
    if !is_exists_folder(unity_folder, "Assets") {
        return (false, "the Unity folder has no Assets folder".to_owned());
    }
    let assets: String = "Assets".to_owned();
    unity_folder.merge_subtree_from(&*staging, &assets);
    reset_folder(staging);
    let msg = join_uncopy_files("processed successfully\n", &excluded);
    (true, msg)
}

/// The host-facing entry point: open the archive bytes, then run the
/// extraction state machine against the staging workspace and the target
/// tree. Returns whether the run succeeded and a human-readable message.
///
/// Every outcome is pinned to the bytes: the run succeeds exactly when the
/// bytes parse as a zip archive, every entry reads, the extraction stages an
/// `Assets` directory, and the target holds one.
pub fn copy_zip_to_unity(zip_file: &Vec<u8>, staging: &mut Tree, unity_folder: &mut Tree) -> (r: (
    bool,
    String,
))
    ensures
        ({
            let ents = zip_entries_of(zip_file@);
            let m = extract_model(
                (Map::empty(), Seq::empty(), Seq::empty()),
                Some(old(unity_folder).file_map().dom()),
                ents,
            );
            let staging_ok = model_has_dir(m.0.dom(), m.1, seq![assets_name()]);
            let target_ok = old(unity_folder).has_dir(seq![assets_name()]);
            let openable = zip_parses(zip_file@);
            let readable = zip_reads_fully(zip_file@);
            &&& r.0 == (openable && readable && staging_ok && target_ok)
            &&& r.0 ==> run_success_post(
                ents,
                old(unity_folder).file_map(),
                old(unity_folder).dir_paths(),
                final(unity_folder).file_map(),
                final(unity_folder).dir_paths(),
                r.1@,
            )
            &&& r.0 ==> final(staging).file_map() == Map::<Seq<Seq<char>>, Seq<u8>>::empty()
                && final(staging).dir_paths() == Seq::<Seq<Seq<char>>>::empty()
            &&& !r.0 ==> final(unity_folder).file_map() == old(unity_folder).file_map()
                && final(unity_folder).dir_paths() == old(unity_folder).dir_paths()
            &&& !r.0 ==> ((msg_open_error().is_prefix_of(r.1@) && !openable) || (
            msg_read_error().is_prefix_of(r.1@) && openable && !readable) || (r.1@
                == msg_no_assets_in_zip() && openable && readable && !staging_ok) || (r.1@
                == msg_no_assets_in_unity() && openable && readable && staging_ok && !target_ok))
        }),
{
    let bytes = crate::tree::clone_bytes(zip_file);
    let mut archive = match open_archive(bytes) {
        Ok(a) => a,
        Err(e) => {
            let mut msg: String = "failed to open the zip archive: ".to_owned();
            msg.append(e.detail().as_str());
            proof {
                assert(msg_open_error().is_prefix_of(msg@)) by {
                    assert(msg@.subrange(0, msg_open_error().len() as int) =~= msg_open_error());
                }
            }
            return (false, msg);
        },
    };
    run_extraction(&mut archive, staging, unity_folder)
}

} // verus!
