//! The archive extractor: walk an archive's entries in stored order and
//! build the staging tree, filtering files by the marker policy.
//!
//! Per entry: an unsafe name is skipped silently; a directory entry creates a
//! directory; a file whose own extension is the marker extension is never
//! written. When a reference tree is given, every other file is written when
//! its marker path exists in the reference and recorded as excluded when it
//! does not; without one, every non-marker file is written. Writing
//! overwrites an earlier file of the same path.

use vstd::prelude::*;

use std::io::Cursor;

use crate::paths::{
    core_of, is_dir_name, is_meta, is_meta_name, lemma_join_split, marker_key, marker_path,
    parse_entry_name, path_view, safe_path, split_path,
};
use crate::tree::{Tree, clone_bytes};
use crate::zipio::{ArchiveError, archive_len, entry_readable, read_entry, zip_entries};

verus! {

/// The reference tree's file paths, when marker filtering is active.
pub open spec fn ref_keys(reference: Option<&Tree>) -> Option<Set<Seq<Seq<char>>>> {
    match reference {
        Some(t) => Some(t.file_map().dom()),
        None => None,
    }
}

/// The view of an entry list: stored name and content of each entry.
pub open spec fn entries_view(s: Seq<(String, Vec<u8>)>) -> Seq<(Seq<char>, Seq<u8>)> {
    s.map_values(|e: (String, Vec<u8>)| (e.0@, e.1@))
}

/// What one archive entry does to the extraction state (staged files, staged
/// directories, excluded names). Every safe non-marker file is treated
/// alike, with or without an extension: with a reference tree it is written
/// when its marker path exists there and recorded as excluded otherwise;
/// without one it is always written.
pub open spec fn entry_step(
    st: (Map<Seq<Seq<char>>, Seq<u8>>, Seq<Seq<Seq<char>>>, Seq<Seq<char>>),
    refr: Option<Set<Seq<Seq<char>>>>,
    name: Seq<char>,
    data: Seq<u8>,
) -> (Map<Seq<Seq<char>>, Seq<u8>>, Seq<Seq<Seq<char>>>, Seq<Seq<char>>) {
    let segs = split_path(core_of(name));
    if !safe_path(segs) {
        st
    } else if is_dir_name(name) {
        (st.0, st.1.push(segs), st.2)
    } else if is_meta_name(segs.last()) {
        st
    } else {
        match refr {
            Some(keys) => {
                if !keys.contains(marker_key(segs)) {
                    (st.0, st.1, st.2.push(name))
                } else {
                    (st.0.insert(segs, data), st.1, st.2)
                }
            },
            None => (st.0.insert(segs, data), st.1, st.2),
        }
    }
}

/// The extraction state after processing `entries` in stored order.
pub open spec fn extract_model(
    st0: (Map<Seq<Seq<char>>, Seq<u8>>, Seq<Seq<Seq<char>>>, Seq<Seq<char>>),
    refr: Option<Set<Seq<Seq<char>>>>,
    entries: Seq<(Seq<char>, Seq<u8>)>,
) -> (Map<Seq<Seq<char>>, Seq<u8>>, Seq<Seq<Seq<char>>>, Seq<Seq<char>>)
    decreases entries.len(),
{
    if entries.len() == 0 {
        st0
    } else {
        entry_step(
            extract_model(st0, refr, entries.drop_last()),
            refr,
            entries.last().0,
            entries.last().1,
        )
    }
}

/// Whether an entry writes a staged file (at key `split_path(core_of(e.0))`):
/// it is a safe, non-directory, non-marker name, and when filtering is
/// active its marker path is in the reference.
pub open spec fn inserts_file(e: (Seq<char>, Seq<u8>), refr: Option<Set<Seq<Seq<char>>>>) -> bool {
    let segs = split_path(core_of(e.0));
    &&& safe_path(segs)
    &&& !is_dir_name(e.0)
    &&& !is_meta_name(segs.last())
    &&& match refr {
        Some(keys) => keys.contains(marker_key(segs)),
        None => true,
    }
}

/// Whether an entry is recorded as excluded: like `inserts_file`, but its
/// marker path is missing from the reference.
pub open spec fn excludes_entry(e: (Seq<char>, Seq<u8>), keys: Set<Seq<Seq<char>>>) -> bool {
    let segs = split_path(core_of(e.0));
    &&& safe_path(segs)
    &&& !is_dir_name(e.0)
    &&& !is_meta_name(segs.last())
    &&& !keys.contains(marker_key(segs))
}

/// Occurrences of `nm` in `s`.
pub open spec fn count_in(s: Seq<Seq<char>>, nm: Seq<char>) -> nat
    decreases s.len(),
{
    if s.len() == 0 {
        0
    } else {
        count_in(s.drop_last(), nm) + (if s.last() == nm {
            1nat
        } else {
            0nat
        })
    }
}

/// How many entries are excluded under `keys` with name `nm`.
pub open spec fn count_excluded(
    entries: Seq<(Seq<char>, Seq<u8>)>,
    keys: Set<Seq<Seq<char>>>,
    nm: Seq<char>,
) -> nat
    decreases entries.len(),
{
    if entries.len() == 0 {
        0
    } else {
        count_excluded(entries.drop_last(), keys, nm) + (if excludes_entry(entries.last(), keys)
            && entries.last().0 == nm {
            1nat
        } else {
            0nat
        })
    }
}

/// How extraction touches one staged path and the excluded list: a path at
/// which no entry writes keeps its initial presence and content, and the
/// number of times a name is excluded is exactly the number of entries that
/// the filter excludes under that name.
pub proof fn lemma_extract_effects(
    st0: (Map<Seq<Seq<char>>, Seq<u8>>, Seq<Seq<Seq<char>>>, Seq<Seq<char>>),
    refr: Option<Set<Seq<Seq<char>>>>,
    entries: Seq<(Seq<char>, Seq<u8>)>,
    k: Seq<Seq<char>>,
    nm: Seq<char>,
)
    ensures
        ({
            let m = extract_model(st0, refr, entries);
            &&& (forall|j: int|
                0 <= j < entries.len() ==> !(inserts_file(#[trigger] entries[j], refr)
                    && split_path(core_of(entries[j].0)) == k)) ==> (m.0.contains_key(k)
                == st0.0.contains_key(k) && (st0.0.contains_key(k) ==> m.0[k] == st0.0[k]))
            &&& (refr matches Some(keys) ==> count_in(m.2, nm) == count_in(st0.2, nm)
                + count_excluded(entries, keys, nm))
            &&& (refr is None ==> m.2 == st0.2)
        }),
    decreases entries.len(),
{
    if entries.len() > 0 {
        let pre = entries.drop_last();
        lemma_extract_effects(st0, refr, pre, k, nm);
        let mp = extract_model(st0, refr, pre);
        let m = extract_model(st0, refr, entries);
        let e = entries.last();
        assert(entries[entries.len() - 1] == e);
        assert forall|j: int| 0 <= j < pre.len() implies pre[j] == entries[j] by {}
        match refr {
            Some(keys) => {
                if excludes_entry(e, keys) {
                    assert(m.2 == mp.2.push(e.0));
                    assert(mp.2.push(e.0).drop_last() =~= mp.2);
                } else {
                    assert(m.2 == mp.2);
                }
            },
            None => {},
        }
    }
}

/// Path safety for staging: extraction into an empty staging tree only ever
/// stages safe relative paths, so nothing lands outside the staging root, at
/// an absolute path, or behind a `..` segment.
pub proof fn lemma_staged_paths_safe(
    refr: Option<Set<Seq<Seq<char>>>>,
    entries: Seq<(Seq<char>, Seq<u8>)>,
    k: Seq<Seq<char>>,
)
    requires
        !safe_path(k),
    ensures
        !extract_model(
            (Map::empty(), Seq::empty(), Seq::empty()),
            refr,
            entries,
        ).0.contains_key(k),
{
    assert forall|j: int| 0 <= j < entries.len() implies !(inserts_file(
        #[trigger] entries[j],
        refr,
    ) && split_path(core_of(entries[j].0)) == k) by {}
    lemma_extract_effects(
        (Map::empty(), Seq::empty(), Seq::empty()),
        refr,
        entries,
        k,
        Seq::empty(),
    );
}

/// Marker files are never staged: no staged file's own name carries the
/// marker extension, whatever the reference tree holds.
pub proof fn lemma_no_meta_staged(
    refr: Option<Set<Seq<Seq<char>>>>,
    entries: Seq<(Seq<char>, Seq<u8>)>,
    k: Seq<Seq<char>>,
)
    requires
        k.len() > 0 && is_meta_name(k.last()),
    ensures
        !extract_model(
            (Map::empty(), Seq::empty(), Seq::empty()),
            refr,
            entries,
        ).0.contains_key(k),
{
    assert forall|j: int| 0 <= j < entries.len() implies !(inserts_file(
        #[trigger] entries[j],
        refr,
    ) && split_path(core_of(entries[j].0)) == k) by {}
    lemma_extract_effects(
        (Map::empty(), Seq::empty(), Seq::empty()),
        refr,
        entries,
        k,
        Seq::empty(),
    );
}

/// Where excluded names come from: every name the extraction records beyond
/// those already recorded is the stored name of some entry that the marker
/// filter excluded — so never a directory entry's name, never a marker
/// file's, never an unsafe one.
pub proof fn lemma_excluded_source(
    st0: (Map<Seq<Seq<char>>, Seq<u8>>, Seq<Seq<Seq<char>>>, Seq<Seq<char>>),
    keys: Set<Seq<Seq<char>>>,
    entries: Seq<(Seq<char>, Seq<u8>)>,
    p: int,
)
    requires
        0 <= p < extract_model(st0, Some(keys), entries).2.len(),
    ensures
        ({
            let rec = extract_model(st0, Some(keys), entries).2;
            &&& p < st0.2.len() ==> rec[p] == st0.2[p]
            &&& p >= st0.2.len() ==> exists|j: int|
                0 <= j < entries.len() && (#[trigger] entries[j]).0 == rec[p] && excludes_entry(
                    entries[j],
                    keys,
                )
        }),
    decreases entries.len(),
{
    if entries.len() > 0 {
        let pre = entries.drop_last();
        let mp = extract_model(st0, Some(keys), pre);
        let rec = extract_model(st0, Some(keys), entries).2;
        let e = entries.last();
        assert(entries[entries.len() - 1] == e);
        if excludes_entry(e, keys) && p == mp.2.len() {
            assert(rec == mp.2.push(e.0));
            assert(rec[p] == e.0);
            assert(st0.2.len() <= mp.2.len()) by {
                lemma_excluded_grows(st0, keys, pre);
            }
            let j = entries.len() - 1;
            assert(0 <= j < entries.len() && entries[j].0 == rec[p] && excludes_entry(
                entries[j],
                keys,
            ));
        } else {
            if excludes_entry(e, keys) {
                assert(rec == mp.2.push(e.0));
                assert(p < mp.2.len());
            } else {
                assert(rec == mp.2);
            }
            assert(rec[p] == mp.2[p]);
            lemma_excluded_source(st0, keys, pre, p);
            if p >= st0.2.len() {
                let j = choose|j: int|
                    0 <= j < pre.len() && (#[trigger] pre[j]).0 == mp.2[p] && excludes_entry(
                        pre[j],
                        keys,
                    );
                assert(entries[j] == pre[j]);
                assert(0 <= j < entries.len() && entries[j].0 == rec[p] && excludes_entry(
                    entries[j],
                    keys,
                ));
            }
        }
    }
}

/// Extraction only appends to the excluded list.
pub proof fn lemma_excluded_grows(
    st0: (Map<Seq<Seq<char>>, Seq<u8>>, Seq<Seq<Seq<char>>>, Seq<Seq<char>>),
    keys: Set<Seq<Seq<char>>>,
    entries: Seq<(Seq<char>, Seq<u8>)>,
)
    ensures
        st0.2.len() <= extract_model(st0, Some(keys), entries).2.len(),
    decreases entries.len(),
{
    if entries.len() > 0 {
        lemma_excluded_grows(st0, keys, entries.drop_last());
    }
}

pub proof fn lemma_count_excluded_none(
    entries: Seq<(Seq<char>, Seq<u8>)>,
    keys: Set<Seq<Seq<char>>>,
    nm: Seq<char>,
)
    requires
        forall|j: int| 0 <= j < entries.len() ==> (#[trigger] entries[j]).0 != nm,
    ensures
        count_excluded(entries, keys, nm) == 0,
    decreases entries.len(),
{
    if entries.len() > 0 {
        assert(entries[entries.len() - 1] == entries.last());
        assert forall|j: int| 0 <= j < entries.len() - 1 implies (#[trigger] entries.drop_last()[j]).0
            != nm by {
            assert(entries.drop_last()[j] == entries[j]);
        }
        lemma_count_excluded_none(entries.drop_last(), keys, nm);
    }
}

pub proof fn lemma_count_excluded_single(
    entries: Seq<(Seq<char>, Seq<u8>)>,
    keys: Set<Seq<Seq<char>>>,
    nm: Seq<char>,
    i: int,
)
    requires
        0 <= i < entries.len(),
        excludes_entry(entries[i], keys),
        entries[i].0 == nm,
        forall|j: int| 0 <= j < entries.len() && j != i ==> (#[trigger] entries[j]).0 != nm,
    ensures
        count_excluded(entries, keys, nm) == 1,
    decreases entries.len(),
{
    let pre = entries.drop_last();
    assert(entries[entries.len() - 1] == entries.last());
    if i == entries.len() - 1 {
        assert forall|j: int| 0 <= j < pre.len() implies (#[trigger] pre[j]).0 != nm by {
            assert(pre[j] == entries[j]);
        }
        lemma_count_excluded_none(pre, keys, nm);
    } else {
        assert forall|j: int| 0 <= j < pre.len() && j != i implies (#[trigger] pre[j]).0 != nm by {
            assert(pre[j] == entries[j]);
        }
        assert(pre[i] == entries[i]);
        lemma_count_excluded_single(pre, keys, nm, i);
        assert(entries.last().0 != nm);
    }
}

/// Marker filtering: an archive file entry whose marker path is missing from
/// the reference tree is not staged at all, and its name is recorded as
/// excluded exactly once — provided no other entry shares its name (an
/// archive that stores the same name twice records it once per occurrence).
pub proof fn lemma_marker_filtering(
    entries: Seq<(Seq<char>, Seq<u8>)>,
    keys: Set<Seq<Seq<char>>>,
    i: int,
)
    requires
        0 <= i < entries.len(),
        excludes_entry(entries[i], keys),
        forall|j: int| 0 <= j < entries.len() && j != i ==> (#[trigger] entries[j]).0 != entries[i].0,
    ensures
        ({
            let m = extract_model((Map::empty(), Seq::empty(), Seq::empty()), Some(keys), entries);
            &&& !m.0.contains_key(split_path(core_of(entries[i].0)))
            &&& count_in(m.2, entries[i].0) == 1
        }),
{
    let nm = entries[i].0;
    let k = split_path(core_of(nm));
    assert forall|j: int| 0 <= j < entries.len() implies !(inserts_file(
        #[trigger] entries[j],
        Some(keys),
    ) && split_path(core_of(entries[j].0)) == k) by {
        if inserts_file(entries[j], Some(keys)) && split_path(core_of(entries[j].0)) == k {
            if j != i {
                lemma_join_split(core_of(entries[j].0));
                lemma_join_split(core_of(nm));
                assert(core_of(entries[j].0) == entries[j].0);
                assert(core_of(nm) == nm);
                assert(entries[j].0 == nm);
            }
        }
    }
    lemma_extract_effects((Map::empty(), Seq::empty(), Seq::empty()), Some(keys), entries, k, nm);
    lemma_count_excluded_single(entries, keys, nm, i);
}

/// Process one entry: stage it, create its directory, record it as excluded,
/// or skip it, exactly as `entry_step` says.
fn extract_one(
    name: &String,
    data: &Vec<u8>,
    reference: Option<&Tree>,
    staging: &mut Tree,
    excluded: &mut Vec<String>,
)
    ensures
        ({
            let m = entry_step(
                (
                    old(staging).file_map(),
                    old(staging).dir_paths(),
                    old(excluded)@.map_values(|s: String| s@),
                ),
                ref_keys(reference),
                name@,
                data@,
            );
            &&& final(staging).file_map() == m.0
            &&& final(staging).dir_paths() == m.1
            &&& final(excluded)@.map_values(|s: String| s@) == m.2
        }),
{
    match parse_entry_name(name.as_str()) {
        None => {},
        Some((segs, dir)) => {
            if dir {
                staging.add_dir(segs);
            } else {
                let nseg = segs.len();
                proof {
                    assert(path_view(segs@).len() == nseg);
                }
                let meta = is_meta(segs[nseg - 1].as_str());
                proof {
                    assert(path_view(segs@).last() == segs@[nseg - 1]@);
                }
                if meta {
                } else {
                    match reference {
                        Some(rt) => {
                            let mk = marker_path(&segs);
                            if !rt.contains_file(&mk) {
                                excluded.push(name.clone());
                                proof {
                                    assert(excluded@.map_values(|s: String| s@) =~= old(
                                        excluded,
                                    )@.map_values(|s: String| s@).push(name@));
                                }
                            } else {
                                let content = clone_bytes(data);
                                staging.insert_file(segs, content);
                            }
                        },
                        None => {
                            let content = clone_bytes(data);
                            staging.insert_file(segs, content);
                        },
                    }
                }
            }
        },
    }
}

/// Extract an in-memory entry list into the staging tree, returning the
/// excluded names in stored order. This is the whole filtering policy on
/// plain values: it always succeeds.
pub fn extract_entries(
    entries: &Vec<(String, Vec<u8>)>,
    reference: Option<&Tree>,
    staging: &mut Tree,
) -> (excluded: Vec<String>)
    ensures
        ({
            let m = extract_model(
                (old(staging).file_map(), old(staging).dir_paths(), Seq::empty()),
                ref_keys(reference),
                entries_view(entries@),
            );
            &&& final(staging).file_map() == m.0
            &&& final(staging).dir_paths() == m.1
            &&& excluded@.map_values(|s: String| s@) == m.2
        }),
{
    let ghost st0 = (old(staging).file_map(), old(staging).dir_paths(), Seq::<Seq<char>>::empty());
    let ghost ev = entries_view(entries@);
    let mut excluded: Vec<String> = Vec::new();
    let n = entries.len();
    let mut i: usize = 0;
    while i < n
        invariant
            0 <= i <= n,
            n == entries@.len(),
            ev == entries_view(entries@),
            ({
                let m = extract_model(st0, ref_keys(reference), ev.subrange(0, i as int));
                &&& staging.file_map() == m.0
                &&& staging.dir_paths() == m.1
                &&& excluded@.map_values(|s: String| s@) == m.2
            }),
        decreases n - i,
    {
        let ghost pre = ev.subrange(0, i as int);
        proof {
            assert(ev[i as int] == (entries@[i as int].0@, entries@[i as int].1@));
        }
        extract_one(&entries[i].0, &entries[i].1, reference, staging, &mut excluded);
        proof {
            assert(ev.subrange(0, i + 1).drop_last() =~= pre);
            assert(ev.subrange(0, i + 1).last() == ev[i as int]);
        }
        i += 1;
    }
    proof {
        assert(ev.subrange(0, n as int) =~= ev);
    }
    excluded
}

/// Extract an opened zip archive into the destination tree, filtering by the
/// reference tree's markers when one is given.
///
/// On success the destination and the returned excluded names are exactly the
/// extraction model of the archive's entries; when an entry cannot be read
/// the run stops there, leaving the entries already processed in place.
pub fn extract_zip(
    archive: &mut zip::ZipArchive<Cursor<Vec<u8>>>,
    dest_folder: &mut Tree,
    unity_folder: Option<&Tree>,
) -> (r: Result<Vec<String>, ArchiveError>)
    ensures
        zip_entries(*final(archive)) == zip_entries(*old(archive)),
        forall|j: int| #[trigger] entry_readable(*final(archive), j) == entry_readable(
            *old(archive),
            j,
        ),
        r is Ok <==> (forall|i: int|
            0 <= i < zip_entries(*old(archive)).len() ==> #[trigger] entry_readable(
                *old(archive),
                i,
            )),
        ({
            let ents = zip_entries(*old(archive));
            let st0 = (old(dest_folder).file_map(), old(dest_folder).dir_paths(), Seq::<
                Seq<char>,
            >::empty());
            match r {
                Ok(excluded) => ({
                    let m = extract_model(st0, ref_keys(unity_folder), ents);
                    &&& final(dest_folder).file_map() == m.0
                    &&& final(dest_folder).dir_paths() == m.1
                    &&& excluded@.map_values(|s: String| s@) == m.2
                }),
                Err(e) => e is ReadFailed && exists|j: int|
                    0 <= j <= ents.len() && ({
                        let m = extract_model(
                            st0,
                            ref_keys(unity_folder),
                            #[trigger] ents.subrange(0, j),
                        );
                        &&& final(dest_folder).file_map() == m.0
                        &&& final(dest_folder).dir_paths() == m.1
                    }),
            }
        }),
{
    let ghost ents = zip_entries(*old(archive));
    let ghost st0 = (old(dest_folder).file_map(), old(dest_folder).dir_paths(), Seq::<
        Seq<char>,
    >::empty());
    let mut excluded: Vec<String> = Vec::new();
    let n = archive_len(archive);
    let mut i: usize = 0;
    while i < n
        invariant
            0 <= i <= n,
            n == ents.len(),
            ents == zip_entries(*old(archive)),
            st0 == (old(dest_folder).file_map(), old(dest_folder).dir_paths(), Seq::<
                Seq<char>,
            >::empty()),
            zip_entries(*archive) == ents,
            forall|j: int| #[trigger] entry_readable(*archive, j) == entry_readable(
                *old(archive),
                j,
            ),
            forall|j: int| 0 <= j < i ==> #[trigger] entry_readable(*old(archive), j),
            ({
                let m = extract_model(st0, ref_keys(unity_folder), ents.subrange(0, i as int));
                &&& dest_folder.file_map() == m.0
                &&& dest_folder.dir_paths() == m.1
                &&& excluded@.map_values(|s: String| s@) == m.2
            }),
        decreases n - i,
    {
        let ghost pre = ents.subrange(0, i as int);
        match read_entry(archive, i) {
            Ok((name, data)) => {
                extract_one(&name, &data, unity_folder, dest_folder, &mut excluded);
                proof {
                    assert(ents.subrange(0, i + 1).drop_last() =~= pre);
                    assert(ents.subrange(0, i + 1).last() == ents[i as int]);
                }
            },
            Err(e) => {
                proof {
                    let m = extract_model(
                        st0,
                        ref_keys(unity_folder),
                        ents.subrange(0, i as int),
                    );
                    assert(dest_folder.file_map() == m.0);
                    assert(dest_folder.dir_paths() == m.1);
                }
                return Err(e);
            },
        }
        i += 1;
    }
    proof {
        assert(ents.subrange(0, n as int) =~= ents);
    }
    Ok(excluded)
}

} // verus!
