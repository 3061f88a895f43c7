//! An in-memory model of a directory tree.
//!
//! A tree holds files (a relative path, as slash-free segments, with byte
//! content) and explicitly created directories. Later insertions of the same
//! path overwrite earlier ones, which mirrors extraction and merging into a
//! real directory where the last write wins.

use vstd::prelude::*;

use crate::paths::path_view;

verus! {

/// The file map described by a list of insertions: the last entry for a path
/// wins, as the last write to a real file does.
pub open spec fn files_map_of(s: Seq<(Vec<String>, Vec<u8>)>) -> Map<Seq<Seq<char>>, Seq<u8>>
    decreases s.len(),
{
    if s.len() == 0 {
        Map::empty()
    } else {
        files_map_of(s.drop_last()).insert(path_view(s.last().0@), s.last().1@)
    }
}

pub proof fn lemma_files_map_push(s: Seq<(Vec<String>, Vec<u8>)>, e: (Vec<String>, Vec<u8>))
    ensures
        files_map_of(s.push(e)) == files_map_of(s).insert(path_view(e.0@), e.1@),
{
    assert(s.push(e).drop_last() =~= s);
    assert(s.push(e).last() == e);
}

pub proof fn lemma_files_map_contains(s: Seq<(Vec<String>, Vec<u8>)>, k: Seq<Seq<char>>)
    ensures
        files_map_of(s).contains_key(k) <==> exists|i: int|
            0 <= i < s.len() && path_view(#[trigger] s[i].0@) == k,
    decreases s.len(),
{
    if s.len() > 0 {
        lemma_files_map_contains(s.drop_last(), k);
        let lastk = path_view(s.last().0@);
        if k == lastk {
            assert(path_view(s[s.len() - 1].0@) == k);
        } else {
            if files_map_of(s).contains_key(k) {
                let i = choose|i: int|
                    0 <= i < s.drop_last().len() && path_view(#[trigger] s.drop_last()[i].0@) == k;
                assert(path_view(s[i].0@) == k);
            }
            if exists|i: int| 0 <= i < s.len() && path_view(#[trigger] s[i].0@) == k {
                let i = choose|i: int| 0 <= i < s.len() && path_view(#[trigger] s[i].0@) == k;
                assert(i < s.len() - 1);
                assert(path_view(s.drop_last()[i].0@) == k);
            }
        }
    }
}

/// Index of the last entry for path `k`, or `-1` when there is none.
pub open spec fn find_last(s: Seq<(Vec<String>, Vec<u8>)>, k: Seq<Seq<char>>) -> int
    decreases s.len(),
{
    if s.len() == 0 {
        -1
    } else if path_view(s.last().0@) == k {
        s.len() - 1
    } else {
        find_last(s.drop_last(), k)
    }
}

pub proof fn lemma_find_last(s: Seq<(Vec<String>, Vec<u8>)>, k: Seq<Seq<char>>)
    ensures
        -1 <= find_last(s, k) < s.len(),
        find_last(s, k) >= 0 ==> files_map_of(s).contains_key(k) && path_view(
            s[find_last(s, k)].0@,
        ) == k && files_map_of(s)[k] == s[find_last(s, k)].1@,
        find_last(s, k) < 0 ==> !files_map_of(s).contains_key(k),
        forall|j: int| find_last(s, k) < j < s.len() ==> path_view(#[trigger] s[j].0@) != k,
    decreases s.len(),
{
    if s.len() > 0 {
        lemma_find_last(s.drop_last(), k);
        let lastk = path_view(s.last().0@);
        if lastk != k {
            assert forall|j: int| find_last(s, k) < j < s.len() - 1 implies path_view(
                #[trigger] s[j].0@,
            ) != k by {
                assert(s.drop_last()[j] == s[j]);
            }
            if find_last(s, k) >= 0 {
                assert(s.drop_last()[find_last(s, k)] == s[find_last(s, k)]);
            }
        }
    }
}

/// Whether `k` names a directory given the set of file paths and the list of
/// created directory paths: either some created directory lies at or below
/// `k`, or some file lies strictly below `k`.
pub open spec fn model_has_dir(
    files: Set<Seq<Seq<char>>>,
    dirs: Seq<Seq<Seq<char>>>,
    k: Seq<Seq<char>>,
) -> bool {
    (exists|i: int| 0 <= i < dirs.len() && k.is_prefix_of(#[trigger] dirs[i])) || (exists|
        f: Seq<Seq<char>>,
    |
        files.contains(f) && #[trigger] k.is_prefix_of(f) && k.len() < f.len())
}

/// An in-memory directory tree: files with contents, plus explicitly created
/// directories.
pub struct Tree {
    files: Vec<(Vec<String>, Vec<u8>)>,
    dirs: Vec<Vec<String>>,
}

impl Tree {
    /// The tree's files: a map from segment path to byte content.
    pub closed spec fn file_map(self) -> Map<Seq<Seq<char>>, Seq<u8>> {
        files_map_of(self.files@)
    }

    /// The explicitly created directory paths, in creation order.
    pub closed spec fn dir_paths(self) -> Seq<Seq<Seq<char>>> {
        self.dirs@.map_values(|p: Vec<String>| path_view(p@))
    }

    /// Whether `k` exists as a directory in this tree.
    pub open spec fn has_dir(self, k: Seq<Seq<char>>) -> bool {
        model_has_dir(self.file_map().dom(), self.dir_paths(), k)
    }

    pub fn new() -> (t: Tree)
        ensures
            t.file_map() == Map::<Seq<Seq<char>>, Seq<u8>>::empty(),
            t.dir_paths() == Seq::<Seq<Seq<char>>>::empty(),
    {
        let t = Tree { files: Vec::new(), dirs: Vec::new() };
        proof {
            assert(t.dir_paths() =~= Seq::<Seq<Seq<char>>>::empty());
        }
        t
    }

    /// Write a file, overwriting any earlier file of the same path.
    pub fn insert_file(&mut self, path: Vec<String>, data: Vec<u8>)
        ensures
            final(self).file_map() == old(self).file_map().insert(path_view(path@), data@),
            final(self).dir_paths() == old(self).dir_paths(),
    {
        let ghost e = (path, data);
        let ghost s = self.files@;
        self.files.push((path, data));
        proof {
            lemma_files_map_push(s, e);
        }
    }

    /// Create a directory (idempotent at the model level: `has_dir` only asks
    /// whether some created directory lies at or below a path).
    pub fn add_dir(&mut self, path: Vec<String>)
        ensures
            final(self).file_map() == old(self).file_map(),
            final(self).dir_paths() == old(self).dir_paths().push(path_view(path@)),
    {
        let ghost p = path@;
        self.dirs.push(path);
        proof {
            assert(self.dir_paths() =~= old(self).dir_paths().push(path_view(p)));
        }
    }

    pub fn contains_file(&self, path: &Vec<String>) -> (r: bool)
        ensures
            r == self.file_map().contains_key(path_view(path@)),
    {
        let ghost k = path_view(path@);
        let n = self.files.len();
        let mut i: usize = 0;
        while i < n
            invariant
                0 <= i <= n,
                n == self.files@.len(),
                k == path_view(path@),
                forall|j: int| 0 <= j < i ==> path_view(#[trigger] self.files@[j].0@) != k,
            decreases n - i,
        {
            if path_eq(&self.files[i].0, path) {
                proof {
                    lemma_files_map_contains(self.files@, k);
                }
                return true;
            }
            i += 1;
        }
        proof {
            lemma_files_map_contains(self.files@, k);
        }
        false
    }

    /// The content of the file at `path`, if the tree holds one.
    pub fn file_content(&self, path: &Vec<String>) -> (r: Option<&Vec<u8>>)
        ensures
            match r {
                Some(d) => self.file_map().contains_key(path_view(path@)) && self.file_map()[
                    path_view(path@)
                ] == d@,
                None => !self.file_map().contains_key(path_view(path@)),
            },
    {
        let ghost k = path_view(path@);
        let n = self.files.len();
        let mut j: usize = n;
        while j > 0
            invariant
                0 <= j <= n,
                n == self.files@.len(),
                k == path_view(path@),
                forall|m: int| j <= m < n ==> path_view(#[trigger] self.files@[m].0@) != k,
            decreases j,
        {
            j -= 1;
            if path_eq(&self.files[j].0, path) {
                proof {
                    lemma_find_last(self.files@, k);
                    let f = find_last(self.files@, k);
                    assert(f == j as int) by {
                        if f > j as int {
                            assert(path_view(self.files@[f].0@) == k);
                        }
                    }
                }
                return Some(&self.files[j].1);
            }
        }
        proof {
            lemma_find_last(self.files@, k);
        }
        None
    }

    /// Whether `path` exists as a directory.
    pub fn contains_dir(&self, path: &Vec<String>) -> (r: bool)
        ensures
            r == self.has_dir(path_view(path@)),
    {
        let ghost k = path_view(path@);
        let nd = self.dirs.len();
        let mut i: usize = 0;
        while i < nd
            invariant
                0 <= i <= nd,
                nd == self.dirs@.len(),
                k == path_view(path@),
                forall|j: int| 0 <= j < i ==> !k.is_prefix_of(#[trigger] self.dir_paths()[j]),
            decreases nd - i,
        {
            proof {
                assert(self.dir_paths()[i as int] == path_view(self.dirs@[i as int]@));
            }
            if path_is_prefix(path, &self.dirs[i]) {
                return true;
            }
            i += 1;
        }
        let nf = self.files.len();
        let mut m: usize = 0;
        while m < nf
            invariant
                0 <= m <= nf,
                nf == self.files@.len(),
                k == path_view(path@),
                forall|j: int| 0 <= j < nd ==> !k.is_prefix_of(#[trigger] self.dir_paths()[j]),
                nd == self.dir_paths().len(),
                forall|j: int|
                    0 <= j < m ==> !(k.is_prefix_of(path_view(#[trigger] self.files@[j].0@))
                        && k.len() < path_view(self.files@[j].0@).len()),
            decreases nf - m,
        {
            if path_is_prefix(path, &self.files[m].0) && path.len() < self.files[m].0.len() {
                proof {
                    lemma_files_map_contains(self.files@, path_view(self.files@[m as int].0@));
                }
                return true;
            }
            m += 1;
        }
        proof {
            if self.has_dir(k) {
                if exists|f: Seq<Seq<char>>|
                    self.file_map().dom().contains(f) && #[trigger] k.is_prefix_of(f) && k.len()
                        < f.len() {
                    let f = choose|f: Seq<Seq<char>>|
                        self.file_map().dom().contains(f) && #[trigger] k.is_prefix_of(f) && k.len()
                            < f.len();
                    lemma_files_map_contains(self.files@, f);
                }
            }
        }
        false
    }

    /// The file entries in insertion order; their last-wins reading is the
    /// tree's file map.
    pub fn file_entries(&self) -> (r: &Vec<(Vec<String>, Vec<u8>)>)
        ensures
            files_map_of(r@) == self.file_map(),
    {
        &self.files
    }

    /// The explicitly created directories in creation order.
    pub fn dir_entries(&self) -> (r: &Vec<Vec<String>>)
        ensures
            r@.map_values(|p: Vec<String>| path_view(p@)) == self.dir_paths(),
    {
        &self.dirs
    }

    /// Remove everything: afterwards the tree has no files and no
    /// directories.
    pub fn clear_all(&mut self)
        ensures
            final(self).file_map() == Map::<Seq<Seq<char>>, Seq<u8>>::empty(),
            final(self).dir_paths() == Seq::<Seq<Seq<char>>>::empty(),
    {
        self.files = Vec::new();
        self.dirs = Vec::new();
        proof {
            assert(self.dir_paths() =~= Seq::<Seq<Seq<char>>>::empty());
        }
    }
}

/// Whether path `k` lies under the top-level folder named `sub`.
pub open spec fn under_subtree(sub: Seq<char>, k: Seq<Seq<char>>) -> bool {
    k.len() > 0 && k[0] == sub
}

/// The set of all paths under the top-level folder named `sub`.
pub open spec fn subtree_keys(sub: Seq<char>) -> Set<Seq<Seq<char>>> {
    Set::new(|k: Seq<Seq<char>>| under_subtree(sub, k))
}

/// The file map after merging the `sub` subtree of `src` into `dst`: files
/// under `sub` come from `src` where it has them (overwriting), everything
/// else keeps its `dst` content.
pub open spec fn merged_files(
    sub: Seq<char>,
    src: Map<Seq<Seq<char>>, Seq<u8>>,
    dst: Map<Seq<Seq<char>>, Seq<u8>>,
) -> Map<Seq<Seq<char>>, Seq<u8>> {
    dst.union_prefer_right(src.restrict(subtree_keys(sub)))
}

/// The directories of `ds` that lie under the top-level folder `sub`, in
/// order.
pub open spec fn dirs_under(sub: Seq<char>, ds: Seq<Seq<Seq<char>>>) -> Seq<Seq<Seq<char>>>
    decreases ds.len(),
{
    if ds.len() == 0 {
        Seq::empty()
    } else if under_subtree(sub, ds.last()) {
        dirs_under(sub, ds.drop_last()).push(ds.last())
    } else {
        dirs_under(sub, ds.drop_last())
    }
}

/// Merging is additive: a path that is not a `src` file under the merged
/// subtree keeps exactly its old presence and content in the destination.
pub proof fn lemma_merge_additive(
    sub: Seq<char>,
    src: Map<Seq<Seq<char>>, Seq<u8>>,
    dst: Map<Seq<Seq<char>>, Seq<u8>>,
    k: Seq<Seq<char>>,
)
    requires
        !(under_subtree(sub, k) && src.contains_key(k)),
    ensures
        merged_files(sub, src, dst).contains_key(k) == dst.contains_key(k),
        dst.contains_key(k) ==> merged_files(sub, src, dst)[k] == dst[k],
{
}

/// Merging overwrites: a `src` file under the merged subtree ends up in the
/// destination with exactly the `src` content.
pub proof fn lemma_merge_overwrites(
    sub: Seq<char>,
    src: Map<Seq<Seq<char>>, Seq<u8>>,
    dst: Map<Seq<Seq<char>>, Seq<u8>>,
    k: Seq<Seq<char>>,
)
    requires
        under_subtree(sub, k),
        src.contains_key(k),
    ensures
        merged_files(sub, src, dst).contains_key(k),
        merged_files(sub, src, dst)[k] == src[k],
{
}

impl Tree {
    /// Merge the `subtree` top-level folder of `source` into this tree:
    /// every source file and directory under it is copied in (files of the
    /// same path overwritten), and nothing else is touched.
    pub fn merge_subtree_from(&mut self, source: &Tree, subtree: &String)
        ensures
            final(self).file_map() == merged_files(
                subtree@,
                source.file_map(),
                old(self).file_map(),
            ),
            final(self).dir_paths() == old(self).dir_paths() + dirs_under(
                subtree@,
                source.dir_paths(),
            ),
    {
        let ghost dst0 = self.file_map();
        let ghost dirs0 = self.dir_paths();
        let ghost s_src = source.files@;
        let nf = source.files.len();
        let mut i: usize = 0;
        while i < nf
            invariant
                0 <= i <= nf,
                nf == s_src.len(),
                s_src == source.files@,
                self.file_map() == merged_files(
                    subtree@,
                    files_map_of(s_src.subrange(0, i as int)),
                    dst0,
                ),
                self.dir_paths() == dirs0,
            decreases nf - i,
        {
            let ghost pre = s_src.subrange(0, i as int);
            let ghost e = s_src[i as int];
            let under = source.files[i].0.len() > 0 && source.files[i].0[0] == *subtree;
            if under {
                let path = clone_path(&source.files[i].0);
                let data = clone_bytes(&source.files[i].1);
                self.insert_file(path, data);
            }
            proof {
                let ke = path_view(e.0@);
                let ve = e.1@;
                assert(s_src.subrange(0, i + 1) =~= pre.push(e));
                lemma_files_map_push(pre, e);
                let m1 = files_map_of(pre);
                let m2 = files_map_of(s_src.subrange(0, i + 1));
                assert(m2 == m1.insert(ke, ve));
                if under_subtree(subtree@, ke) {
                    assert(self.file_map() =~= merged_files(subtree@, m2, dst0));
                } else {
                    assert(m2.restrict(subtree_keys(subtree@)) =~= m1.restrict(
                        subtree_keys(subtree@),
                    ));
                    assert(self.file_map() =~= merged_files(subtree@, m2, dst0));
                }
            }
            i += 1;
        }
        proof {
            assert(s_src.subrange(0, nf as int) =~= s_src);
        }
        let ghost d_src = source.dir_paths();
        let nd = source.dirs.len();
        let mut m: usize = 0;
        while m < nd
            invariant
                0 <= m <= nd,
                nd == source.dirs@.len(),
                d_src == source.dir_paths(),
                self.file_map() == merged_files(subtree@, source.file_map(), dst0),
                self.dir_paths() == dirs0 + dirs_under(subtree@, d_src.subrange(0, m as int)),
            decreases nd - m,
        {
            let ghost pre = d_src.subrange(0, m as int);
            let under = source.dirs[m].len() > 0 && source.dirs[m][0] == *subtree;
            proof {
                assert(d_src[m as int] == path_view(source.dirs@[m as int]@));
            }
            if under {
                let path = clone_path(&source.dirs[m]);
                self.add_dir(path);
            }
            proof {
                assert(d_src.subrange(0, m + 1) =~= pre.push(d_src[m as int]));
                assert(d_src.subrange(0, m + 1).drop_last() =~= pre);
                if under_subtree(subtree@, d_src[m as int]) {
                    assert(self.dir_paths() =~= dirs0 + dirs_under(
                        subtree@,
                        d_src.subrange(0, m + 1),
                    ));
                } else {
                    assert(self.dir_paths() =~= dirs0 + dirs_under(
                        subtree@,
                        d_src.subrange(0, m + 1),
                    ));
                }
            }
            m += 1;
        }
        proof {
            assert(d_src.subrange(0, nd as int) =~= d_src);
        }
    }
}

/// Exec check that the tree has a top-level folder of the given name, as the
/// original check on a joined filesystem path did.
pub fn is_exists_folder(tree: &Tree, search_name: &str) -> (b: bool)
    ensures
        b == tree.has_dir(seq![search_name@]),
{
    let mut path: Vec<String> = Vec::new();
    path.push(search_name.to_owned());
    proof {
        assert(path_view(path@) =~= seq![search_name@]);
    }
    tree.contains_dir(&path)
}

/// Copy a segment path.
pub fn clone_path(p: &Vec<String>) -> (r: Vec<String>)
    ensures
        path_view(r@) == path_view(p@),
        r@.len() == p@.len(),
{
    let n = p.len();
    let mut r: Vec<String> = Vec::new();
    let mut i: usize = 0;
    while i < n
        invariant
            0 <= i <= n,
            n == p@.len(),
            r@.len() == i,
            forall|j: int| 0 <= j < i ==> #[trigger] r@[j]@ == p@[j]@,
        decreases n - i,
    {
        r.push(p[i].clone());
        i += 1;
    }
    proof {
        assert(path_view(r@) =~= path_view(p@));
    }
    r
}

/// Copy a byte vector.
pub fn clone_bytes(d: &Vec<u8>) -> (r: Vec<u8>)
    ensures
        r@ == d@,
{
    let n = d.len();
    let mut r: Vec<u8> = Vec::new();
    let mut i: usize = 0;
    while i < n
        invariant
            0 <= i <= n,
            n == d@.len(),
            r@.len() == i,
            forall|j: int| 0 <= j < i ==> r@[j] == d@[j],
        decreases n - i,
    {
        r.push(d[i]);
        i += 1;
    }
    proof {
        assert(r@ =~= d@);
    }
    r
}

/// Exec equality of two segment paths, by segment text.
pub fn path_eq(a: &Vec<String>, b: &Vec<String>) -> (r: bool)
    ensures
        r == (path_view(a@) == path_view(b@)),
{
    if a.len() != b.len() {
        proof {
            assert(path_view(a@).len() != path_view(b@).len());
        }
        return false;
    }
    let n = a.len();
    let mut i: usize = 0;
    while i < n
        invariant
            0 <= i <= n,
            n == a@.len(),
            n == b@.len(),
            forall|j: int| 0 <= j < i ==> path_view(a@)[j] == path_view(b@)[j],
        decreases n - i,
    {
        if !(a[i] == b[i]) {
            proof {
                assert(path_view(a@)[i as int] != path_view(b@)[i as int]);
            }
            return false;
        }
        i += 1;
    }
    proof {
        assert(path_view(a@) =~= path_view(b@));
    }
    true
}

/// Exec check that path `a` is a (not necessarily proper) prefix of `b`.
pub fn path_is_prefix(a: &Vec<String>, b: &Vec<String>) -> (r: bool)
    ensures
        r == path_view(a@).is_prefix_of(path_view(b@)),
{
    if a.len() > b.len() {
        return false;
    }
    let n = a.len();
    let mut i: usize = 0;
    while i < n
        invariant
            0 <= i <= n,
            n == a@.len(),
            n <= b@.len(),
            forall|j: int| 0 <= j < i ==> path_view(a@)[j] == path_view(b@)[j],
        decreases n - i,
    {
        if !(a[i] == b[i]) {
            proof {
                assert(path_view(a@)[i as int] != path_view(b@)[i as int]);
                assert(!path_view(a@).is_prefix_of(path_view(b@)));
            }
            return false;
        }
        i += 1;
    }
    proof {
        assert(path_view(a@) =~= path_view(b@).subrange(0, path_view(a@).len() as int));
    }
    true
}

} // verus!
