//! Safe resolution of raw archive entry names into relative path segments.
//!
//! A raw entry name is untrusted: it may try to escape the extraction root
//! with `..` segments, absolute paths, backslashes or drive letters. A name
//! is accepted only when every slash-separated segment is a plain file or
//! directory name. This is deliberately stricter than canonicalization:
//! names that would need normalizing (a `.` segment, a doubled or leading
//! slash) are rejected rather than rewritten, so an accepted name is always
//! extracted at exactly the path it spells.

use vstd::prelude::*;
use vstd::string::StringExecFns;

verus! {

/// Index of the first `'/'` in `s`, or `-1` when `s` has none.
pub open spec fn first_slash(s: Seq<char>) -> int
    decreases s.len(),
{
    if s.len() == 0 {
        -1
    } else if s[0] == '/' {
        0
    } else {
        let r = first_slash(s.drop_first());
        if r < 0 {
            -1
        } else {
            r + 1
        }
    }
}

pub proof fn lemma_first_slash(s: Seq<char>)
    ensures
        first_slash(s) < s.len(),
        first_slash(s) >= 0 ==> s[first_slash(s)] == '/' && (forall|j: int|
            0 <= j < first_slash(s) ==> s[j] != '/'),
        first_slash(s) < 0 ==> first_slash(s) == -1 && (forall|j: int|
            0 <= j < s.len() ==> s[j] != '/'),
    decreases s.len(),
{
    if s.len() > 0 && s[0] != '/' {
        lemma_first_slash(s.drop_first());
        let r = first_slash(s.drop_first());
        if r >= 0 {
            assert forall|j: int| 0 <= j < r + 1 implies s[j] != '/' by {
                if j > 0 {
                    assert(s.drop_first()[j - 1] != '/');
                }
            }
        } else {
            assert forall|j: int| 0 <= j < s.len() implies s[j] != '/' by {
                if j > 0 {
                    assert(s.drop_first()[j - 1] != '/');
                }
            }
        }
    }
}

/// The slash-separated segments of `s`. Splitting keeps empty segments, so
/// a leading slash, a doubled slash or a trailing slash shows up as an empty
/// segment (and is then refused by `safe_seg`).
pub open spec fn split_path(s: Seq<char>) -> Seq<Seq<char>>
    decreases s.len(),
{
    let i = first_slash(s);
    if i < 0 {
        seq![s]
    } else if 0 <= i < s.len() {
        seq![s.subrange(0, i)] + split_path(s.subrange(i + 1, s.len() as int))
    } else {
        // unreachable: first_slash is below s.len()
        seq![s]
    }
}

/// Joining segments with `'/'` separators.
pub open spec fn join_segs(p: Seq<Seq<char>>) -> Seq<char>
    decreases p.len(),
{
    if p.len() == 0 {
        Seq::empty()
    } else if p.len() == 1 {
        p[0]
    } else {
        p[0] + seq!['/'] + join_segs(p.drop_first())
    }
}

pub proof fn lemma_split_nonempty(s: Seq<char>)
    ensures
        split_path(s).len() >= 1,
{
    lemma_first_slash(s);
}

/// Splitting inverts joining: the segments of a name joined back give the
/// name, so two distinct names never split into the same segments.
pub proof fn lemma_join_split(s: Seq<char>)
    ensures
        join_segs(split_path(s)) == s,
    decreases s.len(),
{
    lemma_first_slash(s);
    let i = first_slash(s);
    if i >= 0 {
        let tail = s.subrange(i + 1, s.len() as int);
        lemma_join_split(tail);
        lemma_split_nonempty(tail);
        let p = seq![s.subrange(0, i)] + split_path(tail);
        assert(split_path(s) == p);
        assert(p.len() >= 2);
        assert(p.drop_first() =~= split_path(tail));
        assert(join_segs(p) == p[0] + seq!['/'] + join_segs(split_path(tail)));
        assert(s.subrange(0, i) + seq!['/'] + tail =~= s);
    }
}

/// A single segment is safe when it is non-empty, is neither `.` nor `..`,
/// and contains no separator, backslash or drive-letter colon.
pub open spec fn safe_seg(t: Seq<char>) -> bool {
    &&& t.len() > 0
    &&& !(t =~= seq!['.'])
    &&& !(t =~= seq!['.', '.'])
    &&& forall|k: int| 0 <= k < t.len() ==> t[k] != '/' && t[k] != '\\' && t[k] != ':'
}

/// A whole relative path is safe when it has at least one segment and every
/// segment is safe.
pub open spec fn safe_path(p: Seq<Seq<char>>) -> bool {
    &&& p.len() > 0
    &&& forall|i: int| 0 <= i < p.len() ==> safe_seg(#[trigger] p[i])
}

/// Whether the raw name denotes a directory entry (trailing slash).
pub open spec fn is_dir_name(s: Seq<char>) -> bool {
    s.len() > 0 && s.last() == '/'
}

/// The raw name with a trailing directory slash, if any, stripped.
pub open spec fn core_of(s: Seq<char>) -> Seq<char> {
    if is_dir_name(s) {
        s.drop_last()
    } else {
        s
    }
}

/// The view of a segment vector: one `Seq<char>` per segment.
pub open spec fn path_view(p: Seq<String>) -> Seq<Seq<char>> {
    p.map_values(|s: String| s@)
}

/// Index of the last `'.'` in `t`, or `-1` when `t` has none.
pub open spec fn last_dot(t: Seq<char>) -> int
    decreases t.len(),
{
    if t.len() == 0 {
        -1
    } else if t.last() == '.' {
        t.len() - 1
    } else {
        last_dot(t.drop_last())
    }
}

pub proof fn lemma_last_dot(t: Seq<char>)
    ensures
        -1 <= last_dot(t) < t.len(),
        last_dot(t) >= 0 ==> t[last_dot(t)] == '.',
        forall|j: int| last_dot(t) < j < t.len() ==> t[j] != '.',
    decreases t.len(),
{
    if t.len() > 0 && t.last() != '.' {
        lemma_last_dot(t.drop_last());
        assert forall|j: int| last_dot(t) < j < t.len() implies t[j] != '.' by {
            if j < t.len() - 1 {
                assert(t.drop_last()[j] == t[j]);
            }
        }
        if last_dot(t) >= 0 {
            assert(t.drop_last()[last_dot(t)] == t[last_dot(t)]);
        }
    }
}

/// A file name has an extension when it holds a `'.'` after its first
/// character; a lone leading dot (a hidden file) gives none.
pub open spec fn has_ext(t: Seq<char>) -> bool {
    last_dot(t) > 0
}

/// The characters after the last `'.'`.
pub open spec fn ext_of(t: Seq<char>) -> Seq<char>
    recommends
        has_ext(t),
{
    t.subrange(last_dot(t) + 1, t.len() as int)
}

/// The marker file suffix: `.meta`.
pub open spec fn meta_suffix() -> Seq<char> {
    seq!['.', 'm', 'e', 't', 'a']
}

/// Whether a file name's own extension is the marker extension.
pub open spec fn is_meta_name(t: Seq<char>) -> bool {
    has_ext(t) && ext_of(t) == seq!['m', 'e', 't', 'a']
}

/// Exec search for the last `'.'` of a file name; returns its index, or the
/// name's length when there is none.
fn find_last_dot(seg: &str) -> (r: usize)
    ensures
        r <= seg@.len(),
        r < seg@.len() ==> r == last_dot(seg@),
        r == seg@.len() ==> last_dot(seg@) < 0,
{
    let n = seg.unicode_len();
    let mut j: usize = n;
    while j > 0
        invariant
            0 <= j <= n,
            n == seg@.len(),
            forall|m: int| j <= m < n ==> seg@[m] != '.',
        decreases j,
    {
        j -= 1;
        if seg.get_char(j) == '.' {
            proof {
                lemma_last_dot(seg@);
                assert(j as int == last_dot(seg@)) by {
                    let ld = last_dot(seg@);
                    if ld > j as int {
                        assert(seg@[ld] != '.');
                    } else if ld < j as int {
                        assert(seg@[j as int] != '.');
                    }
                }
            }
            return j;
        }
    }
    proof {
        lemma_last_dot(seg@);
        if last_dot(seg@) >= 0 {
            assert(seg@[last_dot(seg@)] != '.');
        }
    }
    n
}

/// Exec check that a file name's extension is the marker extension.
pub fn is_meta(seg: &str) -> (b: bool)
    ensures
        b == is_meta_name(seg@),
{
    let n = seg.unicode_len();
    let d = find_last_dot(seg);
    if d >= n || d == 0 {
        return false;
    }
    if n - d != 5 {
        proof {
            assert(ext_of(seg@).len() != 4);
        }
        return false;
    }
    let b = seg.get_char(d + 1) == 'm' && seg.get_char(d + 2) == 'e' && seg.get_char(d + 3) == 't'
        && seg.get_char(d + 4) == 'a';
    proof {
        if b {
            assert(ext_of(seg@) =~= seq!['m', 'e', 't', 'a']);
        } else {
            assert(ext_of(seg@) != seq!['m', 'e', 't', 'a']) by {
                if ext_of(seg@) == seq!['m', 'e', 't', 'a'] {
                    assert(seg@[d + 1] == ext_of(seg@)[0]);
                    assert(seg@[d + 2] == ext_of(seg@)[1]);
                    assert(seg@[d + 3] == ext_of(seg@)[2]);
                    assert(seg@[d + 4] == ext_of(seg@)[3]);
                }
            }
        }
    }
    b
}

/// Exec check that one segment is safe.
pub fn seg_safe(seg: &str) -> (b: bool)
    ensures
        b == safe_seg(seg@),
{
    let n = seg.unicode_len();
    if n == 0 {
        return false;
    }
    if n == 1 && seg.get_char(0) == '.' {
        proof {
            assert(seg@ =~= seq!['.']);
        }
        return false;
    }
    if n == 2 && seg.get_char(0) == '.' && seg.get_char(1) == '.' {
        proof {
            assert(seg@ =~= seq!['.', '.']);
        }
        return false;
    }
    let mut k: usize = 0;
    while k < n
        invariant
            0 <= k <= n,
            n == seg@.len(),
            forall|j: int| 0 <= j < k ==> seg@[j] != '/' && seg@[j] != '\\' && seg@[j] != ':',
        decreases n - k,
    {
        let c = seg.get_char(k);
        if c == '/' || c == '\\' || c == ':' {
            return false;
        }
        k += 1;
    }
    proof {
        if seg@ =~= seq!['.'] {
            assert(seg@.len() == 1 && seg@[0] == '.');
        }
        if seg@ =~= seq!['.', '.'] {
            assert(seg@.len() == 2);
        }
    }
    true
}

/// Exec split of a name into its slash-separated segments.
pub fn split_name(s: &str) -> (r: Vec<String>)
    ensures
        path_view(r@) =~= split_path(s@),
    decreases s@.len(),
{
    let n = s.unicode_len();
    let mut i: usize = 0;
    let mut found = false;
    while i < n && !found
        invariant
            0 <= i <= n,
            n == s@.len(),
            found ==> i < n && s@[i as int] == '/',
            forall|j: int| 0 <= j < i ==> s@[j] != '/',
        decreases n - i + (if found { 0int } else { 1int }),
    {
        if s.get_char(i) == '/' {
            found = true;
        } else {
            i += 1;
        }
    }
    proof {
        lemma_first_slash(s@);
    }
    if !found {
        proof {
            assert(first_slash(s@) < 0) by {
                if first_slash(s@) >= 0 {
                    assert(s@[first_slash(s@)] == '/');
                }
            }
        }
        let seg = s.to_owned();
        let mut r: Vec<String> = Vec::new();
        r.push(seg);
        proof {
            assert(path_view(r@) =~= split_path(s@));
        }
        r
    } else {
        proof {
            assert(first_slash(s@) == i as int) by {
                let f = first_slash(s@);
                if f >= 0 {
                    if f < i as int {
                        assert(s@[f] != '/');
                    } else if f > i as int {
                        assert(s@[i as int] != '/');
                    }
                }
            }
        }
        let head = s.substring_char(0, i).to_owned();
        let tail = s.substring_char(i + 1, n);
        let rest = split_name(tail);
        let mut r: Vec<String> = Vec::new();
        r.push(head);
        let mut m: usize = 0;
        let rest_len = rest.len();
        while m < rest_len
            invariant
                0 <= m <= rest_len,
                rest_len == rest.len(),
                r.len() == m + 1,
                r@[0]@ == s@.subrange(0, first_slash(s@)),
                forall|j: int| 0 <= j < m ==> r@[j + 1] == rest@[j],
            decreases rest_len - m,
        {
            let seg = rest[m].clone();
            r.push(seg);
            m += 1;
        }
        proof {
            assert(path_view(r@) =~= split_path(s@)) by {
                let f = first_slash(s@);
                assert(tail@ == s@.subrange(f + 1, s@.len() as int));
                assert(path_view(rest@) =~= split_path(tail@));
                assert(split_path(s@) == seq![s@.subrange(0, f)] + split_path(tail@));
                assert(path_view(r@).len() == split_path(s@).len());
                assert forall|j: int| 0 <= j < path_view(r@).len() implies path_view(r@)[j]
                    == split_path(s@)[j] by {
                    if j > 0 {
                        assert(r@[j] == rest@[j - 1]);
                        assert(path_view(rest@)[j - 1] == split_path(tail@)[j - 1]);
                    }
                }
            }
        }
        r
    }
}

/// The marker path of a file path: the same path with the marker suffix
/// appended to its file name.
pub open spec fn marker_key(p: Seq<Seq<char>>) -> Seq<Seq<char>>
    recommends
        p.len() > 0,
{
    p.drop_last().push(p.last() + meta_suffix())
}

/// Build the marker path of a file path.
pub fn marker_path(segs: &Vec<String>) -> (r: Vec<String>)
    requires
        segs@.len() > 0,
    ensures
        path_view(r@) == marker_key(path_view(segs@)),
{
    let n = segs.len();
    let mut r: Vec<String> = Vec::new();
    let mut i: usize = 0;
    while i < n - 1
        invariant
            0 <= i <= n - 1,
            n == segs@.len(),
            n >= 1,
            r@.len() == i,
            forall|j: int| 0 <= j < i ==> #[trigger] r@[j]@ == segs@[j]@,
        decreases n - 1 - i,
    {
        r.push(segs[i].clone());
        i += 1;
    }
    let mut last = segs[n - 1].clone();
    last.append(".meta");
    proof {
        reveal_strlit(".meta");
        assert(".meta"@ =~= meta_suffix());
    }
    r.push(last);
    proof {
        assert(path_view(r@) =~= marker_key(path_view(segs@)));
    }
    r
}

/// Resolve a raw archive entry name into safe relative path segments.
///
/// Returns the segments and whether the entry names a directory (trailing
/// slash), or `None` when the name is empty, rooted, escapes upward, or has
/// any other unsafe segment — including a `.` or empty segment, which is
/// rejected rather than normalized away. A rejected name must not be
/// extracted at all.
pub fn parse_entry_name(name: &str) -> (r: Option<(Vec<String>, bool)>)
    ensures
        match r {
            Some(p) => safe_path(split_path(core_of(name@))) && path_view(p.0@) == split_path(
                core_of(name@),
            ) && p.1 == is_dir_name(name@),
            None => !safe_path(split_path(core_of(name@))),
        },
{
    let n = name.unicode_len();
    if n == 0 {
        proof {
            assert(core_of(name@) == name@);
            assert(split_path(name@) == seq![name@]);
            assert(!safe_seg(split_path(name@)[0]));
        }
        return None;
    }
    let dir = name.get_char(n - 1) == '/';
    let core: &str = if dir {
        name.substring_char(0, n - 1)
    } else {
        name
    };
    proof {
        assert(core@ == core_of(name@));
    }
    let segs = split_name(core);
    if segs.len() == 0 {
        return None;
    }
    let m = segs.len();
    let mut i: usize = 0;
    while i < m
        invariant
            0 <= i <= m,
            m == segs@.len(),
            path_view(segs@) == split_path(core_of(name@)),
            forall|j: int| 0 <= j < i ==> safe_seg(#[trigger] path_view(segs@)[j]),
        decreases m - i,
    {
        if !seg_safe(segs[i].as_str()) {
            proof {
                assert(!safe_seg(path_view(segs@)[i as int]));
            }
            return None;
        }
        i += 1;
    }
    Some((segs, dir))
}

/// The path-safety law: a name that carries a `..` segment, or that is
/// rooted at a separator, is always rejected by the resolver, so nothing is
/// ever extracted outside the destination root.
pub proof fn lemma_resolver_rejects_unsafe_names(name: Seq<char>)
    ensures
        (exists|i: int|
            0 <= i < split_path(core_of(name)).len() && split_path(core_of(name))[i] =~= seq![
                '.',
                '.',
            ]) ==> !safe_path(split_path(core_of(name))),
        name.len() > 0 && name[0] == '/' ==> !safe_path(split_path(core_of(name))),
{
    let c = core_of(name);
    if name.len() > 0 && name[0] == '/' {
        if c.len() == 0 {
            assert(split_path(c) == seq![c]);
            assert(!safe_seg(split_path(c)[0]));
        } else {
            assert(c[0] == '/');
            assert(first_slash(c) == 0);
            assert(split_path(c)[0] == c.subrange(0, 0));
            assert(!safe_seg(split_path(c)[0]));
        }
    }
}

} // verus!
