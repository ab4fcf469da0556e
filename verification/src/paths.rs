//! Archive-path derivation over forward-slash separated byte paths: which
//! name each source file gets inside the archive, and the common base
//! directory the names are made relative to.

use vstd::prelude::*;

verus! {

/// One file to include: its path on disk and its name inside the archive.
pub struct FileEntry {
    pub path: String,
    pub name_in_archive: String,
}

/// Where the last separator stands in a path, if anywhere.
pub open spec fn spec_last_slash(p: Seq<u8>) -> Option<int>
    decreases p.len(),
{
    if p.len() == 0 {
        None
    } else if p.last() == 47 {
        Some(p.len() - 1)
    } else {
        spec_last_slash(p.drop_last())
    }
}

/// The path with trailing separators removed.
pub open spec fn spec_trim_slashes(p: Seq<u8>) -> Seq<u8>
    decreases p.len(),
{
    if p.len() > 0 && p.last() == 47 {
        spec_trim_slashes(p.drop_last())
    } else {
        p
    }
}

/// The file-name part of a path: its last component, with trailing
/// separators ignored. Where no usable name remains -- the path is empty or
/// all separators, or the last component is `.` or `..` -- the whole path
/// stands in (dot components elsewhere are taken literally).
pub open spec fn spec_file_name(p: Seq<u8>) -> Seq<u8> {
    let t = spec_trim_slashes(p);
    let name = match spec_last_slash(t) {
        None => t,
        Some(i) => t.subrange(i + 1, t.len() as int),
    };
    if name.len() == 0 || name == seq![46u8] || name == seq![46u8, 46u8] {
        p
    } else {
        name
    }
}

/// Whether `p` opens with the bytes of `b`.
pub open spec fn spec_starts_with(p: Seq<u8>, b: Seq<u8>) -> bool {
    p.len() >= b.len() && p.take(b.len() as int) == b
}

/// Whether `b` is an ancestor directory of `p` (or `p` itself): `p` opens
/// with `b` and the match ends at a component boundary.
pub open spec fn spec_path_starts_with(p: Seq<u8>, b: Seq<u8>) -> bool {
    b.len() == 0 || (spec_starts_with(p, b) && (p.len() == b.len() || p[b.len() as int] == 47
        || b.last() == 47))
}

/// The enclosing directory of a path, if it has one: everything before the
/// last separator ("/" stays the root's own name, and a bare name's parent
/// is the empty path).
pub open spec fn spec_parent(p: Seq<u8>) -> Option<Seq<u8>> {
    match spec_last_slash(p) {
        None => if p.len() == 0 {
            None
        } else {
            Some(Seq::<u8>::empty())
        },
        Some(i) => if i == 0 {
            if p.len() == 1 {
                None
            } else {
                Some(p.take(1))
            }
        } else {
            Some(p.take(i))
        },
    }
}

/// A path made relative to a base: the part after the base (and one
/// separator), or the path unchanged. The base is stripped only where the
/// match ends at a component boundary: `/a/b` is an ancestor of `/a/b/c`
/// but not of `/a/bc`, which keeps its full path. An empty base, and a base
/// after which nothing would remain, also keep the path unchanged.
pub open spec fn spec_relative_to(p: Seq<u8>, b: Seq<u8>) -> Seq<u8> {
    if b.len() == 0 {
        p
    } else if spec_path_starts_with(p, b) {
        let rest = p.subrange(b.len() as int, p.len() as int);
        let rest2 = if rest.len() > 0 && rest[0] == 47 {
            rest.subrange(1, rest.len() as int)
        } else {
            rest
        };
        if rest2.len() > 0 {
            rest2
        } else {
            p
        }
    } else {
        p
    }
}

/// The name a source path gets inside the archive: relative to the base
/// directory when one is known, else just its file name.
pub open spec fn spec_archive_name(p: Seq<u8>, base: Option<Seq<u8>>) -> Seq<u8> {
    match base {
        Some(b) => spec_relative_to(p, b),
        None => spec_file_name(p),
    }
}

proof fn lemma_last_slash_at(p: Seq<u8>, k: int)
    requires
        0 <= k < p.len(),
        p[k] == 47,
        forall|j: int| k < j < p.len() ==> p[j] != 47,
    ensures
        spec_last_slash(p) == Some(k),
    decreases p.len(),
{
    if k + 1 < p.len() {
        assert(p.drop_last()[k] == 47);
        lemma_last_slash_at(p.drop_last(), k);
    }
}

proof fn lemma_last_slash_bounds(p: Seq<u8>)
    requires
        spec_last_slash(p) is Some,
    ensures
        0 <= spec_last_slash(p)->Some_0 < p.len(),
        p[spec_last_slash(p)->Some_0] == 47,
    decreases p.len(),
{
    if p.len() > 0 && p.last() != 47 {
        lemma_last_slash_bounds(p.drop_last());
    }
}

proof fn lemma_last_slash_none(p: Seq<u8>)
    requires
        forall|j: int| 0 <= j < p.len() ==> p[j] != 47,
    ensures
        spec_last_slash(p) is None,
    decreases p.len(),
{
    if p.len() > 0 {
        lemma_last_slash_none(p.drop_last());
    }
}

/// Copies the byte range `[lo, hi)`.
fn bytes_range(s: &[u8], lo: usize, hi: usize) -> (r: Vec<u8>)
    requires
        lo <= hi <= s@.len(),
    ensures
        r@ == s@.subrange(lo as int, hi as int),
{
    let mut r: Vec<u8> = Vec::new();
    let mut k: usize = lo;
    while k < hi
        invariant
            lo <= k <= hi <= s@.len(),
            r@ == s@.subrange(lo as int, k as int),
        decreases hi - k,
    {
        r.push(s[k]);
        proof {
            assert(s@.subrange(lo as int, k as int).push(s@[k as int]) =~= s@.subrange(
                lo as int,
                k + 1,
            ));
        }
        k = k + 1;
    }
    r
}

/// Whether one byte path opens with another.
pub fn starts_with_bytes(p: &[u8], b: &[u8]) -> (r: bool)
    ensures
        r == spec_starts_with(p@, b@),
{
    if p.len() < b.len() {
        return false;
    }
    let mut k: usize = 0;
    while k < b.len()
        invariant
            k <= b@.len() <= p@.len(),
            forall|j: int| 0 <= j < k ==> p@[j] == b@[j],
        decreases b@.len() - k,
    {
        if p[k] != b[k] {
            proof {
                assert(p@.take(b@.len() as int)[k as int] != b@[k as int]);
            }
            return false;
        }
        k = k + 1;
    }
    proof {
        assert(p@.take(b@.len() as int) =~= b@);
    }
    true
}

fn path_starts_with(p: &Vec<u8>, b: &Vec<u8>) -> (r: bool)
    ensures
        r == spec_path_starts_with(p@, b@),
{
    if b.len() == 0 {
        return true;
    }
    if !starts_with_bytes(p.as_slice(), b.as_slice()) {
        return false;
    }
    p.len() == b.len() || p[b.len()] == 47 || b[b.len() - 1] == 47
}

/// The file-name part of a byte path.
pub fn file_name_bytes(p: &[u8]) -> (r: Vec<u8>)
    ensures
        r@ == spec_file_name(p@),
{
    proof {
        assert(p@.subrange(0, p@.len() as int) =~= p@);
    }
    // Ignore trailing separators.
    let mut e: usize = p.len();
    while e > 0 && p[e - 1] == 47
        invariant
            e <= p@.len(),
            spec_trim_slashes(p@) == spec_trim_slashes(p@.subrange(0, e as int)),
        decreases e,
    {
        proof {
            assert(p@.subrange(0, e as int).drop_last() =~= p@.subrange(0, e - 1));
        }
        e = e - 1;
    }
    let ghost t = p@.subrange(0, e as int);
    proof {
        assert(spec_trim_slashes(p@) == t);
    }
    // Find the last separator before the trimmed end.
    let mut k: usize = e;
    while k > 0 && p[k - 1] != 47
        invariant
            k <= e <= p@.len(),
            forall|j: int| k <= j < e ==> p@[j] != 47,
        decreases k,
    {
        k = k - 1;
    }
    proof {
        if k == 0 {
            assert(forall|j: int| 0 <= j < t.len() ==> t[j] != 47);
            lemma_last_slash_none(t);
        } else {
            assert(t[k - 1] == 47);
            assert(forall|j: int| k - 1 < j < t.len() ==> t[j] != 47);
            lemma_last_slash_at(t, k - 1);
            assert(t.subrange(k as int, t.len() as int) =~= p@.subrange(k as int, e as int));
        }
    }
    // The last component; fall back to the whole path where it is empty,
    // `.` or `..`.
    let span = e - k;
    let unusable = span == 0 || (span == 1 && p[k] == 46) || (span == 2 && p[k] == 46 && p[k + 1]
        == 46);
    proof {
        let name = if spec_last_slash(t) is None {
            t
        } else {
            t.subrange(spec_last_slash(t)->Some_0 + 1, t.len() as int)
        };
        assert(name =~= p@.subrange(k as int, e as int));
        if e == k + 1 && p@[k as int] == 46 {
            assert(name =~= seq![46u8]);
        }
        if e == k + 2 && p@[k as int] == 46 && p@[k + 1] == 46 {
            assert(name =~= seq![46u8, 46u8]);
        }
        if !unusable {
            assert(name != seq![46u8] && name != seq![46u8, 46u8]) by {
                if name == seq![46u8] {
                    assert(p@.subrange(k as int, e as int).len() == 1);
                    assert(p@.subrange(k as int, e as int)[0] == 46);
                }
                if name == seq![46u8, 46u8] {
                    assert(p@.subrange(k as int, e as int).len() == 2);
                    assert(p@.subrange(k as int, e as int)[0] == 46);
                    assert(p@.subrange(k as int, e as int)[1] == 46);
                }
            }
        }
    }
    if unusable {
        bytes_range(p, 0, p.len())
    } else {
        bytes_range(p, k, e)
    }
}

/// The enclosing directory of a byte path, where it has one.
pub fn parent_bytes(p: &[u8]) -> (r: Option<Vec<u8>>)
    ensures
        match spec_parent(p@) {
            Some(b) => r matches Some(v) && v@ == b,
            None => r is None,
        },
{
    let mut k: usize = p.len();
    while k > 0 && p[k - 1] != 47
        invariant
            k <= p@.len(),
            forall|j: int| k <= j < p@.len() ==> p@[j] != 47,
        decreases k,
    {
        k = k - 1;
    }
    if k == 0 {
        proof {
            lemma_last_slash_none(p@);
        }
        if p.len() == 0 {
            None
        } else {
            Some(Vec::new())
        }
    } else {
        proof {
            lemma_last_slash_at(p@, k - 1);
        }
        if k == 1 {
            if p.len() == 1 {
                None
            } else {
                Some(bytes_range(p, 0, 1))
            }
        } else {
            Some(bytes_range(p, 0, k - 1))
        }
    }
}

/// The archive name of one byte path against an optional base.
pub fn archive_name_bytes(p: &Vec<u8>, base: Option<&Vec<u8>>) -> (r: Vec<u8>)
    ensures
        r@ == spec_archive_name(p@, match base {
            Some(b) => Some(b@),
            None => None,
        }),
{
    proof {
        assert(p@.subrange(0, p@.len() as int) =~= p@);
    }
    match base {
        Some(b) => {
            if b.len() == 0 {
                return bytes_range(p.as_slice(), 0, p.len());
            }
            if path_starts_with(p, b) {
                let mut lo = b.len();
                if lo < p.len() && p[lo] == 47 {
                    lo = lo + 1;
                }
                proof {
                    let rest = p@.subrange(b@.len() as int, p@.len() as int);
                    if b@.len() < p@.len() && p@[b@.len() as int] == 47 {
                        assert(rest[0] == 47);
                        assert(rest.subrange(1, rest.len() as int) =~= p@.subrange(
                            b@.len() as int + 1,
                            p@.len() as int,
                        ));
                    }
                }
                if lo < p.len() {
                    bytes_range(p.as_slice(), lo, p.len())
                } else {
                    bytes_range(p.as_slice(), 0, p.len())
                }
            } else {
                bytes_range(p.as_slice(), 0, p.len())
            }
        },
        None => file_name_bytes(p.as_slice()),
    }
}

/// Pairs every source path with its name inside the archive, in input
/// order: relative to the base directory when one is known, else the bare
/// file name.
pub fn prepare_entries(files: Vec<Vec<u8>>, base_path: Option<&Vec<u8>>) -> (r: Vec<
    (Vec<u8>, Vec<u8>),
>)
    ensures
        r@.len() == files@.len(),
        forall|i: int|
            0 <= i < files@.len() ==> (#[trigger] r@[i]).1@ == files@[i]@ && r@[i].0@
                == spec_archive_name(files@[i]@, match base_path {
                Some(b) => Some(b@),
                None => None,
            }),
{
    let mut r: Vec<(Vec<u8>, Vec<u8>)> = Vec::new();
    let mut i: usize = 0;
    while i < files.len()
        invariant
            i <= files@.len(),
            r@.len() == i,
            forall|k: int|
                0 <= k < i ==> (#[trigger] r@[k]).1@ == files@[k]@ && r@[k].0@
                    == spec_archive_name(files@[k]@, match base_path {
                    Some(b) => Some(b@),
                    None => None,
                }),
        decreases files@.len() - i,
    {
        let name = archive_name_bytes(&files[i], base_path);
        let path = bytes_range(files[i].as_slice(), 0, files[i].len());
        proof {
            assert(files@[i as int]@.subrange(0, files@[i as int]@.len() as int) =~= files@[
                i as int]@);
        }
        r.push((name, path));
        i = i + 1;
    }
    r
}

/// The base the loop in `find_common_base` converges to: the nearest
/// ancestor of the starting base that every path opens with.
pub open spec fn spec_walk_base(b: Seq<u8>, files: Seq<Seq<u8>>) -> Option<Seq<u8>>
    decreases b.len(),
{
    if forall|i: int| 0 <= i < files.len() ==> spec_path_starts_with(#[trigger] files[i], b) {
        Some(b)
    } else {
        match spec_parent(b) {
            None => None,
            Some(pb) => {
                if pb.len() < b.len() {
                    spec_walk_base(pb, files)
                } else {
                    None
                }
            },
        }
    }
}

/// The common base directory of the files: the parent of the first file,
/// walked upward until it is an ancestor of every file. Nothing when there
/// are no files or no such ancestor exists.
pub fn find_common_base(files: &Vec<Vec<u8>>) -> (r: Option<Vec<u8>>)
    ensures
        files@.len() == 0 ==> r is None,
        files@.len() > 0 ==> ({
            let views = files@.map_values(|f: Vec<u8>| f@);
            match spec_parent(files@[0]@) {
                None => r is None,
                Some(b0) => match spec_walk_base(b0, views) {
                    Some(b) => r matches Some(v) && v@ == b,
                    None => r is None,
                },
            }
        }),
        r matches Some(v) ==> forall|i: int|
            0 <= i < files@.len() ==> spec_path_starts_with((#[trigger] files@[i])@, v@),
{
    if files.len() == 0 {
        return None;
    }
    let ghost views = files@.map_values(|f: Vec<u8>| f@);
    let mut base = match parent_bytes(files[0].as_slice()) {
        Some(b) => b,
        None => {
            return None;
        },
    };
    loop
        invariant
            views == files@.map_values(|f: Vec<u8>| f@),
            views.len() == files@.len() > 0,
            spec_walk_base(base@, views) == spec_walk_base(
                spec_parent(files@[0]@)->Some_0,
                views,
            ),
            spec_parent(files@[0]@) is Some,
        decreases base@.len(),
    {
        let mut all_ok = true;
        let mut i: usize = 0;
        while i < files.len() && all_ok
            invariant
                i <= files@.len(),
                views == files@.map_values(|f: Vec<u8>| f@),
                views.len() == files@.len(),
                all_ok ==> forall|k: int|
                    0 <= k < i ==> spec_path_starts_with(#[trigger] views[k], base@),
                !all_ok ==> !(forall|k: int|
                    0 <= k < views.len() ==> spec_path_starts_with(#[trigger] views[k], base@)),
            decreases files@.len() - i + if all_ok {
                1int
            } else {
                0int
            },
        {
            let ok = path_starts_with(&files[i], &base);
            proof {
                assert(views[i as int] == files@[i as int]@);
            }
            if !ok {
                all_ok = false;
            } else {
                i = i + 1;
            }
        }
        if all_ok {
            proof {
                assert forall|k: int| 0 <= k < files@.len() implies spec_path_starts_with(
                    (#[trigger] files@[k])@,
                    base@,
                ) by {
                    assert(views[k] == files@[k]@);
                    assert(spec_path_starts_with(views[k], base@));
                }
            }
            return Some(base);
        }
        let ghost ob = base@;
        base = match parent_bytes(base.as_slice()) {
            Some(pb) => pb,
            None => {
                return None;
            },
        };
        proof {
            if spec_last_slash(ob) is Some {
                lemma_last_slash_bounds(ob);
            }
            assert(base@.len() < ob.len());
            assert(spec_walk_base(ob, views) == spec_walk_base(base@, views));
        }
    }
}

} // verus!
