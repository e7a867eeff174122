//! Blob file reference counts. A path's count is the number of surviving
//! versions seen referencing it so far; a path present with count zero is
//! known and unreferenced, and is safe to delete once every listing has
//! arrived.

use vstd::prelude::*;

verus! {

/// One blob path with its reference count.
pub struct FileRefEntry {
    pub path: String,
    pub count: u64,
}

/// No path appears twice.
pub open spec fn unique_paths(entries: Seq<FileRefEntry>) -> bool {
    forall|i: int, j: int|
        0 <= i < j < entries.len() ==> (#[trigger] entries[i]).path@ != (
        #[trigger] entries[j]).path@
}

/// Whether the table mentions `p`.
pub open spec fn has_path(entries: Seq<FileRefEntry>, p: Seq<char>) -> bool {
    exists|i: int| 0 <= i < entries.len() && (#[trigger] entries[i]).path@ == p
}

/// The count stored for `p`; meaningful only when present and unique.
pub open spec fn count_of(entries: Seq<FileRefEntry>, p: Seq<char>) -> u64 {
    entries[choose|i: int| 0 <= i < entries.len() && (#[trigger] entries[i]).path@ == p].count
}

/// Whether some string of `paths` reads `p`.
pub open spec fn mentions(paths: Seq<String>, p: Seq<char>) -> bool {
    exists|i: int| 0 <= i < paths.len() && (#[trigger] paths[i])@ == p
}

/// Records one more surviving reference to `path`, inserting it at count 1
/// when it is new.
pub fn bump(entries: &mut Vec<FileRefEntry>, path: &String)
    requires
        unique_paths(old(entries)@),
        has_path(old(entries)@, path@) ==> count_of(old(entries)@, path@) < u64::MAX,
    ensures
        unique_paths(final(entries)@),
        forall|q: Seq<char>|
            #[trigger] has_path(final(entries)@, q) <==> has_path(old(entries)@, q) || q == path@,
        count_of(final(entries)@, path@) == if has_path(old(entries)@, path@) {
            count_of(old(entries)@, path@) + 1
        } else {
            1int
        },
        forall|q: Seq<char>|
            q != path@ && #[trigger] has_path(old(entries)@, q) ==> count_of(final(entries)@, q)
                == count_of(old(entries)@, q),
{
    let ghost orig = old(entries)@;
    let mut i: usize = 0;
    while i < entries.len()
        invariant
            0 <= i <= entries@.len(),
            entries@ == orig,
            orig == old(entries)@,
            has_path(orig, path@) ==> count_of(orig, path@) < u64::MAX,
            unique_paths(orig),
            forall|m: int| 0 <= m < i ==> (#[trigger] orig[m]).path@ != path@,
        decreases entries@.len() - i,
    {
        if entries[i].path == *path {
            proof {
                assert(orig[i as int].path@ == path@);
                assert(has_path(orig, path@));
                assert(count_of(orig, path@) == orig[i as int].count) by {
                    let c0 = choose|c: int|
                        0 <= c < orig.len() && (#[trigger] orig[c]).path@ == path@;
                    if c0 != i as int {
                        assert(false);
                    }
                }
            }
            let c = entries[i].count;
            let p = entries[i].path.clone();
            entries[i] = FileRefEntry { path: p, count: c + 1 };
            proof {
                lemma_update_count(orig, entries@, i as int, path@);
                assert forall|q: Seq<char>|
                    has_path(orig, q) || q == path@ implies #[trigger] has_path(entries@, q) by {
                    if q == path@ {
                        assert(has_path(orig, path@));
                    }
                }
            }
            return ;
        }
        i += 1;
    }
    proof {
        assert(!has_path(orig, path@));
    }
    entries.push(FileRefEntry { path: path.clone(), count: 1 });
    proof {
        lemma_append_entry(orig, entries@, path@, 1u64);
    }
}

/// Makes `path` known with count zero when it is new; an already-known path
/// keeps its count.
pub fn touch(entries: &mut Vec<FileRefEntry>, path: &String)
    requires
        unique_paths(old(entries)@),
    ensures
        unique_paths(final(entries)@),
        forall|q: Seq<char>|
            #[trigger] has_path(final(entries)@, q) <==> has_path(old(entries)@, q) || q == path@,
        count_of(final(entries)@, path@) == if has_path(old(entries)@, path@) {
            count_of(old(entries)@, path@)
        } else {
            0u64
        },
        forall|q: Seq<char>|
            q != path@ && #[trigger] has_path(old(entries)@, q) ==> count_of(final(entries)@, q)
                == count_of(old(entries)@, q),
{
    let ghost orig = old(entries)@;
    let mut i: usize = 0;
    while i < entries.len()
        invariant
            0 <= i <= entries@.len(),
            entries@ == orig,
            orig == old(entries)@,
            unique_paths(orig),
            forall|m: int| 0 <= m < i ==> (#[trigger] orig[m]).path@ != path@,
        decreases entries@.len() - i,
    {
        if entries[i].path == *path {
            proof {
                assert(orig[i as int].path@ == path@);
                assert(has_path(orig, path@));
                let c0 = choose|c: int| 0 <= c < orig.len() && (#[trigger] orig[c]).path@ == path@;
                assert(c0 == i as int) by {
                    if c0 != i as int {
                        assert(false);
                    }
                }
                assert forall|q: Seq<char>| #[trigger] has_path(entries@, q) implies has_path(
                    orig,
                    q,
                ) || q == path@ by {}
            }
            return ;
        }
        i += 1;
    }
    proof {
        assert(!has_path(orig, path@));
    }
    entries.push(FileRefEntry { path: path.clone(), count: 0 });
    proof {
        lemma_append_entry(orig, entries@, path@, 0u64);
    }
}

/// Updating the count at the entry's own index changes that path alone.
proof fn lemma_update_count(orig: Seq<FileRefEntry>, now: Seq<FileRefEntry>, i: int, p: Seq<char>)
    requires
        unique_paths(orig),
        0 <= i < orig.len(),
        orig[i].path@ == p,
        now.len() == orig.len(),
        now[i].path@ == p,
        forall|m: int| 0 <= m < orig.len() && m != i ==> #[trigger] now[m] == orig[m],
    ensures
        unique_paths(now),
        forall|q: Seq<char>| #[trigger] has_path(now, q) <==> has_path(orig, q),
        count_of(now, p) == now[i].count,
        forall|q: Seq<char>|
            q != p && #[trigger] has_path(orig, q) ==> count_of(now, q) == count_of(orig, q),
{
    assert forall|a: int, b: int| 0 <= a < b < now.len() implies (#[trigger] now[a]).path@ != (
    #[trigger] now[b]).path@ by {
        assert(orig[a].path@ != orig[b].path@);
    }
    assert forall|q: Seq<char>| #[trigger] has_path(now, q) implies has_path(orig, q) by {
        let k = choose|k: int| 0 <= k < now.len() && (#[trigger] now[k]).path@ == q;
        assert(orig[k].path@ == q);
    }
    assert forall|q: Seq<char>| #[trigger] has_path(orig, q) implies has_path(now, q) by {
        let k = choose|k: int| 0 <= k < orig.len() && (#[trigger] orig[k]).path@ == q;
        assert(now[k].path@ == q);
    }
    assert(count_of(now, p) == now[i].count) by {
        let k = choose|k: int| 0 <= k < now.len() && (#[trigger] now[k]).path@ == p;
        if k != i {
            assert(false);
        }
    }
    assert forall|q: Seq<char>|
        q != p && #[trigger] has_path(orig, q) implies count_of(now, q) == count_of(orig, q) by {
        let k1 = choose|k: int| 0 <= k < now.len() && (#[trigger] now[k]).path@ == q;
        let k2 = choose|k: int| 0 <= k < orig.len() && (#[trigger] orig[k]).path@ == q;
        if k1 != k2 {
            assert(now[k2].path@ == q);
            assert(false);
        }
        assert(k1 != i);
    }
}

/// Appending a fresh path leaves every other count alone.
proof fn lemma_append_entry(orig: Seq<FileRefEntry>, now: Seq<FileRefEntry>, p: Seq<char>, c: u64)
    requires
        unique_paths(orig),
        !has_path(orig, p),
        now.len() == orig.len() + 1,
        now[now.len() - 1].path@ == p,
        now[now.len() - 1].count == c,
        forall|m: int| 0 <= m < orig.len() ==> #[trigger] now[m] == orig[m],
    ensures
        unique_paths(now),
        forall|q: Seq<char>| #[trigger] has_path(now, q) <==> has_path(orig, q) || q == p,
        count_of(now, p) == c,
        forall|q: Seq<char>|
            q != p && #[trigger] has_path(orig, q) ==> count_of(now, q) == count_of(orig, q),
{
    let last = now.len() - 1;
    assert forall|a: int, b: int| 0 <= a < b < now.len() implies (#[trigger] now[a]).path@ != (
    #[trigger] now[b]).path@ by {
        if b < last {
            assert(orig[a].path@ != orig[b].path@);
        } else {
            assert(b == last);
            if now[a].path@ == p {
                assert(orig[a].path@ == p);
                assert(false);
            }
        }
    }
    assert forall|q: Seq<char>| #[trigger] has_path(now, q) implies has_path(orig, q) || q == p by {
        let k = choose|k: int| 0 <= k < now.len() && (#[trigger] now[k]).path@ == q;
        if k < last {
            assert(orig[k].path@ == q);
        }
    }
    assert forall|q: Seq<char>| has_path(orig, q) implies has_path(now, q) by {
        let k = choose|k: int| 0 <= k < orig.len() && (#[trigger] orig[k]).path@ == q;
        assert(now[k].path@ == q);
    }
    assert(has_path(now, p)) by {
        assert(now[last].path@ == p);
    }
    assert(count_of(now, p) == c) by {
        let k = choose|k: int| 0 <= k < now.len() && (#[trigger] now[k]).path@ == p;
        if k != last {
            assert(orig[k].path@ == p);
            assert(false);
        }
    }
    assert forall|q: Seq<char>|
        q != p && #[trigger] has_path(orig, q) implies count_of(now, q) == count_of(orig, q) by {
        let k1 = choose|k: int| 0 <= k < now.len() && (#[trigger] now[k]).path@ == q;
        let k2 = choose|k: int| 0 <= k < orig.len() && (#[trigger] orig[k]).path@ == q;
        assert(now[k2].path@ == q);
        if k1 != k2 {
            assert(false);
        }
    }
}

/// Drops repeated paths, keeping first occurrences.
pub fn dedup_paths(paths: &Vec<String>) -> (r: Vec<String>)
    ensures
        forall|i: int, j: int| 0 <= i < j < r@.len() ==> (#[trigger] r@[i])@ != (#[trigger] r@[j])@,
        forall|p: Seq<char>| #[trigger] mentions(r@, p) <==> mentions(paths@, p),
{
    let mut r: Vec<String> = Vec::new();
    let mut i: usize = 0;
    while i < paths.len()
        invariant
            0 <= i <= paths@.len(),
            forall|a: int, b: int|
                0 <= a < b < r@.len() ==> (#[trigger] r@[a])@ != (#[trigger] r@[b])@,
            forall|p: Seq<char>|
                #[trigger] mentions(r@, p) ==> mentions(paths@, p),
            forall|m: int| 0 <= m < i ==> mentions(r@, (#[trigger] paths@[m])@),
        decreases paths@.len() - i,
    {
        let mut seen = false;
        let mut k: usize = 0;
        while k < r.len()
            invariant
                0 <= k <= r@.len(),
                i < paths@.len(),
                seen == exists|t: int| 0 <= t < k && (#[trigger] r@[t])@ == paths@[i as int]@,
            decreases r@.len() - k,
        {
            if r[k] == paths[i] {
                seen = true;
            }
            k += 1;
        }
        if !seen {
            let ghost prev = r@;
            r.push(paths[i].clone());
            proof {
                assert(r@[r@.len() - 1]@ == paths@[i as int]@);
                assert forall|p: Seq<char>| #[trigger] mentions(r@, p) implies mentions(prev, p)
                    || p == paths@[i as int]@ by {
                    let k2 = choose|k2: int| 0 <= k2 < r@.len() && (#[trigger] r@[k2])@ == p;
                    if k2 < prev.len() {
                        assert(prev[k2]@ == p);
                    }
                }
                assert forall|p: Seq<char>| mentions(prev, p) implies mentions(r@, p) by {
                    let k2 = choose|k2: int| 0 <= k2 < prev.len() && (#[trigger] prev[k2])@ == p;
                    assert(r@[k2]@ == p);
                }
            }
        } else {
            proof {
                let t = choose|t: int| 0 <= t < r@.len() && (#[trigger] r@[t])@ == paths@[i as int]@;
                assert(mentions(r@, paths@[i as int]@));
            }
        }
        i += 1;
    }
    proof {
        assert forall|p: Seq<char>| mentions(paths@, p) implies mentions(r@, p) by {
            let m = choose|m: int| 0 <= m < paths@.len() && (#[trigger] paths@[m])@ == p;
            assert(mentions(r@, paths@[m]@));
        }
    }
    r
}

/// The paths known with count zero: the blobs no surviving version
/// references.
pub fn zero_count_paths(entries: &Vec<FileRefEntry>) -> (r: Vec<String>)
    requires
        unique_paths(entries@),
    ensures
        forall|i: int, j: int| 0 <= i < j < r@.len() ==> (#[trigger] r@[i])@ != (#[trigger] r@[j])@,
        forall|p: Seq<char>|
            #[trigger] mentions(r@, p) <==> has_path(entries@, p) && count_of(entries@, p) == 0,
{
    let mut r: Vec<String> = Vec::new();
    let mut i: usize = 0;
    while i < entries.len()
        invariant
            0 <= i <= entries@.len(),
            unique_paths(entries@),
            forall|a: int, b: int|
                0 <= a < b < r@.len() ==> (#[trigger] r@[a])@ != (#[trigger] r@[b])@,
            forall|p: Seq<char>|
                #[trigger] mentions(r@, p) ==> has_path(entries@, p) && count_of(entries@, p) == 0,
            forall|m: int|
                0 <= m < i && (#[trigger] entries@[m]).count == 0 ==> mentions(r@, entries@[m].path@),
            forall|a: int|
                0 <= a < r@.len() ==> exists|m: int|
                    0 <= m < i && (#[trigger] r@[a])@ == entries@[m].path@,
        decreases entries@.len() - i,
    {
        if entries[i].count == 0 {
            let ghost prev = r@;
            r.push(entries[i].path.clone());
            proof {
                assert(r@[r@.len() - 1]@ == entries@[i as int].path@);
                assert forall|a: int, b: int|
                    0 <= a < b < r@.len() implies (#[trigger] r@[a])@ != (#[trigger] r@[b])@ by {
                    if b == r@.len() - 1 {
                        let m = choose|m: int|
                            0 <= m < i && (#[trigger] prev[a])@ == entries@[m].path@;
                        assert(entries@[m].path@ != entries@[i as int].path@);
                    } else {
                        assert(prev[a]@ != prev[b]@);
                    }
                }
                assert(has_path(entries@, entries@[i as int].path@)) by {
                    assert(entries@[i as int].path@ == entries@[i as int].path@);
                }
                assert(count_of(entries@, entries@[i as int].path@) == 0) by {
                    let k = choose|k: int|
                        0 <= k < entries@.len() && (#[trigger] entries@[k]).path@ == entries@[i as int].path@;
                    if k != i {
                        assert(false);
                    }
                }
                assert forall|p: Seq<char>| #[trigger] mentions(r@, p) implies mentions(prev, p)
                    || p == entries@[i as int].path@ by {
                    let k2 = choose|k2: int| 0 <= k2 < r@.len() && (#[trigger] r@[k2])@ == p;
                    if k2 < prev.len() {
                        assert(prev[k2]@ == p);
                    }
                }
                assert forall|p: Seq<char>| mentions(prev, p) implies mentions(r@, p) by {
                    let k2 = choose|k2: int| 0 <= k2 < prev.len() && (#[trigger] prev[k2])@ == p;
                    assert(r@[k2]@ == p);
                }
            }
        }
        i += 1;
    }
    proof {
        assert forall|p: Seq<char>|
            has_path(entries@, p) && count_of(entries@, p) == 0 implies mentions(r@, p) by {
            let k = choose|k: int| 0 <= k < entries@.len() && (#[trigger] entries@[k]).path@ == p;
            assert(entries@[k].count == count_of(entries@, p)) by {
                let k2 = choose|k2: int|
                    0 <= k2 < entries@.len() && (#[trigger] entries@[k2]).path@ == p;
                if k2 != k {
                    assert(false);
                }
            }
            assert(mentions(r@, entries@[k].path@));
        }
    }
    r
}

} // verus!
