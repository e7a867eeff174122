//! Lookups into the loaded version files: find a collection's version file,
//! find a version's entry in a version history, and read its fields.

use vstd::prelude::*;

use crate::types::{CollectionId, CollectionVersionFile, VersionInfo};

verus! {

/// One loaded version file, keyed by its collection.
pub struct VersionFileEntry {
    pub collection_id: CollectionId,
    pub file: CollectionVersionFile,
}

/// No collection appears twice in the table.
pub open spec fn unique_file_ids(files: Seq<VersionFileEntry>) -> bool {
    forall|i: int, j: int|
        0 <= i < j < files.len() ==> (#[trigger] files[i]).collection_id != (
        #[trigger] files[j]).collection_id
}

/// Whether the table holds a version file for `cid`.
pub open spec fn has_version_file(files: Seq<VersionFileEntry>, cid: CollectionId) -> bool {
    exists|i: int| 0 <= i < files.len() && (#[trigger] files[i]).collection_id == cid
}

/// The version file stored for `cid`; meaningful only when the table has one
/// and its ids are unique.
pub open spec fn version_file_for(
    files: Seq<VersionFileEntry>,
    cid: CollectionId,
) -> CollectionVersionFile {
    files[choose|i: int| 0 <= i < files.len() && (#[trigger] files[i]).collection_id == cid].file
}

/// The first entry for `version` in a version history, scanning from `from`.
pub open spec fn first_info_from(h: Seq<VersionInfo>, version: u64, from: int) -> Option<VersionInfo>
    decreases h.len() - from,
{
    if from < 0 || from >= h.len() {
        None
    } else if h[from].version == version {
        Some(h[from])
    } else {
        first_info_from(h, version, from + 1)
    }
}

/// The first entry for `version` in a version history.
pub open spec fn info_for(h: Seq<VersionInfo>, version: u64) -> Option<VersionInfo> {
    first_info_from(h, version, 0)
}

/// The creation time recorded for `version`, when the file has a history
/// that mentions it.
pub open spec fn created_at_of(file: CollectionVersionFile, version: u64) -> Option<i64> {
    match file.version_history {
        Some(h) => match info_for(h@, version) {
            Some(vi) => Some(vi.created_at),
            None => None,
        },
        None => None,
    }
}

/// The log position recorded for `version`, when the file has a history that
/// mentions it.
pub open spec fn log_position_of(file: CollectionVersionFile, version: u64) -> Option<i64> {
    match file.version_history {
        Some(h) => match info_for(h@, version) {
            Some(vi) => Some(vi.current_log_position),
            None => None,
        },
        None => None,
    }
}

/// Checks that no collection appears twice in the table.
pub fn validate_unique_files(files: &Vec<VersionFileEntry>) -> (r: bool)
    ensures
        r == unique_file_ids(files@),
{
    let mut i: usize = 0;
    while i < files.len()
        invariant
            0 <= i <= files@.len(),
            forall|a: int, b: int|
                0 <= a < b < files@.len() && b < i ==> (#[trigger] files@[a]).collection_id != (
                #[trigger] files@[b]).collection_id,
        decreases files@.len() - i,
    {
        let mut j: usize = 0;
        while j < i
            invariant
                0 <= j <= i < files@.len(),
                forall|a: int|
                    0 <= a < j ==> (#[trigger] files@[a]).collection_id
                        != files@[i as int].collection_id,
            decreases i - j,
        {
            if files[j].collection_id == files[i].collection_id {
                return false;
            }
            j += 1;
        }
        i += 1;
    }
    true
}

/// Finds the version file for `cid`.
pub fn find_version_file<'a>(files: &'a Vec<VersionFileEntry>, cid: CollectionId) -> (r: Option<
    &'a CollectionVersionFile,
>)
    requires
        unique_file_ids(files@),
    ensures
        r is Some <==> has_version_file(files@, cid),
        r matches Some(f) ==> *f == version_file_for(files@, cid),
{
    let mut i: usize = 0;
    while i < files.len()
        invariant
            0 <= i <= files@.len(),
            unique_file_ids(files@),
            forall|m: int| 0 <= m < i ==> (#[trigger] files@[m]).collection_id != cid,
        decreases files@.len() - i,
    {
        if files[i].collection_id == cid {
            return Some(&files[i].file);
        }
        i += 1;
    }
    None
}

/// Finds the history entry for `version`.
pub fn find_version_info<'a>(h: &'a Vec<VersionInfo>, version: u64) -> (r: Option<&'a VersionInfo>)
    ensures
        match r {
            Some(vi) => info_for(h@, version) == Some(*vi),
            None => info_for(h@, version) is None,
        },
{
    let mut i: usize = 0;
    while i < h.len()
        invariant
            0 <= i <= h@.len(),
            info_for(h@, version) == first_info_from(h@, version, i as int),
        decreases h@.len() - i,
    {
        if h[i].version == version {
            return Some(&h[i]);
        }
        i += 1;
    }
    None
}

/// Removing one element of a duplicate-free sequence removes exactly it.
pub proof fn lemma_remove_element<T>(s: Seq<T>, i: int)
    requires
        0 <= i < s.len(),
        s.no_duplicates(),
    ensures
        s.remove(i).no_duplicates(),
        forall|x: T| #[trigger] s.remove(i).contains(x) <==> (s.contains(x) && x != s[i]),
{
    let r = s.remove(i);
    assert forall|x: T| #[trigger] r.contains(x) implies (s.contains(x) && x != s[i]) by {
        let k = choose|k: int| 0 <= k < r.len() && r[k] == x;
        if k < i {
            assert(s[k] == x);
        } else {
            assert(s[k + 1] == x);
        }
    }
    assert forall|x: T| s.contains(x) && x != s[i] implies r.contains(x) by {
        let k = choose|k: int| 0 <= k < s.len() && s[k] == x;
        if k < i {
            assert(r[k] == x);
        } else {
            assert(k > i);
            assert(r[k - 1] == x);
        }
    }
}

/// Whether `ids` mentions `cid`.
pub fn contains_cid(ids: &Vec<CollectionId>, cid: CollectionId) -> (r: bool)
    ensures
        r == ids@.contains(cid),
{
    let mut i: usize = 0;
    while i < ids.len()
        invariant
            0 <= i <= ids@.len(),
            forall|m: int| 0 <= m < i ==> ids@[m] != cid,
        decreases ids@.len() - i,
    {
        if ids[i] == cid {
            return true;
        }
        i += 1;
    }
    false
}

} // verus!
