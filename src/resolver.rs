use vstd::prelude::*;

use crate::error::ResolverError;
use crate::hash::{get_dll_name_hash, hash_of};
use crate::layout::{
    get_api_set_hash_entry, get_api_set_namespace_entry, get_api_set_value_entry, hash_entry_at,
    hash_entry_offset, header_at, namespace_entry_at, namespace_entry_offset, read_namespace_header,
    value_entry_at, value_entry_offset, HashEntry, NamespaceEntry, NamespaceHeader, ValueEntry,
    HASH_ENTRY_SIZE, NAMESPACE_ENTRY_SIZE, VALUE_ENTRY_SIZE,
};
use crate::names::{get_dll_name_without_extension, stripped_name};
use crate::wide::{decode_utf16_field, field_holds, wide_field, wide_field_ok, wide_units};

verus! {

/// The hashed name of `e` lies inside `b` with an even length.
pub open spec fn entry_name_ok(b: Seq<u8>, e: NamespaceEntry) -> bool {
    wide_field_ok(b, e.name_offset as int, e.hashed_length as int)
}

/// The part of the name of `e` that the namespace hashed.
pub open spec fn entry_name(b: Seq<u8>, e: NamespaceEntry) -> Seq<char> {
    wide_field(b, e.name_offset as int, e.hashed_length as int)
}

/// The library name of `v` lies inside `b` with an even length.
pub open spec fn value_name_ok(b: Seq<u8>, v: ValueEntry) -> bool {
    wide_field_ok(b, v.value_offset as int, v.value_length as int)
}

/// The library name that `v` redirects to.
pub open spec fn value_name(b: Seq<u8>, v: ValueEntry) -> Seq<char> {
    wide_field(b, v.value_offset as int, v.value_length as int)
}

/// The entry of the `j`-th hash entry, examined: its first value entry when
/// its hashed name is `needle` and it has a value, `None` when not, and
/// `OutOfBounds` when a record or the name read on the way lies outside `b`.
pub open spec fn check_entry(b: Seq<u8>, h: NamespaceHeader, needle: Seq<char>, j: int) -> Result<
    Option<ValueEntry>,
    ResolverError,
> {
    match namespace_entry_at(b, h, j) {
        Err(e) => Err(e),
        Ok(ne) => if !entry_name_ok(b, ne) {
            Err(ResolverError::OutOfBounds)
        } else if entry_name(b, ne) == needle && ne.value_count > 0 {
            match value_entry_at(b, ne, 0) {
                Err(e) => Err(e),
                Ok(v) => Ok(Some(v)),
            }
        } else {
            Ok(None)
        },
    }
}

/// The run of hash entries that carry `hash`, examined downwards from `j`:
/// the first entry that yields a value, `None` once the run or the table ends.
pub open spec fn scan_down(b: Seq<u8>, h: NamespaceHeader, hash: u32, needle: Seq<char>, j: int) -> Result<
    Option<ValueEntry>,
    ResolverError,
>
    decreases j + 1,
{
    if j < 0 {
        Ok(None)
    } else {
        match hash_entry_at(b, h, j) {
            Err(e) => Err(e),
            Ok(he) => if he.hash != hash {
                Ok(None)
            } else {
                match check_entry(b, h, needle, j) {
                    Err(e) => Err(e),
                    Ok(Some(v)) => Ok(Some(v)),
                    Ok(None) => scan_down(b, h, hash, needle, j - 1),
                }
            },
        }
    }
}

/// The run of hash entries that carry `hash`, examined upwards from `j`:
/// the first entry that yields a value, `None` once the run or the table ends.
pub open spec fn scan_up(b: Seq<u8>, h: NamespaceHeader, hash: u32, needle: Seq<char>, j: int) -> Result<
    Option<ValueEntry>,
    ResolverError,
>
    decreases h.count - j,
{
    if j >= h.count {
        Ok(None)
    } else {
        match hash_entry_at(b, h, j) {
            Err(e) => Err(e),
            Ok(he) => if he.hash != hash {
                Ok(None)
            } else {
                match check_entry(b, h, needle, j) {
                    Err(e) => Err(e),
                    Ok(Some(v)) => Ok(Some(v)),
                    Ok(None) => scan_up(b, h, hash, needle, j + 1),
                }
            },
        }
    }
}

/// The whole run of hash entries that carry `hash` around `mid`, which
/// carries it: `mid` first, then the entries below it, then those above.
pub open spec fn scan_run(b: Seq<u8>, h: NamespaceHeader, hash: u32, needle: Seq<char>, mid: int) -> Result<
    Option<ValueEntry>,
    ResolverError,
> {
    match check_entry(b, h, needle, mid) {
        Err(e) => Err(e),
        Ok(Some(v)) => Ok(Some(v)),
        Ok(None) => match scan_down(b, h, hash, needle, mid - 1) {
            Err(e) => Err(e),
            Ok(Some(v)) => Ok(Some(v)),
            Ok(None) => scan_up(b, h, hash, needle, mid + 1),
        },
    }
}

/// The search of the hash entries `[lo, hi)` for `hash`: halve the range by
/// comparing with the middle entry; on an equal hash, look through the whole
/// run of entries with that hash for one whose hashed name is `needle` and
/// that has a value. Any record or name read outside `b` gives `OutOfBounds`.
pub open spec fn search(
    b: Seq<u8>,
    h: NamespaceHeader,
    hash: u32,
    needle: Seq<char>,
    lo: int,
    hi: int,
) -> Result<Option<ValueEntry>, ResolverError>
    decreases hi - lo,
{
    if lo >= hi {
        Ok(None)
    } else {
        let mid = (lo + hi) / 2;
        match hash_entry_at(b, h, mid) {
            Err(e) => Err(e),
            Ok(he) => if hash < he.hash {
                search(b, h, hash, needle, lo, mid)
            } else if hash > he.hash {
                search(b, h, hash, needle, mid + 1, hi)
            } else {
                scan_run(b, h, hash, needle, mid)
            },
        }
    }
}

/// Reads the hashed part of the name of `entry`, or `OutOfBounds` when it does
/// not lie inside the blob or its length is odd.
pub fn get_api_set_hash_name_of_entry(blob: &[u8], entry: &NamespaceEntry) -> (r: Result<
    String,
    ResolverError,
>)
    ensures
        match r {
            Ok(s) => entry_name_ok(blob@, *entry) && s@ == entry_name(blob@, *entry),
            Err(e) => !entry_name_ok(blob@, *entry) && e == ResolverError::OutOfBounds,
        },
        forall|t: Seq<char>|
            #[trigger] field_holds(blob@, entry.name_offset as int, entry.hashed_length as int, t)
                ==> r is Ok && r->Ok_0@ == t,
{
    decode_utf16_field(blob, entry.name_offset, entry.hashed_length)
}

/// Reads the library name that `entry` redirects to, or `OutOfBounds` when it
/// does not lie inside the blob or its length is odd.
pub fn get_api_set_value_of_entry_value(blob: &[u8], entry: &ValueEntry) -> (r: Result<
    String,
    ResolverError,
>)
    ensures
        match r {
            Ok(s) => value_name_ok(blob@, *entry) && s@ == value_name(blob@, *entry),
            Err(e) => !value_name_ok(blob@, *entry) && e == ResolverError::OutOfBounds,
        },
        forall|t: Seq<char>|
            #[trigger] field_holds(blob@, entry.value_offset as int, entry.value_length as int, t)
                ==> r is Ok && r->Ok_0@ == t,
{
    decode_utf16_field(blob, entry.value_offset, entry.value_length)
}

/// Examines the entry of the `j`-th hash entry against `needle`.
fn check_entry_at(blob: &[u8], header: &NamespaceHeader, needle: &String, j: u32) -> (r: Result<
    Option<ValueEntry>,
    ResolverError,
>)
    ensures
        r == check_entry(blob@, *header, needle@, j as int),
{
    let found = match get_api_set_namespace_entry(blob, header, j) {
        Err(e) => return Err(e),
        Ok(ne) => ne,
    };
    let entry_name = match get_api_set_hash_name_of_entry(blob, &found) {
        Err(e) => return Err(e),
        Ok(s) => s,
    };
    if entry_name == *needle && found.value_count > 0 {
        match get_api_set_value_entry(blob, &found, 0) {
            Err(e) => Err(e),
            Ok(v) => Ok(Some(v)),
        }
    } else {
        Ok(None)
    }
}

/// Examines the run of entries carrying `hash` downwards from `mid - 1`.
fn scan_below(blob: &[u8], header: &NamespaceHeader, hash: u32, needle: &String, mid: u32) -> (r:
    Result<Option<ValueEntry>, ResolverError>)
    ensures
        r == scan_down(blob@, *header, hash, needle@, mid - 1),
{
    let mut k: u32 = mid;
    while k > 0
        invariant
            k <= mid,
            scan_down(blob@, *header, hash, needle@, k - 1) == scan_down(
                blob@,
                *header,
                hash,
                needle@,
                mid - 1,
            ),
        decreases k,
    {
        let j = k - 1;
        let he = match get_api_set_hash_entry(blob, header, j) {
            Err(e) => return Err(e),
            Ok(he) => he,
        };
        if he.hash != hash {
            return Ok(None);
        }
        match check_entry_at(blob, header, needle, j) {
            Err(e) => return Err(e),
            Ok(Some(v)) => return Ok(Some(v)),
            Ok(None) => {},
        }
        k = j;
    }
    Ok(None)
}

/// Examines the run of entries carrying `hash` upwards from `mid + 1`.
fn scan_above(blob: &[u8], header: &NamespaceHeader, hash: u32, needle: &String, mid: u32) -> (r:
    Result<Option<ValueEntry>, ResolverError>)
    requires
        mid < header.count,
    ensures
        r == scan_up(blob@, *header, hash, needle@, mid + 1),
{
    let mut j: u32 = mid + 1;
    while j < header.count
        invariant
            mid < j <= header.count,
            scan_up(blob@, *header, hash, needle@, j as int) == scan_up(
                blob@,
                *header,
                hash,
                needle@,
                mid + 1,
            ),
        decreases header.count - j,
    {
        let he = match get_api_set_hash_entry(blob, header, j) {
            Err(e) => return Err(e),
            Ok(he) => he,
        };
        if he.hash != hash {
            return Ok(None);
        }
        match check_entry_at(blob, header, needle, j) {
            Err(e) => return Err(e),
            Ok(Some(v)) => return Ok(Some(v)),
            Ok(None) => {},
        }
        j = j + 1;
    }
    Ok(None)
}

/// The binary search over the whole table, as `search` describes it.
fn search_table(blob: &[u8], header: &NamespaceHeader, hash: u32, name_without_extension: &str) -> (r:
    Result<Option<ValueEntry>, ResolverError>)
    ensures
        r == search(blob@, *header, hash, name_without_extension@, 0, header.count as int),
{
    let needle = String::from_str(name_without_extension);
    let mut lower_bound: u32 = 0;
    let mut upper_bound: u32 = header.count;
    while lower_bound < upper_bound
        invariant
            lower_bound <= upper_bound <= header.count,
            needle@ == name_without_extension@,
            search(blob@, *header, hash, needle@, lower_bound as int, upper_bound as int) == search(
                blob@,
                *header,
                hash,
                needle@,
                0,
                header.count as int,
            ),
        decreases upper_bound - lower_bound,
    {
        let mid = lower_bound + (upper_bound - lower_bound) / 2;
        assert(mid == (lower_bound + upper_bound) / 2);
        let he = match get_api_set_hash_entry(blob, header, mid) {
            Err(e) => return Err(e),
            Ok(he) => he,
        };
        if hash < he.hash {
            upper_bound = mid;
        } else if hash > he.hash {
            lower_bound = mid + 1;
        } else {
            match check_entry_at(blob, header, &needle, mid) {
                Err(e) => return Err(e),
                Ok(Some(v)) => return Ok(Some(v)),
                Ok(None) => {},
            }
            match scan_below(blob, header, hash, &needle, mid) {
                Err(e) => return Err(e),
                Ok(Some(v)) => return Ok(Some(v)),
                Ok(None) => {},
            }
            return scan_above(blob, header, hash, &needle, mid);
        }
    }
    Ok(None)
}

/// Searches the hash table for the entry of `name_without_extension`, whose
/// hash is `hash`, and returns its first value entry. On an equal hash the
/// whole run of entries with that hash is looked through: a value found
/// belongs to an entry with that hash and that stored name, and in a sorted
/// table whose entries with the hash can be examined, `Ok(None)` means that no
/// entry with that hash carries that name and a value.
pub fn get_api_set_redirect_by_hash(
    blob: &[u8],
    header: &NamespaceHeader,
    hash: u32,
    name_without_extension: &str,
) -> (r: Result<Option<ValueEntry>, ResolverError>)
    ensures
        r == search(blob@, *header, hash, name_without_extension@, 0, header.count as int),
        r is Ok && r->Ok_0 is Some ==> exists|i: int|
            0 <= i < header.count && entry_redirects(
                blob@,
                *header,
                i,
                hash,
                name_without_extension@,
                r->Ok_0->Some_0,
            ),
        hash_table_sorted(blob@, *header) && run_readable(
            blob@,
            *header,
            hash,
            name_without_extension@,
        ) && (exists|i: int, v: ValueEntry|
            0 <= i < header.count && entry_redirects(
                blob@,
                *header,
                i,
                hash,
                name_without_extension@,
                v,
            )) ==> r is Ok && r->Ok_0 is Some,
{
    let r = search_table(blob, header, hash, name_without_extension);
    proof {
        let (b, needle) = (blob@, name_without_extension@);
        if r is Ok && r->Ok_0 is Some {
            lemma_search_sound(b, *header, hash, needle, 0, header.count as int);
        }
        if hash_table_sorted(b, *header) && run_readable(b, *header, hash, needle) && (exists|
            i: int,
            v: ValueEntry,
        | 0 <= i < header.count && entry_redirects(b, *header, i, hash, needle, v)) {
            let (i, v) = choose|i: int, v: ValueEntry|
                0 <= i < header.count && entry_redirects(b, *header, i, hash, needle, v);
            lemma_search_complete(b, *header, hash, needle, i, v);
        }
    }
    r
}

/// What resolving `name` against the namespace bytes `b` gives: the name is
/// cut before its last hyphen, hashed with the header's multiplier and
/// searched for; a found entry yields the library name of its first value.
pub open spec fn resolution(b: Seq<u8>, name: Seq<char>) -> Result<
    Option<Seq<char>>,
    ResolverError,
> {
    if !name.contains('-') {
        Err(ResolverError::InvalidNameFormat)
    } else {
        match header_at(b) {
            Err(e) => Err(e),
            Ok(h) => {
                let needle = stripped_name(name);
                match search(b, h, hash_of(h.hash_factor, needle), needle, 0, h.count as int) {
                    Err(e) => Err(e),
                    Ok(None) => Ok(None),
                    Ok(Some(v)) => if value_name_ok(b, v) {
                        Ok(Some(value_name(b, v)))
                    } else {
                        Err(ResolverError::OutOfBounds)
                    },
                }
            },
        }
    }
}

/// The characters of a resolution outcome.
pub open spec fn outcome_view(r: Result<Option<String>, ResolverError>) -> Result<
    Option<Seq<char>>,
    ResolverError,
> {
    match r {
        Ok(Some(s)) => Ok(Some(s@)),
        Ok(None) => Ok(None),
        Err(e) => Err(e),
    }
}

/// The value entry that the search finds for the cut form of `name`, when the
/// header can be read and the search finds one.
pub open spec fn found_value(b: Seq<u8>, name: Seq<char>) -> Option<ValueEntry> {
    match header_at(b) {
        Err(_) => None,
        Ok(h) => {
            let needle = stripped_name(name);
            match search(b, h, hash_of(h.hash_factor, needle), needle, 0, h.count as int) {
                Ok(Some(v)) => Some(v),
                _ => None,
            }
        },
    }
}

/// `name` has a hyphen, and its cut form is stored with a value under its
/// hash in a namespace whose hash table lies inside `b` sorted by hash, whose
/// entries with that hash can be examined, and whose library names for the
/// cut form lie inside `b`.
pub open spec fn name_is_redirected(b: Seq<u8>, name: Seq<char>) -> bool {
    &&& name.contains('-')
    &&& header_at(b) is Ok
    &&& {
        let h = header_at(b)->Ok_0;
        let needle = stripped_name(name);
        let hash = hash_of(h.hash_factor, needle);
        &&& hash_table_sorted(b, h)
        &&& run_readable(b, h, hash, needle)
        &&& forall|i: int, v: ValueEntry|
            0 <= i < h.count && #[trigger] entry_redirects(b, h, i, hash, needle, v)
                ==> value_name_ok(b, v)
        &&& exists|i: int, v: ValueEntry|
            0 <= i < h.count && entry_redirects(b, h, i, hash, needle, v)
    }
}

/// Resolves an ApiSet contract name against the namespace bytes `blob`:
/// `Ok(Some(library))` for a redirected name, `Ok(None)` for a name that the
/// namespace does not redirect, and an error for a name without a hyphen or a
/// namespace whose records reach past the end of `blob`. A name stored with a
/// value in a sorted, readable namespace is always resolved, and a library
/// name stored as UTF-16 comes back exactly.
pub fn resolve(blob: &[u8], library_name: &str) -> (r: Result<Option<String>, ResolverError>)
    ensures
        outcome_view(r) == resolution(blob@, library_name@),
        name_is_redirected(blob@, library_name@) ==> r is Ok && r->Ok_0 is Some,
        forall|t: Seq<char>|
            library_name@.contains('-') && found_value(blob@, library_name@) is Some
                && #[trigger] field_holds(
                blob@,
                found_value(blob@, library_name@)->Some_0.value_offset as int,
                found_value(blob@, library_name@)->Some_0.value_length as int,
                t,
            ) ==> r is Ok && r->Ok_0 is Some && r->Ok_0->Some_0@ == t,
{
    let stripped = match get_dll_name_without_extension(library_name) {
        Err(e) => return Err(e),
        Ok(s) => s,
    };
    let header = match read_namespace_header(blob) {
        Err(e) => return Err(e),
        Ok(h) => h,
    };
    let hash = get_dll_name_hash(&header, stripped.as_str());
    proof {
        let b = blob@;
        let needle = stripped@;
        if name_is_redirected(b, library_name@) {
            let (i, v) = choose|i: int, v: ValueEntry|
                0 <= i < header.count && entry_redirects(b, header, i, hash, needle, v);
            lemma_search_complete(b, header, hash, needle, i, v);
            let w = search(b, header, hash, needle, 0, header.count as int)->Ok_0->Some_0;
            let k = choose|k: int| 0 <= k < header.count && entry_redirects(b, header, k, hash, needle, w);
            assert(value_name_ok(b, w));
        }
    }
    match get_api_set_redirect_by_hash(blob, &header, hash, stripped.as_str()) {
        Err(e) => Err(e),
        Ok(None) => Ok(None),
        Ok(Some(v)) => match get_api_set_value_of_entry_value(blob, &v) {
            Err(e) => Err(e),
            Ok(s) => Ok(Some(s)),
        },
    }
}

/// The `i`-th hash entry carries `hash`, and its namespace entry has the
/// hashed name `needle` and the first value entry `v`.
pub open spec fn entry_redirects(
    b: Seq<u8>,
    h: NamespaceHeader,
    i: int,
    hash: u32,
    needle: Seq<char>,
    v: ValueEntry,
) -> bool {
    &&& hash_entry_at(b, h, i) is Ok
    &&& hash_entry_at(b, h, i)->Ok_0.hash == hash
    &&& namespace_entry_at(b, h, i) is Ok
    &&& entry_name_ok(b, namespace_entry_at(b, h, i)->Ok_0)
    &&& entry_name(b, namespace_entry_at(b, h, i)->Ok_0) == needle
    &&& namespace_entry_at(b, h, i)->Ok_0.value_count > 0
    &&& value_entry_at(b, namespace_entry_at(b, h, i)->Ok_0, 0) == Ok::<
        ValueEntry,
        ResolverError,
    >(v)
}

/// No hash entry of `[lo, hi)` that carries `hash` has the hashed name
/// `needle` together with a value, and every record and name that the search
/// may read there lies inside `b`.
pub open spec fn no_live_match(
    b: Seq<u8>,
    h: NamespaceHeader,
    hash: u32,
    needle: Seq<char>,
    lo: int,
    hi: int,
) -> bool {
    forall|i: int|
        lo <= i < hi ==> {
            &&& #[trigger] hash_entry_at(b, h, i) is Ok
            &&& hash_entry_at(b, h, i)->Ok_0.hash == hash ==> {
                &&& namespace_entry_at(b, h, i) is Ok
                &&& entry_name_ok(b, namespace_entry_at(b, h, i)->Ok_0)
                &&& entry_name(b, namespace_entry_at(b, h, i)->Ok_0) == needle
                    ==> namespace_entry_at(b, h, i)->Ok_0.value_count == 0
            }
        }
}

/// Every hash entry lies inside `b`, and they are sorted by hash.
pub open spec fn hash_table_sorted(b: Seq<u8>, h: NamespaceHeader) -> bool {
    &&& forall|i: int| 0 <= i < h.count ==> #[trigger] hash_entry_at(b, h, i) is Ok
    &&& forall|i: int, j: int|
        0 <= i <= j < h.count ==> #[trigger] hash_entry_at(b, h, i)->Ok_0.hash
            <= #[trigger] hash_entry_at(b, h, j)->Ok_0.hash
}

/// Every entry that carries `hash` can be examined against `needle` without a
/// read outside `b`.
pub open spec fn run_readable(b: Seq<u8>, h: NamespaceHeader, hash: u32, needle: Seq<char>) -> bool {
    forall|i: int|
        0 <= i < h.count && #[trigger] hash_entry_at(b, h, i)->Ok_0.hash == hash ==> check_entry(
            b,
            h,
            needle,
            i,
        ) is Ok
}

proof fn lemma_scan_down_sound(b: Seq<u8>, h: NamespaceHeader, hash: u32, needle: Seq<char>, j: int)
    requires
        scan_down(b, h, hash, needle, j) is Ok,
        scan_down(b, h, hash, needle, j)->Ok_0 is Some,
    ensures
        exists|i: int|
            0 <= i <= j && entry_redirects(
                b,
                h,
                i,
                hash,
                needle,
                scan_down(b, h, hash, needle, j)->Ok_0->Some_0,
            ),
    decreases j + 1,
{
    if check_entry(b, h, needle, j) is Ok && check_entry(b, h, needle, j)->Ok_0 is Some {
        assert(entry_redirects(b, h, j, hash, needle, scan_down(b, h, hash, needle, j)->Ok_0->Some_0));
    } else {
        lemma_scan_down_sound(b, h, hash, needle, j - 1);
    }
}

proof fn lemma_scan_up_sound(b: Seq<u8>, h: NamespaceHeader, hash: u32, needle: Seq<char>, j: int)
    requires
        0 <= j,
        scan_up(b, h, hash, needle, j) is Ok,
        scan_up(b, h, hash, needle, j)->Ok_0 is Some,
    ensures
        exists|i: int|
            j <= i < h.count && entry_redirects(
                b,
                h,
                i,
                hash,
                needle,
                scan_up(b, h, hash, needle, j)->Ok_0->Some_0,
            ),
    decreases h.count - j,
{
    if check_entry(b, h, needle, j) is Ok && check_entry(b, h, needle, j)->Ok_0 is Some {
        assert(entry_redirects(b, h, j, hash, needle, scan_up(b, h, hash, needle, j)->Ok_0->Some_0));
    } else {
        lemma_scan_up_sound(b, h, hash, needle, j + 1);
    }
}

/// A search that finds a value entry found it at an entry of the table whose
/// hash and stored name both match.
pub proof fn lemma_search_sound(
    b: Seq<u8>,
    h: NamespaceHeader,
    hash: u32,
    needle: Seq<char>,
    lo: int,
    hi: int,
)
    requires
        0 <= lo,
        hi <= h.count,
        search(b, h, hash, needle, lo, hi) is Ok,
        search(b, h, hash, needle, lo, hi)->Ok_0 is Some,
    ensures
        exists|i: int|
            0 <= i < h.count && entry_redirects(
                b,
                h,
                i,
                hash,
                needle,
                search(b, h, hash, needle, lo, hi)->Ok_0->Some_0,
            ),
    decreases hi - lo,
{
    let r = search(b, h, hash, needle, lo, hi);
    let mid = (lo + hi) / 2;
    let he = hash_entry_at(b, h, mid)->Ok_0;
    if hash < he.hash {
        lemma_search_sound(b, h, hash, needle, lo, mid);
    } else if hash > he.hash {
        lemma_search_sound(b, h, hash, needle, mid + 1, hi);
    } else if check_entry(b, h, needle, mid) is Ok && check_entry(b, h, needle, mid)->Ok_0 is Some {
        assert(entry_redirects(b, h, mid, hash, needle, r->Ok_0->Some_0));
    } else if scan_down(b, h, hash, needle, mid - 1) is Ok && scan_down(
        b,
        h,
        hash,
        needle,
        mid - 1,
    )->Ok_0 is Some {
        lemma_scan_down_sound(b, h, hash, needle, mid - 1);
    } else {
        lemma_scan_up_sound(b, h, hash, needle, mid + 1);
    }
}

proof fn lemma_scan_down_ok(b: Seq<u8>, h: NamespaceHeader, hash: u32, needle: Seq<char>, j: int)
    requires
        j < h.count,
        hash_table_sorted(b, h),
        run_readable(b, h, hash, needle),
    ensures
        scan_down(b, h, hash, needle, j) is Ok,
    decreases j + 1,
{
    if j >= 0 {
        assert(hash_entry_at(b, h, j) is Ok);
        if hash_entry_at(b, h, j)->Ok_0.hash == hash {
            lemma_scan_down_ok(b, h, hash, needle, j - 1);
        }
    }
}

proof fn lemma_scan_down_complete(
    b: Seq<u8>,
    h: NamespaceHeader,
    hash: u32,
    needle: Seq<char>,
    i: int,
    j: int,
)
    requires
        0 <= i <= j < h.count,
        hash_table_sorted(b, h),
        run_readable(b, h, hash, needle),
        hash_entry_at(b, h, i)->Ok_0.hash == hash,
        hash_entry_at(b, h, j)->Ok_0.hash == hash,
        check_entry(b, h, needle, i) is Ok,
        check_entry(b, h, needle, i)->Ok_0 is Some,
    ensures
        scan_down(b, h, hash, needle, j) is Ok,
        scan_down(b, h, hash, needle, j)->Ok_0 is Some,
    decreases j - i,
{
    assert(hash_entry_at(b, h, j) is Ok);
    assert(check_entry(b, h, needle, j) is Ok);
    if j > i && check_entry(b, h, needle, j)->Ok_0 is None {
        assert(hash_entry_at(b, h, i)->Ok_0.hash <= hash_entry_at(b, h, j - 1)->Ok_0.hash);
        assert(hash_entry_at(b, h, j - 1)->Ok_0.hash <= hash_entry_at(b, h, j)->Ok_0.hash);
        lemma_scan_down_complete(b, h, hash, needle, i, j - 1);
    }
}

proof fn lemma_scan_up_complete(
    b: Seq<u8>,
    h: NamespaceHeader,
    hash: u32,
    needle: Seq<char>,
    i: int,
    j: int,
)
    requires
        0 <= j <= i < h.count,
        hash_table_sorted(b, h),
        run_readable(b, h, hash, needle),
        hash_entry_at(b, h, i)->Ok_0.hash == hash,
        hash_entry_at(b, h, j)->Ok_0.hash == hash,
        check_entry(b, h, needle, i) is Ok,
        check_entry(b, h, needle, i)->Ok_0 is Some,
    ensures
        scan_up(b, h, hash, needle, j) is Ok,
        scan_up(b, h, hash, needle, j)->Ok_0 is Some,
    decreases i - j,
{
    assert(hash_entry_at(b, h, j) is Ok);
    assert(check_entry(b, h, needle, j) is Ok);
    if j < i && check_entry(b, h, needle, j)->Ok_0 is None {
        assert(hash_entry_at(b, h, j)->Ok_0.hash <= hash_entry_at(b, h, j + 1)->Ok_0.hash);
        assert(hash_entry_at(b, h, j + 1)->Ok_0.hash <= hash_entry_at(b, h, i)->Ok_0.hash);
        lemma_scan_up_complete(b, h, hash, needle, i, j + 1);
    }
}

proof fn lemma_search_complete_in(
    b: Seq<u8>,
    h: NamespaceHeader,
    hash: u32,
    needle: Seq<char>,
    lo: int,
    hi: int,
    i: int,
    v: ValueEntry,
)
    requires
        0 <= lo <= i < hi <= h.count,
        hash_table_sorted(b, h),
        run_readable(b, h, hash, needle),
        entry_redirects(b, h, i, hash, needle, v),
    ensures
        search(b, h, hash, needle, lo, hi) is Ok,
        search(b, h, hash, needle, lo, hi)->Ok_0 is Some,
    decreases hi - lo,
{
    let mid = (lo + hi) / 2;
    assert(hash_entry_at(b, h, mid) is Ok);
    let he = hash_entry_at(b, h, mid)->Ok_0;
    assert(check_entry(b, h, needle, i) == Ok::<Option<ValueEntry>, ResolverError>(Some(v)));
    if hash < he.hash {
        if i >= mid {
            assert(hash_entry_at(b, h, mid)->Ok_0.hash <= hash_entry_at(b, h, i)->Ok_0.hash);
        }
        lemma_search_complete_in(b, h, hash, needle, lo, mid, i, v);
    } else if hash > he.hash {
        if i <= mid {
            assert(hash_entry_at(b, h, i)->Ok_0.hash <= hash_entry_at(b, h, mid)->Ok_0.hash);
        }
        lemma_search_complete_in(b, h, hash, needle, mid + 1, hi, i, v);
    } else {
        assert(check_entry(b, h, needle, mid) is Ok);
        if check_entry(b, h, needle, mid)->Ok_0 is None {
            if i < mid {
                lemma_scan_down_complete(b, h, hash, needle, i, mid - 1);
            } else {
                assert(i > mid);
                lemma_scan_down_ok(b, h, hash, needle, mid - 1);
                lemma_scan_up_complete(b, h, hash, needle, i, mid + 1);
            }
        }
    }
}

/// In a table that lies inside the blob and is sorted by hash, and whose
/// entries with the hash can all be examined, the search finds a value
/// whenever some entry with the hash has the stored name `needle` and a
/// value, wherever in the run of equal hashes that entry stands; and what it
/// finds is the first value of such an entry.
pub proof fn lemma_search_complete(
    b: Seq<u8>,
    h: NamespaceHeader,
    hash: u32,
    needle: Seq<char>,
    i: int,
    v: ValueEntry,
)
    requires
        0 <= i < h.count,
        hash_table_sorted(b, h),
        run_readable(b, h, hash, needle),
        entry_redirects(b, h, i, hash, needle, v),
    ensures
        search(b, h, hash, needle, 0, h.count as int) is Ok,
        search(b, h, hash, needle, 0, h.count as int)->Ok_0 is Some,
        exists|k: int|
            0 <= k < h.count && entry_redirects(
                b,
                h,
                k,
                hash,
                needle,
                search(b, h, hash, needle, 0, h.count as int)->Ok_0->Some_0,
            ),
{
    lemma_search_complete_in(b, h, hash, needle, 0, h.count as int, i, v);
    lemma_search_sound(b, h, hash, needle, 0, h.count as int);
}

proof fn lemma_scan_down_none(b: Seq<u8>, h: NamespaceHeader, hash: u32, needle: Seq<char>, j: int)
    requires
        j < h.count,
        no_live_match(b, h, hash, needle, 0, h.count as int),
    ensures
        scan_down(b, h, hash, needle, j) == Ok::<Option<ValueEntry>, ResolverError>(None),
    decreases j + 1,
{
    if j >= 0 {
        assert(hash_entry_at(b, h, j) is Ok);
        lemma_scan_down_none(b, h, hash, needle, j - 1);
    }
}

proof fn lemma_scan_up_none(b: Seq<u8>, h: NamespaceHeader, hash: u32, needle: Seq<char>, j: int)
    requires
        0 <= j,
        no_live_match(b, h, hash, needle, 0, h.count as int),
    ensures
        scan_up(b, h, hash, needle, j) == Ok::<Option<ValueEntry>, ResolverError>(None),
    decreases h.count - j,
{
    if j < h.count {
        assert(hash_entry_at(b, h, j) is Ok);
        lemma_scan_up_none(b, h, hash, needle, j + 1);
    }
}

/// A search in a table in which no entry with the hash carries the name
/// together with a value finds nothing, and fails on no read.
pub proof fn lemma_search_without_live_match(
    b: Seq<u8>,
    h: NamespaceHeader,
    hash: u32,
    needle: Seq<char>,
    lo: int,
    hi: int,
)
    requires
        0 <= lo,
        hi <= h.count,
        no_live_match(b, h, hash, needle, 0, h.count as int),
    ensures
        search(b, h, hash, needle, lo, hi) == Ok::<Option<ValueEntry>, ResolverError>(None),
    decreases hi - lo,
{
    if lo < hi {
        let mid = (lo + hi) / 2;
        assert(hash_entry_at(b, h, mid) is Ok);
        let he = hash_entry_at(b, h, mid)->Ok_0;
        if hash < he.hash {
            lemma_search_without_live_match(b, h, hash, needle, lo, mid);
        } else if hash > he.hash {
            lemma_search_without_live_match(b, h, hash, needle, mid + 1, hi);
        } else {
            lemma_scan_down_none(b, h, hash, needle, mid - 1);
            lemma_scan_up_none(b, h, hash, needle, mid + 1);
        }
    }
}


/// A resolved name is never taken from a mere hash match: the library
/// returned is the first value of an entry whose hash is that of the cut name
/// and whose stored hashed name equals the cut name, so of two entries whose
/// names collide in the hash, the one with the queried name is the one used.
pub proof fn lemma_resolution_matches_stored_name(b: Seq<u8>, name: Seq<char>)
    requires
        resolution(b, name) is Ok,
        resolution(b, name)->Ok_0 is Some,
    ensures
        header_at(b) is Ok,
        exists|i: int, v: ValueEntry|
            0 <= i < header_at(b)->Ok_0.count && entry_redirects(
                b,
                header_at(b)->Ok_0,
                i,
                hash_of(header_at(b)->Ok_0.hash_factor, stripped_name(name)),
                stripped_name(name),
                v,
            ) && value_name_ok(b, v) && resolution(b, name)->Ok_0->Some_0 == value_name(b, v),
{
    let h = header_at(b)->Ok_0;
    let needle = stripped_name(name);
    let hash = hash_of(h.hash_factor, needle);
    lemma_search_sound(b, h, hash, needle, 0, h.count as int);
    let v = search(b, h, hash, needle, 0, h.count as int)->Ok_0->Some_0;
    let i = choose|i: int| 0 <= i < h.count && entry_redirects(b, h, i, hash, needle, v);
    assert(entry_redirects(b, h, i, hash, needle, v) && value_name_ok(b, v));
}

/// When every hash entry that carries the hash of the cut name either has
/// another stored name or has no value entry, and the records read on the
/// way lie inside the blob, the name resolves to nothing, without an error.
pub proof fn lemma_unresolved_without_live_match(b: Seq<u8>, name: Seq<char>)
    requires
        name.contains('-'),
        header_at(b) is Ok,
        no_live_match(
            b,
            header_at(b)->Ok_0,
            hash_of(header_at(b)->Ok_0.hash_factor, stripped_name(name)),
            stripped_name(name),
            0,
            header_at(b)->Ok_0.count as int,
        ),
    ensures
        resolution(b, name) == Ok::<Option<Seq<char>>, ResolverError>(None),
{
    let h = header_at(b)->Ok_0;
    let needle = stripped_name(name);
    lemma_search_without_live_match(
        b,
        h,
        hash_of(h.hash_factor, needle),
        needle,
        0,
        h.count as int,
    );
}

/// A name whose hash no entry of a readable hash table carries resolves to
/// nothing, without an error.
pub proof fn lemma_absent_hash_unresolved(b: Seq<u8>, name: Seq<char>)
    requires
        name.contains('-'),
        header_at(b) is Ok,
        forall|i: int|
            0 <= i < header_at(b)->Ok_0.count ==> #[trigger] hash_entry_at(b, header_at(b)->Ok_0, i)
                is Ok && hash_entry_at(b, header_at(b)->Ok_0, i)->Ok_0.hash != hash_of(
                header_at(b)->Ok_0.hash_factor,
                stripped_name(name),
            ),
    ensures
        resolution(b, name) == Ok::<Option<Seq<char>>, ResolverError>(None),
{
    lemma_unresolved_without_live_match(b, name);
}

/// Reads never reach past the end of the blob: a hash entry, namespace entry,
/// value entry or string field that would extend beyond it is reported as
/// `OutOfBounds`, whatever count and offsets the header claims.
pub proof fn lemma_reads_past_extent_fail(
    b: Seq<u8>,
    h: NamespaceHeader,
    e: NamespaceEntry,
    i: int,
    k: int,
)
    requires
        0 <= i,
        0 <= k,
    ensures
        hash_entry_offset(h, i) + HASH_ENTRY_SIZE > b.len() ==> hash_entry_at(b, h, i) == Err::<
            HashEntry,
            ResolverError,
        >(ResolverError::OutOfBounds),
        hash_entry_at(b, h, i) is Ok && namespace_entry_offset(
            h,
            hash_entry_at(b, h, i)->Ok_0.index as int,
        ) + NAMESPACE_ENTRY_SIZE > b.len() ==> namespace_entry_at(b, h, i) == Err::<
            NamespaceEntry,
            ResolverError,
        >(ResolverError::OutOfBounds),
        value_entry_offset(e, k) + VALUE_ENTRY_SIZE > b.len() ==> value_entry_at(b, e, k) == Err::<
            ValueEntry,
            ResolverError,
        >(ResolverError::OutOfBounds),
        e.name_offset + e.hashed_length > b.len() ==> !entry_name_ok(b, e),
{
}


proof fn lemma_records_ignore_tail(b: Seq<u8>, x: Seq<u8>, h: NamespaceHeader, needle: Seq<char>, j: int)
    ensures
        hash_entry_at(b, h, j) is Ok ==> hash_entry_at(b + x, h, j) == hash_entry_at(b, h, j),
        namespace_entry_at(b, h, j) is Ok ==> namespace_entry_at(b + x, h, j) == namespace_entry_at(
            b,
            h,
            j,
        ),
        check_entry(b, h, needle, j) is Ok ==> check_entry(b + x, h, needle, j) == check_entry(
            b,
            h,
            needle,
            j,
        ),
{
    let c = b + x;
    if namespace_entry_at(b, h, j) is Ok {
        let ne = namespace_entry_at(b, h, j)->Ok_0;
        if entry_name_ok(b, ne) {
            let (off, n) = (ne.name_offset as int, ne.hashed_length / 2);
            assert(wide_units(c, off, n as int) =~= wide_units(b, off, n as int));
        }
    }
}

proof fn lemma_scan_down_ignores_tail(
    b: Seq<u8>,
    x: Seq<u8>,
    h: NamespaceHeader,
    hash: u32,
    needle: Seq<char>,
    j: int,
)
    requires
        scan_down(b, h, hash, needle, j) is Ok,
    ensures
        scan_down(b + x, h, hash, needle, j) == scan_down(b, h, hash, needle, j),
    decreases j + 1,
{
    if j >= 0 {
        lemma_records_ignore_tail(b, x, h, needle, j);
        if hash_entry_at(b, h, j)->Ok_0.hash == hash && check_entry(b, h, needle, j)->Ok_0 is None {
            lemma_scan_down_ignores_tail(b, x, h, hash, needle, j - 1);
        }
    }
}

proof fn lemma_scan_up_ignores_tail(
    b: Seq<u8>,
    x: Seq<u8>,
    h: NamespaceHeader,
    hash: u32,
    needle: Seq<char>,
    j: int,
)
    requires
        scan_up(b, h, hash, needle, j) is Ok,
    ensures
        scan_up(b + x, h, hash, needle, j) == scan_up(b, h, hash, needle, j),
    decreases h.count - j,
{
    if j < h.count {
        lemma_records_ignore_tail(b, x, h, needle, j);
        if hash_entry_at(b, h, j)->Ok_0.hash == hash && check_entry(b, h, needle, j)->Ok_0 is None {
            lemma_scan_up_ignores_tail(b, x, h, hash, needle, j + 1);
        }
    }
}

/// A search that ends without an error read nothing past the end of the
/// blob: whatever bytes follow it, the result stays the same. So every probe
/// of a record past the extent, however many entries the header claims,
/// ends the search with `OutOfBounds`.
pub proof fn lemma_search_ignores_bytes_past_extent(
    b: Seq<u8>,
    x: Seq<u8>,
    h: NamespaceHeader,
    hash: u32,
    needle: Seq<char>,
    lo: int,
    hi: int,
)
    requires
        search(b, h, hash, needle, lo, hi) is Ok,
    ensures
        search(b + x, h, hash, needle, lo, hi) == search(b, h, hash, needle, lo, hi),
    decreases hi - lo,
{
    if lo < hi {
        let mid = (lo + hi) / 2;
        lemma_records_ignore_tail(b, x, h, needle, mid);
        let he = hash_entry_at(b, h, mid)->Ok_0;
        if hash < he.hash {
            lemma_search_ignores_bytes_past_extent(b, x, h, hash, needle, lo, mid);
        } else if hash > he.hash {
            lemma_search_ignores_bytes_past_extent(b, x, h, hash, needle, mid + 1, hi);
        } else if check_entry(b, h, needle, mid)->Ok_0 is None {
            lemma_scan_down_ignores_tail(b, x, h, hash, needle, mid - 1);
            if scan_down(b, h, hash, needle, mid - 1)->Ok_0 is None {
                lemma_scan_up_ignores_tail(b, x, h, hash, needle, mid + 1);
            }
        }
    }
}

} // verus!
