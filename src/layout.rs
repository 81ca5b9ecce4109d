use vstd::prelude::*;

use crate::error::ResolverError;

verus! {

/// Size in bytes of the namespace header at offset 0 of the blob.
pub const HEADER_SIZE: u64 = 28;

/// Size in bytes of one hash entry.
pub const HASH_ENTRY_SIZE: u64 = 8;

/// Size in bytes of one namespace entry.
pub const NAMESPACE_ENTRY_SIZE: u64 = 24;

/// Size in bytes of one value entry.
pub const VALUE_ENTRY_SIZE: u64 = 20;

/// The fields of the namespace header that resolution reads.
#[derive(Debug, Clone, Copy, PartialEq, Eq, Structural)]
pub struct NamespaceHeader {
    /// Number of hash entries, equal to the number of namespace entries.
    pub count: u32,
    /// Offset of the namespace entry array from the start of the blob.
    pub entry_offset: u32,
    /// Offset of the hash entry array from the start of the blob.
    pub hash_offset: u32,
    /// Multiplier of the name hash.
    pub hash_factor: u32,
}

/// One bucket of the hash-sorted table.
#[derive(Debug, Clone, Copy, PartialEq, Eq, Structural)]
pub struct HashEntry {
    /// Hash of the entry's hashed name.
    pub hash: u32,
    /// Index of the namespace entry that this bucket stands for.
    pub index: u32,
}

/// The description of one contract name.
#[derive(Debug, Clone, Copy, PartialEq, Eq, Structural)]
pub struct NamespaceEntry {
    /// Offset of the UTF-16 name from the start of the blob.
    pub name_offset: u32,
    /// Byte length of the part of the name that was hashed.
    pub hashed_length: u32,
    /// Offset of the value entry array from the start of the blob.
    pub value_offset: u32,
    /// Number of value entries.
    pub value_count: u32,
}

/// One redirection target of a contract name.
#[derive(Debug, Clone, Copy, PartialEq, Eq, Structural)]
pub struct ValueEntry {
    /// Offset of the UTF-16 library name from the start of the blob.
    pub value_offset: u32,
    /// Byte length of the library name.
    pub value_length: u32,
}

/// The little-endian `u32` stored in the four bytes of `b` from `off` on.
pub open spec fn u32_le(b: Seq<u8>, off: int) -> u32 {
    (b[off] as int + b[off + 1] as int * 0x100 + b[off + 2] as int * 0x1_0000 + b[off + 3] as int
        * 0x100_0000) as u32
}

/// A record of `size` bytes at `off` lies wholly inside `b`.
pub open spec fn fits(b: Seq<u8>, off: int, size: int) -> bool {
    0 <= off && off + size <= b.len()
}

/// The header at the start of `b`, when `b` is long enough to hold one.
pub open spec fn header_at(b: Seq<u8>) -> Result<NamespaceHeader, ResolverError> {
    if fits(b, 0, HEADER_SIZE as int) {
        Ok(
            NamespaceHeader {
                count: u32_le(b, 12),
                entry_offset: u32_le(b, 16),
                hash_offset: u32_le(b, 20),
                hash_factor: u32_le(b, 24),
            },
        )
    } else {
        Err(ResolverError::OutOfBounds)
    }
}

/// Offset of the `i`-th hash entry.
pub open spec fn hash_entry_offset(h: NamespaceHeader, i: int) -> int {
    h.hash_offset + HASH_ENTRY_SIZE * i
}

/// The `i`-th hash entry, when it lies inside `b`.
pub open spec fn hash_entry_at(b: Seq<u8>, h: NamespaceHeader, i: int) -> Result<
    HashEntry,
    ResolverError,
> {
    let off = hash_entry_offset(h, i);
    if fits(b, off, HASH_ENTRY_SIZE as int) {
        Ok(HashEntry { hash: u32_le(b, off), index: u32_le(b, off + 4) })
    } else {
        Err(ResolverError::OutOfBounds)
    }
}

/// Offset of the namespace entry with index `k`.
pub open spec fn namespace_entry_offset(h: NamespaceHeader, k: int) -> int {
    h.entry_offset + NAMESPACE_ENTRY_SIZE * k
}

/// The namespace entry that the `i`-th hash entry points to, when both lie
/// inside `b`.
pub open spec fn namespace_entry_at(b: Seq<u8>, h: NamespaceHeader, i: int) -> Result<
    NamespaceEntry,
    ResolverError,
> {
    match hash_entry_at(b, h, i) {
        Err(e) => Err(e),
        Ok(he) => {
            let off = namespace_entry_offset(h, he.index as int);
            if fits(b, off, NAMESPACE_ENTRY_SIZE as int) {
                Ok(
                    NamespaceEntry {
                        name_offset: u32_le(b, off + 4),
                        hashed_length: u32_le(b, off + 12),
                        value_offset: u32_le(b, off + 16),
                        value_count: u32_le(b, off + 20),
                    },
                )
            } else {
                Err(ResolverError::OutOfBounds)
            }
        },
    }
}

/// Offset of the `k`-th value entry of `e`.
pub open spec fn value_entry_offset(e: NamespaceEntry, k: int) -> int {
    e.value_offset + VALUE_ENTRY_SIZE * k
}

/// The `k`-th value entry of `e`, when it lies inside `b`.
pub open spec fn value_entry_at(b: Seq<u8>, e: NamespaceEntry, k: int) -> Result<
    ValueEntry,
    ResolverError,
> {
    let off = value_entry_offset(e, k);
    if fits(b, off, VALUE_ENTRY_SIZE as int) {
        Ok(ValueEntry { value_offset: u32_le(b, off + 12), value_length: u32_le(b, off + 16) })
    } else {
        Err(ResolverError::OutOfBounds)
    }
}

/// Reads the little-endian `u32` at `off`; the caller has checked the bounds.
fn u32_at(blob: &[u8], off: usize) -> (r: u32)
    requires
        off + 4 <= blob@.len(),
    ensures
        r == u32_le(blob@, off as int),
{
    let b0 = blob[off] as u32;
    let b1 = blob[off + 1] as u32;
    let b2 = blob[off + 2] as u32;
    let b3 = blob[off + 3] as u32;
    b0 + b1 * 0x100 + b2 * 0x1_0000 + b3 * 0x100_0000
}

/// The offset `off` if a record of `size` bytes there lies inside `blob`.
fn checked_record(blob: &[u8], off: u64, size: u64) -> (r: Option<usize>)
    requires
        size <= 0x1000,
    ensures
        match r {
            Some(o) => o == off && o + size <= blob.len() && fits(blob@, off as int, size as int),
            None => !fits(blob@, off as int, size as int),
        },
{
    let len = blob.len() as u64;
    if off <= len && size <= len - off {
        Some(off as usize)
    } else {
        None
    }
}

/// Reads the namespace header at the start of the blob, or `OutOfBounds` when
/// the blob is shorter than a header.
pub fn read_namespace_header(blob: &[u8]) -> (r: Result<NamespaceHeader, ResolverError>)
    ensures
        r == header_at(blob@),
{
    match checked_record(blob, 0, HEADER_SIZE) {
        None => Err(ResolverError::OutOfBounds),
        Some(o) => Ok(
            NamespaceHeader {
                count: u32_at(blob, o + 12),
                entry_offset: u32_at(blob, o + 16),
                hash_offset: u32_at(blob, o + 20),
                hash_factor: u32_at(blob, o + 24),
            },
        ),
    }
}

/// Reads the `hash_index`-th hash entry, or `OutOfBounds` when it does not lie
/// inside the blob.
pub fn get_api_set_hash_entry(blob: &[u8], header: &NamespaceHeader, hash_index: u32) -> (r:
    Result<HashEntry, ResolverError>)
    ensures
        r == hash_entry_at(blob@, *header, hash_index as int),
{
    let off = header.hash_offset as u64 + HASH_ENTRY_SIZE * hash_index as u64;
    match checked_record(blob, off, HASH_ENTRY_SIZE) {
        None => Err(ResolverError::OutOfBounds),
        Some(o) => Ok(HashEntry { hash: u32_at(blob, o), index: u32_at(blob, o + 4) }),
    }
}

/// Reads the namespace entry that the `hash_index`-th hash entry points to, or
/// `OutOfBounds` when either record does not lie inside the blob.
pub fn get_api_set_namespace_entry(blob: &[u8], header: &NamespaceHeader, hash_index: u32) -> (r:
    Result<NamespaceEntry, ResolverError>)
    ensures
        r == namespace_entry_at(blob@, *header, hash_index as int),
{
    let he = match get_api_set_hash_entry(blob, header, hash_index) {
        Err(e) => return Err(e),
        Ok(he) => he,
    };
    let off = header.entry_offset as u64 + NAMESPACE_ENTRY_SIZE * he.index as u64;
    match checked_record(blob, off, NAMESPACE_ENTRY_SIZE) {
        None => Err(ResolverError::OutOfBounds),
        Some(o) => Ok(
            NamespaceEntry {
                name_offset: u32_at(blob, o + 4),
                hashed_length: u32_at(blob, o + 12),
                value_offset: u32_at(blob, o + 16),
                value_count: u32_at(blob, o + 20),
            },
        ),
    }
}

/// Reads the `index`-th value entry of `entry`, or `OutOfBounds` when it does
/// not lie inside the blob.
pub fn get_api_set_value_entry(blob: &[u8], entry: &NamespaceEntry, index: u32) -> (r: Result<
    ValueEntry,
    ResolverError,
>)
    ensures
        r == value_entry_at(blob@, *entry, index as int),
{
    let off = entry.value_offset as u64 + VALUE_ENTRY_SIZE * index as u64;
    match checked_record(blob, off, VALUE_ENTRY_SIZE) {
        None => Err(ResolverError::OutOfBounds),
        Some(o) => Ok(
            ValueEntry { value_offset: u32_at(blob, o + 12), value_length: u32_at(blob, o + 16) },
        ),
    }
}

} // verus!
