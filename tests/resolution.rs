use apiset_resolver::error::ResolverError;
use apiset_resolver::hash::get_dll_name_hash;
use apiset_resolver::layout::{
    get_api_set_hash_entry, get_api_set_namespace_entry, get_api_set_value_entry,
    read_namespace_header, HashEntry, NamespaceHeader,
};
use apiset_resolver::names::{get_dll_name_without_extension, is_api_set_dll};
use apiset_resolver::resolver::{
    get_api_set_hash_name_of_entry, get_api_set_redirect_by_hash,
    get_api_set_value_of_entry_value, resolve,
};
use apiset_resolver::wide::decode_utf16_field;

/// One contract of a synthetic namespace.
struct Contract {
    /// Full stored name; its first `hashed` characters are the hashed part.
    name: &'static str,
    hashed: usize,
    hash: u32,
    values: Vec<&'static str>,
}

fn put_u32(blob: &mut Vec<u8>, at: usize, v: u32) {
    blob[at..at + 4].copy_from_slice(&v.to_le_bytes());
}

fn append_wide(blob: &mut Vec<u8>, s: &str) -> (u32, u32) {
    let off = blob.len() as u32;
    for u in s.encode_utf16() {
        blob.extend_from_slice(&u.to_le_bytes());
    }
    (off, blob.len() as u32 - off)
}

/// Lays out a namespace: header, namespace entries, hash entries (in the
/// given order, pointing at the namespace entries in reverse order), value
/// entries, then the strings.
fn build_namespace(factor: u32, contracts: &[Contract]) -> Vec<u8> {
    let n = contracts.len();
    let entry_offset = 28;
    let hash_offset = entry_offset + 24 * n;
    let value_offset = hash_offset + 8 * n;
    let n_values: usize = contracts.iter().map(|c| c.values.len()).sum();
    let mut blob = vec![0u8; value_offset + 20 * n_values];
    put_u32(&mut blob, 0, 6);
    put_u32(&mut blob, 12, n as u32);
    put_u32(&mut blob, 16, entry_offset as u32);
    put_u32(&mut blob, 20, hash_offset as u32);
    put_u32(&mut blob, 24, factor);
    let mut next_value = value_offset;
    for (i, c) in contracts.iter().enumerate() {
        let slot = n - 1 - i;
        let h = hash_offset + 8 * i;
        put_u32(&mut blob, h, c.hash);
        put_u32(&mut blob, h + 4, slot as u32);
        let e = entry_offset + 24 * slot;
        let (name_off, name_len) = append_wide(&mut blob, c.name);
        put_u32(&mut blob, e + 4, name_off);
        put_u32(&mut blob, e + 8, name_len);
        put_u32(&mut blob, e + 12, 2 * c.hashed as u32);
        put_u32(&mut blob, e + 16, next_value as u32);
        put_u32(&mut blob, e + 20, c.values.len() as u32);
        for v in &c.values {
            let (off, len) = append_wide(&mut blob, v);
            put_u32(&mut blob, next_value + 12, off);
            put_u32(&mut blob, next_value + 16, len);
            next_value += 20;
        }
    }
    blob
}

fn header_with_factor(factor: u32) -> NamespaceHeader {
    NamespaceHeader { count: 0, entry_offset: 0, hash_offset: 0, hash_factor: factor }
}

fn hash(factor: u32, name: &str) -> u32 {
    get_dll_name_hash(&header_with_factor(factor), name)
}

fn contract(factor: u32, name: &'static str, hashed: usize, values: Vec<&'static str>) -> Contract {
    Contract { name, hashed, hash: hash(factor, &name[..hashed]), values }
}

#[test]
fn virtual_names_are_recognised_anywhere() {
    assert!(is_api_set_dll("api-ms-win-core-file-l1-2-0.dll"));
    assert!(is_api_set_dll("ext-ms-win-gdi-draw-l1-1-0.dll"));
    assert!(is_api_set_dll("my-api-shim.dll"));
    assert!(is_api_set_dll("context-ext-x"));
    assert!(!is_api_set_dll("kernel32.dll"));
    assert!(!is_api_set_dll("API-MS-WIN-X.dll"));
    assert!(!is_api_set_dll("api"));
    assert!(!is_api_set_dll(""));
}

#[test]
fn strips_everything_from_the_last_hyphen() {
    assert_eq!(
        get_dll_name_without_extension("api-ms-win-crt-runtime-l1-1-0.dll"),
        Ok("api-ms-win-crt-runtime-l1-1".to_string())
    );
}

#[test]
fn strips_a_single_hyphen_name() {
    assert_eq!(get_dll_name_without_extension("ext-foo.dll"), Ok("ext".to_string()));
    assert_eq!(get_dll_name_without_extension("-x"), Ok(String::new()));
}

#[test]
fn name_without_hyphen_is_refused() {
    assert_eq!(
        get_dll_name_without_extension("kernel32.dll"),
        Err(ResolverError::InvalidNameFormat)
    );
    assert_eq!(get_dll_name_without_extension(""), Err(ResolverError::InvalidNameFormat));
}

#[test]
fn hash_has_exact_values() {
    assert_eq!(hash(31, ""), 0);
    assert_eq!(hash(31, "ab"), 97 * 31 + 98);
    assert_eq!(hash(0x1F, "AB"), 97 * 31 + 98);
    let mut acc: u32 = 0;
    for c in "api-ms-win-crt-runtime-l1-1".chars() {
        acc = acc.wrapping_mul(0xFFFF_FFF1).wrapping_add(c as u32);
    }
    assert_eq!(hash(0xFFFF_FFF1, "API-MS-WIN-CRT-RUNTIME-L1-1"), acc);
}

#[test]
fn hash_is_deterministic_and_ignores_ascii_case() {
    for factor in [0u32, 1, 31, 0x1003F, u32::MAX] {
        assert_eq!(hash(factor, "api-ms-win-x"), hash(factor, "api-ms-win-x"));
        assert_eq!(hash(factor, "API-MS-WIN-X"), hash(factor, "api-ms-win-x"));
    }
    assert_eq!(hash(31, "É"), 'É' as u32);
    assert_ne!(hash(31, "É"), hash(31, "é"));
}

#[test]
fn wide_field_round_trips() {
    for s in ["ucrtbase.dll", "kernelbase.dll", "café-été.dll", "𝄞 clef", ""] {
        let mut blob = vec![0xAAu8; 3];
        let (off, len) = append_wide(&mut blob, s);
        blob.push(0xAA);
        assert_eq!(decode_utf16_field(&blob, off, len), Ok(s.to_string()));
    }
}

#[test]
fn wide_field_errors() {
    let mut blob = Vec::new();
    let (off, len) = append_wide(&mut blob, "abc");
    assert_eq!(decode_utf16_field(&blob, off, len - 1), Err(ResolverError::OutOfBounds));
    assert_eq!(decode_utf16_field(&blob, off, len + 2), Err(ResolverError::OutOfBounds));
    assert_eq!(decode_utf16_field(&blob, 2, len), Err(ResolverError::OutOfBounds));
    assert_eq!(decode_utf16_field(&blob, u32::MAX, 2), Err(ResolverError::OutOfBounds));
    assert_eq!(decode_utf16_field(&blob, 2, 4), Ok("bc".to_string()));
}

#[test]
fn lone_surrogate_is_replaced() {
    let blob = vec![0x61, 0x00, 0x00, 0xD8, 0x62, 0x00];
    assert_eq!(decode_utf16_field(&blob, 0, 6), Ok("a\u{FFFD}b".to_string()));
}

#[test]
fn end_to_end_resolution() {
    let factor = 31;
    let blob = build_namespace(
        factor,
        &[contract(factor, "api-ms-win-crt-runtime-l1-1-0", 27, vec!["ucrtbase.dll"])],
    );
    assert_eq!(
        resolve(&blob, "api-ms-win-crt-runtime-l1-1-0.dll"),
        Ok(Some("ucrtbase.dll".to_string()))
    );
    assert_eq!(
        resolve(&blob, "API-MS-WIN-CRT-RUNTIME-L1-1-0.dll"),
        Ok(None)
    );
}

#[test]
fn resolves_among_several_entries() {
    let factor = 31;
    let mut contracts = vec![
        contract(factor, "api-ms-win-core-file-l1-2-0", 25, vec!["kernelbase.dll"]),
        contract(factor, "api-ms-win-crt-runtime-l1-1-0", 27, vec!["ucrtbase.dll"]),
        contract(factor, "ext-ms-win-gdi-draw-l1-1-0", 24, vec!["gdi32full.dll", "gdi32.dll"]),
        contract(factor, "api-ms-win-core-synch-l1-2-0", 26, vec!["kernel32.dll"]),
    ];
    contracts.sort_by_key(|c| c.hash);
    let blob = build_namespace(factor, &contracts);
    assert_eq!(resolve(&blob, "api-ms-win-core-file-l1-2-0.dll"), Ok(Some("kernelbase.dll".to_string())));
    assert_eq!(resolve(&blob, "ext-ms-win-gdi-draw-l1-1-1.dll"), Ok(Some("gdi32full.dll".to_string())));
    assert_eq!(resolve(&blob, "api-ms-win-core-synch-l1-2-0.dll"), Ok(Some("kernel32.dll".to_string())));
    assert_eq!(resolve(&blob, "api-ms-win-crt-runtime-l1-1-0.dll"), Ok(Some("ucrtbase.dll".to_string())));
}

/// With multiplier 1 the hash is the sum of the code points, so `api-ab`
/// and `api-ba` collide.
fn collision_namespace(target_first: bool) -> Vec<u8> {
    let factor = 1;
    let low = contract(factor, "api-a-1-0", 5, vec!["low.dll"]);
    let target = contract(factor, "api-ab-1-0", 6, vec!["target.dll"]);
    let other = contract(factor, "api-ba-1-0", 6, vec!["other.dll"]);
    assert_eq!(target.hash, other.hash);
    assert!(low.hash < target.hash);
    if target_first {
        build_namespace(factor, &[low, target, other])
    } else {
        build_namespace(factor, &[low, other, target])
    }
}

#[test]
fn collision_resolves_to_the_stored_name_target_first() {
    let blob = collision_namespace(true);
    assert_eq!(resolve(&blob, "api-ab-1.dll"), Ok(Some("target.dll".to_string())));
}

#[test]
fn collision_resolves_to_the_stored_name_target_second() {
    let blob = collision_namespace(false);
    assert_eq!(resolve(&blob, "api-ab-1.dll"), Ok(Some("target.dll".to_string())));
    assert_eq!(resolve(&blob, "api-ba-1.dll"), Ok(Some("other.dll".to_string())));
}

#[test]
fn collision_below_the_probe_is_found() {
    let factor = 1;
    let target = contract(factor, "api-ab-1-0", 6, vec!["target.dll"]);
    let other = contract(factor, "api-ba-1-0", 6, vec!["other.dll"]);
    let blob = build_namespace(factor, &[target, other]);
    assert_eq!(resolve(&blob, "api-ba-1.dll"), Ok(Some("other.dll".to_string())));
    assert_eq!(resolve(&blob, "api-ab-1.dll"), Ok(Some("target.dll".to_string())));
}

#[test]
fn collision_run_is_scanned_both_ways() {
    let factor = 1;
    let names = ["api-abc-1-0", "api-acb-1-0", "api-bca-1-0"];
    for target_at in 0..3 {
        let mut all = vec![contract(factor, "api-a-1-0", 5, vec!["low.dll"])];
        for (k, n) in names.iter().enumerate() {
            let value = if k == target_at { "target.dll" } else { "other.dll" };
            all.push(contract(factor, n, 7, vec![value]));
        }
        all.push(contract(factor, "api-zzz-1-0", 7, vec!["high.dll"]));
        assert_eq!(all[1].hash, all[3].hash);
        assert!(all[0].hash < all[1].hash && all[3].hash < all[4].hash);
        let blob = build_namespace(factor, &all);
        let query = format!("{}-1.dll", &names[target_at][..7]);
        assert_eq!(resolve(&blob, &query), Ok(Some("target.dll".to_string())));
        assert_eq!(resolve(&blob, "api-cab-1.dll"), Ok(None));
    }
}

#[test]
fn absent_hash_is_unresolved() {
    let factor = 31;
    let blob = build_namespace(
        factor,
        &[contract(factor, "api-ms-win-crt-runtime-l1-1-0", 27, vec!["ucrtbase.dll"])],
    );
    assert_eq!(resolve(&blob, "api-ms-win-crt-math-l1-1-0.dll"), Ok(None));
    let empty = build_namespace(factor, &[]);
    assert_eq!(resolve(&empty, "api-ms-win-crt-math-l1-1-0.dll"), Ok(None));
}

#[test]
fn entry_without_value_is_unresolved() {
    let factor = 31;
    let blob = build_namespace(
        factor,
        &[contract(factor, "api-ms-win-crt-runtime-l1-1-0", 27, vec![])],
    );
    assert_eq!(resolve(&blob, "api-ms-win-crt-runtime-l1-1-0.dll"), Ok(None));
}

#[test]
fn name_without_hyphen_fails_resolution() {
    let blob = build_namespace(31, &[]);
    assert_eq!(resolve(&blob, "kernel32.dll"), Err(ResolverError::InvalidNameFormat));
    assert_eq!(resolve(&[], "kernel32.dll"), Err(ResolverError::InvalidNameFormat));
}

#[test]
fn overstated_entry_count_is_out_of_bounds() {
    let factor = 31;
    let mut blob = build_namespace(
        factor,
        &[contract(factor, "api-ms-win-crt-runtime-l1-1-0", 27, vec!["ucrtbase.dll"])],
    );
    put_u32(&mut blob, 12, 1000);
    assert_eq!(resolve(&blob, "api-ms-win-crt-runtime-l1-1-0.dll"), Err(ResolverError::OutOfBounds));
    let header = read_namespace_header(&blob).unwrap();
    assert_eq!(header.count, 1000);
    assert_eq!(get_api_set_hash_entry(&blob, &header, 999), Err(ResolverError::OutOfBounds));
    assert_eq!(get_api_set_hash_entry(&blob, &header, u32::MAX), Err(ResolverError::OutOfBounds));
    assert_eq!(get_api_set_namespace_entry(&blob, &header, 500), Err(ResolverError::OutOfBounds));
    assert!(get_api_set_hash_entry(&blob, &header, 0).is_ok());
}

#[test]
fn short_blob_has_no_header() {
    assert_eq!(read_namespace_header(&[0u8; 27]), Err(ResolverError::OutOfBounds));
    assert_eq!(resolve(&[0u8; 27], "api-x-1.dll"), Err(ResolverError::OutOfBounds));
}

#[test]
fn dangling_offsets_are_out_of_bounds() {
    let factor = 31;
    let mut blob = build_namespace(
        factor,
        &[contract(factor, "api-ms-win-crt-runtime-l1-1-0", 27, vec!["ucrtbase.dll"])],
    );
    let value_entry = 28 + 24 + 8;
    let end = blob.len() as u32;
    put_u32(&mut blob, value_entry + 12, end);
    assert_eq!(resolve(&blob, "api-ms-win-crt-runtime-l1-1-0.dll"), Err(ResolverError::OutOfBounds));
    put_u32(&mut blob, 28 + 16, u32::MAX);
    assert_eq!(resolve(&blob, "api-ms-win-crt-runtime-l1-1-0.dll"), Err(ResolverError::OutOfBounds));
    put_u32(&mut blob, 28 + 12, 55);
    assert_eq!(resolve(&blob, "api-ms-win-crt-runtime-l1-1-0.dll"), Err(ResolverError::OutOfBounds));
}

#[test]
fn records_are_read_through_the_index() {
    let factor = 31;
    let contracts = vec![
        contract(factor, "api-a-l1-1-0", 8, vec!["a.dll"]),
        contract(factor, "api-b-l1-1-0", 8, vec!["b.dll", "b2.dll"]),
    ];
    let (ha, hb) = (contracts[0].hash, contracts[1].hash);
    let blob = build_namespace(factor, &contracts);
    let header = read_namespace_header(&blob).unwrap();
    assert_eq!(
        header,
        NamespaceHeader { count: 2, entry_offset: 28, hash_offset: 76, hash_factor: 31 }
    );
    assert_eq!(get_api_set_hash_entry(&blob, &header, 0), Ok(HashEntry { hash: ha, index: 1 }));
    assert_eq!(get_api_set_hash_entry(&blob, &header, 1), Ok(HashEntry { hash: hb, index: 0 }));
    let entry = get_api_set_namespace_entry(&blob, &header, 1).unwrap();
    assert_eq!(entry.value_count, 2);
    assert_eq!(get_api_set_hash_name_of_entry(&blob, &entry), Ok("api-b-l1".to_string()));
    let second = get_api_set_value_entry(&blob, &entry, 1).unwrap();
    assert_eq!(get_api_set_value_of_entry_value(&blob, &second), Ok("b2.dll".to_string()));
    assert_eq!(
        get_api_set_redirect_by_hash(&blob, &header, hb, "api-b-l1"),
        Ok(Some(get_api_set_value_entry(&blob, &entry, 0).unwrap()))
    );
    assert_eq!(get_api_set_redirect_by_hash(&blob, &header, hb, "api-c-l1"), Ok(None));
}
