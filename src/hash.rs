use vstd::prelude::*;

use crate::layout::NamespaceHeader;

verus! {

/// The code point of `c` after ASCII lower-casing: `A`..`Z` move to
/// `a`..`z`, every other character keeps its value.
pub open spec fn lower_code(c: char) -> u32 {
    let v = c as u32;
    if 0x41 <= v <= 0x5A {
        (v + 0x20) as u32
    } else {
        v
    }
}

/// The namespace hash of `s` under multiplier `factor`: a left fold over the
/// lower-cased code points, `acc * factor + code` modulo 2^32, from 0.
pub open spec fn hash_of(factor: u32, s: Seq<char>) -> u32
    decreases s.len(),
{
    if s.len() == 0 {
        0
    } else {
        ((hash_of(factor, s.drop_last()) as nat * factor as nat + lower_code(s.last()) as nat)
            % 0x1_0000_0000) as u32
    }
}

/// Hashes a (normalized) library name the way the namespace does, with the
/// multiplier from its header.
pub fn get_dll_name_hash(header: &NamespaceHeader, name: &str) -> (r: u32)
    ensures
        r == hash_of(header.hash_factor, name@),
{
    let factor = header.hash_factor;
    let len = name.unicode_len();
    let mut acc: u32 = 0;
    let mut i: usize = 0;
    while i < len
        invariant
            len == name@.len(),
            i <= len,
            factor == header.hash_factor,
            acc == hash_of(factor, name@.subrange(0, i as int)),
        decreases len - i,
    {
        let c = name.get_char(i);
        let v = c as u32;
        let code: u32 = if 0x41 <= v && v <= 0x5A {
            v + 0x20
        } else {
            v
        };
        proof {
            let s = name@.subrange(0, i + 1);
            assert(s.drop_last() =~= name@.subrange(0, i as int));
            assert(s.last() == c);
        }
        acc = acc.wrapping_mul(factor).wrapping_add(code);
        i = i + 1;
    }
    assert(name@.subrange(0, len as int) =~= name@);
    acc
}

/// The hash ignores ASCII case: two names whose characters agree after ASCII
/// lower-casing, position by position, hash alike under every multiplier. As
/// `hash_of` is a function of the multiplier and the name, equal inputs also
/// always give equal hashes.
pub proof fn lemma_hash_ignores_ascii_case(factor: u32, a: Seq<char>, b: Seq<char>)
    requires
        a.len() == b.len(),
        forall|i: int| 0 <= i < a.len() ==> lower_code(#[trigger] a[i]) == lower_code(b[i]),
    ensures
        hash_of(factor, a) == hash_of(factor, b),
    decreases a.len(),
{
    if a.len() > 0 {
        let (a0, b0) = (a.drop_last(), b.drop_last());
        assert forall|i: int| 0 <= i < a0.len() implies lower_code(#[trigger] a0[i]) == lower_code(
            b0[i],
        ) by {
            assert(a0[i] == a[i] && b0[i] == b[i]);
        }
        lemma_hash_ignores_ascii_case(factor, a0, b0);
        assert(lower_code(a[a.len() - 1]) == lower_code(b[a.len() - 1]));
    }
}

} // verus!
