use vstd::prelude::*;

use crate::error::ResolverError;

verus! {

/// `p` occurs in `s` as a contiguous run of characters starting at `i`.
pub open spec fn occurs_at(s: Seq<char>, p: Seq<char>, i: int) -> bool {
    0 <= i && i + p.len() <= s.len() && s.subrange(i, i + p.len()) == p
}

/// `p` occurs somewhere in `s`.
pub open spec fn contains(s: Seq<char>, p: Seq<char>) -> bool {
    exists|i: int| occurs_at(s, p, i)
}

/// The prefix that marks the `api-` contract family.
pub open spec fn api_marker() -> Seq<char> {
    seq!['a', 'p', 'i', '-']
}

/// The prefix that marks the `ext-` contract family.
pub open spec fn ext_marker() -> Seq<char> {
    seq!['e', 'x', 't', '-']
}

/// A name takes part in the ApiSet namespace when it holds `api-` or `ext-`
/// anywhere.
pub open spec fn is_virtual_name(s: Seq<char>) -> bool {
    contains(s, api_marker()) || contains(s, ext_marker())
}

/// Whether the four characters of `name` from `i` on are `a b c -`.
fn marker_at(name: &str, len: usize, i: usize, a: char, b: char, c: char) -> (r: bool)
    requires
        len == name@.len(),
        i + 4 <= len,
    ensures
        r == (name@.subrange(i as int, i + 4) == seq![a, b, c, '-']),
{
    let r = name.get_char(i) == a && name.get_char(i + 1) == b && name.get_char(i + 2) == c
        && name.get_char(i + 3) == '-';
    proof {
        let w = name@.subrange(i as int, i + 4);
        let m = seq![a, b, c, '-'];
        if r {
            assert(w =~= m);
        } else if w == m {
            assert(w[0] == m[0] && w[1] == m[1] && w[2] == m[2] && w[3] == m[3]);
        }
    }
    r
}

/// Tells whether a library name belongs to the ApiSet namespace: true exactly
/// when it contains `api-` or `ext-`, at any position.
pub fn is_api_set_dll(name: &str) -> (r: bool)
    ensures
        r == is_virtual_name(name@),
{
    let len = name.unicode_len();
    if len < 4 {
        assert(!contains(name@, api_marker()));
        assert(!contains(name@, ext_marker()));
        return false;
    }
    let mut i: usize = 0;
    while i < len - 3
        invariant
            len == name@.len(),
            4 <= len,
            i <= len - 3,
            forall|j: int| 0 <= j < i ==> !occurs_at(name@, api_marker(), j) && !occurs_at(name@, ext_marker(), j),
        decreases len - i,
    {
        if marker_at(name, len, i, 'a', 'p', 'i') {
            assert(occurs_at(name@, api_marker(), i as int));
            return true;
        }
        if marker_at(name, len, i, 'e', 'x', 't') {
            assert(occurs_at(name@, ext_marker(), i as int));
            return true;
        }
        i = i + 1;
    }
    assert(!contains(name@, api_marker()));
    assert(!contains(name@, ext_marker()));
    false
}

/// The position of the last `c` in `s`, or -1 when `s` holds no `c`.
pub open spec fn last_index_of(s: Seq<char>, c: char) -> int
    decreases s.len(),
{
    if s.len() == 0 {
        -1
    } else if s.last() == c {
        s.len() - 1
    } else {
        last_index_of(s.drop_last(), c)
    }
}

proof fn lemma_last_index_of(s: Seq<char>, c: char)
    ensures
        -1 <= last_index_of(s, c) < s.len(),
        last_index_of(s, c) >= 0 ==> s[last_index_of(s, c)] == c,
        forall|j: int| last_index_of(s, c) < j < s.len() ==> s[j] != c,
        last_index_of(s, c) == -1 <==> !s.contains(c),
    decreases s.len(),
{
    if s.len() > 0 && s.last() != c {
        lemma_last_index_of(s.drop_last(), c);
        assert forall|j: int| last_index_of(s, c) < j < s.len() implies s[j] != c by {
            if j < s.len() - 1 {
                assert(s[j] == s.drop_last()[j]);
            }
        }
        if s.contains(c) {
            let k = choose|k: int| 0 <= k < s.len() && s[k] == c;
            assert(s.drop_last()[k] == c);
        }
    }
}

/// The name with its trailing version segment and extension removed: the
/// characters before the last hyphen.
pub open spec fn stripped_name(s: Seq<char>) -> Seq<char> {
    s.subrange(0, last_index_of(s, '-'))
}

/// Cuts the version suffix and extension off a contract name, keeping what
/// precedes its last hyphen (`api-ms-win-crt-runtime-l1-1-0.dll` gives
/// `api-ms-win-crt-runtime-l1-1`). A name without a hyphen is refused with
/// `InvalidNameFormat`.
pub fn get_dll_name_without_extension(name: &str) -> (r: Result<String, ResolverError>)
    ensures
        match r {
            Ok(s) => name@.contains('-') && s@ == stripped_name(name@),
            Err(e) => !name@.contains('-') && e == ResolverError::InvalidNameFormat,
        },
{
    let len = name.unicode_len();
    let mut i: usize = len;
    while i > 0
        invariant
            i <= len == name@.len(),
            forall|j: int| i <= j < len ==> name@[j] != '-',
        decreases i,
    {
        if name.get_char(i - 1) == '-' {
            let cut = i - 1;
            proof {
                lemma_last_index_of(name@, '-');
            }
            assert(name@[cut as int] == '-');
            assert(last_index_of(name@, '-') == cut);
            let prefix = name.substring_char(0, cut);
            return Ok(String::from_str(prefix));
        }
        i = i - 1;
    }
    assert(!name@.contains('-'));
    Err(ResolverError::InvalidNameFormat)
}

} // verus!
