//! Export names as strings.
use vstd::prelude::*;
use vstd::utf8::*;

verus! {

/// The first position at or after `from` where the bytes `Zw` occur.
pub open spec fn find_zw(s: Seq<u8>, from: int) -> Option<int>
    decreases s.len() - from,
{
    if from < 0 || from + 1 >= s.len() {
        None
    } else if s[from] == 0x5a && s[from + 1] == 0x77 {
        Some(from)
    } else {
        find_zw(s, from + 1)
    }
}

/// `s` with its first `Zw` replaced by `Nt`.
pub open spec fn replace_zw(s: Seq<u8>) -> Seq<u8> {
    match find_zw(s, 0) {
        Some(i) => s.update(i, 0x4e).update(i + 1, 0x74),
        None => s,
    }
}

/// Whether `s` begins with `Zw`.
pub open spec fn starts_with_zw(s: Seq<u8>) -> bool {
    s.len() >= 2 && s[0] == 0x5a && s[1] == 0x77
}

proof fn lemma_find_zw(s: Seq<u8>, from: int)
    requires
        0 <= from,
    ensures
        find_zw(s, from) matches Some(i) ==> from <= i && i + 1 < s.len() && s[i] == 0x5a && s[i
            + 1] == 0x77,
    decreases s.len() - from,
{
    if from + 1 < s.len() && !(s[from] == 0x5a && s[from + 1] == 0x77) {
        lemma_find_zw(s, from + 1);
    }
}

/// Replacing an ASCII byte by another ASCII byte keeps a byte sequence valid
/// UTF-8, or invalid.
pub proof fn lemma_ascii_update_valid(b: Seq<u8>, i: int, c: u8)
    requires
        0 <= i < b.len(),
        b[i] < 0x80,
        c < 0x80,
    ensures
        valid_utf8(b.update(i, c)) == valid_utf8(b),
    decreases b.len(),
{
    let b2 = b.update(i, c);
    if i == 0 {
        let x = b[0];
        assert(x & 0x7f <= 0x7f) by (bit_vector);
        assert(c & 0x7f <= 0x7f) by (bit_vector);
        assert(valid_first_scalar(b));
        assert(valid_first_scalar(b2));
        assert(pop_first_scalar(b) =~= pop_first_scalar(b2));
    } else {
        assert(b2[0] == b[0]);
        if valid_first_scalar(b) || valid_first_scalar(b2) {
            let w = length_of_first_scalar(b);
            assert(length_of_first_scalar(b2) == w);
            assert(i >= w);
            assert(forall|k: int| 0 <= k < w ==> b2[k] == b[k]);
            assert(valid_first_scalar(b) == valid_first_scalar(b2));
            let p = pop_first_scalar(b);
            assert(pop_first_scalar(b2) =~= p.update(i - w, c));
            lemma_ascii_update_valid(p, i - w, c);
        } else {
        }
    }
}

/// The string of the UTF-8 bytes `bytes`, or `None` where they are not UTF-8.
///
/// Trusted: calls `String::from_utf8` and keeps the `Ok` value.  The contract
/// claims what its documentation states: it succeeds exactly on valid UTF-8,
/// and the string holds the characters that the bytes encode.
#[verifier::external_body]
fn string_from_utf8(bytes: Vec<u8>) -> (r: Option<String>)
    ensures
        (r is Some) == valid_utf8(bytes@),
        r matches Some(s) ==> s@ == decode_utf8(bytes@),
{
    String::from_utf8(bytes).ok()
}

/// The export name `raw` as a string, where it is UTF-8.
pub fn name_string(raw: &[u8]) -> (r: Option<String>)
    ensures
        (r is Some) == valid_utf8(raw@),
        r matches Some(s) ==> s@ == decode_utf8(raw@),
{
    string_from_utf8(vstd::slice::slice_to_vec(raw))
}

/// `raw` with its first `Zw` replaced by `Nt`.
pub fn replace_zw_bytes(raw: &[u8]) -> (r: Vec<u8>)
    ensures
        r@ == replace_zw(raw@),
{
    let mut v = vstd::slice::slice_to_vec(raw);
    let n = v.len();
    let mut i: usize = 0;
    while i < n && i + 1 < n
        invariant
            n == raw@.len(),
            v@ == raw@,
            i <= n,
            find_zw(raw@, 0) == find_zw(raw@, i as int),
        decreases n - i,
    {
        if v[i] == 0x5a && v[i + 1] == 0x77 {
            v.set(i, 0x4e);
            v.set(i + 1, 0x74);
            return v;
        }
        i = i + 1;
    }
    v
}

/// The export name `raw` as a string with its first `Zw` replaced by `Nt`,
/// where `raw` is UTF-8.
pub fn nt_name_string(raw: &[u8]) -> (r: Option<String>)
    ensures
        (r is Some) == valid_utf8(raw@),
        r matches Some(s) ==> s@ == decode_utf8(replace_zw(raw@)),
{
    let replaced = replace_zw_bytes(raw);
    proof {
        lemma_find_zw(raw@, 0);
        if let Some(i) = find_zw(raw@, 0) {
            lemma_ascii_update_valid(raw@, i, 0x4e);
            lemma_ascii_update_valid(raw@.update(i, 0x4e), i + 1, 0x74);
        }
    }
    string_from_utf8(replaced)
}

/// Whether `raw` begins with `Zw`.
pub fn starts_with_zw_bytes(raw: &[u8]) -> (r: bool)
    ensures
        r == starts_with_zw(raw@),
{
    raw.len() >= 2 && raw[0] == 0x5a && raw[1] == 0x77
}

/// Whether two byte strings are equal.
pub fn bytes_eq(a: &[u8], b: &[u8]) -> (r: bool)
    ensures
        r == (a@ == b@),
{
    if a.len() != b.len() {
        return false;
    }
    let n = a.len();
    let mut i: usize = 0;
    while i < n
        invariant
            n == a@.len(),
            n == b@.len(),
            i <= n,
            forall|j: int| 0 <= j < i ==> a@[j] == b@[j],
        decreases n - i,
    {
        if a[i] != b[i] {
            return false;
        }
        i = i + 1;
    }
    assert(a@ =~= b@);
    true
}

} // verus!
