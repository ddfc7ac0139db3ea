//! Syscall tables of the images that export syscall stubs.
use vstd::prelude::*;

use crate::order::{dedup_keys, entries_view, has_key, is_stable_sort, keys_increasing, lemma_sort_dedup};
use crate::ptr::Ptr;
use crate::signature::{
    byte, byte_matches, exactly, matches_at, nth_target, patterns, sig_extract_u16, SigByte, SigPattern,
};

pub mod ntdll;
pub mod win32u;

verus! {

/// The x64 syscall stub: `mov r10, rcx; mov eax, <index>;
/// test byte ptr [0x7FFE0308], 1; jne +3; syscall; ret; int 2Eh; ret`.
pub open spec fn native_stub_pattern() -> Seq<SigPattern> {
    seq![
        exactly(0x4c), exactly(0x8b), exactly(0xd1), exactly(0xb8), SigPattern::Target,
        SigPattern::Target, SigPattern::Ignore, SigPattern::Ignore, exactly(0xf6), exactly(0x04),
        exactly(0x25), SigPattern::Ignore, SigPattern::Ignore, SigPattern::Ignore,
        SigPattern::Ignore, exactly(0x01), exactly(0x75), exactly(0x03), exactly(0x0f),
        exactly(0x05), exactly(0xc3), exactly(0xcd), exactly(0x2e), exactly(0xc3),
    ]
}

/// Builds the x64 syscall stub signature.
pub fn native_stub_sig() -> (r: Vec<SigByte>)
    ensures
        patterns(r@) == native_stub_pattern(),
{
    let r = vec![
        byte(0x4c), byte(0x8b), byte(0xd1), byte(0xb8), SigByte::Target, SigByte::Target,
        SigByte::Ignore, SigByte::Ignore, byte(0xf6), byte(0x04), byte(0x25), SigByte::Ignore,
        SigByte::Ignore, SigByte::Ignore, SigByte::Ignore, byte(0x01), byte(0x75), byte(0x03),
        byte(0x0f), byte(0x05), byte(0xc3), byte(0xcd), byte(0x2e), byte(0xc3),
    ];
    assert(patterns(r@) =~= native_stub_pattern());
    r
}

/// The index that the stub at `rva` loads, where `sig` matches there: the
/// little-endian word under its first two targets.  The match may reach up to
/// the end of the image.
pub open spec fn stub_index(d: Seq<u8>, rva: int, sig: Seq<SigPattern>) -> Option<int> {
    if matches_at(d, rva, d.len() as int, rva, sig) {
        Some(
            ((d[rva + nth_target(sig, 0).unwrap()] as int + d[rva + nth_target(sig, 1).unwrap()]
                as int * 0x100) as u16) as int,
        )
    } else {
        None
    }
}

/// The entries numbered consecutively from `base`, in their order.
pub open spec fn numbered(s: Seq<(Seq<char>, int)>, base: int) -> Seq<(Seq<char>, int)> {
    Seq::new(s.len(), |i: int| (s[i].0, base + i))
}

/// Named indices as mathematical values.
pub open spec fn indices_view(v: Seq<(String, u32)>) -> Seq<(Seq<char>, int)> {
    v.map_values(|p: (String, u32)| (p.0@, p.1 as int))
}

/// The names of `v`, numbered from `base`.
pub fn number_entries(v: &Vec<(String, u64)>, base: u32) -> (r: Vec<(String, u32)>)
    requires
        base + v@.len() <= u32::MAX + 1,
    ensures
        indices_view(r@) == numbered(entries_view(v@), base as int),
{
    let mut out: Vec<(String, u32)> = Vec::new();
    let n = v.len();
    let mut i: usize = 0;
    while i < n
        invariant
            n == v@.len(),
            i <= n,
            base + n <= u32::MAX + 1,
            indices_view(out@) =~= numbered(entries_view(v@), base as int).take(i as int),
        decreases n - i,
    {
        let ghost before = indices_view(out@);
        let name = v[i].0.clone();
        out.push((name, base + i as u32));
        assert(indices_view(out@) =~= before.push((v@[i as int].0@, base + i)));
        i = i + 1;
        assert(indices_view(out@) =~= numbered(entries_view(v@), base as int).take(i as int));
    }
    assert(numbered(entries_view(v@), base as int).take(n as int) =~= numbered(
        entries_view(v@),
        base as int,
    ));
    out
}

/// The entries with their keys narrowed to `u32`; every key fits.
pub fn narrow_keys(v: &Vec<(String, u64)>) -> (r: Vec<(String, u32)>)
    requires
        forall|i: int| 0 <= i < v@.len() ==> #[trigger] v@[i].1 <= u32::MAX,
    ensures
        indices_view(r@) == entries_view(v@),
{
    let mut out: Vec<(String, u32)> = Vec::new();
    let n = v.len();
    let mut i: usize = 0;
    while i < n
        invariant
            n == v@.len(),
            i <= n,
            forall|j: int| 0 <= j < v@.len() ==> #[trigger] v@[j].1 <= u32::MAX,
            indices_view(out@) =~= entries_view(v@).take(i as int),
        decreases n - i,
    {
        let ghost before = indices_view(out@);
        let name = v[i].0.clone();
        out.push((name, v[i].1 as u32));
        assert(indices_view(out@) =~= before.push((v@[i as int].0@, v@[i as int].1 as int)));
        i = i + 1;
        assert(indices_view(out@) =~= entries_view(v@).take(i as int));
    }
    assert(entries_view(v@).take(n as int) =~= entries_view(v@));
    out
}

/// The index loaded by the stub at the cursor, where `sig` matches there.
pub fn stub_index_at(ptr: Ptr, sig: &[SigByte]) -> (r: Option<u32>)
    requires
        ptr.wf(),
        ptr.spec_start() == ptr.pos(),
        ptr.spec_end() == ptr.bytes().len(),
        nth_target(patterns(sig@), 1) is Some,
    ensures
        r == match stub_index(ptr.bytes(), ptr.pos(), patterns(sig@)) {
            Some(x) => Some((x % 0x2000) as u32),
            None => None::<u32>,
        },
{
    match sig_extract_u16(ptr, sig) {
        Some(index) => {
            let x = index as u32;
            let m = x & 0x1fff;
            assert(m == x % 0x2000) by (bit_vector)
                requires
                    m == x & 0x1fff,
            ;
            Some(m)
        },
        None => None,
    }
}

/// The stub exports `ss` ordered by index, one per index (the first in
/// name-table order).
pub open spec fn stubs_by_index(ss: Seq<(Seq<char>, int)>, out: Seq<(Seq<char>, int)>) -> bool {
    exists|sorted: Seq<(Seq<char>, int)>| is_stable_sort(sorted, ss) && out == dedup_keys(sorted)
}

/// Every export that `f` keeps carries an index from 0 up to, not
/// including, `bound`.
pub open spec fn low_indices(f: spec_fn((Seq<u8>, int)) -> Option<(Seq<char>, int)>, bound: int) -> bool {
    forall|e: (Seq<u8>, int)| (#[trigger] f(e)) matches Some(x) ==> 0 <= x.1 < bound
}

/// The exports that `f` keeps carry indices below `bound`.
proof fn lemma_low_entries(
    es: Seq<(Seq<u8>, int)>,
    f: spec_fn((Seq<u8>, int)) -> Option<(Seq<char>, int)>,
    bound: int,
    j: int,
)
    requires
        low_indices(f, bound),
        0 <= j < es.filter_map(f).len(),
    ensures
        0 <= es.filter_map(f)[j].1 < bound,
    decreases es.len(),
{
    if es.len() > 0 {
        let rest = es.drop_last();
        if j < rest.filter_map(f).len() {
            lemma_low_entries(rest, f, bound, j);
        } else {
            assert(f(es.last()) is Some);
        }
    }
}

/// Ordering the stub exports by index and keeping one per index lists each
/// index once: the indices strictly increase, each is below `bound`, each
/// listed entry is a stub export, and the index of every stub export is
/// listed.
pub proof fn lemma_stubs_by_index(
    es: Seq<(Seq<u8>, int)>,
    f: spec_fn((Seq<u8>, int)) -> Option<(Seq<char>, int)>,
    bound: int,
    out: Seq<(Seq<char>, int)>,
)
    requires
        low_indices(f, bound),
        stubs_by_index(es.filter_map(f), out),
    ensures
        keys_increasing(out),
        forall|i: int| 0 <= i < out.len() ==> 0 <= #[trigger] out[i].1 < bound,
        forall|i: int| 0 <= i < out.len() ==> #[trigger] es.filter_map(f).contains(out[i]),
        forall|j: int| 0 <= j < es.filter_map(f).len() ==> has_key(out, #[trigger] es.filter_map(f)[j].1),
{
    let ss = es.filter_map(f);
    let sorted = choose|sorted: Seq<(Seq<char>, int)>|
        is_stable_sort(sorted, ss) && out == dedup_keys(sorted);
    lemma_sort_dedup(sorted, ss);
    assert forall|i: int| 0 <= i < out.len() implies 0 <= #[trigger] out[i].1 < bound by {
        assert(ss.contains(out[i]));
        let j = choose|j: int| 0 <= j < ss.len() && ss[j] == out[i];
        lemma_low_entries(es, f, bound, j);
    }
}

/// Each stub signature holds at least two targets.
pub proof fn lemma_signature_targets()
    ensures
        nth_target(native_stub_pattern(), 1) is Some,
        nth_target(ntdll::ntdll_wow_pattern(), 1) is Some,
        nth_target(win32u::win32u_wow_pattern(), 1) is Some,
{
    reveal_with_fuel(crate::signature::next_target, 6);
    reveal_with_fuel(nth_target, 2);
    assert(crate::signature::next_target(native_stub_pattern(), 0) == Some(4int));
    assert(crate::signature::next_target(native_stub_pattern(), 4) == Some(5int));
    assert(crate::signature::next_target(ntdll::ntdll_wow_pattern(), 0) == Some(1int));
    assert(crate::signature::next_target(ntdll::ntdll_wow_pattern(), 1) == Some(2int));
    assert(crate::signature::next_target(win32u::win32u_wow_pattern(), 0) == Some(1int));
    assert(crate::signature::next_target(win32u::win32u_wow_pattern(), 1) == Some(2int));
}

/// The x64 syscall stub, `mov r10, rcx; mov eax, <index>; test byte ptr
/// [0x7FFE0308], 1; jne +3; syscall; ret; int 2Eh; ret`, matches the x64
/// signature wherever a byte of the image follows it, and the index read is
/// the low two bytes of the immediate.
pub proof fn law_native_stub_matches(d: Seq<u8>, rva: int)
    requires
        0 <= rva,
        rva + 24 < d.len(),
        d[rva] == 0x4c,
        d[rva + 1] == 0x8b,
        d[rva + 2] == 0xd1,
        d[rva + 3] == 0xb8,
        d[rva + 8] == 0xf6,
        d[rva + 9] == 0x04,
        d[rva + 10] == 0x25,
        d[rva + 15] == 0x01,
        d[rva + 16] == 0x75,
        d[rva + 17] == 0x03,
        d[rva + 18] == 0x0f,
        d[rva + 19] == 0x05,
        d[rva + 20] == 0xc3,
        d[rva + 21] == 0xcd,
        d[rva + 22] == 0x2e,
        d[rva + 23] == 0xc3,
    ensures
        stub_index(d, rva, native_stub_pattern()) == Some(d[rva + 4] + 0x100 * d[rva + 5]),
{
    let sig = native_stub_pattern();
    assert(sig.len() == 24);
    assert forall|k: int| 0 <= k < 24 implies #[trigger] byte_matches(d, rva, d.len() as int, rva, sig, k) by {
        if k == 0 {
            assert(sig[0] == exactly(0x4cu8));
            assert(seq![0x4cu8][0] == d[rva + 0]);
        } else if k == 1 {
            assert(sig[1] == exactly(0x8bu8));
            assert(seq![0x8bu8][0] == d[rva + 1]);
        } else if k == 2 {
            assert(sig[2] == exactly(0xd1u8));
            assert(seq![0xd1u8][0] == d[rva + 2]);
        } else if k == 3 {
            assert(sig[3] == exactly(0xb8u8));
            assert(seq![0xb8u8][0] == d[rva + 3]);
        } else if k == 4 {
            assert(!(sig[4] is Byte));
        } else if k == 5 {
            assert(!(sig[5] is Byte));
        } else if k == 6 {
            assert(!(sig[6] is Byte));
        } else if k == 7 {
            assert(!(sig[7] is Byte));
        } else if k == 8 {
            assert(sig[8] == exactly(0xf6u8));
            assert(seq![0xf6u8][0] == d[rva + 8]);
        } else if k == 9 {
            assert(sig[9] == exactly(0x04u8));
            assert(seq![0x04u8][0] == d[rva + 9]);
        } else if k == 10 {
            assert(sig[10] == exactly(0x25u8));
            assert(seq![0x25u8][0] == d[rva + 10]);
        } else if k == 11 {
            assert(!(sig[11] is Byte));
        } else if k == 12 {
            assert(!(sig[12] is Byte));
        } else if k == 13 {
            assert(!(sig[13] is Byte));
        } else if k == 14 {
            assert(!(sig[14] is Byte));
        } else if k == 15 {
            assert(sig[15] == exactly(0x01u8));
            assert(seq![0x01u8][0] == d[rva + 15]);
        } else if k == 16 {
            assert(sig[16] == exactly(0x75u8));
            assert(seq![0x75u8][0] == d[rva + 16]);
        } else if k == 17 {
            assert(sig[17] == exactly(0x03u8));
            assert(seq![0x03u8][0] == d[rva + 17]);
        } else if k == 18 {
            assert(sig[18] == exactly(0x0fu8));
            assert(seq![0x0fu8][0] == d[rva + 18]);
        } else if k == 19 {
            assert(sig[19] == exactly(0x05u8));
            assert(seq![0x05u8][0] == d[rva + 19]);
        } else if k == 20 {
            assert(sig[20] == exactly(0xc3u8));
            assert(seq![0xc3u8][0] == d[rva + 20]);
        } else if k == 21 {
            assert(sig[21] == exactly(0xcdu8));
            assert(seq![0xcdu8][0] == d[rva + 21]);
        } else if k == 22 {
            assert(sig[22] == exactly(0x2eu8));
            assert(seq![0x2eu8][0] == d[rva + 22]);
        } else if k == 23 {
            assert(sig[23] == exactly(0xc3u8));
            assert(seq![0xc3u8][0] == d[rva + 23]);
        }
    }
    assert(matches_at(d, rva, d.len() as int, rva, sig));
    reveal_with_fuel(crate::signature::next_target, 6);
    assert(crate::signature::next_target(sig, 0) == Some(4int));
    assert(crate::signature::next_target(sig, 4) == Some(5int));
    assert(nth_target(sig, 0) == Some(4int));
    assert(nth_target(sig, 1) == Some(5int));
    assert(d[rva + 4] + d[rva + 5] * 0x100 < 0x10000);
}

/// Only the x64 syscall stub matches the x64 signature, with a byte of the
/// image after it.
pub proof fn law_native_stub_shape(d: Seq<u8>, rva: int)
    requires
        0 <= rva,
    ensures
        (stub_index(d, rva, native_stub_pattern()) is Some) ==> rva + 24 < d.len() && d[rva] == 0x4c && d[rva + 1] == 0x8b && d[rva + 2] == 0xd1 && d[rva + 3] == 0xb8 && d[rva + 8] == 0xf6 && d[rva + 9] == 0x04 && d[rva + 10] == 0x25 && d[rva + 15] == 0x01 && d[rva + 16] == 0x75 && d[rva + 17] == 0x03 && d[rva + 18] == 0x0f && d[rva + 19] == 0x05 && d[rva + 20] == 0xc3 && d[rva + 21] == 0xcd && d[rva + 22] == 0x2e && d[rva + 23] == 0xc3,
{
    let sig = native_stub_pattern();
    if stub_index(d, rva, sig) is Some {
        assert(sig.len() == 24);
        assert(byte_matches(d, rva, d.len() as int, rva, sig, 0));
        assert(sig[0] == exactly(0x4cu8));
        assert(seq![0x4cu8].contains(d[rva + 0]));
        assert(seq![0x4cu8][0] == d[rva + 0]);
        assert(byte_matches(d, rva, d.len() as int, rva, sig, 1));
        assert(sig[1] == exactly(0x8bu8));
        assert(seq![0x8bu8].contains(d[rva + 1]));
        assert(seq![0x8bu8][0] == d[rva + 1]);
        assert(byte_matches(d, rva, d.len() as int, rva, sig, 2));
        assert(sig[2] == exactly(0xd1u8));
        assert(seq![0xd1u8].contains(d[rva + 2]));
        assert(seq![0xd1u8][0] == d[rva + 2]);
        assert(byte_matches(d, rva, d.len() as int, rva, sig, 3));
        assert(sig[3] == exactly(0xb8u8));
        assert(seq![0xb8u8].contains(d[rva + 3]));
        assert(seq![0xb8u8][0] == d[rva + 3]);
        assert(byte_matches(d, rva, d.len() as int, rva, sig, 8));
        assert(sig[8] == exactly(0xf6u8));
        assert(seq![0xf6u8].contains(d[rva + 8]));
        assert(seq![0xf6u8][0] == d[rva + 8]);
        assert(byte_matches(d, rva, d.len() as int, rva, sig, 9));
        assert(sig[9] == exactly(0x04u8));
        assert(seq![0x04u8].contains(d[rva + 9]));
        assert(seq![0x04u8][0] == d[rva + 9]);
        assert(byte_matches(d, rva, d.len() as int, rva, sig, 10));
        assert(sig[10] == exactly(0x25u8));
        assert(seq![0x25u8].contains(d[rva + 10]));
        assert(seq![0x25u8][0] == d[rva + 10]);
        assert(byte_matches(d, rva, d.len() as int, rva, sig, 15));
        assert(sig[15] == exactly(0x01u8));
        assert(seq![0x01u8].contains(d[rva + 15]));
        assert(seq![0x01u8][0] == d[rva + 15]);
        assert(byte_matches(d, rva, d.len() as int, rva, sig, 16));
        assert(sig[16] == exactly(0x75u8));
        assert(seq![0x75u8].contains(d[rva + 16]));
        assert(seq![0x75u8][0] == d[rva + 16]);
        assert(byte_matches(d, rva, d.len() as int, rva, sig, 17));
        assert(sig[17] == exactly(0x03u8));
        assert(seq![0x03u8].contains(d[rva + 17]));
        assert(seq![0x03u8][0] == d[rva + 17]);
        assert(byte_matches(d, rva, d.len() as int, rva, sig, 18));
        assert(sig[18] == exactly(0x0fu8));
        assert(seq![0x0fu8].contains(d[rva + 18]));
        assert(seq![0x0fu8][0] == d[rva + 18]);
        assert(byte_matches(d, rva, d.len() as int, rva, sig, 19));
        assert(sig[19] == exactly(0x05u8));
        assert(seq![0x05u8].contains(d[rva + 19]));
        assert(seq![0x05u8][0] == d[rva + 19]);
        assert(byte_matches(d, rva, d.len() as int, rva, sig, 20));
        assert(sig[20] == exactly(0xc3u8));
        assert(seq![0xc3u8].contains(d[rva + 20]));
        assert(seq![0xc3u8][0] == d[rva + 20]);
        assert(byte_matches(d, rva, d.len() as int, rva, sig, 21));
        assert(sig[21] == exactly(0xcdu8));
        assert(seq![0xcdu8].contains(d[rva + 21]));
        assert(seq![0xcdu8][0] == d[rva + 21]);
        assert(byte_matches(d, rva, d.len() as int, rva, sig, 22));
        assert(sig[22] == exactly(0x2eu8));
        assert(seq![0x2eu8].contains(d[rva + 22]));
        assert(seq![0x2eu8][0] == d[rva + 22]);
        assert(byte_matches(d, rva, d.len() as int, rva, sig, 23));
        assert(sig[23] == exactly(0xc3u8));
        assert(seq![0xc3u8].contains(d[rva + 23]));
        assert(seq![0xc3u8][0] == d[rva + 23]);
        assert(byte_matches(d, rva, d.len() as int, rva, sig, 23));
    }
}

} // verus!
