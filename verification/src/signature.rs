//! Byte signatures: patterns matched against machine code and resources.
use vstd::prelude::*;

use crate::ptr::{in_window, Ptr};
use vstd::string::*;

verus! {

/// One position of a signature.
pub enum SigByte {
    /// The byte must be one of these values.
    Byte(Vec<u8>),
    /// Any byte; its value is extracted.
    Target,
    /// Any byte.
    Ignore,
}

/// What a signature position accepts, as a mathematical value.
pub enum SigPattern {
    Byte(Seq<u8>),
    Target,
    Ignore,
}

impl View for SigByte {
    type V = SigPattern;

    open spec fn view(&self) -> SigPattern {
        match self {
            SigByte::Byte(v) => SigPattern::Byte(v@),
            SigByte::Target => SigPattern::Target,
            SigByte::Ignore => SigPattern::Ignore,
        }
    }
}

/// The patterns of a signature.
pub open spec fn patterns(sig: Seq<SigByte>) -> Seq<SigPattern> {
    sig.map_values(|b: SigByte| b@)
}

/// Whether a signature position accepts byte `b`.
pub open spec fn accepts(p: SigPattern, b: u8) -> bool {
    match p {
        SigPattern::Byte(vals) => vals.contains(b),
        _ => true,
    }
}

/// Whether `sig` matches the bytes at `pos`, every byte of the match lying in
/// the window `[start, end)`.
pub open spec fn matches_at(d: Seq<u8>, start: int, end: int, pos: int, sig: Seq<SigPattern>) -> bool {
    forall|k: int| 0 <= k < sig.len() ==> #[trigger] byte_matches(d, start, end, pos, sig, k)
}

/// Whether position `k` of `sig` matches the byte at `pos + k`, which lies in the window.
pub open spec fn byte_matches(
    d: Seq<u8>,
    start: int,
    end: int,
    pos: int,
    sig: Seq<SigPattern>,
    k: int,
) -> bool {
    in_window(start, end, pos + k, 1) && accepts(sig[k], d[pos + k])
}

/// The first position at or after `from` where `sig` matches, scanning while
/// the byte at the position lies in the window.
pub open spec fn first_match(d: Seq<u8>, start: int, end: int, from: int, sig: Seq<SigPattern>) -> Option<int>
    decreases end - from,
{
    if !in_window(start, end, from, 1) {
        None
    } else if matches_at(d, start, end, from, sig) {
        Some(from)
    } else {
        first_match(d, start, end, from + 1, sig)
    }
}

/// The first position after `i` that holds a `Target`.
pub open spec fn next_target(sig: Seq<SigPattern>, i: int) -> Option<int>
    decreases sig.len() - i,
{
    if i + 1 >= sig.len() {
        None
    } else if sig[i + 1] is Target {
        Some(i + 1)
    } else {
        next_target(sig, i + 1)
    }
}

/// The position of the `n`-th extracted `Target` (counting from 0).  The
/// first position of a signature is never examined for a target.
pub open spec fn nth_target(sig: Seq<SigPattern>, n: nat) -> Option<int>
    decreases n,
{
    if n == 0 {
        next_target(sig, 0)
    } else {
        match nth_target(sig, (n - 1) as nat) {
            Some(t) => next_target(sig, t),
            None => None,
        }
    }
}

/// A position that accepts exactly the byte `b`.
pub open spec fn exactly(b: u8) -> SigPattern {
    SigPattern::Byte(seq![b])
}

/// The signature of a UTF-16LE string whose code units are the bytes of `s`:
/// each byte followed by a zero byte.
pub open spec fn wide_pattern(s: Seq<u8>) -> Seq<SigPattern> {
    Seq::new(
        2 * s.len(),
        |i: int|
            if i % 2 == 0 {
                exactly(s[i / 2])
            } else {
                exactly(0)
            },
    )
}

/// A position that accepts exactly the byte `b`.
pub fn byte(b: u8) -> (r: SigByte)
    ensures
        r@ == exactly(b),
{
    let v = vec![b];
    assert(v@ =~= seq![b]);
    SigByte::Byte(v)
}

/// A position that accepts either of two bytes.
pub fn either(a: u8, b: u8) -> (r: SigByte)
    ensures
        r@ == SigPattern::Byte(seq![a, b]),
{
    let v = vec![a, b];
    assert(v@ =~= seq![a, b]);
    SigByte::Byte(v)
}

/// The signature of the UTF-16LE string with the code units `s`.
pub fn sig_wide(s: &[u8]) -> (r: Vec<SigByte>)
    ensures
        patterns(r@) == wide_pattern(s@),
{
    let mut r: Vec<SigByte> = Vec::new();
    let mut i: usize = 0;
    while i < s.len()
        invariant
            i <= s@.len(),
            patterns(r@) =~= wide_pattern(s@.take(i as int)),
        decreases s@.len() - i,
    {
        let ghost before = patterns(r@);
        let ghost prev = wide_pattern(s@.take(i as int));
        r.push(byte(s[i]));
        r.push(byte(0));
        let ghost next = wide_pattern(s@.take(i + 1));
        assert(before.len() == 2 * i);
        assert(r@.len() == 2 * i + 2);
        assert(patterns(r@).len() == 2 * i + 2);
        assert forall|j: int| 0 <= j < 2 * (i + 1) implies patterns(r@)[j] == next[j] by {
            if j < 2 * i {
                assert(patterns(r@)[j] == before[j]);
                assert(before[j] == prev[j]);
                assert(j / 2 < i);
            } else if j == 2 * i {
                assert(j % 2 == 0 && j / 2 == i);
            } else {
                assert(j % 2 == 1);
            }
        }
        i = i + 1;
        assert(patterns(r@) =~= wide_pattern(s@.take(i as int)));
    }
    assert(s@.take(i as int) =~= s@);
    r
}

/// Whether `sig` has at least `n` targets to extract.
pub open spec fn has_targets(sig: Seq<SigPattern>, n: nat) -> bool {
    n == 0 || nth_target(sig, (n - 1) as nat) is Some
}

proof fn lemma_next_target_bounds(sig: Seq<SigPattern>, i: int)
    requires
        0 <= i,
    ensures
        next_target(sig, i) matches Some(t) ==> i < t < sig.len() && sig[t] is Target,
        next_target(sig, i) is None ==> forall|k: int| i < k < sig.len() ==> !(sig[k] is Target),
    decreases sig.len() - i,
{
    if i + 1 < sig.len() && !(sig[i + 1] is Target) {
        lemma_next_target_bounds(sig, i + 1);
    }
}

proof fn lemma_nth_target_chain(sig: Seq<SigPattern>, n: nat)
    requires
        nth_target(sig, n) is Some,
    ensures
        forall|m: nat| m <= n ==> #[trigger] nth_target(sig, m) is Some,
        0 < nth_target(sig, n).unwrap() < sig.len(),
        sig[nth_target(sig, n).unwrap()] is Target,
    decreases n,
{
    if n == 0 {
        lemma_next_target_bounds(sig, 0);
    } else {
        lemma_nth_target_chain(sig, (n - 1) as nat);
        lemma_next_target_bounds(sig, nth_target(sig, (n - 1) as nat).unwrap());
        assert forall|m: nat| m <= n implies #[trigger] nth_target(sig, m) is Some by {
            if m < n {
            }
        }
    }
}

fn contains_byte(values: &Vec<u8>, val: u8) -> (r: bool)
    ensures
        r == values@.contains(val),
{
    let mut i: usize = 0;
    while i < values.len()
        invariant
            i <= values@.len(),
            forall|j: int| 0 <= j < i ==> values@[j] != val,
        decreases values@.len() - i,
    {
        if values[i] == val {
            return true;
        }
        i = i + 1;
    }
    false
}

/// Whether `signature` matches the bytes at the cursor.
pub fn sig_match(ptr: Ptr, signature: &[SigByte]) -> (r: bool)
    requires
        ptr.wf(),
    ensures
        r == matches_at(
            ptr.bytes(),
            ptr.spec_start(),
            ptr.spec_end(),
            ptr.pos(),
            patterns(signature@),
        ),
{
    let ghost pats = patterns(signature@);
    let mut k: usize = 0;
    while k < signature.len()
        invariant
            ptr.wf(),
            k <= signature@.len(),
            pats == patterns(signature@),
            forall|j: int|
                0 <= j < k ==> #[trigger] byte_matches(
                    ptr.bytes(),
                    ptr.spec_start(),
                    ptr.spec_end(),
                    ptr.pos(),
                    pats,
                    j,
                ),
        decreases signature@.len() - k,
    {
        if !ptr.is_valid_at(k as u64, 1) {
            assert(!byte_matches(
                ptr.bytes(),
                ptr.spec_start(),
                ptr.spec_end(),
                ptr.pos(),
                pats,
                k as int,
            ));
            return false;
        }
        let val = ptr.byte_at(k as u64);
        assert(pats[k as int] == signature@[k as int]@);
        match &signature[k] {
            SigByte::Byte(values) => {
                if !contains_byte(values, val) {
                    assert(!byte_matches(
                        ptr.bytes(),
                        ptr.spec_start(),
                        ptr.spec_end(),
                        ptr.pos(),
                        pats,
                        k as int,
                    ));
                    return false;
                }
            },
            _ => {},
        }
        assert(byte_matches(
            ptr.bytes(),
            ptr.spec_start(),
            ptr.spec_end(),
            ptr.pos(),
            pats,
            k as int,
        ));
        k = k + 1;
    }
    true
}

/// The cursor moved to the first position, at or after the cursor, where
/// `signature` matches; the window is kept.
pub fn sig_search<'a>(ptr: Ptr<'a>, signature: &[SigByte]) -> (r: Option<Ptr<'a>>)
    requires
        ptr.wf(),
    ensures
        (r is Some) == (first_match(
            ptr.bytes(),
            ptr.spec_start(),
            ptr.spec_end(),
            ptr.pos(),
            patterns(signature@),
        ) is Some),
        r matches Some(q) ==> {
            &&& q.wf()
            &&& q.bytes() == ptr.bytes()
            &&& q.spec_start() == ptr.spec_start()
            &&& q.spec_end() == ptr.spec_end()
            &&& first_match(
                ptr.bytes(),
                ptr.spec_start(),
                ptr.spec_end(),
                ptr.pos(),
                patterns(signature@),
            ) == Some(q.pos())
        },
{
    let ghost pats = patterns(signature@);
    let ghost target = first_match(ptr.bytes(), ptr.spec_start(), ptr.spec_end(), ptr.pos(), pats);
    let mut cur = ptr;
    while cur.is_valid()
        invariant
            cur.wf(),
            cur.bytes() == ptr.bytes(),
            cur.spec_start() == ptr.spec_start(),
            cur.spec_end() == ptr.spec_end(),
            pats == patterns(signature@),
            target == first_match(ptr.bytes(), ptr.spec_start(), ptr.spec_end(), ptr.pos(), pats),
            target == first_match(ptr.bytes(), ptr.spec_start(), ptr.spec_end(), cur.pos(), pats),
        decreases cur.spec_end() - cur.pos(),
    {
        if sig_match(cur, signature) {
            assert(target == Some(cur.pos()));
            return Some(cur);
        }
        cur = cur.byte_add(1);
    }
    None
}

/// Walks the `Target` positions of a matched signature.
pub struct SigExtractIter<'a, 'b> {
    ptr: Ptr<'a>,
    signature: &'b [SigByte],
    index: usize,
}

impl<'a, 'b> SigExtractIter<'a, 'b> {
    pub closed spec fn inv(&self) -> bool {
        &&& self.ptr.wf()
        &&& matches_at(
            self.ptr.bytes(),
            self.ptr.spec_start(),
            self.ptr.spec_end(),
            self.ptr.pos(),
            patterns(self.signature@),
        )
        &&& self.index < self.signature@.len() || self.signature@.len() == 0
    }

    pub closed spec fn spec_ptr(&self) -> Ptr<'a> {
        self.ptr
    }

    pub closed spec fn spec_signature(&self) -> Seq<SigPattern> {
        patterns(self.signature@)
    }

    pub closed spec fn spec_index(&self) -> int {
        self.index as int
    }

    /// Starts at the first position of `signature` where it matches at the cursor.
    pub fn new(ptr: Ptr<'a>, signature: &'b [SigByte]) -> (r: Option<Self>)
        requires
            ptr.wf(),
        ensures
            r is Some == matches_at(
                ptr.bytes(),
                ptr.spec_start(),
                ptr.spec_end(),
                ptr.pos(),
                patterns(signature@),
            ),
            r matches Some(it) ==> {
                &&& it.inv()
                &&& it.spec_ptr() == ptr
                &&& it.spec_signature() == patterns(signature@)
                &&& it.spec_index() == 0
            },
    {
        if !sig_match(ptr, signature) {
            return None;
        }
        Some(SigExtractIter { ptr, signature, index: 0 })
    }

    /// The byte under the next `Target` after the current index.
    pub fn next(&mut self) -> (r: Option<u8>)
        requires
            old(self).inv(),
            next_target(old(self).spec_signature(), old(self).spec_index()) is Some,
        ensures
            final(self).inv(),
            final(self).spec_ptr() == old(self).spec_ptr(),
            final(self).spec_signature() == old(self).spec_signature(),
            ({
                let t = next_target(old(self).spec_signature(), old(self).spec_index()).unwrap();
                &&& final(self).spec_index() == t
                &&& r == Some(old(self).spec_ptr().bytes()[old(self).spec_ptr().pos() + t])
            }),
    {
        let ghost pats = patterns(self.signature@);
        let ghost t = next_target(pats, self.index as int).unwrap();
        proof {
            lemma_next_target_bounds(pats, self.index as int);
        }
        let n = self.signature.len();
        let mut k = self.index + 1;
        while !matches!(self.signature[k], SigByte::Target)
            invariant
                self.inv(),
                n == self.signature@.len(),
                pats == patterns(self.signature@),
                t == next_target(pats, self.index as int).unwrap(),
                t < n,
                next_target(pats, self.index as int) is Some,
                self.index < k <= t,
                next_target(pats, self.index as int) == next_target(pats, k - 1),
            decreases self.signature@.len() - k,
        {
            assert(pats[k as int] == self.signature@[k as int]@);
            proof {
                assert(!(pats[k as int] is Target));
                assert(next_target(pats, k - 1) == next_target(pats, k as int));
                lemma_next_target_bounds(pats, k as int);
            }
            k = k + 1;
        }
        assert(pats[k as int] == self.signature@[k as int]@);
        self.index = k;
        assert(byte_matches(
            self.ptr.bytes(),
            self.ptr.spec_start(),
            self.ptr.spec_end(),
            self.ptr.pos(),
            pats,
            k as int,
        ));
        Some(self.ptr.byte_at(k as u64))
    }
}

/// The byte under the `k`-th target of `sig` matched at the cursor.
pub open spec fn target_byte(ptr: Ptr, sig: Seq<SigPattern>, k: nat) -> int {
    ptr.bytes()[ptr.pos() + nth_target(sig, k).unwrap()] as int
}

/// Whether `sig` matches at the cursor.
pub open spec fn matches_here(ptr: Ptr, sig: Seq<SigPattern>) -> bool {
    matches_at(ptr.bytes(), ptr.spec_start(), ptr.spec_end(), ptr.pos(), sig)
}

/// The byte under the first target.
pub fn sig_extract_u8(ptr: Ptr, signature: &[SigByte]) -> (r: Option<u8>)
    requires
        ptr.wf(),
        has_targets(patterns(signature@), 1),
    ensures
        r == if matches_here(ptr, patterns(signature@)) {
            Some(target_byte(ptr, patterns(signature@), 0) as u8)
        } else {
            None::<u8>
        },
{
    let mut it = match SigExtractIter::new(ptr, signature) {
        Some(it) => it,
        None => return None,
    };
    it.next()
}

/// The little-endian `u32` formed by the bytes under the first four targets.
pub fn sig_extract_u32(ptr: Ptr, signature: &[SigByte]) -> (r: Option<u32>)
    requires
        ptr.wf(),
        has_targets(patterns(signature@), 4),
    ensures
        r == if matches_here(ptr, patterns(signature@)) {
            Some(
                (target_byte(ptr, patterns(signature@), 0) + target_byte(ptr, patterns(signature@), 1)
                    * 0x100 + target_byte(ptr, patterns(signature@), 2) * 0x1_0000 + target_byte(
                    ptr,
                    patterns(signature@),
                    3,
                ) * 0x100_0000) as u32,
            )
        } else {
            None::<u32>
        },
{
    proof {
        let pats = patterns(signature@);
        lemma_nth_target_chain(pats, 3);
        assert(nth_target(pats, 0) is Some && nth_target(pats, 1) is Some && nth_target(pats, 2)
            is Some && nth_target(pats, 3) is Some);
    }
    let mut result = match SigExtractIter::new(ptr, signature) {
        Some(it) => it,
        None => return None,
    };
    let r0 = match result.next() {
        Some(b) => b as u32,
        None => return None,
    };
    let r1 = match result.next() {
        Some(b) => (b as u32) * 0x100,
        None => return None,
    };
    let r2 = match result.next() {
        Some(b) => (b as u32) * 0x1_0000,
        None => return None,
    };
    let r3 = match result.next() {
        Some(b) => (b as u32) * 0x100_0000,
        None => return None,
    };
    Some(r0 + r1 + r2 + r3)
}

/// The little-endian `u64` formed by the bytes under the first eight targets.
pub fn sig_extract_u64(ptr: Ptr, signature: &[SigByte]) -> (r: Option<u64>)
    requires
        ptr.wf(),
        has_targets(patterns(signature@), 8),
    ensures
        r == if matches_here(ptr, patterns(signature@)) {
            Some(
                (target_byte(ptr, patterns(signature@), 0) + target_byte(ptr, patterns(signature@), 1)
                    * 0x100 + target_byte(ptr, patterns(signature@), 2) * 0x1_0000 + target_byte(
                    ptr,
                    patterns(signature@),
                    3,
                ) * 0x100_0000 + target_byte(ptr, patterns(signature@), 4) * 0x1_0000_0000
                    + target_byte(ptr, patterns(signature@), 5) * 0x100_0000_0000 + target_byte(
                    ptr,
                    patterns(signature@),
                    6,
                ) * 0x1_0000_0000_0000 + target_byte(ptr, patterns(signature@), 7)
                    * 0x100_0000_0000_0000) as u64,
            )
        } else {
            None::<u64>
        },
{
    proof {
        let pats = patterns(signature@);
        lemma_nth_target_chain(pats, 7);
        assert(nth_target(pats, 0) is Some && nth_target(pats, 1) is Some && nth_target(pats, 2)
            is Some && nth_target(pats, 3) is Some && nth_target(pats, 4) is Some && nth_target(
            pats,
            5,
        ) is Some && nth_target(pats, 6) is Some && nth_target(pats, 7) is Some);
    }
    let mut result = match SigExtractIter::new(ptr, signature) {
        Some(it) => it,
        None => return None,
    };
    let r0 = match result.next() {
        Some(b) => b as u64,
        None => return None,
    };
    let r1 = match result.next() {
        Some(b) => (b as u64) * 0x100,
        None => return None,
    };
    let r2 = match result.next() {
        Some(b) => (b as u64) * 0x1_0000,
        None => return None,
    };
    let r3 = match result.next() {
        Some(b) => (b as u64) * 0x100_0000,
        None => return None,
    };
    let r4 = match result.next() {
        Some(b) => (b as u64) * 0x1_0000_0000,
        None => return None,
    };
    let r5 = match result.next() {
        Some(b) => (b as u64) * 0x100_0000_0000,
        None => return None,
    };
    let r6 = match result.next() {
        Some(b) => (b as u64) * 0x1_0000_0000_0000,
        None => return None,
    };
    let r7 = match result.next() {
        Some(b) => (b as u64) * 0x100_0000_0000_0000,
        None => return None,
    };
    Some(r0 + r1 + r2 + r3 + r4 + r5 + r6 + r7)
}

/// The little-endian `u16` formed by the bytes under the first two targets.
pub fn sig_extract_u16(ptr: Ptr, signature: &[SigByte]) -> (r: Option<u16>)
    requires
        ptr.wf(),
        has_targets(patterns(signature@), 2),
    ensures
        r == if matches_at(
            ptr.bytes(),
            ptr.spec_start(),
            ptr.spec_end(),
            ptr.pos(),
            patterns(signature@),
        ) {
            Some(
                (ptr.bytes()[ptr.pos() + nth_target(patterns(signature@), 0).unwrap()] as int
                    + ptr.bytes()[ptr.pos() + nth_target(patterns(signature@), 1).unwrap()] as int
                    * 0x100) as u16,
            )
        } else {
            None::<u16>
        },
{
    proof {
        lemma_nth_target_chain(patterns(signature@), 1);
    }
    let mut result = match SigExtractIter::new(ptr, signature) {
        Some(it) => it,
        None => return None,
    };
    let r0 = match result.next() {
        Some(b) => b as u16,
        None => return None,
    };
    let r1 = match result.next() {
        Some(b) => (b as u16) * 0x100,
        None => return None,
    };
    Some(r0 + r1)
}

/// The value of a hexadecimal digit.
pub open spec fn hex_digit(c: u8) -> Option<int> {
    if 0x30 <= c <= 0x39 {
        Some(c - 0x30)
    } else if 0x61 <= c <= 0x66 {
        Some(c - 0x61 + 10)
    } else if 0x41 <= c <= 0x46 {
        Some(c - 0x41 + 10)
    } else {
        None
    }
}

/// The value of a string of hexadecimal digits (0 for the empty string).
pub open spec fn hex_value(s: Seq<u8>) -> Option<int>
    decreases s.len(),
{
    if s.len() == 0 {
        Some(0)
    } else {
        match (hex_value(s.drop_last()), hex_digit(s.last())) {
            (Some(v), Some(d)) => Some(v * 16 + d),
            _ => None,
        }
    }
}

/// A `u8` written in hexadecimal, as `u8::from_str_radix(_, 16)` reads it:
/// an optional `+`, then at least one digit, for a value of at most 255.
pub open spec fn parse_hex_u8(s: Seq<u8>) -> Option<u8> {
    let digits = if s.len() > 0 && s[0] == 0x2b {
        s.drop_first()
    } else {
        s
    };
    if digits.len() == 0 {
        None
    } else {
        match hex_value(digits) {
            Some(v) => if v <= 255 {
                Some(v as u8)
            } else {
                None
            },
            None => None,
        }
    }
}

/// The digits of a signature token: a token of more than two bytes loses
/// enclosing double quotes, or else a leading `0x`.
pub open spec fn hex_token(s: Seq<u8>) -> Seq<u8> {
    if s.len() > 2 && s[0] == 0x22 && s[s.len() - 1] == 0x22 {
        s.subrange(1, s.len() - 1)
    } else if s.len() > 2 && s[0] == 0x30 && s[1] == 0x78 {
        s.subrange(2, s.len() as int)
    } else {
        s
    }
}

proof fn lemma_hex_prefix(s: Seq<u8>, i: int)
    requires
        0 <= i <= s.len(),
        hex_value(s) is Some,
    ensures
        hex_value(s.take(i)) is Some,
        hex_value(s.take(i)).unwrap() <= hex_value(s).unwrap(),
        0 <= hex_value(s.take(i)).unwrap(),
    decreases s.len(),
{
    if i < s.len() {
        assert(s.drop_last().take(i) =~= s.take(i));
        lemma_hex_prefix(s.drop_last(), i);
    } else {
        assert(s.take(i) =~= s);
        lemma_hex_nonneg(s);
    }
}

proof fn lemma_hex_nonneg(s: Seq<u8>)
    requires
        hex_value(s) is Some,
    ensures
        hex_value(s).unwrap() >= 0,
    decreases s.len(),
{
    if s.len() > 0 {
        lemma_hex_nonneg(s.drop_last());
    }
}

/// The byte that a hexadecimal signature token names, such as `4C`, `0x4C`
/// or `"2E"`.
pub fn hex_from_str(hex: &str) -> (r: u8)
    requires
        parse_hex_u8(hex_token(hex.spec_bytes())) is Some,
    ensures
        r == parse_hex_u8(hex_token(hex.spec_bytes())).unwrap(),
{
    let bytes = hex.as_bytes();
    let n = bytes.len();
    let mut lo: usize = 0;
    let mut hi: usize = n;
    if n > 2 {
        if bytes[0] == 0x22 && bytes[n - 1] == 0x22 {
            lo = 1;
            hi = n - 1;
        } else if bytes[0] == 0x30 && bytes[1] == 0x78 {
            lo = 2;
        }
    }
    let ghost token = hex_token(bytes@);
    assert(token =~= bytes@.subrange(lo as int, hi as int));
    if lo < hi && bytes[lo] == 0x2b {
        lo = lo + 1;
    }
    let ghost digits = bytes@.subrange(lo as int, hi as int);
    assert(digits =~= if token.len() > 0 && token[0] == 0x2b {
        token.drop_first()
    } else {
        token
    });
    let mut v: u32 = 0;
    let mut i = lo;
    while i < hi
        invariant
            lo <= i <= hi <= n,
            n == bytes@.len(),
            digits == bytes@.subrange(lo as int, hi as int),
            hex_value(digits) is Some,
            hex_value(digits).unwrap() <= 255,
            v == hex_value(digits.take(i - lo)).unwrap(),
            hex_value(digits.take(i - lo)) is Some,
        decreases hi - i,
    {
        let c = bytes[i];
        proof {
            let t = digits.take(i + 1 - lo);
            assert(t.drop_last() =~= digits.take(i - lo));
            assert(t.last() == c);
            lemma_hex_prefix(digits, i + 1 - lo);
        }
        assert(hex_digit(c) is Some);
        let d: u32 = if 0x30 <= c && c <= 0x39 {
            (c - 0x30) as u32
        } else if 0x61 <= c && c <= 0x66 {
            (c - 0x61 + 10) as u32
        } else {
            (c - 0x41 + 10) as u32
        };
        v = v * 16 + d;
        i = i + 1;
    }
    assert(digits.take(hi - lo) =~= digits);
    v as u8
}

/// A search finds the first match: the position found matches, and no
/// position between the start of the search and it does.
pub proof fn law_first_match(d: Seq<u8>, start: int, end: int, from: int, sig: Seq<SigPattern>)
    ensures
        first_match(d, start, end, from, sig) matches Some(p) ==> {
            &&& from <= p
            &&& in_window(start, end, p, 1)
            &&& matches_at(d, start, end, p, sig)
            &&& forall|q: int| from <= q < p ==> !#[trigger] matches_at(d, start, end, q, sig)
        },
        first_match(d, start, end, from, sig) is None ==> forall|q: int|
            start <= from <= q && q + 1 < end ==> !#[trigger] matches_at(d, start, end, q, sig),
    decreases end - from,
{
    if in_window(start, end, from, 1) && !matches_at(d, start, end, from, sig) {
        law_first_match(d, start, end, from + 1, sig);
        if let Some(p) = first_match(d, start, end, from, sig) {
            assert forall|q: int| from <= q < p implies !#[trigger] matches_at(d, start, end, q, sig) by {
                if q > from {
                }
            }
        } else {
            assert forall|q: int| start <= from <= q && q + 1 < end implies !#[trigger] matches_at(
                d,
                start,
                end,
                q,
                sig,
            ) by {
                if q > from {
                }
            }
        }
    }
}

/// The character of the hexadecimal digit `d`, upper or lower case.
pub open spec fn hex_char(d: int, upper: bool) -> u8 {
    if d < 10 {
        (0x30 + d) as u8
    } else if upper {
        (0x41 + d - 10) as u8
    } else {
        (0x61 + d - 10) as u8
    }
}

/// `v` written as two hexadecimal digits, as `{:02X}` (upper) or `{:02x}`
/// writes it.
pub open spec fn hex_byte_text(v: u8, upper: bool) -> Seq<u8> {
    seq![hex_char((v / 16) as int, upper), hex_char((v % 16) as int, upper)]
}

/// A byte written as two hexadecimal digits, in either case, reads back as
/// that byte, alone, after `0x`, or between double quotes.
pub proof fn law_hex_round_trip(v: u8, upper: bool)
    ensures
        parse_hex_u8(hex_token(hex_byte_text(v, upper))) == Some(v),
        parse_hex_u8(hex_token(seq![0x30u8, 0x78u8] + hex_byte_text(v, upper))) == Some(v),
        parse_hex_u8(hex_token(seq![0x22u8] + hex_byte_text(v, upper) + seq![0x22u8])) == Some(v),
{
    let t = hex_byte_text(v, upper);
    let hi = v / 16;
    let lo = v % 16;
    assert(hex_digit(hex_char(hi as int, upper)) == Some(hi as int));
    assert(hex_digit(hex_char(lo as int, upper)) == Some(lo as int));
    assert(t.drop_last() =~= seq![hex_char(hi as int, upper)]);
    assert(t.drop_last().drop_last() =~= Seq::<u8>::empty());
    assert(hex_value(t.drop_last().drop_last()) == Some(0int));
    assert(t.drop_last().last() == hex_char(hi as int, upper));
    assert(hex_value(t.drop_last()) == Some(hi as int));
    assert(t.last() == hex_char(lo as int, upper));
    assert(hex_value(t) == Some(hi * 16 + lo));
    assert(hi * 16 + lo == v);
    assert(hex_token(t) == t);
    let x = seq![0x30u8, 0x78u8] + t;
    assert(hex_token(x) =~= t);
    let q = seq![0x22u8] + t + seq![0x22u8];
    assert(hex_token(q) =~= t);
}

} // verus!
