//! Syscall indices of `ntdll.dll`.
use vstd::prelude::*;
use vstd::string::*;
use vstd::utf8::*;

use crate::file::{file_image, headers_fit};
use crate::image::{exports, image_exports, Arch, Export, Image};
use crate::images::{
    indices_view, narrow_keys, native_stub_pattern, native_stub_sig, number_entries, numbered,
    stub_index, stub_index_at, stubs_by_index,
};
use crate::memory::{memory_image, modules_fit, LoadedModule};
use crate::names::{nt_name_string, replace_zw, starts_with_zw, starts_with_zw_bytes};
use crate::names::{find_zw, lemma_ascii_update_valid};
use crate::order::{
    dedup_by_key, dedup_keys, entries_view, has_key, is_stable_sort, keys_increasing,
    lemma_dedup_increasing, lemma_sort_dedup, lemma_sorted_keys, sort_by_key,
};
use crate::signature::{
    byte, byte_matches, either, exactly, matches_at, nth_target, patterns, SigByte, SigPattern,
};
use crate::LoadError;

verus! {

/// How the indices are found.
#[derive(Clone, Copy, PartialEq, Eq, Structural, Debug)]
pub enum NtdllMethod {
    /// Order the `Zw` exports by address: the rank of each is its index.
    Sorting,
    /// Read the index from each export's syscall stub.
    Assembly,
}

/// The 32-bit (WOW64) syscall stub: `mov eax, <index>; mov edx, <addr>;
/// call edx; ret n` or `ret`.
pub open spec fn ntdll_wow_pattern() -> Seq<SigPattern> {
    seq![
        exactly(0xb8), SigPattern::Target, SigPattern::Target, SigPattern::Ignore,
        SigPattern::Ignore, exactly(0xba), SigPattern::Ignore, SigPattern::Ignore,
        SigPattern::Ignore, SigPattern::Ignore, exactly(0xff), exactly(0xd2),
        SigPattern::Byte(seq![0xc2, 0xc3]),
    ]
}

/// Builds the 32-bit syscall stub signature.
pub fn ntdll_sig_wow() -> (r: Vec<SigByte>)
    ensures
        patterns(r@) == ntdll_wow_pattern(),
{
    let r = vec![
        byte(0xb8), SigByte::Target, SigByte::Target, SigByte::Ignore, SigByte::Ignore, byte(0xba),
        SigByte::Ignore, SigByte::Ignore, SigByte::Ignore, SigByte::Ignore, byte(0xff), byte(0xd2),
        either(0xc2, 0xc3),
    ];
    assert(patterns(r@) =~= ntdll_wow_pattern());
    r
}

/// The syscall stub signature for an architecture.
pub open spec fn ntdll_signature(arch: Arch) -> Seq<SigPattern> {
    match arch {
        Arch::X64 => native_stub_pattern(),
        Arch::X86 => ntdll_wow_pattern(),
    }
}

/// An export whose name begins with `Zw` and is UTF-8, renamed to `Nt…`, with
/// its address.
pub open spec fn zw_export(e: (Seq<u8>, int)) -> Option<(Seq<char>, int)> {
    if starts_with_zw(e.0) && valid_utf8(e.0) {
        Some((decode_utf8(replace_zw(e.0)), e.1))
    } else {
        None
    }
}

pub open spec fn zw_exports() -> spec_fn((Seq<u8>, int)) -> Option<(Seq<char>, int)> {
    |e: (Seq<u8>, int)| zw_export(e)
}

/// An export with a UTF-8 name whose code is a syscall stub, renamed from
/// `Zw…` to `Nt…` where it contains `Zw`, with the low 12 bits of the index
/// that the stub loads.
pub open spec fn stub_export(d: Seq<u8>, sig: Seq<SigPattern>, e: (Seq<u8>, int)) -> Option<
    (Seq<char>, int),
> {
    if valid_utf8(e.0) {
        match stub_index(d, e.1, sig) {
            Some(x) => Some((decode_utf8(replace_zw(e.0)), x % 0x1000)),
            None => None,
        }
    } else {
        None
    }
}

pub open spec fn stub_exports(d: Seq<u8>, sig: Seq<SigPattern>) -> spec_fn((Seq<u8>, int)) -> Option<
    (Seq<char>, int),
> {
    |e: (Seq<u8>, int)| stub_export(d, sig, e)
}

/// The result of sorting: the `Zw` exports ordered by address, one per
/// address (the first in name-table order), numbered from 0.
pub open spec fn sorting_result(es: Seq<(Seq<u8>, int)>, out: Seq<(Seq<char>, int)>) -> bool {
    exists|sorted: Seq<(Seq<char>, int)>|
        is_stable_sort(sorted, es.filter_map(zw_exports())) && out == numbered(
            dedup_keys(sorted),
            0,
        )
}

/// The result of reading the stubs: the stub exports ordered by index, one
/// per index (the first in name-table order).
pub open spec fn assembly_result(
    d: Seq<u8>,
    sig: Seq<SigPattern>,
    es: Seq<(Seq<u8>, int)>,
    out: Seq<(Seq<char>, int)>,
) -> bool {
    stubs_by_index(es.filter_map(stub_exports(d, sig)), out)
}

/// Names with indices, as mathematical values.
pub open spec fn result_view(r: Result<Vec<(String, u32)>, LoadError>) -> Result<
    Seq<(Seq<char>, int)>,
    LoadError,
> {
    match r {
        Ok(v) => Ok(indices_view(v@)),
        Err(e) => Err(e),
    }
}

/// The syscall names and indices that `method` finds in the image `d` of
/// architecture `arch`.
pub open spec fn ntdll_indices(
    d: Seq<u8>,
    arch: Arch,
    method: NtdllMethod,
    r: Result<Seq<(Seq<char>, int)>, LoadError>,
) -> bool {
    match image_exports(d) {
        Err(e) => r == Err::<Seq<(Seq<char>, int)>, LoadError>(e),
        Ok(es) => match r {
            Err(_) => false,
            Ok(out) => match method {
                NtdllMethod::Sorting => sorting_result(es, out),
                NtdllMethod::Assembly => assembly_result(d, ntdll_signature(arch), es, out),
            },
        },
    }
}

/// The exports as mathematical values.
pub open spec fn exports_view(v: Seq<Export>) -> Seq<(Seq<u8>, int)> {
    v.map_values(|e: Export| e.model())
}

/// Numbers the `Zw` exports, renamed to `Nt…`, in the order of their addresses.
fn method_sorting(exports: &Vec<Export>, _signature: &[SigByte]) -> (r: Result<
    Vec<(String, u32)>,
    LoadError,
>)
    requires
        exports@.len() <= u32::MAX,
    ensures
        r matches Ok(v) && sorting_result(exports_view(exports@), indices_view(v@)),
{
    let ghost es = exports_view(exports@);
    let mut result: Vec<(String, u64)> = Vec::new();
    let n = exports.len();
    let mut i: usize = 0;
    while i < n
        invariant
            n == exports@.len(),
            es == exports_view(exports@),
            i <= n,
            entries_view(result@) == es.take(i as int).filter_map(zw_exports()),
        decreases n - i,
    {
        proof {
            es.lemma_filter_map_take_succ(zw_exports(), i as int);
        }
        let e = &exports[i];
        assert(es[i as int] == e.model());
        if starts_with_zw_bytes(e.name.as_slice()) {
            match nt_name_string(e.name.as_slice()) {
                Some(name) => {
                    let ghost before = entries_view(result@);
                    result.push((name, e.ptr.ptr()));
                    assert(entries_view(result@) =~= before.push((name@, e.ptr.pos())));
                },
                None => {},
            }
        }
        i = i + 1;
    }
    assert(es.take(n as int) =~= es);
    let sorted = sort_by_key(&result);
    let deduped = dedup_by_key(&sorted);
    proof {
        lemma_sorted_keys(entries_view(sorted@), entries_view(result@));
        lemma_dedup_increasing(entries_view(sorted@));
        crate::order::lemma_filter_map_len(es, zw_exports());
    }
    let out = number_entries(&deduped, 0);
    Ok(out)
}

/// Reads each export's index from its syscall stub, in the order of the indices.
fn method_assembly(exports: &Vec<Export>, signature: &[SigByte], Ghost(d): Ghost<Seq<u8>>) -> (r:
    Result<Vec<(String, u32)>, LoadError>)
    requires
        nth_target(patterns(signature@), 1) is Some,
        forall|i: int| 0 <= i < exports@.len() ==> #[trigger] exports@[i].view_in(d),
    ensures
        r matches Ok(v) && assembly_result(
            d,
            patterns(signature@),
            exports_view(exports@),
            indices_view(v@),
        ),
{
    let ghost es = exports_view(exports@);
    let ghost f = stub_exports(d, patterns(signature@));
    let mut result: Vec<(String, u64)> = Vec::new();
    let n = exports.len();
    let mut i: usize = 0;
    while i < n
        invariant
            n == exports@.len(),
            es == exports_view(exports@),
            f == stub_exports(d, patterns(signature@)),
            nth_target(patterns(signature@), 1) is Some,
            forall|j: int| 0 <= j < exports@.len() ==> #[trigger] exports@[j].view_in(d),
            i <= n,
            entries_view(result@) == es.take(i as int).filter_map(f),
            forall|j: int| 0 <= j < result@.len() ==> #[trigger] result@[j].1 < 0x1000,
        decreases n - i,
    {
        proof {
            es.lemma_filter_map_take_succ(f, i as int);
        }
        let e = &exports[i];
        assert(es[i as int] == e.model());
        assert(e.view_in(d));
        match nt_name_string(e.name.as_slice()) {
            Some(name) => {
                match stub_index_at(e.ptr, signature) {
                    Some(low13) => {
                        let index = low13 & 0xfff;
                        proof {
                            let x = stub_index(d, e.ptr.pos(), patterns(signature@)).unwrap();
                            let xu = x as u32;
                            assert(low13 == xu % 0x2000);
                            assert(index == xu % 0x1000) by (bit_vector)
                                requires
                                    low13 == xu % 0x2000,
                                    index == low13 & 0xfff,
                            ;
                        }
                        let ghost before = entries_view(result@);
                        result.push((name, index as u64));
                        assert(entries_view(result@) =~= before.push((name@, index as int)));
                    },
                    None => {},
                }
            },
            None => {},
        }
        i = i + 1;
    }
    assert(es.take(n as int) =~= es);
    let sorted = sort_by_key(&result);
    let deduped = dedup_by_key(&sorted);
    proof {
        lemma_sorted_keys(entries_view(sorted@), entries_view(result@));
        lemma_dedup_increasing(entries_view(sorted@));
        let rv = entries_view(result@);
        let sv = entries_view(sorted@);
        let dv = entries_view(deduped@);
        let perm = choose|perm: Seq<int>| crate::order::sorts_by(sv, rv, perm);
        assert forall|k: int| 0 <= k < deduped@.len() implies #[trigger] deduped@[k].1 <= u32::MAX by {
            assert(dv[k] == (deduped@[k].0@, deduped@[k].1 as int));
            assert(sv.contains(dv[k]));
            let j = choose|j: int| 0 <= j < sv.len() && sv[j] == dv[k];
            assert(sv[j] == rv[perm[j]]);
            assert(rv[perm[j]].1 == result@[perm[j]].1);
        }
    }
    let out = narrow_keys(&deduped);
    Ok(out)
}

/// The syscall names and indices of `image`, found by `method`.
fn get_indices(image: &Image, method: NtdllMethod) -> (r: Result<Vec<(String, u32)>, LoadError>)
    requires
        image.bytes().len() <= u32::MAX,
    ensures
        ntdll_indices(image.bytes(), image.arch, method, result_view(r)),
{
    let data = image.data();
    let exports = match exports(data) {
        Ok(e) => e,
        Err(e) => return Err(e),
    };
    let ghost es = match image_exports(data@) {
        Ok(es) => es,
        Err(_) => Seq::empty(),
    };
    assert(exports_view(exports@) =~= es);
    assert forall|i: int| 0 <= i < exports@.len() implies #[trigger] exports@[i].view_in(data@) by {
        assert(exports@[i].model() == es[i]);
    }
    proof {
        crate::images::lemma_signature_targets();
    }
    match (method, image.arch) {
        (NtdllMethod::Sorting, Arch::X64) => method_sorting(&exports, native_stub_sig().as_slice()),
        (NtdllMethod::Sorting, Arch::X86) => method_sorting(&exports, ntdll_sig_wow().as_slice()),
        (NtdllMethod::Assembly, Arch::X64) => method_assembly(
            &exports,
            native_stub_sig().as_slice(),
            Ghost(data@),
        ),
        (NtdllMethod::Assembly, Arch::X86) => method_assembly(
            &exports,
            ntdll_sig_wow().as_slice(),
            Ghost(data@),
        ),
    }
}

/// The syscall names and indices of the `ntdll.dll` file whose contents are
/// `data`; the file is first mapped into its loaded layout.
pub fn from_file(data: &[u8], method: NtdllMethod, arch: Option<Arch>, version: Option<u32>) -> (r:
    Result<Vec<(String, u32)>, LoadError>)
    requires
        headers_fit(data@),
    ensures
        match file_image(data@, arch, version) {
            Err(e) => (r matches Err(e2) && e2 == e),
            Ok((d, a, _)) => ntdll_indices(d, a, method, result_view(r)),
        },
{
    let image = match Image::from_file(data, arch, version) {
        Ok(image) => image,
        Err(e) => return Err(e),
    };
    get_indices(&image, method)
}

/// The syscall names and indices of the loaded `ntdll.dll` among `modules`.
pub fn from_memory(
    modules: &[LoadedModule],
    method: NtdllMethod,
    arch: Option<Arch>,
    version: Option<u32>,
) -> (r: Result<Vec<(String, u32)>, LoadError>)
    requires
        modules_fit(modules@),
    ensures
        match memory_image(modules@, "ntdll.dll".spec_bytes(), arch, version) {
            Err(e) => (r matches Err(e2) && e2 == e),
            Ok((d, a, _)) => ntdll_indices(d, a, method, result_view(r)),
        },
{
    let image = match Image::from_memory(modules, "ntdll.dll", arch, version) {
        Ok(image) => image,
        Err(e) => return Err(e),
    };
    get_indices(&image, method)
}

/// Sorting ranks the `Zw` exports by address: the indices run from 0 in
/// steps of one, each listed name is that of a `Zw` export at the address of
/// that rank, the addresses strictly increase, and every address of a `Zw`
/// export has its rank.
pub proof fn law_sorting_ranks(es: Seq<(Seq<u8>, int)>, out: Seq<(Seq<char>, int)>)
    requires
        sorting_result(es, out),
    ensures
        forall|i: int| 0 <= i < out.len() ==> #[trigger] out[i].1 == i,
        exists|addrs: Seq<int>|
            {
                &&& addrs.len() == out.len()
                &&& forall|a: int, b: int|
                    0 <= a < b < addrs.len() ==> #[trigger] addrs[a] < #[trigger] addrs[b]
                &&& forall|i: int|
                    0 <= i < out.len() ==> #[trigger] es.filter_map(zw_exports()).contains(
                        (out[i].0, addrs[i]),
                    )
                &&& forall|j: int|
                    0 <= j < es.filter_map(zw_exports()).len() ==> #[trigger] addrs.contains(
                        es.filter_map(zw_exports())[j].1,
                    )
            },
{
    let zs = es.filter_map(zw_exports());
    let sorted = choose|sorted: Seq<(Seq<char>, int)>|
        is_stable_sort(sorted, zs) && out == numbered(dedup_keys(sorted), 0);
    let d = dedup_keys(sorted);
    lemma_sort_dedup(sorted, zs);
    let addrs = d.map_values(|e: (Seq<char>, int)| e.1);
    assert forall|i: int| 0 <= i < out.len() implies #[trigger] zs.contains((out[i].0, addrs[i])) by {
        assert(zs.contains(d[i]));
        assert(d[i] == (out[i].0, addrs[i]));
    }
    assert forall|a: int, b: int| 0 <= a < b < addrs.len() implies #[trigger] addrs[a]
        < #[trigger] addrs[b] by {
        assert(d[a].1 < d[b].1);
    }
    assert forall|j: int| 0 <= j < zs.len() implies #[trigger] addrs.contains(zs[j].1) by {
        assert(has_key(d, zs[j].1));
        let i = choose|i: int| 0 <= i < d.len() && #[trigger] d[i].1 == zs[j].1;
        assert(addrs[i] == zs[j].1);
    }
}

/// Reading the stubs lists each index once: the indices strictly increase,
/// each is below `0x1000`, each listed entry is a stub export, and the index
/// of every stub export is listed.
pub proof fn law_assembly_unique(
    d: Seq<u8>,
    sig: Seq<SigPattern>,
    es: Seq<(Seq<u8>, int)>,
    out: Seq<(Seq<char>, int)>,
)
    requires
        assembly_result(d, sig, es, out),
    ensures
        keys_increasing(out),
        forall|i: int| 0 <= i < out.len() ==> 0 <= #[trigger] out[i].1 < 0x1000,
        forall|i: int| 0 <= i < out.len() ==> #[trigger] es.filter_map(stub_exports(d, sig)).contains(
            out[i],
        ),
        forall|j: int|
            0 <= j < es.filter_map(stub_exports(d, sig)).len() ==> has_key(
                out,
                #[trigger] es.filter_map(stub_exports(d, sig))[j].1,
            ),
{
    assert(crate::images::low_indices(stub_exports(d, sig), 0x1000));
    crate::images::lemma_stubs_by_index(es, stub_exports(d, sig), 0x1000, out);
}


/// Every name that sorting lists begins with `Nt`: it is the name of a `Zw`
/// export with that prefix replaced.
pub proof fn law_sorting_names(es: Seq<(Seq<u8>, int)>, out: Seq<(Seq<char>, int)>)
    requires
        sorting_result(es, out),
    ensures
        forall|i: int|
            0 <= i < out.len() ==> (#[trigger] out[i].0).len() >= 2 && out[i].0[0] == 'N'
                && out[i].0[1] == 't',
{
    let zs = es.filter_map(zw_exports());
    let sorted = choose|sorted: Seq<(Seq<char>, int)>|
        is_stable_sort(sorted, zs) && out == numbered(dedup_keys(sorted), 0);
    lemma_sort_dedup(sorted, zs);
    let d = dedup_keys(sorted);
    assert forall|i: int| 0 <= i < out.len() implies (#[trigger] out[i].0).len() >= 2 && out[i].0[0]
        == 'N' && out[i].0[1] == 't' by {
        assert(zs.contains(d[i]));
        let j = choose|j: int| 0 <= j < zs.len() && zs[j] == d[i];
        lemma_zw_names(es, j);
    }
}

/// The renamed name of a `Zw` export begins with `Nt`.
proof fn lemma_zw_names(es: Seq<(Seq<u8>, int)>, j: int)
    requires
        0 <= j < es.filter_map(zw_exports()).len(),
    ensures
        es.filter_map(zw_exports())[j].0.len() >= 2 && es.filter_map(zw_exports())[j].0[0] == 'N'
            && es.filter_map(zw_exports())[j].0[1] == 't',
    decreases es.len(),
{
    let f = zw_exports();
    if es.len() > 0 {
        let rest = es.drop_last();
        if j < rest.filter_map(f).len() {
            lemma_zw_names(rest, j);
        } else {
            let raw = es.last().0;
            lemma_nt_prefix(raw);
        }
    }
}

/// A UTF-8 name that begins with `Zw` decodes, once renamed, to a string
/// that begins with `Nt`.
proof fn lemma_nt_prefix(raw: Seq<u8>)
    requires
        starts_with_zw(raw),
        valid_utf8(raw),
    ensures
        decode_utf8(replace_zw(raw)).len() >= 2,
        decode_utf8(replace_zw(raw))[0] == 'N',
        decode_utf8(replace_zw(raw))[1] == 't',
{
    let b = replace_zw(raw);
    assert(find_zw(raw, 0) == Some(0int));
    assert(b == raw.update(0, 0x4e).update(1, 0x74));
    lemma_ascii_update_valid(raw, 0, 0x4e);
    lemma_ascii_update_valid(raw.update(0, 0x4e), 1, 0x74);
    assert(valid_utf8(b));
    assert(0x4eu8 & 0x7f == 0x4e) by (bit_vector);
    assert(0x74u8 & 0x7f == 0x74) by (bit_vector);
    let rest = pop_first_scalar(b);
    assert(rest =~= b.subrange(1, b.len() as int));
    assert(rest[0] == 0x74);
    assert(valid_utf8(rest));
    assert(decode_utf8(b) == seq![decode_first_scalar(b) as char] + decode_utf8(rest));
    assert(decode_utf8(rest) == seq![decode_first_scalar(rest) as char] + decode_utf8(
        pop_first_scalar(rest),
    ));
    assert(decode_first_scalar(b) == 0x4e);
    assert(decode_first_scalar(rest) == 0x74);
    assert((0x4eu32 as char) == 'N');
    assert((0x74u32 as char) == 't');
}

/// The stubs lie in the image as a syscall table: the `Zw` exports sit at
/// the addresses `addrs`, which increase; the index that the stub of an
/// export loads is the position of its address in `addrs`, and, once
/// renamed, the export is named as a `Zw` export at that address; every
/// position holds a stub; and the `Zw` exports at one address share a name.
pub open spec fn stubs_in_address_order(
    d: Seq<u8>,
    sig: Seq<SigPattern>,
    es: Seq<(Seq<u8>, int)>,
    addrs: Seq<int>,
) -> bool {
    let zs = es.filter_map(zw_exports());
    let ss = es.filter_map(stub_exports(d, sig));
    &&& forall|a: int, b: int| 0 <= a < b < addrs.len() ==> #[trigger] addrs[a] < #[trigger] addrs[b]
    &&& forall|j: int| 0 <= j < zs.len() ==> addrs.contains(#[trigger] zs[j].1)
    &&& forall|j: int|
        0 <= j < ss.len() ==> 0 <= #[trigger] ss[j].1 < addrs.len() && zs.contains(
            (ss[j].0, addrs[ss[j].1]),
        )
    &&& forall|k: int| 0 <= k < addrs.len() ==> #[trigger] has_key(ss, k)
    &&& forall|a: int, b: int|
        0 <= a < zs.len() && 0 <= b < zs.len() && #[trigger] zs[a].1 == #[trigger] zs[b].1
            ==> zs[a].0 == zs[b].0
}

/// Two strictly increasing sequences with the same elements agree on their
/// first `n` positions.
proof fn lemma_same_increasing_prefix(a: Seq<int>, b: Seq<int>, n: int)
    requires
        forall|i: int, j: int| 0 <= i < j < a.len() ==> #[trigger] a[i] < #[trigger] a[j],
        forall|i: int, j: int| 0 <= i < j < b.len() ==> #[trigger] b[i] < #[trigger] b[j],
        forall|i: int| 0 <= i < a.len() ==> b.contains(#[trigger] a[i]),
        forall|j: int| 0 <= j < b.len() ==> a.contains(#[trigger] b[j]),
        0 <= n <= a.len(),
        n <= b.len(),
    ensures
        forall|i: int| 0 <= i < n ==> a[i] == b[i],
    decreases n,
{
    if n > 0 {
        lemma_same_increasing_prefix(a, b, n - 1);
        let i = n - 1;
        assert(b.contains(a[i]));
        assert(a.contains(b[i]));
        let j = choose|j: int| 0 <= j < b.len() && b[j] == a[i];
        let k = choose|k: int| 0 <= k < a.len() && a[k] == b[i];
        if j < i {
            assert(a[j] == b[j]);
            assert(a[j] < a[i]);
        }
        if k < i {
            assert(a[k] == b[k]);
            assert(b[k] < b[i]);
        }
        if j > i {
            assert(b[i] < b[j]);
        }
        if k > i {
            assert(a[i] < a[k]);
        }
    }
}

/// Two strictly increasing sequences with the same elements are equal.
proof fn lemma_same_increasing(a: Seq<int>, b: Seq<int>)
    requires
        forall|i: int, j: int| 0 <= i < j < a.len() ==> #[trigger] a[i] < #[trigger] a[j],
        forall|i: int, j: int| 0 <= i < j < b.len() ==> #[trigger] b[i] < #[trigger] b[j],
        forall|i: int| 0 <= i < a.len() ==> b.contains(#[trigger] a[i]),
        forall|j: int| 0 <= j < b.len() ==> a.contains(#[trigger] b[j]),
    ensures
        a == b,
{
    let n = if a.len() < b.len() {
        a.len() as int
    } else {
        b.len() as int
    };
    lemma_same_increasing_prefix(a, b, n);
    if a.len() > b.len() {
        let x = a[n];
        assert(b.contains(x));
        let j = choose|j: int| 0 <= j < b.len() && b[j] == x;
        assert(a[j] == b[j]);
        assert(a[j] < a[n]);
    }
    if b.len() > a.len() {
        let x = b[n];
        assert(a.contains(x));
        let j = choose|j: int| 0 <= j < a.len() && a[j] == x;
        assert(a[j] == b[j]);
        assert(b[j] < b[n]);
    }
    assert(a =~= b);
}

/// The two methods agree on an image whose stubs lie as a syscall table
/// (see [`stubs_in_address_order`]): ranking the `Zw` exports by address
/// gives the same names with the same indices, in the same order, as
/// reading the indices from the stubs.
pub proof fn law_methods_agree(
    d: Seq<u8>,
    arch: Arch,
    r1: Result<Seq<(Seq<char>, int)>, LoadError>,
    r2: Result<Seq<(Seq<char>, int)>, LoadError>,
)
    requires
        ntdll_indices(d, arch, NtdllMethod::Sorting, r1),
        ntdll_indices(d, arch, NtdllMethod::Assembly, r2),
        image_exports(d) matches Ok(es) ==> exists|addrs: Seq<int>|
            stubs_in_address_order(d, ntdll_signature(arch), es, addrs),
    ensures
        r1 == r2,
{
    if let Ok(es) = image_exports(d) {
        let sig = ntdll_signature(arch);
        let addrs = choose|addrs: Seq<int>| stubs_in_address_order(d, sig, es, addrs);
        let zs = es.filter_map(zw_exports());
        let ss = es.filter_map(stub_exports(d, sig));
        let out1 = r1->Ok_0;
        let out2 = r2->Ok_0;
        let sz = choose|sorted: Seq<(Seq<char>, int)>|
            is_stable_sort(sorted, zs) && out1 == numbered(dedup_keys(sorted), 0);
        let ds = choose|sorted: Seq<(Seq<char>, int)>|
            is_stable_sort(sorted, ss) && out2 == dedup_keys(sorted);
        let dz = dedup_keys(sz);
        let dd = dedup_keys(ds);
        lemma_sort_dedup(sz, zs);
        lemma_sort_dedup(ds, ss);
        let kz = dz.map_values(|e: (Seq<char>, int)| e.1);
        assert forall|i: int| 0 <= i < kz.len() implies addrs.contains(#[trigger] kz[i]) by {
            assert(zs.contains(dz[i]));
            let j = choose|j: int| 0 <= j < zs.len() && zs[j] == dz[i];
            assert(addrs.contains(zs[j].1));
        }
        assert forall|k: int| 0 <= k < addrs.len() implies kz.contains(#[trigger] addrs[k]) by {
            assert(has_key(ss, k));
            let j = choose|j: int| 0 <= j < ss.len() && #[trigger] ss[j].1 == k;
            assert(zs.contains((ss[j].0, addrs[ss[j].1])));
            let m = choose|m: int| 0 <= m < zs.len() && zs[m] == (ss[j].0, addrs[ss[j].1]);
            assert(has_key(dz, zs[m].1));
            let i = choose|i: int| 0 <= i < dz.len() && #[trigger] dz[i].1 == zs[m].1;
            assert(kz[i] == addrs[k]);
        }
        assert forall|i: int, j: int| 0 <= i < j < kz.len() implies #[trigger] kz[i] < #[trigger] kz[j] by {
            assert(dz[i].1 < dz[j].1);
        }
        lemma_same_increasing(kz, addrs);
        let kd = dd.map_values(|e: (Seq<char>, int)| e.1);
        let idx = Seq::new(addrs.len(), |k: int| k);
        assert forall|i: int| 0 <= i < kd.len() implies idx.contains(#[trigger] kd[i]) by {
            assert(ss.contains(dd[i]));
            let j = choose|j: int| 0 <= j < ss.len() && ss[j] == dd[i];
            assert(0 <= ss[j].1 < addrs.len());
            assert(idx[ss[j].1] == kd[i]);
        }
        assert forall|k: int| 0 <= k < idx.len() implies kd.contains(#[trigger] idx[k]) by {
            assert(has_key(ss, k));
            let j = choose|j: int| 0 <= j < ss.len() && #[trigger] ss[j].1 == k;
            assert(has_key(dd, ss[j].1));
            let i = choose|i: int| 0 <= i < dd.len() && #[trigger] dd[i].1 == ss[j].1;
            assert(kd[i] == idx[k]);
        }
        assert forall|i: int, j: int| 0 <= i < j < kd.len() implies #[trigger] kd[i] < #[trigger] kd[j] by {
            assert(dd[i].1 < dd[j].1);
        }
        lemma_same_increasing(kd, idx);
        assert forall|i: int| 0 <= i < out1.len() implies #[trigger] out1[i] == out2[i] by {
            assert(kz[i] == addrs[i]);
            assert(kd[i] == idx[i]);
            assert(ss.contains(dd[i]));
            let j = choose|j: int| 0 <= j < ss.len() && ss[j] == dd[i];
            assert(zs.contains((ss[j].0, addrs[ss[j].1])));
            let m = choose|m: int| 0 <= m < zs.len() && zs[m] == (ss[j].0, addrs[ss[j].1]);
            assert(zs.contains(dz[i]));
            let q = choose|q: int| 0 <= q < zs.len() && zs[q] == dz[i];
            assert(zs[m].1 == zs[q].1);
        }
        assert(out1 =~= out2);
    }
}

/// A 32-bit syscall stub, `mov eax, <index>; mov edx, <addr>; call edx`
/// ending in `ret n` (C2) or in `ret` (C3), matches the 32-bit signature
/// wherever a byte of the image follows it: reading the stubs lists the
/// export at it, renamed, with the low 12 bits of the immediate.
pub proof fn law_wow_stub_matches(d: Seq<u8>, name: Seq<u8>, rva: int)
    requires
        0 <= rva,
        rva + 13 < d.len(),
        d[rva] == 0xb8,
        d[rva + 5] == 0xba,
        d[rva + 10] == 0xff,
        d[rva + 11] == 0xd2,
        d[rva + 12] == 0xc2 || d[rva + 12] == 0xc3,
        valid_utf8(name),
    ensures
        stub_index(d, rva, ntdll_signature(Arch::X86)) == Some(d[rva + 1] + 0x100 * d[rva + 2]),
        stub_export(d, ntdll_signature(Arch::X86), (name, rva)) == Some(
            (decode_utf8(replace_zw(name)), (d[rva + 1] + 0x100 * d[rva + 2]) % 0x1000),
        ),
{
    let sig = ntdll_signature(Arch::X86);
    assert(sig.len() == 13);
    assert forall|k: int| 0 <= k < 13 implies #[trigger] byte_matches(d, rva, d.len() as int, rva, sig, k) by {
        if k == 0 {
            assert(sig[0] == exactly(0xb8u8));
            assert(seq![0xb8u8][0] == d[rva + 0]);
        } else if k == 1 {
            assert(!(sig[1] is Byte));
        } else if k == 2 {
            assert(!(sig[2] is Byte));
        } else if k == 3 {
            assert(!(sig[3] is Byte));
        } else if k == 4 {
            assert(!(sig[4] is Byte));
        } else if k == 5 {
            assert(sig[5] == exactly(0xbau8));
            assert(seq![0xbau8][0] == d[rva + 5]);
        } else if k == 6 {
            assert(!(sig[6] is Byte));
        } else if k == 7 {
            assert(!(sig[7] is Byte));
        } else if k == 8 {
            assert(!(sig[8] is Byte));
        } else if k == 9 {
            assert(!(sig[9] is Byte));
        } else if k == 10 {
            assert(sig[10] == exactly(0xffu8));
            assert(seq![0xffu8][0] == d[rva + 10]);
        } else if k == 11 {
            assert(sig[11] == exactly(0xd2u8));
            assert(seq![0xd2u8][0] == d[rva + 11]);
        } else if k == 12 {
            assert(sig[12] == SigPattern::Byte(seq![0xc2u8, 0xc3u8]));
            if d[rva + 12] == 0xc2 {
                assert(seq![0xc2u8, 0xc3u8][0] == d[rva + 12]);
            } else {
                assert(seq![0xc2u8, 0xc3u8][1] == d[rva + 12]);
            }
        }
    }
    assert(matches_at(d, rva, d.len() as int, rva, sig));
    reveal_with_fuel(crate::signature::next_target, 3);
    assert(crate::signature::next_target(sig, 0) == Some(1int));
    assert(nth_target(sig, 0) == Some(1int));
    assert(nth_target(sig, 1) == Some(2int));
    assert(d[rva + 1] + d[rva + 2] * 0x100 < 0x10000);
}

/// Only a 32-bit syscall stub matches the 32-bit signature: `mov eax`, `mov
/// edx`, `call edx`, then `ret n` (C2) or `ret` (C3), with a byte of the image
/// after it.
pub proof fn law_wow_stub_shape(d: Seq<u8>, rva: int)
    requires
        0 <= rva,
    ensures
        (stub_index(d, rva, ntdll_signature(Arch::X86)) is Some) ==> rva + 13 < d.len() && d[rva] == 0xb8 && d[rva + 5] == 0xba && d[rva + 10] == 0xff && d[rva + 11] == 0xd2 && (d[rva + 12] == 0xc2 || d[rva + 12] == 0xc3),
{
    let sig = ntdll_signature(Arch::X86);
    if stub_index(d, rva, sig) is Some {
        assert(sig.len() == 13);
        assert(byte_matches(d, rva, d.len() as int, rva, sig, 0));
        assert(sig[0] == exactly(0xb8u8));
        assert(seq![0xb8u8].contains(d[rva + 0]));
        assert(seq![0xb8u8][0] == d[rva + 0]);
        assert(byte_matches(d, rva, d.len() as int, rva, sig, 5));
        assert(sig[5] == exactly(0xbau8));
        assert(seq![0xbau8].contains(d[rva + 5]));
        assert(seq![0xbau8][0] == d[rva + 5]);
        assert(byte_matches(d, rva, d.len() as int, rva, sig, 10));
        assert(sig[10] == exactly(0xffu8));
        assert(seq![0xffu8].contains(d[rva + 10]));
        assert(seq![0xffu8][0] == d[rva + 10]);
        assert(byte_matches(d, rva, d.len() as int, rva, sig, 11));
        assert(sig[11] == exactly(0xd2u8));
        assert(seq![0xd2u8].contains(d[rva + 11]));
        assert(seq![0xd2u8][0] == d[rva + 11]);
        assert(byte_matches(d, rva, d.len() as int, rva, sig, 12));
        assert(sig[12] == SigPattern::Byte(seq![0xc2u8, 0xc3u8]));
        let w = choose|w: int| 0 <= w < 2 && seq![0xc2u8, 0xc3u8][w] == d[rva + 12];
        assert(byte_matches(d, rva, d.len() as int, rva, sig, 12));
    }
}

} // verus!
