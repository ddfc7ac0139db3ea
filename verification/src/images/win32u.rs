//! Syscall indices of `win32u.dll`.
use vstd::prelude::*;
use vstd::string::*;
use vstd::utf8::*;

use crate::file::{file_image, headers_fit};
use crate::image::{exports, image_exports, Arch, Export, Image};
use crate::images::ntdll::{exports_view, result_view};
use crate::images::{
    indices_view, narrow_keys, native_stub_pattern, native_stub_sig, number_entries, numbered,
    stub_index, stub_index_at, stubs_by_index,
};
use crate::memory::{memory_image, modules_fit, LoadedModule};
use crate::names::{bytes_eq, name_string};
use crate::order::{
    dedup_by_key, dedup_keys, entries_view, has_key, is_stable_sort, keys_increasing,
    lemma_dedup_increasing, lemma_filter_map_len, lemma_sort_dedup, lemma_sorted_keys, sort_by_key,
};
use crate::signature::{
    byte, byte_matches, either, exactly, matches_at, nth_target, patterns, sig_match, SigByte,
    SigPattern,
};
use crate::{LoadError, Step};

verus! {

/// The 32-bit (WOW64) syscall stub of `win32u.dll`: `mov eax, <index>;
/// mov edx, <addr>; call edx; ret n` or `ret`.
pub open spec fn win32u_wow_pattern() -> Seq<SigPattern> {
    seq![
        exactly(0xb8), SigPattern::Target, SigPattern::Target, SigPattern::Target,
        SigPattern::Target, exactly(0xba), SigPattern::Ignore, SigPattern::Ignore,
        SigPattern::Ignore, SigPattern::Ignore, exactly(0xff), exactly(0xd2),
        SigPattern::Byte(seq![0xc2, 0xc3]),
    ]
}

/// Builds the 32-bit syscall stub signature.
pub fn win32u_sig_wow() -> (r: Vec<SigByte>)
    ensures
        patterns(r@) == win32u_wow_pattern(),
{
    let r = vec![
        byte(0xb8), SigByte::Target, SigByte::Target, SigByte::Target, SigByte::Target, byte(0xba),
        SigByte::Ignore, SigByte::Ignore, SigByte::Ignore, SigByte::Ignore, byte(0xff), byte(0xd2),
        either(0xc2, 0xc3),
    ];
    assert(patterns(r@) =~= win32u_wow_pattern());
    r
}

/// The syscall stub signature for an architecture.
pub open spec fn win32u_signature(arch: Arch) -> Seq<SigPattern> {
    match arch {
        Arch::X64 => native_stub_pattern(),
        Arch::X86 => win32u_wow_pattern(),
    }
}

/// An export with a UTF-8 name whose code matches `sig`, with its address.
pub open spec fn matching_export(d: Seq<u8>, sig: Seq<SigPattern>, e: (Seq<u8>, int)) -> Option<
    (Seq<char>, int),
> {
    if valid_utf8(e.0) && matches_at(d, e.1, d.len() as int, e.1, sig) {
        Some((decode_utf8(e.0), e.1))
    } else {
        None
    }
}

pub open spec fn matching_exports(d: Seq<u8>, sig: Seq<SigPattern>) -> spec_fn(
    (Seq<u8>, int),
) -> Option<(Seq<char>, int)> {
    |e: (Seq<u8>, int)| matching_export(d, sig, e)
}

/// An export with a UTF-8 name whose code is a syscall stub, with the low 13
/// bits of the index that the stub loads.
pub open spec fn stub_export(d: Seq<u8>, sig: Seq<SigPattern>, e: (Seq<u8>, int)) -> Option<
    (Seq<char>, int),
> {
    if valid_utf8(e.0) {
        match stub_index(d, e.1, sig) {
            Some(x) => Some((decode_utf8(e.0), x % 0x2000)),
            None => None,
        }
    } else {
        None
    }
}

pub open spec fn stub_exports(d: Seq<u8>, sig: Seq<SigPattern>) -> spec_fn((Seq<u8>, int)) -> Option<
    (Seq<char>, int),
> {
    |e: (Seq<u8>, int)| stub_export(d, sig, e)
}

/// The result of sorting: the matching exports ordered by address, one per
/// address (the first in name-table order), numbered from `0x1000`.
pub open spec fn sorting_result(
    d: Seq<u8>,
    sig: Seq<SigPattern>,
    es: Seq<(Seq<u8>, int)>,
    out: Seq<(Seq<char>, int)>,
) -> bool {
    exists|sorted: Seq<(Seq<char>, int)>|
        is_stable_sort(sorted, es.filter_map(matching_exports(d, sig))) && out == numbered(
            dedup_keys(sorted),
            0x1000,
        )
}

/// The result of reading the stubs: the stub exports ordered by index, one
/// per index (the first in name-table order).
pub open spec fn assembly_result(
    d: Seq<u8>,
    sig: Seq<SigPattern>,
    es: Seq<(Seq<u8>, int)>,
    out: Seq<(Seq<char>, int)>,
) -> bool {
    stubs_by_index(es.filter_map(stub_exports(d, sig)), out)
}

/// The syscall names and indices that `method` finds in the image `d` of
/// architecture `arch`.
pub open spec fn win32u_indices(
    d: Seq<u8>,
    arch: Arch,
    method: crate::LoadMethod,
    r: Result<Seq<(Seq<char>, int)>, LoadError>,
) -> bool {
    match image_exports(d) {
        Err(e) => r == Err::<Seq<(Seq<char>, int)>, LoadError>(e),
        Ok(es) => match r {
            Err(_) => false,
            Ok(out) => match method {
                crate::LoadMethod::Sorting => sorting_result(d, win32u_signature(arch), es, out),
                crate::LoadMethod::Assembly => assembly_result(d, win32u_signature(arch), es, out),
            },
        },
    }
}

/// Numbers the exports whose code matches `signature`, in the order of their
/// addresses, from `0x1000`.
fn method_sorting(exports: &Vec<Export>, signature: &[SigByte], Ghost(d): Ghost<Seq<u8>>) -> (r:
    Result<Vec<(String, u32)>, LoadError>)
    requires
        forall|i: int| 0 <= i < exports@.len() ==> #[trigger] exports@[i].view_in(d),
        exports@.len() + 0x1000 <= u32::MAX + 1,
    ensures
        r matches Ok(v) && sorting_result(
            d,
            patterns(signature@),
            exports_view(exports@),
            indices_view(v@),
        ),
{
    let ghost es = exports_view(exports@);
    let ghost f = matching_exports(d, patterns(signature@));
    let mut result: Vec<(String, u64)> = Vec::new();
    let n = exports.len();
    let mut i: usize = 0;
    while i < n
        invariant
            n == exports@.len(),
            es == exports_view(exports@),
            f == matching_exports(d, patterns(signature@)),
            forall|j: int| 0 <= j < exports@.len() ==> #[trigger] exports@[j].view_in(d),
            i <= n,
            entries_view(result@) == es.take(i as int).filter_map(f),
        decreases n - i,
    {
        proof {
            es.lemma_filter_map_take_succ(f, i as int);
        }
        let e = &exports[i];
        assert(es[i as int] == e.model());
        assert(e.view_in(d));
        match name_string(e.name.as_slice()) {
            Some(name) => {
                if sig_match(e.ptr, signature) {
                    let ghost before = entries_view(result@);
                    result.push((name, e.ptr.start() as u64));
                    assert(entries_view(result@) =~= before.push((name@, e.ptr.pos())));
                }
            },
            None => {},
        }
        i = i + 1;
    }
    assert(es.take(n as int) =~= es);
    let sorted = sort_by_key(&result);
    let deduped = dedup_by_key(&sorted);
    proof {
        lemma_filter_map_len(es, f);
        lemma_sorted_keys(entries_view(sorted@), entries_view(result@));
        lemma_dedup_increasing(entries_view(sorted@));
    }
    let out = number_entries(&deduped, 0x1000);
    Ok(out)
}

/// Reads each export's index from its syscall stub, in the order of the indices.
fn method_assembly(exports: &Vec<Export>, signature: &[SigByte], Ghost(d): Ghost<Seq<u8>>) -> (r:
    Result<Vec<(String, u32)>, LoadError>)
    requires
        nth_target(patterns(signature@), 1) is Some,
        forall|i: int| 0 <= i < exports@.len() ==> #[trigger] exports@[i].view_in(d),
    ensures
        r matches Ok(v) && assembly_result(
            d,
            patterns(signature@),
            exports_view(exports@),
            indices_view(v@),
        ),
{
    let ghost es = exports_view(exports@);
    let ghost f = stub_exports(d, patterns(signature@));
    let mut result: Vec<(String, u64)> = Vec::new();
    let n = exports.len();
    let mut i: usize = 0;
    while i < n
        invariant
            n == exports@.len(),
            es == exports_view(exports@),
            f == stub_exports(d, patterns(signature@)),
            nth_target(patterns(signature@), 1) is Some,
            forall|j: int| 0 <= j < exports@.len() ==> #[trigger] exports@[j].view_in(d),
            i <= n,
            entries_view(result@) == es.take(i as int).filter_map(f),
            forall|j: int| 0 <= j < result@.len() ==> #[trigger] result@[j].1 < 0x2000,
        decreases n - i,
    {
        proof {
            es.lemma_filter_map_take_succ(f, i as int);
        }
        let e = &exports[i];
        assert(es[i as int] == e.model());
        assert(e.view_in(d));
        match name_string(e.name.as_slice()) {
            Some(name) => {
                match stub_index_at(e.ptr, signature) {
                    Some(index) => {
                        let ghost before = entries_view(result@);
                        result.push((name, index as u64));
                        assert(entries_view(result@) =~= before.push((name@, index as int)));
                    },
                    None => {},
                }
            },
            None => {},
        }
        i = i + 1;
    }
    assert(es.take(n as int) =~= es);
    let sorted = sort_by_key(&result);
    let deduped = dedup_by_key(&sorted);
    proof {
        lemma_sorted_keys(entries_view(sorted@), entries_view(result@));
        lemma_dedup_increasing(entries_view(sorted@));
        let rv = entries_view(result@);
        let sv = entries_view(sorted@);
        let dv = entries_view(deduped@);
        let perm = choose|perm: Seq<int>| crate::order::sorts_by(sv, rv, perm);
        assert forall|k: int| 0 <= k < deduped@.len() implies #[trigger] deduped@[k].1 <= u32::MAX by {
            assert(dv[k] == (deduped@[k].0@, deduped@[k].1 as int));
            assert(sv.contains(dv[k]));
            let j = choose|j: int| 0 <= j < sv.len() && sv[j] == dv[k];
            assert(sv[j] == rv[perm[j]]);
            assert(rv[perm[j]].1 == result@[perm[j]].1);
        }
    }
    let out = narrow_keys(&deduped);
    Ok(out)
}

/// The syscall names and indices of `image`, found by `method`.
fn get_indices(image: &Image, method: crate::LoadMethod) -> (r: Result<Vec<(String, u32)>, LoadError>)
    requires
        image.bytes().len() <= u32::MAX,
    ensures
        win32u_indices(image.bytes(), image.arch, method, result_view(r)),
{
    let data = image.data();
    let exports = match exports(data) {
        Ok(e) => e,
        Err(e) => return Err(e),
    };
    let ghost es = match image_exports(data@) {
        Ok(es) => es,
        Err(_) => Seq::empty(),
    };
    assert(exports_view(exports@) =~= es);
    assert forall|i: int| 0 <= i < exports@.len() implies #[trigger] exports@[i].view_in(data@) by {
        assert(exports@[i].model() == es[i]);
    }
    proof {
        crate::images::lemma_signature_targets();
    }
    match (method, image.arch) {
        (crate::LoadMethod::Sorting, Arch::X64) => method_sorting(
            &exports,
            native_stub_sig().as_slice(),
            Ghost(data@),
        ),
        (crate::LoadMethod::Sorting, Arch::X86) => method_sorting(
            &exports,
            win32u_sig_wow().as_slice(),
            Ghost(data@),
        ),
        (crate::LoadMethod::Assembly, Arch::X64) => method_assembly(
            &exports,
            native_stub_sig().as_slice(),
            Ghost(data@),
        ),
        (crate::LoadMethod::Assembly, Arch::X86) => method_assembly(
            &exports,
            win32u_sig_wow().as_slice(),
            Ghost(data@),
        ),
    }
}

/// The syscall names and indices of the `win32u.dll` file whose contents are
/// `data`; the file is first mapped into its loaded layout.
pub fn from_file(
    data: &[u8],
    method: crate::LoadMethod,
    arch: Option<Arch>,
    version: Option<u32>,
) -> (r: Result<Vec<(String, u32)>, LoadError>)
    requires
        headers_fit(data@),
    ensures
        match file_image(data@, arch, version) {
            Err(e) => (r matches Err(e2) && e2 == e),
            Ok((d, a, _)) => win32u_indices(d, a, method, result_view(r)),
        },
{
    let image = match Image::from_file(data, arch, version) {
        Ok(image) => image,
        Err(e) => return Err(e),
    };
    get_indices(&image, method)
}

/// The syscall names and indices of the loaded `win32u.dll` among `modules`,
/// without loading it: `ImageNotFound` where it is not among them.
pub fn list_loaded(
    modules: &[LoadedModule],
    method: crate::LoadMethod,
    arch: Option<Arch>,
    version: Option<u32>,
) -> (r: Result<Vec<(String, u32)>, LoadError>)
    requires
        modules_fit(modules@),
    ensures
        match memory_image(modules@, "win32u.dll".spec_bytes(), arch, version) {
            Err(e) => (r matches Err(e2) && e2 == e),
            Ok((d, a, _)) => win32u_indices(d, a, method, result_view(r)),
        },
{
    let image = match Image::from_memory(modules, "win32u.dll", arch, version) {
        Ok(image) => image,
        Err(e) => return Err(e),
    };
    get_indices(&image, method)
}

/// What follows a first look for `win32u.dll` among the loaded modules `ms`:
/// its syscalls where it is loaded (or the error in its image); where it is
/// not loaded, loading it with the `LdrLoadDll` and `LdrUnloadDll` of the
/// loaded `ntdll.dll`, or the error that keeps them from being found.
pub open spec fn win32u_memory_step(
    ms: Seq<LoadedModule>,
    method: crate::LoadMethod,
    arch: Option<Arch>,
    version: Option<u32>,
    s: Step,
) -> bool {
    match memory_image(ms, "win32u.dll".spec_bytes(), arch, version) {
        Err(LoadError::ImageNotFound) => match loader_rvas(ms) {
            Ok((l, u)) => (s matches Step::LoadWin32u { load, unload } && load == l && unload
                == u),
            Err(e) => (s matches Step::Done(Err(e2)) && e2 == e),
        },
        Err(e) => (s matches Step::Done(Err(e2)) && e2 == e),
        Ok((d, a, _)) => (s matches Step::Done(x) && win32u_indices(d, a, method, result_view(x))),
    }
}

/// The syscall names and indices of the loaded `win32u.dll` among `modules`.
/// Where it is not loaded, the answer is to load it with the `LdrLoadDll` and
/// `LdrUnloadDll` exports of the loaded `ntdll.dll`, then list it with
/// [`list_loaded`]; `InvalidExportDirectory` where `ntdll.dll` lacks either.
pub fn from_memory(
    modules: &[LoadedModule],
    method: crate::LoadMethod,
    arch: Option<Arch>,
    version: Option<u32>,
) -> (r: Step)
    requires
        modules_fit(modules@),
    ensures
        win32u_memory_step(modules@, method, arch, version, r),
{
    match Image::from_memory(modules, "win32u.dll", arch, version) {
        Ok(image) => Step::Done(get_indices(&image, method)),
        Err(LoadError::ImageNotFound) => match loader_functions(modules) {
            Ok((load, unload)) => Step::LoadWin32u { load, unload },
            Err(e) => Step::Done(Err(e)),
        },
        Err(e) => Step::Done(Err(e)),
    }
}

/// The RVAs of `LdrLoadDll` and `LdrUnloadDll` found in the exports `es` from
/// position `i` on: an export of either name sets it (a later one replacing an
/// earlier one), and the scan stops once both are set.
pub open spec fn scan_loader(
    es: Seq<(Seq<u8>, int)>,
    i: int,
    load: Option<int>,
    unload: Option<int>,
) -> (Option<int>, Option<int>)
    decreases es.len() - i,
{
    if i < 0 || i >= es.len() || (load is Some && unload is Some) {
        (load, unload)
    } else if es[i].0 == "LdrLoadDll".spec_bytes() {
        scan_loader(es, i + 1, Some(es[i].1), unload)
    } else if es[i].0 == "LdrUnloadDll".spec_bytes() {
        scan_loader(es, i + 1, load, Some(es[i].1))
    } else {
        scan_loader(es, i + 1, load, unload)
    }
}

/// The RVAs, within the loaded `ntdll.dll` among `modules`, of `LdrLoadDll`
/// and `LdrUnloadDll`, with which `win32u.dll` can be loaded.
pub open spec fn loader_rvas(ms: Seq<LoadedModule>) -> Result<(int, int), LoadError> {
    match memory_image(ms, "ntdll.dll".spec_bytes(), None, Some(0)) {
        Err(e) => Err(e),
        Ok((d, _, _)) => match image_exports(d) {
            Err(e) => Err(e),
            Ok(es) => match scan_loader(es, 0, None, None) {
                (Some(l), Some(u)) => Ok((l, u)),
                _ => Err(LoadError::InvalidExportDirectory),
            },
        },
    }
}

/// Locates `LdrLoadDll` and `LdrUnloadDll` in the loaded `ntdll.dll`; gives
/// their RVAs.
pub fn loader_functions(modules: &[LoadedModule]) -> (r: Result<(u32, u32), LoadError>)
    ensures
        match loader_rvas(modules@) {
            Ok((l, u)) => (r matches Ok((l2, u2)) && l2 == l && u2 == u),
            Err(e) => (r matches Err(e2) && e2 == e),
        },
{
    let image = match Image::from_memory(modules, "ntdll.dll", None, Some(0)) {
        Ok(image) => image,
        Err(e) => return Err(e),
    };
    let data = image.data();
    let exports = match exports(data) {
        Ok(e) => e,
        Err(e) => return Err(e),
    };
    let ghost es = match image_exports(data@) {
        Ok(es) => es,
        Err(_) => Seq::empty(),
    };
    assert(exports_view(exports@) =~= es);
    let load_name = "LdrLoadDll".as_bytes();
    let unload_name = "LdrUnloadDll".as_bytes();
    let mut load_fn: Option<u32> = None;
    let mut unload_fn: Option<u32> = None;
    let n = exports.len();
    let mut i: usize = 0;
    while i < n && !(load_fn.is_some() && unload_fn.is_some())
        invariant
            n == exports@.len(),
            es == exports_view(exports@),
            load_name@ == "LdrLoadDll".spec_bytes(),
            unload_name@ == "LdrUnloadDll".spec_bytes(),
            forall|j: int|
                0 <= j < exports@.len() ==> #[trigger] exports@[j].view_in(data@)
                    && exports@[j].ptr.pos() <= u32::MAX,
            i <= n,
            scan_loader(es, 0, None, None) == scan_loader(
                es,
                i as int,
                match load_fn {
                    Some(x) => Some(x as int),
                    None => None,
                },
                match unload_fn {
                    Some(x) => Some(x as int),
                    None => None,
                },
            ),
        decreases n - i,
    {
        let e = &exports[i];
        assert(es[i as int] == e.model());
        let ghost lo = match load_fn {
            Some(x) => Some(x as int),
            None => None,
        };
        let ghost uo = match unload_fn {
            Some(x) => Some(x as int),
            None => None,
        };
        assert(!(lo is Some && uo is Some));
        assert(e.view_in(data@));
        let rva = e.ptr.start() as u32;
        assert(rva as int == es[i as int].1);
        if bytes_eq(e.name.as_slice(), load_name) {
            assert(scan_loader(es, i as int, lo, uo) == scan_loader(es, i + 1, Some(rva as int), uo));
            load_fn = Some(rva);
        } else if bytes_eq(e.name.as_slice(), unload_name) {
            assert(scan_loader(es, i as int, lo, uo) == scan_loader(es, i + 1, lo, Some(rva as int)));
            unload_fn = Some(rva);
        } else {
            assert(scan_loader(es, i as int, lo, uo) == scan_loader(es, i + 1, lo, uo));
        }
        i = i + 1;
    }
    match (load_fn, unload_fn) {
        (Some(l), Some(u)) => Ok((l, u)),
        _ => Err(LoadError::InvalidExportDirectory),
    }
}

/// Sorting lists each matching address once, in increasing order, numbered
/// from `0x1000` in steps of one: the address of each listed entry is that
/// of a matching export of that name, and every matching address is listed.
pub proof fn law_sorting_numbers(
    d: Seq<u8>,
    sig: Seq<SigPattern>,
    es: Seq<(Seq<u8>, int)>,
    out: Seq<(Seq<char>, int)>,
)
    requires
        sorting_result(d, sig, es, out),
    ensures
        forall|i: int| 0 <= i < out.len() ==> #[trigger] out[i].1 == 0x1000 + i,
        exists|addrs: Seq<int>|
            {
                &&& addrs.len() == out.len()
                &&& forall|a: int, b: int|
                    0 <= a < b < addrs.len() ==> #[trigger] addrs[a] < #[trigger] addrs[b]
                &&& forall|i: int|
                    0 <= i < out.len() ==> #[trigger] es.filter_map(matching_exports(d, sig)).contains(
                        (out[i].0, addrs[i]),
                    )
                &&& forall|j: int|
                    0 <= j < es.filter_map(matching_exports(d, sig)).len() ==> #[trigger] addrs.contains(
                        es.filter_map(matching_exports(d, sig))[j].1,
                    )
            },
{
    let ms = es.filter_map(matching_exports(d, sig));
    let sorted = choose|sorted: Seq<(Seq<char>, int)>|
        is_stable_sort(sorted, ms) && out == numbered(dedup_keys(sorted), 0x1000);
    let dk = dedup_keys(sorted);
    lemma_sort_dedup(sorted, ms);
    let addrs = dk.map_values(|e: (Seq<char>, int)| e.1);
    assert forall|i: int| 0 <= i < out.len() implies #[trigger] ms.contains((out[i].0, addrs[i])) by {
        assert(ms.contains(dk[i]));
        assert(dk[i] == (out[i].0, addrs[i]));
    }
    assert forall|a: int, b: int| 0 <= a < b < addrs.len() implies #[trigger] addrs[a]
        < #[trigger] addrs[b] by {
        assert(dk[a].1 < dk[b].1);
    }
    assert forall|j: int| 0 <= j < ms.len() implies #[trigger] addrs.contains(ms[j].1) by {
        assert(has_key(dk, ms[j].1));
        let i = choose|i: int| 0 <= i < dk.len() && #[trigger] dk[i].1 == ms[j].1;
        assert(addrs[i] == ms[j].1);
    }
}

/// Reading the stubs lists each index once: the indices strictly increase,
/// each is below `0x2000`, each listed entry is a stub export, and the index
/// of every stub export is listed.
pub proof fn law_assembly_unique(
    d: Seq<u8>,
    sig: Seq<SigPattern>,
    es: Seq<(Seq<u8>, int)>,
    out: Seq<(Seq<char>, int)>,
)
    requires
        assembly_result(d, sig, es, out),
    ensures
        keys_increasing(out),
        forall|i: int| 0 <= i < out.len() ==> 0 <= #[trigger] out[i].1 < 0x2000,
        forall|i: int| 0 <= i < out.len() ==> #[trigger] es.filter_map(stub_exports(d, sig)).contains(
            out[i],
        ),
        forall|j: int|
            0 <= j < es.filter_map(stub_exports(d, sig)).len() ==> has_key(
                out,
                #[trigger] es.filter_map(stub_exports(d, sig))[j].1,
            ),
{
    assert(crate::images::low_indices(stub_exports(d, sig), 0x2000));
    crate::images::lemma_stubs_by_index(es, stub_exports(d, sig), 0x2000, out);
}


/// A 32-bit syscall stub, `mov eax, <index>; mov edx, <addr>; call edx`
/// ending in `ret n` (C2) or in `ret` (C3), matches the 32-bit signature
/// wherever a byte of the image follows it: the export at it is counted by
/// sorting, and reading the stubs gives the low two bytes of the immediate.
pub proof fn law_wow_stub_matches(d: Seq<u8>, name: Seq<u8>, rva: int)
    requires
        0 <= rva,
        rva + 13 < d.len(),
        d[rva] == 0xb8,
        d[rva + 5] == 0xba,
        d[rva + 10] == 0xff,
        d[rva + 11] == 0xd2,
        d[rva + 12] == 0xc2 || d[rva + 12] == 0xc3,
        valid_utf8(name),
    ensures
        stub_index(d, rva, win32u_signature(Arch::X86)) == Some(d[rva + 1] + 0x100 * d[rva + 2]),
        matching_export(d, win32u_signature(Arch::X86), (name, rva)) == Some((decode_utf8(name), rva)),
        stub_export(d, win32u_signature(Arch::X86), (name, rva)) == Some(
            (decode_utf8(name), (d[rva + 1] + 0x100 * d[rva + 2]) % 0x2000),
        ),
{
    let sig = win32u_signature(Arch::X86);
    assert(sig.len() == 13);
    assert forall|k: int| 0 <= k < 13 implies #[trigger] byte_matches(d, rva, d.len() as int, rva, sig, k) by {
        if k == 0 {
            assert(sig[0] == exactly(0xb8u8));
            assert(seq![0xb8u8][0] == d[rva + 0]);
        } else if k == 1 {
            assert(!(sig[1] is Byte));
        } else if k == 2 {
            assert(!(sig[2] is Byte));
        } else if k == 3 {
            assert(!(sig[3] is Byte));
        } else if k == 4 {
            assert(!(sig[4] is Byte));
        } else if k == 5 {
            assert(sig[5] == exactly(0xbau8));
            assert(seq![0xbau8][0] == d[rva + 5]);
        } else if k == 6 {
            assert(!(sig[6] is Byte));
        } else if k == 7 {
            assert(!(sig[7] is Byte));
        } else if k == 8 {
            assert(!(sig[8] is Byte));
        } else if k == 9 {
            assert(!(sig[9] is Byte));
        } else if k == 10 {
            assert(sig[10] == exactly(0xffu8));
            assert(seq![0xffu8][0] == d[rva + 10]);
        } else if k == 11 {
            assert(sig[11] == exactly(0xd2u8));
            assert(seq![0xd2u8][0] == d[rva + 11]);
        } else if k == 12 {
            assert(sig[12] == SigPattern::Byte(seq![0xc2u8, 0xc3u8]));
            if d[rva + 12] == 0xc2 {
                assert(seq![0xc2u8, 0xc3u8][0] == d[rva + 12]);
            } else {
                assert(seq![0xc2u8, 0xc3u8][1] == d[rva + 12]);
            }
        }
    }
    assert(matches_at(d, rva, d.len() as int, rva, sig));
    crate::images::lemma_signature_targets();
    reveal_with_fuel(crate::signature::next_target, 3);
    assert(crate::signature::next_target(sig, 0) == Some(1int));
    assert(nth_target(sig, 0) == Some(1int));
    assert(nth_target(sig, 1) == Some(2int));
    assert(d[rva + 1] + d[rva + 2] * 0x100 < 0x10000);
}

/// Only a 32-bit syscall stub matches the 32-bit signature: `mov eax`, `mov
/// edx`, `call edx`, then `ret n` (C2) or `ret` (C3), with a byte of the image
/// after it.
pub proof fn law_wow_stub_shape(d: Seq<u8>, rva: int)
    requires
        0 <= rva,
    ensures
        (stub_index(d, rva, win32u_signature(Arch::X86)) is Some) ==> rva + 13 < d.len() && d[rva] == 0xb8 && d[rva + 5] == 0xba && d[rva + 10] == 0xff && d[rva + 11] == 0xd2 && (d[rva + 12] == 0xc2 || d[rva + 12] == 0xc3),
{
    let sig = win32u_signature(Arch::X86);
    if stub_index(d, rva, sig) is Some {
        assert(sig.len() == 13);
        assert(byte_matches(d, rva, d.len() as int, rva, sig, 0));
        assert(sig[0] == exactly(0xb8u8));
        assert(seq![0xb8u8].contains(d[rva + 0]));
        assert(seq![0xb8u8][0] == d[rva + 0]);
        assert(byte_matches(d, rva, d.len() as int, rva, sig, 5));
        assert(sig[5] == exactly(0xbau8));
        assert(seq![0xbau8].contains(d[rva + 5]));
        assert(seq![0xbau8][0] == d[rva + 5]);
        assert(byte_matches(d, rva, d.len() as int, rva, sig, 10));
        assert(sig[10] == exactly(0xffu8));
        assert(seq![0xffu8].contains(d[rva + 10]));
        assert(seq![0xffu8][0] == d[rva + 10]);
        assert(byte_matches(d, rva, d.len() as int, rva, sig, 11));
        assert(sig[11] == exactly(0xd2u8));
        assert(seq![0xd2u8].contains(d[rva + 11]));
        assert(seq![0xd2u8][0] == d[rva + 11]);
        assert(byte_matches(d, rva, d.len() as int, rva, sig, 12));
        assert(sig[12] == SigPattern::Byte(seq![0xc2u8, 0xc3u8]));
        let w = choose|w: int| 0 <= w < 2 && seq![0xc2u8, 0xc3u8][w] == d[rva + 12];
        assert(byte_matches(d, rva, d.len() as int, rva, sig, 12));
    }
}

} // verus!
