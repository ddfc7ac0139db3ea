//! Mapping an image file into the layout it has once loaded.
use vstd::prelude::*;

use crate::image::{
    arch_of, image_version, optional_header, parse_headers, Arch, ArchData, HeadersModel,
    ImageHeaders, SectionHeader,
};
use crate::LoadError;

verus! {

/// `dst` with the bytes `bytes` written at offset `at`.
pub open spec fn splice(dst: Seq<u8>, at: int, bytes: Seq<u8>) -> Seq<u8> {
    dst.subrange(0, at) + bytes + dst.subrange(at + bytes.len(), dst.len() as int)
}

/// A zeroed buffer of `SizeOfImage` bytes holding the first `SizeOfHeaders`
/// bytes of the file.
pub open spec fn initial_image(src: Seq<u8>, h: HeadersModel) -> Seq<u8> {
    let oh = optional_header(h);
    Seq::new(
        oh.size_of_image as nat,
        |i: int|
            if i < oh.size_of_headers {
                src[i]
            } else {
                0u8
            },
    )
}

/// Copies the raw data of each section, in order, to its virtual address;
/// fails on the first section whose raw data or destination does not fit.
pub open spec fn apply_sections(src: Seq<u8>, dst: Seq<u8>, secs: Seq<SectionHeader>) -> Result<
    Seq<u8>,
    LoadError,
>
    decreases secs.len(),
{
    if secs.len() == 0 {
        Ok(dst)
    } else {
        let s = secs[0];
        let raw = s.pointer_to_raw_data as int;
        let size = s.size_of_raw_data as int;
        let va = s.virtual_address as int;
        if raw + size > src.len() || va + size > dst.len() {
            Err(LoadError::InvalidSection)
        } else {
            apply_sections(src, splice(dst, va, src.subrange(raw, raw + size)), secs.drop_first())
        }
    }
}

/// The file `src` laid out as it is once loaded: headers, then each section at
/// its virtual address.
pub open spec fn mapped_image(src: Seq<u8>) -> Result<Seq<u8>, LoadError> {
    match parse_headers(src) {
        Err(e) => Err(e),
        Ok(h) => apply_sections(src, initial_image(src, h), h.sections),
    }
}

/// Copying the headers reads no byte past the end of the file.
pub open spec fn headers_fit(src: Seq<u8>) -> bool {
    parse_headers(src) matches Ok(h) ==> optional_header(h).size_of_headers <= src.len()
}

/// The mapped image of the file `src`, its architecture and its build number;
/// a given architecture or build number is taken as it is.
pub open spec fn file_image(src: Seq<u8>, arch: Option<Arch>, version: Option<u32>) -> Result<
    (Seq<u8>, Arch, u32),
    LoadError,
> {
    match parse_headers(src) {
        Err(e) => Err(e),
        Ok(h) => match apply_sections(src, initial_image(src, h), h.sections) {
            Err(e) => Err(e),
            Ok(dst) => {
                let v = match version {
                    Some(v) => Ok(v),
                    None => match parse_headers(dst) {
                        Err(e) => Err(e),
                        Ok(h2) => image_version(dst, h2),
                    },
                };
                match v {
                    Err(e) => Err(e),
                    Ok(v) => Ok(
                        (
                            dst,
                            match arch {
                                Some(a) => a,
                                None => arch_of(h),
                            },
                            v,
                        ),
                    ),
                }
            },
        },
    }
}

/// Writes `count` bytes of `src`, from `from` on, into `dst` at `at`.
fn copy_bytes(dst: &mut Vec<u8>, at: usize, src: &[u8], from: usize, count: usize)
    requires
        at + count <= old(dst)@.len(),
        from + count <= src@.len(),
    ensures
        final(dst)@ == splice(old(dst)@, at as int, src@.subrange(from as int, from + count)),
{
    let dst_len = dst.len();
    let src_len = src.len();
    let mut k: usize = 0;
    while k < count
        invariant
            dst_len == old(dst)@.len(),
            src_len == src@.len(),
            at + count <= old(dst)@.len(),
            from + count <= src@.len(),
            k <= count,
            dst@.len() == old(dst)@.len(),
            forall|j: int|
                0 <= j < dst@.len() ==> #[trigger] dst@[j] == if at <= j < at + k {
                    src@[from + j - at]
                } else {
                    old(dst)@[j]
                },
        decreases count - k,
    {
        dst.set(at + k, src[from + k]);
        k = k + 1;
    }
    assert(dst@ =~= splice(old(dst)@, at as int, src@.subrange(from as int, from + count)));
}

/// An image read from a file and mapped into its loaded layout.
pub struct ImageFile {
    data: Vec<u8>,
}

impl ImageFile {
    pub closed spec fn bytes(&self) -> Seq<u8> {
        self.data@
    }

    pub fn data(&self) -> (r: &[u8])
        ensures
            r@ == self.bytes(),
    {
        self.data.as_slice()
    }

    /// Maps the file contents `src`, then determines the architecture and
    /// build number where they are not given.
    pub fn new(src: &[u8], arch: Option<Arch>, version: Option<u32>) -> (r: Result<
        (ImageFile, Arch, u32),
        LoadError,
    >)
        requires
            headers_fit(src@),
        ensures
            match file_image(src@, arch, version) {
                Ok((d, a, v)) => (r matches Ok((f, a2, v2)) && f.bytes() == d && a2 == a && v2 == v),
                Err(e) => (r matches Err(e2) && e2 == e),
            },
            r matches Ok((f, _, _)) ==> f.bytes().len() <= u32::MAX,
    {
        let headers = match ImageHeaders::new(src) {
            Ok(h) => h,
            Err(e) => return Err(e),
        };
        let ghost h = headers.model();
        let oh = match headers.opt {
            ArchData::X86(o) => o,
            ArchData::X64(o) => o,
        };
        let mut dst: Vec<u8> = vec![0u8; oh.size_of_image as usize];
        let header_size = oh.size_of_headers as usize;
        proof {
            assert forall|i: int| 0 <= i < dst@.len() implies dst@[i] == 0u8 by {
                assert(vstd::pervasive::cloned(0u8, dst@[i]));
            }
        }
        copy_bytes(&mut dst, 0, src, 0, header_size);
        assert(dst@ =~= initial_image(src@, h));
        assert(h.sections.skip(0) =~= h.sections);
        let n = headers.sections.len();
        let mut i: usize = 0;
        while i < n
            invariant
                n == headers.sections@.len(),
                h.sections == headers.sections@,
                parse_headers(src@) == Ok::<HeadersModel, LoadError>(h),
                oh == optional_header(h),
                i <= n,
                dst@.len() == oh.size_of_image,
                apply_sections(src@, initial_image(src@, h), h.sections) == apply_sections(
                    src@,
                    dst@,
                    h.sections.skip(i as int),
                ),
            decreases n - i,
        {
            let section = headers.sections[i];
            let raw = section.pointer_to_raw_data as usize;
            let size = section.size_of_raw_data as usize;
            let va = section.virtual_address as usize;
            assert(h.sections.skip(i as int)[0] == section);
            assert(h.sections.skip(i as int).drop_first() =~= h.sections.skip(i + 1));
            if raw > src.len() || size > src.len() - raw {
                return Err(LoadError::InvalidSection);
            }
            if va > dst.len() || size > dst.len() - va {
                return Err(LoadError::InvalidSection);
            }
            copy_bytes(&mut dst, va, src, raw, size);
            i = i + 1;
        }
        assert(h.sections.skip(n as int) =~= Seq::<SectionHeader>::empty());
        let version = match version {
            Some(v) => v,
            None => {
                let mapped = match ImageHeaders::new(dst.as_slice()) {
                    Ok(m) => m,
                    Err(e) => return Err(e),
                };
                match mapped.get_version() {
                    Ok(v) => v,
                    Err(e) => return Err(e),
                }
            },
        };
        let arch = match arch {
            Some(a) => a,
            None => match headers.opt {
                ArchData::X86(_) => Arch::X86,
                ArchData::X64(_) => Arch::X64,
            },
        };
        Ok((ImageFile { data: dst }, arch, version))
    }
}

/// Copying sections keeps the length of the image.
proof fn lemma_apply_sections_len(src: Seq<u8>, dst: Seq<u8>, secs: Seq<SectionHeader>)
    ensures
        apply_sections(src, dst, secs) matches Ok(out) ==> out.len() == dst.len(),
    decreases secs.len(),
{
    if secs.len() > 0 {
        let s = secs[0];
        let raw = s.pointer_to_raw_data as int;
        let size = s.size_of_raw_data as int;
        let va = s.virtual_address as int;
        if !(raw + size > src.len() || va + size > dst.len()) {
            let next = splice(dst, va, src.subrange(raw, raw + size));
            assert(next.len() == dst.len());
            lemma_apply_sections_len(src, next, secs.drop_first());
        }
    }
}

/// A mapped image is `SizeOfImage` bytes long.
pub proof fn law_mapped_image_size(src: Seq<u8>)
    ensures
        mapped_image(src) matches Ok(d) ==> d.len() == optional_header(
            parse_headers(src)->Ok_0,
        ).size_of_image,
{
    if let Ok(h) = parse_headers(src) {
        lemma_apply_sections_len(src, initial_image(src, h), h.sections);
    }
}

/// Whether the raw data of section `s` fits in a file of `n` bytes and its
/// destination in an image of `m` bytes.
pub open spec fn section_fits(s: SectionHeader, n: int, m: int) -> bool {
    s.pointer_to_raw_data + s.size_of_raw_data <= n && s.virtual_address + s.size_of_raw_data <= m
}

/// Whether section `s` covers the image offset `p`.
pub open spec fn covers(s: SectionHeader, p: int) -> bool {
    s.virtual_address <= p < s.virtual_address + s.size_of_raw_data
}

/// Copying the sections succeeds exactly when each fits; then every byte of a
/// section that no later section covers comes from that section's raw data,
/// and every byte that no section covers is left as it was.
proof fn lemma_apply_sections_bytes(src: Seq<u8>, dst: Seq<u8>, secs: Seq<SectionHeader>)
    ensures
        (apply_sections(src, dst, secs) is Ok) == (forall|i: int|
            0 <= i < secs.len() ==> section_fits(
                #[trigger] secs[i],
                src.len() as int,
                dst.len() as int,
            )),
        apply_sections(src, dst, secs) matches Ok(m) ==> {
            &&& m.len() == dst.len()
            &&& forall|i: int, p: int|
                0 <= i < secs.len() && #[trigger] covers(secs[i], p) && (forall|j: int|
                    i < j < secs.len() ==> !#[trigger] covers(secs[j], p)) ==> m[p] == src[secs[i].pointer_to_raw_data
                    + p - secs[i].virtual_address]
            &&& forall|p: int|
                0 <= p < dst.len() && (forall|j: int| 0 <= j < secs.len() ==> !#[trigger] covers(secs[j], p))
                    ==> #[trigger] m[p] == dst[p]
        },
    decreases secs.len(),
{
    if secs.len() > 0 {
        let s = secs[0];
        let rest = secs.drop_first();
        let raw = s.pointer_to_raw_data as int;
        let size = s.size_of_raw_data as int;
        let va = s.virtual_address as int;
        let next = splice(dst, va, src.subrange(raw, raw + size));
        assert forall|i: int| 0 <= i < rest.len() implies rest[i] == secs[i + 1] by {}
        if raw + size > src.len() || va + size > dst.len() {
            assert(!section_fits(secs[0], src.len() as int, dst.len() as int));
        } else {
            assert(next.len() == dst.len());
            lemma_apply_sections_bytes(src, next, rest);
            assert((forall|i: int|
                0 <= i < secs.len() ==> section_fits(
                    #[trigger] secs[i],
                    src.len() as int,
                    dst.len() as int,
                )) == (forall|i: int|
                0 <= i < rest.len() ==> section_fits(
                    #[trigger] rest[i],
                    src.len() as int,
                    dst.len() as int,
                ))) by {
                if forall|i: int|
                    0 <= i < rest.len() ==> section_fits(
                        #[trigger] rest[i],
                        src.len() as int,
                        dst.len() as int,
                    ) {
                    assert forall|i: int| 0 <= i < secs.len() implies section_fits(
                        #[trigger] secs[i],
                        src.len() as int,
                        dst.len() as int,
                    ) by {
                        if i > 0 {
                            assert(secs[i] == rest[i - 1]);
                        }
                    }
                }
            }
            if let Ok(m) = apply_sections(src, dst, secs) {
                assert(apply_sections(src, next, rest) == Ok::<Seq<u8>, LoadError>(m));
                assert forall|i: int, p: int|
                    0 <= i < secs.len() && #[trigger] covers(secs[i], p) && (forall|j: int|
                        i < j < secs.len() ==> !#[trigger] covers(secs[j], p)) implies m[p]
                    == src[secs[i].pointer_to_raw_data + p - secs[i].virtual_address] by {
                    if i == 0 {
                        assert forall|j: int| 0 <= j < rest.len() implies !#[trigger] covers(
                            rest[j],
                            p,
                        ) by {
                            assert(rest[j] == secs[j + 1]);
                        }
                        assert(next[p] == src[raw + p - va]);
                    } else {
                        assert(rest[i - 1] == secs[i]);
                        assert forall|j: int| i - 1 < j < rest.len() implies !#[trigger] covers(
                            rest[j],
                            p,
                        ) by {
                            assert(rest[j] == secs[j + 1]);
                        }
                    }
                }
                assert forall|p: int|
                    0 <= p < dst.len() && (forall|j: int|
                        0 <= j < secs.len() ==> !#[trigger] covers(secs[j], p)) implies #[trigger] m[p]
                    == dst[p] by {
                    assert(!covers(secs[0], p));
                    assert forall|j: int| 0 <= j < rest.len() implies !#[trigger] covers(rest[j], p) by {
                        assert(rest[j] == secs[j + 1]);
                    }
                    assert(next[p] == dst[p]);
                }
            }
        }
    }
}

/// The mapped image is made exactly when every section's raw data lies in
/// the file and its destination in `SizeOfImage` bytes.  Each section's raw
/// data then lies at its virtual address (where no later section overlaps
/// it), and every other byte is that of the file's first `SizeOfHeaders`
/// bytes, or zero beyond them.
pub proof fn law_mapped_sections(src: Seq<u8>)
    ensures
        parse_headers(src) matches Ok(h) ==> {
            let secs = h.sections;
            let size_of_image = optional_header(h).size_of_image as int;
            let size_of_headers = optional_header(h).size_of_headers as int;
            &&& (mapped_image(src) is Ok) == (forall|i: int|
                #![trigger secs[i]]
                0 <= i < secs.len() ==> secs[i].pointer_to_raw_data + secs[i].size_of_raw_data
                    <= src.len() && secs[i].virtual_address + secs[i].size_of_raw_data
                    <= size_of_image)
            &&& mapped_image(src) matches Ok(m) ==> {
                &&& m.len() == size_of_image
                &&& forall|i: int, p: int|
                    #![trigger secs[i], m[p]]
                    0 <= i < secs.len() && secs[i].virtual_address <= p < secs[i].virtual_address
                        + secs[i].size_of_raw_data && (forall|j: int|
                        #![trigger secs[j]]
                        i < j < secs.len() ==> !(secs[j].virtual_address <= p
                            < secs[j].virtual_address + secs[j].size_of_raw_data)) ==> m[p]
                        == src[secs[i].pointer_to_raw_data + p - secs[i].virtual_address]
                &&& forall|p: int|
                    #![trigger m[p]]
                    0 <= p < m.len() && (forall|j: int|
                        #![trigger secs[j]]
                        0 <= j < secs.len() ==> !(secs[j].virtual_address <= p
                            < secs[j].virtual_address + secs[j].size_of_raw_data)) ==> m[p] == if p
                        < size_of_headers {
                        src[p]
                    } else {
                        0u8
                    }
            }
        },
{
    if let Ok(h) = parse_headers(src) {
        let dst = initial_image(src, h);
        lemma_apply_sections_bytes(src, dst, h.sections);
        if let Ok(m) = mapped_image(src) {
            let secs = h.sections;
            assert forall|i: int, p: int|
                #![trigger secs[i], m[p]]
                0 <= i < secs.len() && secs[i].virtual_address <= p < secs[i].virtual_address
                    + secs[i].size_of_raw_data && (forall|j: int|
                    #![trigger secs[j]]
                    i < j < secs.len() ==> !(secs[j].virtual_address <= p
                        < secs[j].virtual_address + secs[j].size_of_raw_data)) implies m[p]
                == src[secs[i].pointer_to_raw_data + p - secs[i].virtual_address] by {
                assert(covers(secs[i], p));
                assert forall|j: int| i < j < secs.len() implies !#[trigger] covers(secs[j], p) by {}
            }
            assert forall|p: int|
                #![trigger m[p]]
                0 <= p < m.len() && (forall|j: int|
                    #![trigger secs[j]]
                    0 <= j < secs.len() ==> !(secs[j].virtual_address <= p
                        < secs[j].virtual_address + secs[j].size_of_raw_data)) implies m[p] == if p
                < optional_header(h).size_of_headers {
                src[p]
            } else {
                0u8
            } by {
                assert forall|j: int| 0 <= j < secs.len() implies !#[trigger] covers(secs[j], p) by {}
                assert(m[p] == dst[p]);
            }
        }
    }
}

} // verus!
