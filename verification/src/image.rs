//! The PE image format: headers, version resource and export table.
use vstd::prelude::*;

use crate::bytes::{i32_at, u16_at, u32_at};
use crate::ptr::{in_window, Ptr};
use crate::signature::{byte, exactly, first_match, patterns, sig_search, sig_wide, wide_pattern, SigByte, SigPattern};
use crate::file::{file_image, headers_fit, ImageFile};
use crate::memory::{memory_image, modules_fit, ImageMemory, LoadedModule};
use crate::LoadError;
use vstd::string::*;

verus! {

/// Data that differs between 32-bit and 64-bit images.
#[derive(Clone, Copy)]
pub enum ArchData<T32, T64> {
    X86(T32),
    X64(T64),
}

/// The architecture of an image.
#[derive(Clone, Copy, PartialEq, Eq, Structural, Debug)]
pub enum Arch {
    X86,
    X64,
}

/// The name of an architecture.
pub open spec fn arch_text(a: Arch) -> Seq<char> {
    match a {
        Arch::X86 => "x86"@,
        Arch::X64 => "x64"@,
    }
}

impl Arch {
    /// The name of the architecture.
    pub fn name(&self) -> (r: &'static str)
        ensures
            r@ == arch_text(*self),
    {
        match self {
            Arch::X86 => "x86",
            Arch::X64 => "x64",
        }
    }
}

/// The fields of the optional header that the loader reads.
#[derive(Clone, Copy, PartialEq, Eq, Structural)]
pub struct OptionalHeader {
    pub size_of_image: u32,
    pub size_of_headers: u32,
}

/// The fields of the file header that the loader reads.
#[derive(Clone, Copy, PartialEq, Eq, Structural)]
pub struct FileHeader {
    pub number_of_sections: u16,
    pub size_of_optional_header: u16,
}

/// The fields of a section header that the loader reads.
#[derive(Clone, Copy, PartialEq, Eq, Structural)]
pub struct SectionHeader {
    pub virtual_address: u32,
    pub size_of_raw_data: u32,
    pub pointer_to_raw_data: u32,
}

/// An entry of the data directory.
#[derive(Clone, Copy, PartialEq, Eq, Structural)]
pub struct DataDirectory {
    pub virtual_address: u32,
    pub size: u32,
}

// Layout of the PE structures (sizes and field offsets in bytes).
pub const DOS_HEADER_SIZE: u64 = 64;
pub const DOS_MAGIC: u16 = 0x5A4D;
pub const DOS_LFANEW: u64 = 60;
pub const NT_SIGNATURE: u32 = 0x4550;
pub const FILE_HEADER_SIZE: u64 = 20;
pub const OPT32_MAGIC: u16 = 0x10b;
pub const OPT64_MAGIC: u16 = 0x20b;
pub const OPT32_SIZE: u64 = 224;
pub const OPT64_SIZE: u64 = 240;
pub const OPT32_DIRECTORY: u64 = 96;
pub const OPT64_DIRECTORY: u64 = 112;
pub const SECTION_HEADER_SIZE: u64 = 40;
pub const DIRECTORY_ENTRIES: u64 = 16;
pub const DIRECTORY_ENTRY_EXPORT: u64 = 0;
pub const DIRECTORY_ENTRY_RESOURCE: u64 = 2;
pub const EXPORT_DIRECTORY_SIZE: u64 = 40;
pub const FIXED_FILE_INFO_SIZE: u64 = 52;

/// The headers of an image as mathematical values.
pub struct HeadersModel {
    pub opt: ArchData<OptionalHeader, OptionalHeader>,
    pub file: FileHeader,
    pub sections: Seq<SectionHeader>,
    pub directory: Seq<DataDirectory>,
}

pub open spec fn section_at(d: Seq<u8>, o: int) -> SectionHeader {
    SectionHeader {
        virtual_address: u32_at(d, o + 12),
        size_of_raw_data: u32_at(d, o + 16),
        pointer_to_raw_data: u32_at(d, o + 20),
    }
}

pub open spec fn directory_at(d: Seq<u8>, o: int) -> DataDirectory {
    DataDirectory { virtual_address: u32_at(d, o), size: u32_at(d, o + 4) }
}

/// The offset of the NT headers, as the DOS header gives it.
pub open spec fn nt_offset(d: Seq<u8>) -> int {
    i32_at(d, DOS_LFANEW as int)
}

/// The headers of the image `d`, or the first check that fails.
///
/// Every structure is read only where it lies strictly inside the bytes
/// (the last byte is never part of it).
pub open spec fn parse_headers(d: Seq<u8>) -> Result<HeadersModel, LoadError> {
    let len = d.len() as int;
    if !in_window(0, len, 0, DOS_HEADER_SIZE as int) || u16_at(d, 0) != DOS_MAGIC {
        Err(LoadError::InvalidDosHeader)
    } else {
        let nt = nt_offset(d);
        if !(in_window(0, len, nt, 4) && u32_at(d, nt) == NT_SIGNATURE) || !in_window(
            0,
            len,
            nt + 4,
            FILE_HEADER_SIZE as int,
        ) {
            Err(LoadError::InvalidNtHeaders)
        } else {
            let file = FileHeader {
                number_of_sections: u16_at(d, nt + 6),
                size_of_optional_header: u16_at(d, nt + 20),
            };
            let opt = nt + 24;
            if !in_window(0, len, opt, 2) {
                Err(LoadError::InvalidPEFormat)
            } else {
                let magic = u16_at(d, opt);
                let size = if magic == OPT32_MAGIC {
                    OPT32_SIZE as int
                } else {
                    OPT64_SIZE as int
                };
                if (magic != OPT32_MAGIC && magic != OPT64_MAGIC) || !in_window(0, len, opt, size) {
                    Err(LoadError::InvalidPEFormat)
                } else {
                    let oh = OptionalHeader {
                        size_of_image: u32_at(d, opt + 56),
                        size_of_headers: u32_at(d, opt + 60),
                    };
                    if oh.size_of_image <= oh.size_of_headers {
                        Err(LoadError::InvalidNtHeaders)
                    } else {
                        let secs = opt + file.size_of_optional_header;
                        let n = file.number_of_sections as int;
                        if !in_window(0, len, secs, n * SECTION_HEADER_SIZE) {
                            Err(LoadError::InvalidSectionHeaders)
                        } else {
                            let dir = opt + if magic == OPT32_MAGIC {
                                OPT32_DIRECTORY as int
                            } else {
                                OPT64_DIRECTORY as int
                            };
                            Ok(
                                HeadersModel {
                                    opt: if magic == OPT32_MAGIC {
                                        ArchData::X86(oh)
                                    } else {
                                        ArchData::X64(oh)
                                    },
                                    file,
                                    sections: Seq::new(
                                        n as nat,
                                        |i: int| section_at(d, secs + i * SECTION_HEADER_SIZE),
                                    ),
                                    directory: Seq::new(
                                        DIRECTORY_ENTRIES as nat,
                                        |i: int| directory_at(d, dir + i * 8),
                                    ),
                                },
                            )
                        }
                    }
                }
            }
        }
    }
}

/// `VS_VERSION_INFO`, the key of the version resource.
pub open spec fn version_key() -> Seq<u8> {
    seq![0x56u8, 0x53, 0x5f, 0x56, 0x45, 0x52, 0x53, 0x49, 0x4f, 0x4e, 0x5f, 0x49, 0x4e, 0x46, 0x4f]
}

/// The signature of the UTF-16 key `VS_VERSION_INFO`.
pub open spec fn version_pattern() -> Seq<SigPattern> {
    wide_pattern(version_key())
}

/// The signature of `0xFEEF04BD`, the first field of `VS_FIXEDFILEINFO`.
pub open spec fn fixed_version_pattern() -> Seq<SigPattern> {
    seq![exactly(0xbd), exactly(0x04), exactly(0xef), exactly(0xfe)]
}

/// The build number that the version resource of `d` records: the high word
/// of `dwFileVersionLS` in the first `VS_FIXEDFILEINFO` that follows the first
/// `VS_VERSION_INFO` key inside the resource directory.
pub open spec fn image_version(d: Seq<u8>, h: HeadersModel) -> Result<u32, LoadError> {
    let res = h.directory[DIRECTORY_ENTRY_RESOURCE as int];
    let pos = res.virtual_address as int;
    let end = if pos + res.size > d.len() {
        d.len() as int
    } else {
        pos + res.size
    };
    match first_match(d, 0, end, pos, version_pattern()) {
        None => Err(LoadError::InvalidResourceDirectory),
        Some(a) => match first_match(d, 0, end, a, fixed_version_pattern()) {
            None => Err(LoadError::InvalidResourceDirectory),
            Some(b) => if in_window(0, end, b, FIXED_FILE_INFO_SIZE as int) {
                Ok((u32_at(d, b + 12) / 0x10000) as u32)
            } else {
                Err(LoadError::InvalidResourceDirectory)
            },
        },
    }
}

/// Builds the signature of `VS_VERSION_INFO`.
pub fn vs_version_sig() -> (r: Vec<SigByte>)
    ensures
        patterns(r@) == version_pattern(),
{
    let key: Vec<u8> = vec![0x56u8, 0x53, 0x5f, 0x56, 0x45, 0x52, 0x53, 0x49, 0x4f, 0x4e, 0x5f, 0x49, 0x4e, 0x46, 0x4f];
    assert(key@ =~= version_key());
    sig_wide(key.as_slice())
}

/// Builds the signature of `0xFEEF04BD` in little-endian order.
pub fn vs_fixedversion_sig() -> (r: Vec<SigByte>)
    ensures
        patterns(r@) == fixed_version_pattern(),
{
    let r = vec![byte(0xbd), byte(0x04), byte(0xef), byte(0xfe)];
    assert(patterns(r@) =~= fixed_version_pattern());
    r
}

/// The optional header, whichever its width.
pub open spec fn optional_header(h: HeadersModel) -> OptionalHeader {
    match h.opt {
        ArchData::X86(o) => o,
        ArchData::X64(o) => o,
    }
}

/// The architecture that the optional header's width indicates.
pub open spec fn arch_of(h: HeadersModel) -> Arch {
    match h.opt {
        ArchData::X86(_) => Arch::X86,
        ArchData::X64(_) => Arch::X64,
    }
}

/// The parsed headers of an image, with a cursor over the whole image.
pub struct ImageHeaders<'a> {
    pub ptr: Ptr<'a>,
    pub opt: ArchData<OptionalHeader, OptionalHeader>,
    pub file: FileHeader,
    pub sections: Vec<SectionHeader>,
    pub directory: Vec<DataDirectory>,
}

impl<'a> ImageHeaders<'a> {
    pub open spec fn model(&self) -> HeadersModel {
        HeadersModel {
            opt: self.opt,
            file: self.file,
            sections: self.sections@,
            directory: self.directory@,
        }
    }

    /// The cursor covers the whole image and sits at its first byte.
    pub open spec fn over(&self, d: Seq<u8>) -> bool {
        &&& self.ptr.wf()
        &&& self.ptr.bytes() == d
        &&& self.ptr.spec_start() == 0
        &&& self.ptr.spec_end() == d.len()
        &&& self.ptr.pos() == 0
    }

    /// Parses the DOS, NT, optional and section headers of `data`.
    pub fn new(data: &'a [u8]) -> (r: Result<ImageHeaders<'a>, LoadError>)
        ensures
            match r {
                Ok(h) => parse_headers(data@) == Ok::<HeadersModel, LoadError>(h.model()) && h.over(
                    data@,
                ),
                Err(e) => parse_headers(data@) == Err::<HeadersModel, LoadError>(e),
            },
    {
        let ptr = Ptr::from_slice(data);
        if !ptr.is_valid_for(DOS_HEADER_SIZE) {
            return Err(LoadError::InvalidDosHeader);
        }
        if ptr.u16_at(0) != DOS_MAGIC {
            return Err(LoadError::InvalidDosHeader);
        }
        let lfanew = crate::bytes::read_i32(data, DOS_LFANEW as usize);
        if lfanew < 0 {
            return Err(LoadError::InvalidNtHeaders);
        }
        let nt = lfanew as u64;
        let sig = ptr.byte_add(nt).read_u32();
        if sig != Some(NT_SIGNATURE) {
            return Err(LoadError::InvalidNtHeaders);
        }
        let file_ptr = ptr.byte_add(nt).byte_add(4);
        if !file_ptr.is_valid_for(FILE_HEADER_SIZE) {
            return Err(LoadError::InvalidNtHeaders);
        }
        let file = FileHeader {
            number_of_sections: file_ptr.u16_at(2),
            size_of_optional_header: file_ptr.u16_at(16),
        };
        let opt_ptr = file_ptr.byte_add(FILE_HEADER_SIZE);
        let magic = match opt_ptr.read_u16() {
            Some(m) => m,
            None => return Err(LoadError::InvalidPEFormat),
        };
        let opt = if magic == OPT32_MAGIC {
            if !opt_ptr.is_valid_for(OPT32_SIZE) {
                return Err(LoadError::InvalidPEFormat);
            }
            ArchData::X86(
                OptionalHeader {
                    size_of_image: opt_ptr.u32_at(56),
                    size_of_headers: opt_ptr.u32_at(60),
                },
            )
        } else if magic == OPT64_MAGIC {
            if !opt_ptr.is_valid_for(OPT64_SIZE) {
                return Err(LoadError::InvalidPEFormat);
            }
            ArchData::X64(
                OptionalHeader {
                    size_of_image: opt_ptr.u32_at(56),
                    size_of_headers: opt_ptr.u32_at(60),
                },
            )
        } else {
            return Err(LoadError::InvalidPEFormat);
        };
        let oh = match opt {
            ArchData::X86(o) => o,
            ArchData::X64(o) => o,
        };
        if oh.size_of_image <= oh.size_of_headers {
            return Err(LoadError::InvalidNtHeaders);
        }
        let dir_ptr = match opt {
            ArchData::X86(_) => opt_ptr.byte_add(OPT32_DIRECTORY),
            ArchData::X64(_) => opt_ptr.byte_add(OPT64_DIRECTORY),
        };
        let sec_ptr = opt_ptr.byte_add(file.size_of_optional_header as u64);
        let n = file.number_of_sections as u64;
        if !sec_ptr.is_valid_for(n * SECTION_HEADER_SIZE) {
            return Err(LoadError::InvalidSectionHeaders);
        }
        let ghost secs = sec_ptr.pos();
        let mut sections: Vec<SectionHeader> = Vec::new();
        let mut i: u64 = 0;
        while i < n
            invariant
                sec_ptr.wf(),
                sec_ptr.bytes() == data@,
                sec_ptr.pos() == secs,
                sec_ptr.valid_for(n * SECTION_HEADER_SIZE),
                i <= n,
                n <= 0xffff,
                sections@.len() == i,
                forall|j: int|
                    0 <= j < i ==> #[trigger] sections@[j] == section_at(
                        data@,
                        secs + j * SECTION_HEADER_SIZE,
                    ),
            decreases n - i,
        {
            let o = i * SECTION_HEADER_SIZE;
            assert(o + SECTION_HEADER_SIZE <= n * SECTION_HEADER_SIZE) by (nonlinear_arith)
                requires
                    i < n,
                    o == i * SECTION_HEADER_SIZE,
            ;
            sections.push(
                SectionHeader {
                    virtual_address: sec_ptr.u32_at(o + 12),
                    size_of_raw_data: sec_ptr.u32_at(o + 16),
                    pointer_to_raw_data: sec_ptr.u32_at(o + 20),
                },
            );
            i = i + 1;
        }
        let ghost dir = dir_ptr.pos();
        let mut directory: Vec<DataDirectory> = Vec::new();
        let mut k: u64 = 0;
        while k < DIRECTORY_ENTRIES
            invariant
                dir_ptr.wf(),
                dir_ptr.bytes() == data@,
                dir_ptr.pos() == dir,
                dir_ptr.valid_for(DIRECTORY_ENTRIES * 8),
                k <= DIRECTORY_ENTRIES,
                directory@.len() == k,
                forall|j: int|
                    0 <= j < k ==> #[trigger] directory@[j] == directory_at(data@, dir + j * 8),
            decreases DIRECTORY_ENTRIES - k,
        {
            directory.push(
                DataDirectory {
                    virtual_address: dir_ptr.u32_at(k * 8),
                    size: dir_ptr.u32_at(k * 8 + 4),
                },
            );
            k = k + 1;
        }
        let h = ImageHeaders { ptr, opt, file, sections, directory };
        assert(h.model().sections =~= parse_headers(data@)->Ok_0.sections);
        assert(h.model().directory =~= parse_headers(data@)->Ok_0.directory);
        Ok(h)
    }

    /// The build number recorded in the image's version resource.
    pub fn get_version(&self) -> (r: Result<u32, LoadError>)
        requires
            parse_headers(self.ptr.bytes()) == Ok::<HeadersModel, LoadError>(self.model()),
            self.over(self.ptr.bytes()),
        ensures
            r == image_version(self.ptr.bytes(), self.model()),
    {
        let version_sig = vs_version_sig();
        let fixed_sig = vs_fixedversion_sig();
        let res = self.directory[DIRECTORY_ENTRY_RESOURCE as usize];
        let res_ptr = self.ptr.byte_add(res.virtual_address as u64).truncate(res.size as u64);
        let a = match sig_search(res_ptr, version_sig.as_slice()) {
            Some(a) => a,
            None => return Err(LoadError::InvalidResourceDirectory),
        };
        let b = match sig_search(a, fixed_sig.as_slice()) {
            Some(b) => b,
            None => return Err(LoadError::InvalidResourceDirectory),
        };
        if !b.is_valid_for(FIXED_FILE_INFO_SIZE) {
            return Err(LoadError::InvalidResourceDirectory);
        }
        let ls = b.u32_at(12);
        let v = ls >> 16;
        assert(v == ls / 0x10000) by (bit_vector)
            requires
                v == ls >> 16,
        ;
        Ok(v)
    }
}

/// Where the export directory places its three arrays, and their lengths.
pub struct ExportTable {
    pub names: int,
    pub ordinals: int,
    pub functions: int,
    pub n_names: int,
    pub n_functions: int,
}

/// The export directory of the image `d` with headers `h`, or the first check that fails.
pub open spec fn export_table(d: Seq<u8>, h: HeadersModel) -> Result<ExportTable, LoadError> {
    let len = d.len() as int;
    let e = h.directory[DIRECTORY_ENTRY_EXPORT as int].virtual_address as int;
    if !in_window(0, len, e, EXPORT_DIRECTORY_SIZE as int) {
        Err(LoadError::InvalidExportDirectory)
    } else {
        let t = ExportTable {
            names: u32_at(d, e + 32) as int,
            ordinals: u32_at(d, e + 36) as int,
            functions: u32_at(d, e + 28) as int,
            n_names: u32_at(d, e + 24) as int,
            n_functions: u32_at(d, e + 20) as int,
        };
        if !in_window(0, len, t.names, t.n_names * 4) {
            Err(LoadError::InvalidExportNames)
        } else if !in_window(0, len, t.functions, t.n_functions * 4) {
            Err(LoadError::InvalidExportFunctions)
        } else if !in_window(0, len, t.ordinals, t.n_names * 2) {
            Err(LoadError::InvalidExportOrdinals)
        } else {
            Ok(t)
        }
    }
}

/// The NUL-terminated string at `o`, without its terminator; it ends at the
/// end of `d` where no NUL follows.
pub open spec fn c_string(d: Seq<u8>, o: int) -> Seq<u8>
    decreases d.len() - o,
{
    if o < 0 || o >= d.len() || d[o] == 0 {
        Seq::empty()
    } else {
        seq![d[o]] + c_string(d, o + 1)
    }
}

/// The exports named from the `i`-th name on: each is its name and the RVA of
/// its function.  A name whose ordinal is out of range, or whose name or
/// function RVA is zero, is passed over; the listing stops at the first name
/// or function RVA that lies outside the image.
pub open spec fn exports_from(d: Seq<u8>, t: ExportTable, i: int) -> Seq<(Seq<u8>, int)>
    decreases t.n_names - i,
{
    if i < 0 || i >= t.n_names {
        Seq::empty()
    } else {
        let name_rva = u32_at(d, t.names + 4 * i) as int;
        let ordinal = u16_at(d, t.ordinals + 2 * i) as int;
        if ordinal >= t.n_functions {
            exports_from(d, t, i + 1)
        } else {
            let func_rva = u32_at(d, t.functions + 4 * ordinal) as int;
            if name_rva == 0 || func_rva == 0 {
                exports_from(d, t, i + 1)
            } else if !in_window(0, d.len() as int, name_rva, 1) || !in_window(
                0,
                d.len() as int,
                func_rva,
                1,
            ) {
                Seq::empty()
            } else {
                seq![(c_string(d, name_rva), func_rva)] + exports_from(d, t, i + 1)
            }
        }
    }
}

/// There are no more exports than names.
pub proof fn lemma_exports_len(d: Seq<u8>, t: ExportTable, i: int)
    requires
        0 <= i,
    ensures
        exports_from(d, t, i).len() <= if i <= t.n_names {
            t.n_names - i
        } else {
            0
        },
    decreases t.n_names - i,
{
    if i < t.n_names {
        lemma_exports_len(d, t, i + 1);
    }
}

/// Every export's function RVA is a 32-bit value inside the image.
pub proof fn lemma_exports_rva(d: Seq<u8>, t: ExportTable, i: int)
    ensures
        forall|k: int|
            0 <= k < exports_from(d, t, i).len() ==> 0 <= #[trigger] exports_from(d, t, i)[k].1
                <= u32::MAX && exports_from(d, t, i)[k].1 + 1 < d.len(),
    decreases t.n_names - i,
{
    if 0 <= i < t.n_names {
        lemma_exports_rva(d, t, i + 1);
        let rest = exports_from(d, t, i + 1);
        let all = exports_from(d, t, i);
        assert forall|k: int| 0 <= k < all.len() implies 0 <= #[trigger] all[k].1 <= u32::MAX
            && all[k].1 + 1 < d.len() by {
            if all.len() == rest.len() + 1 && k > 0 {
                assert(all[k] == rest[k - 1]);
            }
        }
    }
}

/// The named exports of the image `d`, in the order of its name table.
pub open spec fn image_exports(d: Seq<u8>) -> Result<Seq<(Seq<u8>, int)>, LoadError> {
    match parse_headers(d) {
        Err(e) => Err(e),
        Ok(h) => match export_table(d, h) {
            Err(e) => Err(e),
            Ok(t) => Ok(exports_from(d, t, 0)),
        },
    }
}

/// A named export: its name and a cursor at its function that reaches to the
/// end of the image.
pub struct Export<'a> {
    pub name: Vec<u8>,
    pub ptr: Ptr<'a>,
}

impl<'a> Export<'a> {
    pub open spec fn view_in(&self, d: Seq<u8>) -> bool {
        &&& self.ptr.wf()
        &&& self.ptr.bytes() == d
        &&& self.ptr.spec_start() == self.ptr.pos()
        &&& self.ptr.spec_end() == d.len()
    }

    pub open spec fn model(&self) -> (Seq<u8>, int) {
        (self.name@, self.ptr.pos())
    }
}

/// The NUL-terminated string at `o`.
fn read_c_string(data: &[u8], o: usize) -> (r: Vec<u8>)
    ensures
        r@ == c_string(data@, o as int),
{
    let mut r: Vec<u8> = Vec::new();
    let mut j = o;
    while j < data.len() && data[j] != 0
        invariant
            o <= j,
            r@ + c_string(data@, j as int) == c_string(data@, o as int),
        decreases data@.len() - j,
    {
        assert(c_string(data@, j as int) == seq![data@[j as int]] + c_string(data@, j + 1));
        r.push(data[j]);
        assert(r@ + c_string(data@, j + 1) =~= c_string(data@, o as int));
        j = j + 1;
    }
    assert(c_string(data@, j as int) == Seq::<u8>::empty());
    assert(r@ =~= r@ + c_string(data@, j as int));
    r
}

/// Walks the named exports of an image.
pub struct ExportIter<'a> {
    pub data: &'a [u8],
    pub names: u64,
    pub ordinals: u64,
    pub functions: u64,
    pub n_names: u64,
    pub n_functions: u64,
    pub index: u64,
}

impl<'a> ExportIter<'a> {
    pub open spec fn table(&self) -> ExportTable {
        ExportTable {
            names: self.names as int,
            ordinals: self.ordinals as int,
            functions: self.functions as int,
            n_names: self.n_names as int,
            n_functions: self.n_functions as int,
        }
    }

    /// The exports that are still to come.
    pub open spec fn remaining(&self) -> Seq<(Seq<u8>, int)> {
        exports_from(self.data@, self.table(), self.index as int)
    }

    pub open spec fn inv(&self) -> bool {
        let len = self.data@.len() as int;
        &&& in_window(0, len, self.names as int, self.n_names * 4)
        &&& in_window(0, len, self.functions as int, self.n_functions * 4)
        &&& in_window(0, len, self.ordinals as int, self.n_names * 2)
        &&& self.n_names <= u32::MAX
        &&& self.index <= self.n_names
    }

    /// Locates the export directory of `data` and its name, ordinal and function arrays.
    pub fn new(data: &'a [u8]) -> (r: Result<ExportIter<'a>, LoadError>)
        ensures
            match image_exports(data@) {
                Ok(es) => (r matches Ok(it) && it.inv() && it.data@ == data@ && it.remaining() == es
                && it.index == 0),
                Err(e) => r == Err::<ExportIter<'a>, LoadError>(e),
            },
    {
        let headers = match ImageHeaders::new(data) {
            Ok(h) => h,
            Err(e) => return Err(e),
        };
        let ptr = Ptr::from_slice(data);
        let entry = headers.directory[DIRECTORY_ENTRY_EXPORT as usize];
        let export = ptr.byte_add(entry.virtual_address as u64);
        if !export.is_valid_for(EXPORT_DIRECTORY_SIZE) {
            return Err(LoadError::InvalidExportDirectory);
        }
        let n_functions = export.u32_at(20) as u64;
        let n_names = export.u32_at(24) as u64;
        let functions = export.u32_at(28) as u64;
        let names = export.u32_at(32) as u64;
        let ordinals = export.u32_at(36) as u64;
        if !ptr.byte_add(names).is_valid_for(n_names * 4) {
            return Err(LoadError::InvalidExportNames);
        }
        if !ptr.byte_add(functions).is_valid_for(n_functions * 4) {
            return Err(LoadError::InvalidExportFunctions);
        }
        if !ptr.byte_add(ordinals).is_valid_for(n_names * 2) {
            return Err(LoadError::InvalidExportOrdinals);
        }
        Ok(ExportIter { data, names, ordinals, functions, n_names, n_functions, index: 0 })
    }

    /// The next export, or `None` once the listing has ended.
    pub fn next(&mut self) -> (r: Option<Export<'a>>)
        requires
            old(self).inv(),
        ensures
            final(self).inv(),
            final(self).data == old(self).data,
            final(self).table() == old(self).table(),
            (old(self).remaining().len() == 0) == (r is None),
            old(self).remaining().len() > 0 ==> ({
                &&& r matches Some(e) && e.view_in(old(self).data@) && e.model() == old(
                    self,
                ).remaining()[0]
                &&& final(self).remaining() == old(self).remaining().drop_first()
            }),
    {
        let ghost t = self.table();
        let ghost start = self.remaining();
        let len = self.data.len();
        while self.index < self.n_names
            invariant
                self.inv(),
                self.data == old(self).data,
                self.table() == t,
                t == old(self).table(),
                start == old(self).remaining(),
                len == self.data@.len(),
                self.remaining() == start,
            decreases self.n_names - self.index,
        {
            let i = self.index;
            assert(4 * i + 4 <= self.n_names * 4 && 2 * i + 2 <= self.n_names * 2) by (nonlinear_arith)
                requires
                    i < self.n_names,
            ;
            let name_rva = crate::bytes::read_u32(self.data, (self.names + 4 * i) as usize);
            let ordinal = crate::bytes::read_u16(self.data, (self.ordinals + 2 * i) as usize);
            self.index = i + 1;
            if (ordinal as u64) < self.n_functions {
                let o = ordinal as u64;
                assert(4 * o + 4 <= self.n_functions * 4) by (nonlinear_arith)
                    requires
                        o < self.n_functions,
                ;
                let func_rva = crate::bytes::read_u32(self.data, (self.functions + 4 * o) as usize);
                if name_rva != 0 && func_rva != 0 {
                    if len == 0 || !((name_rva as usize) < len - 1) || !((func_rva as usize) < len
                        - 1) {
                        return None;
                    }
                    let name = read_c_string(self.data, name_rva as usize);
                    let ptr = Ptr::new(self.data, func_rva as usize, len);
                    return Some(Export { name, ptr });
                }
            }
        }
        None
    }
}

/// All named exports of `data`, in the order of its name table.
pub fn exports<'a>(data: &'a [u8]) -> (r: Result<Vec<Export<'a>>, LoadError>)
    ensures
        r matches Ok(v) ==> v@.len() * 4 < data@.len(),
        r matches Ok(v) ==> forall|i: int|
            0 <= i < v@.len() ==> #[trigger] v@[i].view_in(data@) && v@[i].ptr.pos() <= u32::MAX,
        match image_exports(data@) {
            Ok(es) => (r matches Ok(v) && v@.len() == es.len() && forall|i: int|
                0 <= i < es.len() ==> #[trigger] v@[i].model() == es[i] && v@[i].view_in(data@)),
            Err(e) => (r matches Err(e2) && e2 == e),
        },
{
    let mut it = match ExportIter::new(data) {
        Ok(it) => it,
        Err(e) => return Err(e),
    };
    let ghost all = it.remaining();
    proof {
        lemma_exports_len(data@, it.table(), 0);
        lemma_exports_rva(data@, it.table(), 0);
    }
    let ghost t = it.table();
    assert(all == exports_from(data@, t, 0));
    let mut out: Vec<Export<'a>> = Vec::new();
    loop
        invariant_except_break
            it.inv(),
            it.remaining() == all.subrange(out@.len() as int, all.len() as int),
        invariant
            it.data@ == data@,
            all == exports_from(data@, t, 0),
            image_exports(data@) == Ok::<Seq<(Seq<u8>, int)>, LoadError>(all),
            out@.len() <= all.len(),
            forall|i: int|
                0 <= i < out@.len() ==> #[trigger] out@[i].model() == all[i] && out@[i].view_in(
                    data@,
                ),
        ensures
            out@.len() == all.len(),
        decreases all.len() - out@.len(),
    {
        match it.next() {
            Some(e) => {
                assert(e.model() == all[out@.len() as int]);
                out.push(e);
                assert(all.subrange(out@.len() - 1, all.len() as int).drop_first() =~= all.subrange(
                    out@.len() as int,
                    all.len() as int,
                ));
            },
            None => {
                break;
            },
        }
    }
    proof {
        lemma_exports_rva(data@, t, 0);
        assert forall|i: int| 0 <= i < out@.len() implies #[trigger] out@[i].view_in(data@)
            && out@[i].ptr.pos() <= u32::MAX by {
            assert(out@[i].model() == all[i]);
            assert(out@[i].view_in(data@));
            assert(all[i] == exports_from(data@, t, 0)[i]);
            assert(0 <= exports_from(data@, t, 0)[i].1 <= u32::MAX);
            assert(out@[i].ptr.pos() == all[i].1);
        }
    }
    Ok(out)
}

/// Where the bytes of an image come from.
pub enum ImageType {
    File(ImageFile),
    Memory(ImageMemory),
}

/// An image with its architecture and build number.
pub struct Image {
    pub version: u32,
    pub arch: Arch,
    pub internal: ImageType,
}

impl Image {
    pub closed spec fn bytes(&self) -> Seq<u8> {
        match self.internal {
            ImageType::File(f) => f.bytes(),
            ImageType::Memory(m) => m.bytes(),
        }
    }

    pub fn data(&self) -> (r: &[u8])
        ensures
            r@ == self.bytes(),
    {
        match &self.internal {
            ImageType::File(f) => f.data(),
            ImageType::Memory(m) => m.data(),
        }
    }

    /// The image of the file contents `src`, mapped into its loaded layout.
    pub fn from_file(src: &[u8], arch: Option<Arch>, version: Option<u32>) -> (r: Result<
        Image,
        LoadError,
    >)
        requires
            headers_fit(src@),
        ensures
            match file_image(src@, arch, version) {
                Ok((d, a, v)) => (r matches Ok(img) && img.bytes() == d && img.arch == a
                    && img.version == v),
                Err(e) => (r matches Err(e2) && e2 == e),
            },
            r matches Ok(img) ==> img.bytes().len() <= u32::MAX,
    {
        match ImageFile::new(src, arch, version) {
            Ok((file, arch, version)) => Ok(Image { arch, version, internal: ImageType::File(file) }),
            Err(e) => Err(e),
        }
    }

    /// The image of the first loaded module named `name`.
    pub fn from_memory(
        modules: &[LoadedModule],
        name: &str,
        arch: Option<Arch>,
        version: Option<u32>,
    ) -> (r: Result<Image, LoadError>)
        ensures
            match memory_image(modules@, name.spec_bytes(), arch, version) {
                Ok((d, a, v)) => (r matches Ok(img) && img.bytes() == d && img.arch == a
                    && img.version == v),
                Err(e) => (r matches Err(e2) && e2 == e),
            },
            modules_fit(modules@) ==> (r matches Ok(img) ==> img.bytes().len() <= u32::MAX),
    {
        match ImageMemory::new(modules, name, arch, version) {
            Ok((memory, arch, version)) => Ok(
                Image { arch, version, internal: ImageType::Memory(memory) },
            ),
            Err(e) => Err(e),
        }
    }
}

/// The offset of the export directory, as the optional header's data
/// directory gives it (its first entry, which follows the 96-byte (PE32) or
/// 112-byte (PE32+) fixed part).
pub open spec fn export_directory_offset(d: Seq<u8>) -> int {
    let opt = i32_at(d, 60) + 24;
    u32_at(d, opt + if u16_at(d, opt) == 0x10b {
        96int
    } else {
        112int
    }) as int
}

/// The export that the `i`-th name of the export directory at `e` names: the
/// name's string, and the RVA stored in the function array (at offset 28 of
/// the directory) at the position that the name's ordinal (offset 36) gives.
pub open spec fn named_export(d: Seq<u8>, e: int, i: int) -> (Seq<u8>, int) {
    let ordinal = u16_at(d, u32_at(d, e + 36) + 2 * i) as int;
    (c_string(d, u32_at(d, u32_at(d, e + 32) + 4 * i) as int), u32_at(
        d,
        u32_at(d, e + 28) + 4 * ordinal,
    ) as int)
}

/// Whether `x` is the export that a name of the export directory at `e`,
/// from the `from`-th on, names with an ordinal inside the function array.
pub open spec fn named_from(d: Seq<u8>, e: int, from: int, x: (Seq<u8>, int)) -> bool {
    exists|i: int|
        from <= i < u32_at(d, e + 24) && u16_at(d, u32_at(d, e + 36) + 2 * i) < u32_at(d, e + 20)
            && #[trigger] named_export(d, e, i) == x
}

/// Every listed export from the `i0`-th name on is the export that some
/// later name names, with an ordinal inside the function array.
proof fn lemma_exports_named(d: Seq<u8>, t: ExportTable, i0: int, e: int)
    requires
        0 <= i0,
        t.names == u32_at(d, e + 32),
        t.ordinals == u32_at(d, e + 36),
        t.functions == u32_at(d, e + 28),
        t.n_names == u32_at(d, e + 24),
        t.n_functions == u32_at(d, e + 20),
    ensures
        forall|k: int|
            0 <= k < exports_from(d, t, i0).len() ==> named_from(
                d,
                e,
                i0,
                #[trigger] exports_from(d, t, i0)[k],
            ),
    decreases t.n_names - i0,
{
    if i0 < t.n_names {
        lemma_exports_named(d, t, i0 + 1, e);
        let rest = exports_from(d, t, i0 + 1);
        let all = exports_from(d, t, i0);
        let name_rva = u32_at(d, t.names + 4 * i0) as int;
        let ordinal = u16_at(d, t.ordinals + 2 * i0) as int;
        assert forall|k: int| 0 <= k < rest.len() implies named_from(d, e, i0, #[trigger] rest[k]) by {
            assert(named_from(d, e, i0 + 1, rest[k]));
            let i = choose|i: int|
                i0 + 1 <= i < u32_at(d, e + 24) && u16_at(d, u32_at(d, e + 36) + 2 * i) < u32_at(
                    d,
                    e + 20,
                ) && #[trigger] named_export(d, e, i) == rest[k];
            assert(named_export(d, e, i) == rest[k]);
        }
        if ordinal < t.n_functions {
            let func_rva = u32_at(d, t.functions + 4 * ordinal) as int;
            if name_rva != 0 && func_rva != 0 && in_window(0, d.len() as int, name_rva, 1)
                && in_window(0, d.len() as int, func_rva, 1) {
                assert(all == seq![(c_string(d, name_rva), func_rva)] + rest);
                assert(named_export(d, e, i0) == all[0]);
                assert(named_from(d, e, i0, all[0]));
                assert forall|k: int| 0 <= k < all.len() implies named_from(
                    d,
                    e,
                    i0,
                    #[trigger] all[k],
                ) by {
                    if k > 0 {
                        assert(all[k] == rest[k - 1]);
                    }
                }
            }
        }
    }
}

/// Each listed export pairs a name of the export directory with the function
/// RVA found at the name's ordinal in the function array: the ordinal indexes
/// the array directly (the directory's `Base` is not added), and it lies
/// below the directory's number of functions.
pub proof fn law_export_functions(d: Seq<u8>)
    ensures
        image_exports(d) matches Ok(es) ==> forall|k: int|
            0 <= k < es.len() ==> named_from(d, export_directory_offset(d), 0, #[trigger] es[k]),
{
    if let Ok(h) = parse_headers(d) {
        if let Ok(t) = export_table(d, h) {
            let e = export_directory_offset(d);
            let opt = i32_at(d, 60) + 24;
            let dir = opt + if u16_at(d, opt) == 0x10b {
                96int
            } else {
                112int
            };
            assert(h.directory[0] == directory_at(d, dir + 0 * 8));
            assert(h.directory[DIRECTORY_ENTRY_EXPORT as int].virtual_address == e);
            lemma_exports_named(d, t, 0, e);
        }
    }
}

/// Whether the `i`-th name of the export directory at `e` is a proper
/// export: its ordinal lies inside the function array, and its name and
/// function RVAs are nonzero and inside the image.
pub open spec fn proper_name(d: Seq<u8>, e: int, i: int) -> bool {
    let ordinal = u16_at(d, u32_at(d, e + 36) + 2 * i) as int;
    let name_rva = u32_at(d, u32_at(d, e + 32) + 4 * i) as int;
    let func_rva = u32_at(d, u32_at(d, e + 28) + 4 * ordinal) as int;
    &&& ordinal < u32_at(d, e + 20)
    &&& name_rva != 0 && name_rva + 1 < d.len()
    &&& func_rva != 0 && func_rva + 1 < d.len()
}

/// Where the names from the `i0`-th on are all proper, they are all listed.
proof fn lemma_exports_complete(d: Seq<u8>, t: ExportTable, i0: int, e: int)
    requires
        0 <= i0 <= t.n_names,
        t.names == u32_at(d, e + 32),
        t.ordinals == u32_at(d, e + 36),
        t.functions == u32_at(d, e + 28),
        t.n_names == u32_at(d, e + 24),
        t.n_functions == u32_at(d, e + 20),
        forall|i: int| i0 <= i < t.n_names ==> #[trigger] proper_name(d, e, i),
    ensures
        exports_from(d, t, i0) == Seq::new(
            (t.n_names - i0) as nat,
            |k: int| named_export(d, e, i0 + k),
        ),
    decreases t.n_names - i0,
{
    if i0 < t.n_names {
        lemma_exports_complete(d, t, i0 + 1, e);
        assert(proper_name(d, e, i0));
        assert(exports_from(d, t, i0) =~= Seq::new(
            (t.n_names - i0) as nat,
            |k: int| named_export(d, e, i0 + k),
        ));
    } else {
        assert(exports_from(d, t, i0) =~= Seq::new(
            (t.n_names - i0) as nat,
            |k: int| named_export(d, e, i0 + k),
        ));
    }
}

/// Where every name of the export directory is proper, every name is
/// listed, in the order of the name table, with its function.
pub proof fn law_exports_complete(d: Seq<u8>)
    ensures
        image_exports(d) matches Ok(es) ==> (forall|i: int|
            0 <= i < u32_at(d, export_directory_offset(d) + 24) ==> #[trigger] proper_name(
                d,
                export_directory_offset(d),
                i,
            )) ==> es.len() == u32_at(d, export_directory_offset(d) + 24) && forall|i: int|
            0 <= i < es.len() ==> #[trigger] es[i] == named_export(d, export_directory_offset(d), i),
{
    if let Ok(h) = parse_headers(d) {
        if let Ok(t) = export_table(d, h) {
            let e = export_directory_offset(d);
            let opt = i32_at(d, 60) + 24;
            let dir = opt + if u16_at(d, opt) == 0x10b {
                96int
            } else {
                112int
            };
            assert(h.directory[0] == directory_at(d, dir + 0 * 8));
            assert(h.directory[DIRECTORY_ENTRY_EXPORT as int].virtual_address == e);
            if forall|i: int| 0 <= i < u32_at(d, e + 24) ==> #[trigger] proper_name(d, e, i) {
                lemma_exports_complete(d, t, 0, e);
            }
        }
    }
}

/// The section table follows the optional header, whose size the file header
/// gives, and holds `NumberOfSections` headers of 40 bytes each: the `i`-th
/// section's virtual address, raw size and raw offset are the words at 12, 16
/// and 20 bytes into the `i`-th 40-byte header.
pub proof fn law_section_headers(d: Seq<u8>)
    ensures
        parse_headers(d) matches Ok(h) ==> {
            let nt = i32_at(d, 60);
            let secs = nt + 24 + u16_at(d, nt + 20);
            &&& h.sections.len() == u16_at(d, nt + 6)
            &&& secs + 40 * h.sections.len() < d.len()
            &&& forall|i: int|
                #![trigger h.sections[i]]
                0 <= i < h.sections.len() ==> h.sections[i].virtual_address == u32_at(
                    d,
                    secs + 40 * i + 12,
                ) && h.sections[i].size_of_raw_data == u32_at(d, secs + 40 * i + 16)
                    && h.sections[i].pointer_to_raw_data == u32_at(d, secs + 40 * i + 20)
        },
{
}

} // verus!
