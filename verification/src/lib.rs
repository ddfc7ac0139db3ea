//! Syscall index extraction from Windows PE images (`ntdll.dll`, `win32u.dll`).
#![allow(dead_code)]

use vstd::prelude::*;

pub mod bytes;
pub mod file;
pub mod image;
pub mod images;
pub mod memory;
pub mod names;
pub mod order;
pub mod ptr;
pub mod signature;
pub mod statics;

pub use image::{Arch, ArchData};

use image::arch_text;
pub use images::ntdll::NtdllMethod;
pub use memory::LoadedModule;

use file::{file_image, headers_fit, mapped_image};
use image::parse_headers;
use images::ntdll::{ntdll_indices, result_view};
use images::win32u::win32u_indices;
use memory::{find_module, memory_image, modules_fit};
use vstd::string::*;

verus! {

#[verifier::external_type_specification]
#[verifier::external_body]
pub struct ExIoError(std::io::Error);

/// The images whose syscalls can be listed.
#[derive(Clone, Copy, PartialEq, Eq, Structural, Debug)]
pub enum LoadFile {
    /// Nt syscalls from the user-mode DLL.
    Ntdll,
    /// Nt syscalls from the kernel module.
    Ntoskrnl,
    /// User32 syscalls from the user-mode DLL.
    Win32u,
    /// User32 syscalls from the kernel module.
    Win32k,
    /// Nt and User32 syscalls from the WOW64 user-mode DLL.
    Wow64win,
}

/// How the syscall indices are found.
#[derive(Clone, Copy, PartialEq, Eq, Structural, Debug)]
pub enum LoadMethod {
    /// Order the syscall exports by address and number them.
    Sorting,
    /// Read each index from the export's syscall stub.
    Assembly,
}

/// Why an image could not be loaded or its syscalls not be extracted.
#[derive(Debug)]
pub enum LoadError {
    IoError(std::io::Error),
    ImageNotFound,
    UnsupportedArchitecture(Arch),
    UnsupportedVersion(u32),
    UnsupportedMethod,
    LoaderTableNotFound,
    InvalidPEFormat,
    InvalidDosHeader,
    InvalidNtHeaders,
    InvalidSectionHeaders,
    InvalidSection,
    InvalidExportDirectory,
    InvalidExportNames,
    InvalidExportOrdinals,
    InvalidExportFunctions,
    InvalidResourceDirectory,
}

/// The decimal digits of `n`, most significant first.
pub open spec fn decimal(n: nat) -> Seq<char>
    decreases n,
{
    if n < 10 {
        seq![(n + 48) as char]
    } else {
        decimal(n / 10).push((n % 10 + 48) as char)
    }
}

/// The decimal text of `x`.
///
/// Trusted: formats `x` through `u32`'s `Display`, which writes its decimal
/// digits, without sign, padding or separators.
#[verifier::external_body]
fn decimal_text(x: u32) -> (r: String)
    ensures
        r@ == decimal(x as nat),
{
    format!("{}", x)
}

/// The text of an I/O error.
///
/// Trusted: formats `e` through `std::io::Error`'s `Display`.  Nothing is
/// stated of the text, which depends on the error and the platform.
#[verifier::external_body]
fn io_error_text(e: &std::io::Error) -> String {
    format!("{}", e)
}

/// Whether `t` is the text that describes `e`.  For an I/O error, only the
/// text's beginning is fixed; the rest is the error's own description.
pub open spec fn error_text(e: LoadError, t: Seq<char>) -> bool {
    match e {
        LoadError::IoError(_) => "File IO error: "@.is_prefix_of(t),
        LoadError::ImageNotFound => t == "Image not found"@,
        LoadError::UnsupportedArchitecture(a) => t == "Unsupported architecture: "@ + arch_text(a),
        LoadError::UnsupportedVersion(v) => t == "Unsupported version: "@ + decimal(v as nat),
        LoadError::UnsupportedMethod => t == "Unsupported method"@,
        LoadError::LoaderTableNotFound => t == "Loader table not found"@,
        LoadError::InvalidPEFormat => t == "Invalid PE format"@,
        LoadError::InvalidDosHeader => t == "Invalid DOS header"@,
        LoadError::InvalidNtHeaders => t == "Invalid NT headers"@,
        LoadError::InvalidSectionHeaders => t == "Invalid section headers"@,
        LoadError::InvalidSection => t == "Invalid section"@,
        LoadError::InvalidExportDirectory => t == "Invalid export directory"@,
        LoadError::InvalidExportNames => t == "Invalid export names"@,
        LoadError::InvalidExportOrdinals => t == "Invalid export ordinals"@,
        LoadError::InvalidExportFunctions => t == "Invalid export functions"@,
        LoadError::InvalidResourceDirectory => t == "Invalid resource directory"@,
    }
}

impl LoadError {
    /// The text that describes the error.
    pub fn message(&self) -> (r: String)
        ensures
            error_text(*self, r@),
    {
        match self {
            LoadError::IoError(e) => {
                let r = String::from_str("File IO error: ").concat(io_error_text(e).as_str());
                assert(r@.subrange(0, "File IO error: "@.len() as int) =~= "File IO error: "@);
                r
            },
            LoadError::ImageNotFound => String::from_str("Image not found"),
            LoadError::UnsupportedArchitecture(a) => String::from_str(
                "Unsupported architecture: ",
            ).concat(a.name()),
            LoadError::UnsupportedVersion(v) => String::from_str("Unsupported version: ").concat(
                decimal_text(*v).as_str(),
            ),
            LoadError::UnsupportedMethod => String::from_str("Unsupported method"),
            LoadError::LoaderTableNotFound => String::from_str("Loader table not found"),
            LoadError::InvalidPEFormat => String::from_str("Invalid PE format"),
            LoadError::InvalidDosHeader => String::from_str("Invalid DOS header"),
            LoadError::InvalidNtHeaders => String::from_str("Invalid NT headers"),
            LoadError::InvalidSectionHeaders => String::from_str("Invalid section headers"),
            LoadError::InvalidSection => String::from_str("Invalid section"),
            LoadError::InvalidExportDirectory => String::from_str("Invalid export directory"),
            LoadError::InvalidExportNames => String::from_str("Invalid export names"),
            LoadError::InvalidExportOrdinals => String::from_str("Invalid export ordinals"),
            LoadError::InvalidExportFunctions => String::from_str("Invalid export functions"),
            LoadError::InvalidResourceDirectory => String::from_str("Invalid resource directory"),
        }
    }
}

/// Where the image comes from.
pub enum LoadSource {
    /// The modules loaded in the process.
    Memory(Vec<LoadedModule>),
    /// The contents of an image file.
    File(Vec<u8>),
}

/// The `ntdll` method that a load method names.
pub open spec fn ntdll_method(m: LoadMethod) -> NtdllMethod {
    match m {
        LoadMethod::Sorting => NtdllMethod::Sorting,
        LoadMethod::Assembly => NtdllMethod::Assembly,
    }
}

/// What `dump` gives for an image of `file` taken from `from`.
pub open spec fn dump_result(
    file: LoadFile,
    method: LoadMethod,
    from: LoadSource,
    arch: Option<Arch>,
    version: Option<u32>,
    r: Result<Seq<(Seq<char>, int)>, LoadError>,
) -> bool {
    let image = match from {
        LoadSource::File(b) => file_image(b@, arch, version),
        LoadSource::Memory(ms) => memory_image(ms@, module_name(file), arch, version),
    };
    match image {
        Err(e) => r == Err::<Seq<(Seq<char>, int)>, LoadError>(e),
        Ok((d, a, _)) => if file is Ntdll {
            ntdll_indices(d, a, ntdll_method(method), r)
        } else {
            win32u_indices(d, a, method, r)
        },
    }
}

/// What to do next to list the syscalls of an image.
pub enum Step {
    /// The syscall names with their indices, or why they cannot be listed.
    Done(Result<Vec<(String, u32)>, LoadError>),
    /// `win32u.dll` is not loaded: load it by calling `LdrLoadDll`, found at
    /// RVA `load` in the loaded `ntdll.dll`, then list it with
    /// [`images::win32u::list_loaded`], and unload it afterwards with
    /// `LdrUnloadDll`, at RVA `unload`.
    LoadWin32u { load: u32, unload: u32 },
}

/// What `dump` answers for an image of `file` taken from `from`.
pub open spec fn dump_step(
    file: LoadFile,
    method: LoadMethod,
    from: LoadSource,
    arch: Option<Arch>,
    version: Option<u32>,
    s: Step,
) -> bool {
    match from {
        LoadSource::Memory(ms) if file is Win32u => images::win32u::win32u_memory_step(
            ms@,
            method,
            arch,
            version,
            s,
        ),
        _ => (s matches Step::Done(x) && dump_result(file, method, from, arch, version, result_view(x))),
    }
}

/// Lists the syscalls of an `ntdll.dll` or `win32u.dll` image with their
/// indices, found by `method`.  A given architecture or build number is used
/// in place of the image's own.  Where `win32u.dll` is asked for among the
/// loaded modules and is not loaded, the answer is the step that loads it.
pub fn dump(
    file: LoadFile,
    method: LoadMethod,
    from: LoadSource,
    arch: Option<Arch>,
    version: Option<u32>,
) -> (r: Step)
    requires
        file is Ntdll || file is Win32u,
        from matches LoadSource::File(b) ==> headers_fit(b@),
        from matches LoadSource::Memory(ms) ==> modules_fit(ms@),
    ensures
        dump_step(file, method, from, arch, version, r),
{
    let ntdll_method = match method {
        LoadMethod::Sorting => NtdllMethod::Sorting,
        LoadMethod::Assembly => NtdllMethod::Assembly,
    };
    match from {
        LoadSource::Memory(modules) => match file {
            LoadFile::Ntdll => Step::Done(
                images::ntdll::from_memory(modules.as_slice(), ntdll_method, arch, version),
            ),
            _ => images::win32u::from_memory(modules.as_slice(), method, arch, version),
        },
        LoadSource::File(data) => Step::Done(
            match file {
                LoadFile::Ntdll => images::ntdll::from_file(
                    data.as_slice(),
                    ntdll_method,
                    arch,
                    version,
                ),
                _ => images::win32u::from_file(data.as_slice(), method, arch, version),
            },
        ),
    }
}

/// The name under which an image is found among the loaded modules.
pub open spec fn module_name(file: LoadFile) -> Seq<u8> {
    if file is Ntdll {
        "ntdll.dll".spec_bytes()
    } else {
        "win32u.dll".spec_bytes()
    }
}

/// An image file and the same image found loaded give the same syscalls: when
/// the first module of the image's name holds the file's mapped layout, and
/// the architecture and build are given, `dump` answers alike from either.
pub proof fn law_file_and_memory_agree(
    file: LoadFile,
    method: LoadMethod,
    bytes: Vec<u8>,
    modules: Vec<LoadedModule>,
    arch: Arch,
    version: u32,
    s: Step,
)
    requires
        file is Ntdll || file is Win32u,
        find_module(modules@, module_name(file), 0) matches Some(i) && mapped_image(bytes@) == Ok::<
            Seq<u8>,
            LoadError,
        >(modules@[i].data@),
        parse_headers(mapped_image(bytes@)->Ok_0) is Ok,
    ensures
        dump_step(file, method, LoadSource::File(bytes), Some(arch), Some(version), s)
            == dump_step(file, method, LoadSource::Memory(modules), Some(arch), Some(version), s),
{
}

/// A given architecture and build are taken as they are, whatever the image
/// records.
pub proof fn law_given_arch_and_version(
    bytes: Seq<u8>,
    modules: Seq<LoadedModule>,
    name: Seq<u8>,
    arch: Arch,
    version: u32,
)
    ensures
        file_image(bytes, Some(arch), Some(version)) matches Ok((_, a, v)) ==> a == arch && v
            == version,
        memory_image(modules, name, Some(arch), Some(version)) matches Ok((_, a, v)) ==> a == arch
            && v == version,
{
}

} // verus!
