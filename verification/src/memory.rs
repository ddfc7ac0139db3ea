//! Images already loaded in a process, handed over as module records.
use vstd::prelude::*;
use vstd::string::*;

use crate::image::{arch_of, image_version, parse_headers, Arch, ArchData, ImageHeaders};
use crate::LoadError;

verus! {

/// A module of the process's loader list: its base name (UTF-16 code units)
/// and the bytes of its image as mapped in memory.
pub struct LoadedModule {
    pub name: Vec<u16>,
    pub data: Vec<u8>,
}

/// Every module image is no larger than an image can be (`SizeOfImage` is 32 bits).
pub open spec fn modules_fit(ms: Seq<LoadedModule>) -> bool {
    forall|i: int| 0 <= i < ms.len() ==> #[trigger] ms[i].data@.len() <= u32::MAX
}

/// ASCII lowercase of a code unit; other values are unchanged.
pub open spec fn ascii_lower(c: int) -> int {
    if 0x41 <= c <= 0x5a {
        c + 0x20
    } else {
        c
    }
}

/// Whether the UTF-16 name `a` equals the UTF-8 bytes `b`, ignoring ASCII
/// case: as many code units as bytes, each an ASCII character equal to its
/// byte but for case.  A name with a code unit above `0x7F` never matches.
pub open spec fn name_eq(a: Seq<u16>, b: Seq<u8>) -> bool {
    &&& a.len() == b.len()
    &&& forall|i: int|
        0 <= i < a.len() ==> #[trigger] a[i] <= 0x7f && ascii_lower(a[i] as int) == ascii_lower(
            b[i] as int,
        )
}

fn lower(c: u8) -> (r: u8)
    ensures
        r == ascii_lower(c as int),
{
    if 0x41 <= c && c <= 0x5a {
        c + 0x20
    } else {
        c
    }
}

/// Compares a UTF-16 module name with `b`, ignoring ASCII case.
pub fn u16_str_eq(a: &[u16], b: &str) -> (r: bool)
    ensures
        r == name_eq(a@, b.spec_bytes()),
{
    let bytes = b.as_bytes();
    if a.len() != bytes.len() {
        return false;
    }
    let n = a.len();
    let mut i: usize = 0;
    while i < n
        invariant
            n == a@.len(),
            n == bytes@.len(),
            bytes@ == b.spec_bytes(),
            i <= n,
            forall|j: int|
                0 <= j < i ==> #[trigger] a@[j] <= 0x7f && ascii_lower(a@[j] as int) == ascii_lower(
                    bytes@[j] as int,
                ),
        decreases n - i,
    {
        if a[i] > 0x7f {
            return false;
        }
        let x = lower(a[i] as u8);
        let y = lower(bytes[i]);
        if x != y {
            return false;
        }
        i = i + 1;
    }
    true
}

/// The position of the first module at or after `i` whose name is `name`.
pub open spec fn find_module(ms: Seq<LoadedModule>, name: Seq<u8>, i: int) -> Option<int>
    decreases ms.len() - i,
{
    if i < 0 || i >= ms.len() {
        None
    } else if name_eq(ms[i].name@, name) {
        Some(i)
    } else {
        find_module(ms, name, i + 1)
    }
}

/// The bytes, architecture and build number of the first module named
/// `name`; a given architecture or build number is taken as it is.
pub open spec fn memory_image(
    ms: Seq<LoadedModule>,
    name: Seq<u8>,
    arch: Option<Arch>,
    version: Option<u32>,
) -> Result<(Seq<u8>, Arch, u32), LoadError> {
    match find_module(ms, name, 0) {
        None => Err(LoadError::ImageNotFound),
        Some(i) => {
            let d = ms[i].data@;
            match parse_headers(d) {
                Err(e) => Err(e),
                Ok(h) => {
                    let v = match version {
                        Some(v) => Ok(v),
                        None => image_version(d, h),
                    };
                    match v {
                        Err(e) => Err(e),
                        Ok(v) => Ok(
                            (
                                d,
                                match arch {
                                    Some(a) => a,
                                    None => arch_of(h),
                                },
                                v,
                            ),
                        ),
                    }
                },
            }
        },
    }
}

/// The image of a loaded module.
pub struct ImageMemory {
    data: Vec<u8>,
}

impl ImageMemory {
    pub closed spec fn bytes(&self) -> Seq<u8> {
        self.data@
    }

    pub fn data(&self) -> (r: &[u8])
        ensures
            r@ == self.bytes(),
    {
        self.data.as_slice()
    }

    /// Finds the first module named `name` and reads its headers.
    pub fn new(modules: &[LoadedModule], name: &str, arch: Option<Arch>, version: Option<u32>) -> (r:
        Result<(ImageMemory, Arch, u32), LoadError>)
        ensures
            match memory_image(modules@, name.spec_bytes(), arch, version) {
                Ok((d, a, v)) => (r matches Ok((m, a2, v2)) && m.bytes() == d && a2 == a && v2 == v),
                Err(e) => (r matches Err(e2) && e2 == e),
            },
            modules_fit(modules@) ==> (r matches Ok((m, _, _)) ==> m.bytes().len() <= u32::MAX),
    {
        let n = modules.len();
        let mut i: usize = 0;
        while i < n
            invariant
                n == modules@.len(),
                i <= n,
                find_module(modules@, name.spec_bytes(), 0) == find_module(
                    modules@,
                    name.spec_bytes(),
                    i as int,
                ),
            decreases n - i,
        {
            let module = &modules[i];
            if u16_str_eq(module.name.as_slice(), name) {
                let data = module.data.as_slice();
                let headers = match ImageHeaders::new(data) {
                    Ok(h) => h,
                    Err(e) => return Err(e),
                };
                let version = match version {
                    Some(v) => v,
                    None => match headers.get_version() {
                        Ok(v) => v,
                        Err(e) => return Err(e),
                    },
                };
                let arch = match arch {
                    Some(a) => a,
                    None => match headers.opt {
                        ArchData::X86(_) => Arch::X86,
                        ArchData::X64(_) => Arch::X64,
                    },
                };
                return Ok((ImageMemory { data: vstd::slice::slice_to_vec(data) }, arch, version));
            }
            i = i + 1;
        }
        Err(LoadError::ImageNotFound)
    }
}

} // verus!
