use nt_sysdump::image::{exports, Image, ImageHeaders};
use nt_sysdump::images::ntdll::{self, NtdllMethod};
use nt_sysdump::images::win32u;
use nt_sysdump::{dump, Arch, LoadError, LoadFile, LoadMethod, LoadSource, LoadedModule, Step};

/// The listing of a step that needs no loading.
fn done(step: Step) -> Result<Vec<(String, u32)>, LoadError> {
    match step {
        Step::Done(r) => r,
        Step::LoadWin32u { .. } => panic!("asked to load win32u.dll"),
    }
}

const SECTION_RVA: usize = 0x1000;
const HEADERS_SIZE: usize = 0x200;

/// An x64 `ntdll` syscall stub that loads `index`.
fn stub64(index: u16) -> Vec<u8> {
    let [lo, hi] = index.to_le_bytes();
    vec![
        0x4c, 0x8b, 0xd1, 0xb8, lo, hi, 0x00, 0x00, 0xf6, 0x04, 0x25, 0x08, 0x03, 0xfe, 0x7f, 0x01,
        0x75, 0x03, 0x0f, 0x05, 0xc3, 0xcd, 0x2e, 0xc3,
    ]
}

/// A 32-bit syscall stub that loads `index` (a 32-bit immediate).
fn stub32(index: u32) -> Vec<u8> {
    let b = index.to_le_bytes();
    vec![0xb8, b[0], b[1], b[2], b[3], 0xba, 0x10, 0x20, 0x30, 0x40, 0xff, 0xd2, 0xc2, 0x08, 0x00]
}

fn put_u16(v: &mut [u8], o: usize, x: u16) {
    v[o..o + 2].copy_from_slice(&x.to_le_bytes());
}

fn put_u32(v: &mut [u8], o: usize, x: u32) {
    v[o..o + 4].copy_from_slice(&x.to_le_bytes());
}

/// A version resource recording build `build`.
fn version_resource(build: u32) -> Vec<u8> {
    let mut r = Vec::new();
    r.extend_from_slice(&[0x34, 0x03, 0x34, 0x00, 0x00, 0x00]);
    for c in "VS_VERSION_INFO".bytes() {
        r.push(c);
        r.push(0);
    }
    r.extend_from_slice(&[0, 0, 0, 0]);
    let mut info = vec![0u8; 52];
    put_u32(&mut info, 0, 0xfeef04bd);
    put_u32(&mut info, 4, 0x0001_0000);
    put_u32(&mut info, 8, 0x000a_0000);
    put_u32(&mut info, 12, (build << 16) | 0x0123);
    r.extend_from_slice(&info);
    r.extend_from_slice(&[0u8; 16]);
    r
}

/// An image file with one section holding an export table, the code of the
/// functions (placed in `code_order`) and, for `Some(build)`, a version
/// resource.  `names` gives each exported name with its ordinal.
struct Spec {
    is64: bool,
    functions: Vec<Vec<u8>>,
    code_order: Vec<usize>,
    names: Vec<(&'static str, u16)>,
    build: Option<u32>,
}

struct Built {
    file: Vec<u8>,
    function_rvas: Vec<u32>,
}

fn build(spec: &Spec) -> Built {
    let mut sec: Vec<u8> = vec![0u8; 0x40];
    let nf = spec.functions.len();
    let nn = spec.names.len();
    let funcs_off = sec.len();
    sec.resize(funcs_off + 4 * nf, 0);
    let names_off = sec.len();
    sec.resize(names_off + 4 * nn, 0);
    let ords_off = sec.len();
    sec.resize(ords_off + 2 * nn, 0);
    let mut name_rvas = Vec::new();
    for (name, _) in &spec.names {
        name_rvas.push((SECTION_RVA + sec.len()) as u32);
        sec.extend_from_slice(name.as_bytes());
        sec.push(0);
    }
    while sec.len() % 16 != 0 {
        sec.push(0xcc);
    }
    let mut function_rvas = vec![0u32; nf];
    for &f in &spec.code_order {
        function_rvas[f] = (SECTION_RVA + sec.len()) as u32;
        sec.extend_from_slice(&spec.functions[f]);
        sec.extend_from_slice(&[0xcc; 8]);
    }
    let res_off = sec.len();
    let res_len = match spec.build {
        Some(b) => {
            let r = version_resource(b);
            sec.extend_from_slice(&r);
            r.len()
        }
        None => 0,
    };
    sec.extend_from_slice(&[0u8; 64]);
    // Export directory.
    put_u32(&mut sec, 20, nf as u32);
    put_u32(&mut sec, 24, nn as u32);
    put_u32(&mut sec, 28, (SECTION_RVA + funcs_off) as u32);
    put_u32(&mut sec, 32, (SECTION_RVA + names_off) as u32);
    put_u32(&mut sec, 36, (SECTION_RVA + ords_off) as u32);
    for (i, rva) in function_rvas.iter().enumerate() {
        put_u32(&mut sec, funcs_off + 4 * i, *rva);
    }
    for (i, (_, ord)) in spec.names.iter().enumerate() {
        put_u32(&mut sec, names_off + 4 * i, name_rvas[i]);
        put_u16(&mut sec, ords_off + 2 * i, *ord);
    }

    let mut file = vec![0u8; HEADERS_SIZE];
    file[0] = b'M';
    file[1] = b'Z';
    put_u32(&mut file, 0x3c, 0x40);
    file[0x40..0x44].copy_from_slice(b"PE\0\0");
    let opt_size: u16 = if spec.is64 { 0xf0 } else { 0xe0 };
    put_u16(&mut file, 0x44, if spec.is64 { 0x8664 } else { 0x14c });
    put_u16(&mut file, 0x46, 1);
    put_u16(&mut file, 0x54, opt_size);
    let opt = 0x58;
    put_u16(&mut file, opt, if spec.is64 { 0x20b } else { 0x10b });
    let size_of_image = (SECTION_RVA + sec.len() + 0x100) as u32;
    put_u32(&mut file, opt + 56, size_of_image);
    put_u32(&mut file, opt + 60, HEADERS_SIZE as u32);
    let dir = opt + if spec.is64 { 112 } else { 96 };
    put_u32(&mut file, dir, SECTION_RVA as u32);
    put_u32(&mut file, dir + 4, 40);
    if res_len > 0 {
        put_u32(&mut file, dir + 16, (SECTION_RVA + res_off) as u32);
        put_u32(&mut file, dir + 20, (res_len + 32) as u32);
    }
    let sh = opt + opt_size as usize;
    file[sh..sh + 5].copy_from_slice(b".text");
    put_u32(&mut file, sh + 8, sec.len() as u32);
    put_u32(&mut file, sh + 12, SECTION_RVA as u32);
    put_u32(&mut file, sh + 16, sec.len() as u32);
    put_u32(&mut file, sh + 20, HEADERS_SIZE as u32);
    file.extend_from_slice(&sec);
    Built { file, function_rvas }
}

/// The file laid out as it is once loaded.
fn mapped(file: &[u8]) -> Vec<u8> {
    let size_of_image = u32::from_le_bytes(file[0x58 + 56..0x58 + 60].try_into().unwrap()) as usize;
    let mut m = vec![0u8; size_of_image];
    m[..HEADERS_SIZE].copy_from_slice(&file[..HEADERS_SIZE]);
    let raw = &file[HEADERS_SIZE..];
    m[SECTION_RVA..SECTION_RVA + raw.len()].copy_from_slice(raw);
    m
}

fn named(v: &[(&str, u32)]) -> Vec<(String, u32)> {
    v.iter().map(|(n, i)| (n.to_string(), *i)).collect()
}

fn utf16(s: &str) -> Vec<u16> {
    s.encode_utf16().collect()
}

/// An x64 `ntdll.dll`: two `Zw` syscalls whose stubs lie in the reverse of
/// their name order, an `Nt` alias, a non-syscall export and a `Zw` alias
/// of the first stub.
fn ntdll64() -> Spec {
    Spec {
        is64: true,
        functions: vec![stub64(0x55), stub64(0x02), vec![0x48, 0x31, 0xc0, 0xc3]],
        code_order: vec![1, 0, 2],
        names: vec![
            ("NtClose", 1),
            ("RtlGetVersion", 2),
            ("ZwClose", 1),
            ("ZwCreateFile", 0),
            ("ZwCreateFileAlias", 0),
        ],
        build: Some(26100),
    }
}

#[test]
fn ntdll_sorting_ranks_zw_exports_by_address() {
    let b = build(&ntdll64());
    let r = ntdll::from_file(&b.file, NtdllMethod::Sorting, None, None).unwrap();
    assert_eq!(r, named(&[("NtClose", 0), ("NtCreateFile", 1)]));
}

#[test]
fn ntdll_assembly_reads_stub_indices() {
    let b = build(&ntdll64());
    let r = ntdll::from_file(&b.file, NtdllMethod::Assembly, None, None).unwrap();
    // NtClose and ZwClose share index 2: the first in name order is kept.
    assert_eq!(r, named(&[("NtClose", 0x02), ("NtCreateFile", 0x55)]));
}

#[test]
fn ntdll_assembly_keeps_low_12_bits() {
    let spec = Spec {
        is64: true,
        functions: vec![stub64(0x3005)],
        code_order: vec![0],
        names: vec![("ZwUserThing", 0)],
        build: None,
    };
    let b = build(&spec);
    let r = ntdll::from_file(&b.file, NtdllMethod::Assembly, None, Some(1)).unwrap();
    assert_eq!(r, named(&[("NtUserThing", 0x005)]));
}

#[test]
fn ntdll_wow64_stub_index_keeps_low_12_bits() {
    let spec = Spec {
        is64: false,
        functions: vec![stub32(0x1234)],
        code_order: vec![0],
        names: vec![("ZwOpenKey", 0)],
        build: None,
    };
    let b = build(&spec);
    let r = ntdll::from_file(&b.file, NtdllMethod::Assembly, None, Some(1)).unwrap();
    assert_eq!(r, named(&[("NtOpenKey", 0x234)]));
}

#[test]
fn ntdll_wow64_image_uses_32_bit_stubs() {
    let spec = Spec {
        is64: false,
        functions: vec![stub32(0x0030_0007), stub32(0x0001)],
        code_order: vec![0, 1],
        names: vec![("ZwOpenKey", 0), ("ZwClose", 1)],
        build: Some(19045),
    };
    let b = build(&spec);
    let read = ntdll::from_file(&b.file, NtdllMethod::Assembly, None, None).unwrap();
    assert_eq!(read, named(&[("NtClose", 1), ("NtOpenKey", 7)]));
    let sorted = ntdll::from_file(&b.file, NtdllMethod::Sorting, None, None).unwrap();
    assert_eq!(sorted, named(&[("NtOpenKey", 0), ("NtClose", 1)]));
}

#[test]
fn given_architecture_selects_the_signature() {
    // An x64 image read as x86: the 64-bit stubs do not match the WOW64 signature.
    let b = build(&ntdll64());
    let r = ntdll::from_file(&b.file, NtdllMethod::Assembly, Some(Arch::X86), None).unwrap();
    assert!(r.is_empty());
}

#[test]
fn image_version_comes_from_the_resource() {
    let b = build(&ntdll64());
    let image = Image::from_file(&b.file, None, None).unwrap();
    assert_eq!(image.version, 26100);
    assert_eq!(image.arch, Arch::X64);
    let given = Image::from_file(&b.file, Some(Arch::X86), Some(7)).unwrap();
    assert_eq!(given.version, 7);
    assert_eq!(given.arch, Arch::X86);
}

#[test]
fn missing_version_resource_is_an_error_unless_given() {
    let mut spec = ntdll64();
    spec.build = None;
    let b = build(&spec);
    assert!(matches!(
        ntdll::from_file(&b.file, NtdllMethod::Sorting, None, None),
        Err(LoadError::InvalidResourceDirectory)
    ));
    assert!(ntdll::from_file(&b.file, NtdllMethod::Sorting, None, Some(22000)).is_ok());
}

#[test]
fn mapped_image_has_size_of_image_bytes() {
    let b = build(&ntdll64());
    let image = Image::from_file(&b.file, None, None).unwrap();
    assert_eq!(image.data(), mapped(&b.file).as_slice());
}

#[test]
fn exports_list_names_and_function_rvas() {
    let b = build(&ntdll64());
    let m = mapped(&b.file);
    let es = exports(&m).unwrap();
    let got: Vec<(Vec<u8>, u64)> = es.iter().map(|e| (e.name.clone(), e.ptr.ptr())).collect();
    let rvas = &b.function_rvas;
    assert_eq!(
        got,
        vec![
            (b"NtClose".to_vec(), rvas[1] as u64),
            (b"RtlGetVersion".to_vec(), rvas[2] as u64),
            (b"ZwClose".to_vec(), rvas[1] as u64),
            (b"ZwCreateFile".to_vec(), rvas[0] as u64),
            (b"ZwCreateFileAlias".to_vec(), rvas[0] as u64),
        ]
    );
}

#[test]
fn exports_skip_out_of_range_ordinals_and_zero_rvas() {
    let spec = Spec {
        is64: true,
        functions: vec![stub64(1), stub64(2)],
        code_order: vec![0, 1],
        names: vec![("ZwA", 7), ("ZwB", 1)],
        build: None,
    };
    let b = build(&spec);
    let m = mapped(&b.file);
    let es = exports(&m).unwrap();
    assert_eq!(es.len(), 1);
    assert_eq!(es[0].name, b"ZwB".to_vec());
}

#[test]
fn exports_stop_at_a_name_outside_the_image() {
    let spec = Spec {
        is64: true,
        functions: vec![stub64(1), stub64(2)],
        code_order: vec![0, 1],
        names: vec![("ZwA", 0), ("ZwB", 1)],
        build: None,
    };
    let b = build(&spec);
    let mut m = mapped(&b.file);
    // The first name's RVA points past the end of the image.
    let names = u32::from_le_bytes(m[SECTION_RVA + 32..SECTION_RVA + 36].try_into().unwrap()) as usize;
    let len = m.len() as u32;
    put_u32(&mut m, names, len + 5);
    let es = exports(&m).unwrap();
    assert!(es.is_empty());
}

#[test]
fn win32u_sorting_numbers_from_0x1000() {
    let spec = Spec {
        is64: true,
        functions: vec![stub64(0x10), stub64(0x11), vec![0xc3]],
        code_order: vec![1, 0, 2],
        names: vec![("NtUserA", 0), ("NtUserB", 1), ("NtUserC", 2)],
        build: Some(22621),
    };
    let b = build(&spec);
    let r = win32u::from_file(&b.file, LoadMethod::Sorting, None, None).unwrap();
    assert_eq!(r, named(&[("NtUserB", 0x1000), ("NtUserA", 0x1001)]));
}

#[test]
fn win32u_sorting_lists_each_address_once() {
    let spec = Spec {
        is64: true,
        functions: vec![stub64(0x10), stub64(0x11)],
        code_order: vec![0, 1],
        names: vec![("NtUserA", 0), ("NtUserA2", 0), ("NtUserB", 1), ("NtUserA3", 0)],
        build: Some(22621),
    };
    let b = build(&spec);
    let r = win32u::from_file(&b.file, LoadMethod::Sorting, None, None).unwrap();
    assert_eq!(r, named(&[("NtUserA", 0x1000), ("NtUserB", 0x1001)]));
}

#[test]
fn win32u_assembly_reads_indices_without_renaming() {
    let spec = Spec {
        is64: false,
        functions: vec![stub32(0x1234), stub32(0x1001)],
        code_order: vec![0, 1],
        names: vec![("ZwUserX", 0), ("NtUserY", 1)],
        build: Some(22621),
    };
    let b = build(&spec);
    let r = win32u::from_file(&b.file, LoadMethod::Assembly, None, None).unwrap();
    assert_eq!(r, named(&[("NtUserY", 0x1001), ("ZwUserX", 0x1234)]));
}

#[test]
fn dump_dispatches_on_file_and_source() {
    let b = build(&ntdll64());
    let from_file = done(dump(
        LoadFile::Ntdll,
        LoadMethod::Sorting,
        LoadSource::File(b.file.clone()),
        None,
        None,
    ))
    .unwrap();
    assert_eq!(from_file, named(&[("NtClose", 0), ("NtCreateFile", 1)]));
    let modules = vec![LoadedModule { name: utf16("ntdll.dll"), data: mapped(&b.file) }];
    let from_memory = done(dump(
        LoadFile::Ntdll,
        LoadMethod::Assembly,
        LoadSource::Memory(modules),
        None,
        None,
    ))
    .unwrap();
    assert_eq!(from_memory, named(&[("NtClose", 0x02), ("NtCreateFile", 0x55)]));
}

#[test]
fn memory_lookup_ignores_ascii_case() {
    let b = build(&ntdll64());
    let modules = vec![
        LoadedModule { name: utf16("kernel32.dll"), data: vec![0u8; 16] },
        LoadedModule { name: utf16("NTDLL.DLL"), data: mapped(&b.file) },
    ];
    let r = ntdll::from_memory(&modules, NtdllMethod::Sorting, None, None).unwrap();
    assert_eq!(r, named(&[("NtClose", 0), ("NtCreateFile", 1)]));
}

#[test]
fn memory_lookup_reports_missing_image() {
    let modules = vec![LoadedModule { name: utf16("kernel32.dll"), data: vec![0u8; 16] }];
    assert!(matches!(
        ntdll::from_memory(&modules, NtdllMethod::Sorting, None, None),
        Err(LoadError::ImageNotFound)
    ));
    assert!(matches!(
        win32u::from_memory(&modules, LoadMethod::Sorting, None, None),
        Step::Done(Err(LoadError::ImageNotFound))
    ));
    assert!(matches!(
        win32u::list_loaded(&modules, LoadMethod::Sorting, None, None),
        Err(LoadError::ImageNotFound)
    ));
}

#[test]
fn loader_functions_are_found_in_ntdll() {
    let spec = Spec {
        is64: true,
        functions: vec![vec![0xc3], vec![0x90, 0xc3], vec![0x90, 0x90, 0xc3]],
        code_order: vec![0, 1, 2],
        names: vec![("LdrGetDllHandle", 0), ("LdrLoadDll", 1), ("LdrUnloadDll", 2)],
        build: None,
    };
    let b = build(&spec);
    let modules = vec![LoadedModule { name: utf16("ntdll.dll"), data: mapped(&b.file) }];
    let (load, unload) = win32u::loader_functions(&modules).unwrap();
    assert_eq!(load, b.function_rvas[1]);
    assert_eq!(unload, b.function_rvas[2]);
}

#[test]
fn loader_functions_missing_is_an_export_directory_error() {
    let spec = Spec {
        is64: true,
        functions: vec![vec![0xc3]],
        code_order: vec![0],
        names: vec![("LdrLoadDll", 0)],
        build: None,
    };
    let b = build(&spec);
    let modules = vec![LoadedModule { name: utf16("ntdll.dll"), data: mapped(&b.file) }];
    assert!(matches!(
        win32u::loader_functions(&modules),
        Err(LoadError::InvalidExportDirectory)
    ));
}

fn headers_error(data: &[u8]) -> LoadError {
    match ImageHeaders::new(data) {
        Ok(_) => panic!("headers parsed"),
        Err(e) => e,
    }
}

#[test]
fn header_errors() {
    let good = build(&ntdll64()).file;
    assert!(ImageHeaders::new(&good).is_ok());
    assert!(matches!(headers_error(&[]), LoadError::InvalidDosHeader));
    assert!(matches!(headers_error(&good[..64]), LoadError::InvalidDosHeader));

    let mut bad = good.clone();
    bad[0] = b'X';
    assert!(matches!(headers_error(&bad), LoadError::InvalidDosHeader));

    let mut bad = good.clone();
    put_u32(&mut bad, 0x3c, 0xffff_fff0);
    assert!(matches!(headers_error(&bad), LoadError::InvalidNtHeaders));

    let mut bad = good.clone();
    bad[0x41] = b'X';
    assert!(matches!(headers_error(&bad), LoadError::InvalidNtHeaders));

    let mut bad = good.clone();
    put_u16(&mut bad, 0x58, 0x107);
    assert!(matches!(headers_error(&bad), LoadError::InvalidPEFormat));

    let mut bad = good.clone();
    put_u32(&mut bad, 0x58 + 56, 0x100);
    assert!(matches!(headers_error(&bad), LoadError::InvalidNtHeaders));

    let mut bad = good.clone();
    put_u16(&mut bad, 0x46, 0x4000);
    assert!(matches!(headers_error(&bad), LoadError::InvalidSectionHeaders));

    // Truncated right after the optional header's magic.
    assert!(matches!(headers_error(&good[..0x5b]), LoadError::InvalidPEFormat));
}

#[test]
fn section_outside_the_file_is_rejected() {
    let mut file = build(&ntdll64()).file;
    let sh = 0x58 + 0xf0;
    put_u32(&mut file, sh + 16, 0x10_0000);
    assert!(matches!(
        ntdll::from_file(&file, NtdllMethod::Sorting, None, Some(1)),
        Err(LoadError::InvalidSection)
    ));
}

#[test]
fn export_table_errors() {
    let b = build(&ntdll64());
    let m = mapped(&b.file);

    let mut bad = m.clone();
    put_u32(&mut bad, 0x58 + 112, 0x7fff_0000);
    assert!(matches!(exports(&bad), Err(LoadError::InvalidExportDirectory)));

    let mut bad = m.clone();
    put_u32(&mut bad, SECTION_RVA + 24, 0x0100_0000);
    assert!(matches!(exports(&bad), Err(LoadError::InvalidExportNames)));

    let mut bad = m.clone();
    put_u32(&mut bad, SECTION_RVA + 20, 0x0100_0000);
    assert!(matches!(exports(&bad), Err(LoadError::InvalidExportFunctions)));

    let mut bad = m.clone();
    put_u32(&mut bad, SECTION_RVA + 36, (m.len() - 4) as u32);
    assert!(matches!(exports(&bad), Err(LoadError::InvalidExportOrdinals)));
}

#[test]
fn invalid_utf8_names_are_skipped() {
    let spec = Spec {
        is64: true,
        functions: vec![stub64(3), stub64(4)],
        code_order: vec![0, 1],
        names: vec![("ZwGood", 0), ("ZwBad", 1)],
        build: None,
    };
    let b = build(&spec);
    let mut m = mapped(&b.file);
    let pos = m.windows(5).position(|w| w == b"ZwBad").unwrap();
    m[pos + 2] = 0xff;
    let modules = vec![LoadedModule { name: utf16("ntdll.dll"), data: m }];
    let r = ntdll::from_memory(&modules, NtdllMethod::Assembly, None, Some(1)).unwrap();
    assert_eq!(r, named(&[("NtGood", 3)]));
}

#[test]
fn file_and_loaded_image_agree() {
    for is64 in [true, false] {
        let mut spec = ntdll64();
        spec.is64 = is64;
        if !is64 {
            spec.functions = vec![stub32(0x55), stub32(0x02), vec![0x33, 0xc0, 0xc3]];
        }
        let b = build(&spec);
        let arch = if is64 { Arch::X64 } else { Arch::X86 };
        for method in [LoadMethod::Sorting, LoadMethod::Assembly] {
            let from_file = done(dump(
                LoadFile::Ntdll,
                method,
                LoadSource::File(b.file.clone()),
                Some(arch),
                Some(1),
            ))
            .unwrap();
            let modules = vec![LoadedModule { name: utf16("ntdll.dll"), data: mapped(&b.file) }];
            let from_memory = done(dump(
                LoadFile::Ntdll,
                method,
                LoadSource::Memory(modules),
                Some(arch),
                Some(1),
            ))
            .unwrap();
            assert_eq!(from_file, from_memory);
            assert_eq!(from_file.len(), 2);
        }
    }
}

#[test]
fn given_version_and_architecture_are_kept() {
    let b = build(&ntdll64());
    let modules = vec![LoadedModule { name: utf16("ntdll.dll"), data: mapped(&b.file) }];
    let image = Image::from_memory(&modules, "ntdll.dll", Some(Arch::X86), Some(9200)).unwrap();
    assert_eq!((image.arch, image.version), (Arch::X86, 9200));
    let inferred = Image::from_memory(&modules, "ntdll.dll", None, None).unwrap();
    assert_eq!((inferred.arch, inferred.version), (Arch::X64, 26100));
}

#[test]
fn missing_win32u_is_loaded_with_ntdll_loader() {
    let spec = Spec {
        is64: true,
        functions: vec![vec![0xc3], vec![0x90, 0xc3], vec![0x90, 0x90, 0xc3]],
        code_order: vec![0, 1, 2],
        names: vec![("LdrGetDllHandle", 0), ("LdrLoadDll", 1), ("LdrUnloadDll", 2)],
        build: None,
    };
    let b = build(&spec);
    let modules = vec![LoadedModule { name: utf16("ntdll.dll"), data: mapped(&b.file) }];
    match win32u::from_memory(&modules, LoadMethod::Assembly, None, None) {
        Step::LoadWin32u { load, unload } => {
            assert_eq!(load, b.function_rvas[1]);
            assert_eq!(unload, b.function_rvas[2]);
        }
        Step::Done(_) => panic!("expected a load step"),
    }
    match dump(LoadFile::Win32u, LoadMethod::Sorting, LoadSource::Memory(modules), None, None) {
        Step::LoadWin32u { load, unload } => {
            assert_eq!((load, unload), (b.function_rvas[1], b.function_rvas[2]));
        }
        Step::Done(_) => panic!("expected a load step"),
    }
}

#[test]
fn missing_win32u_without_loader_is_an_export_directory_error() {
    let spec = Spec {
        is64: true,
        functions: vec![vec![0xc3]],
        code_order: vec![0],
        names: vec![("LdrLoadDll", 0)],
        build: None,
    };
    let b = build(&spec);
    let modules = vec![LoadedModule { name: utf16("ntdll.dll"), data: mapped(&b.file) }];
    assert!(matches!(
        win32u::from_memory(&modules, LoadMethod::Sorting, None, None),
        Step::Done(Err(LoadError::InvalidExportDirectory))
    ));
}

#[test]
fn ntdll_methods_agree_on_a_syscall_table() {
    // Stubs at increasing addresses load 0, 1, 2; each has an `Nt` and a `Zw` export.
    let spec = Spec {
        is64: true,
        functions: vec![stub64(0), stub64(1), stub64(2), vec![0x48, 0x31, 0xc0, 0xc3]],
        code_order: vec![0, 1, 2, 3],
        names: vec![
            ("NtAccessCheck", 2),
            ("NtClose", 1),
            ("NtOpenFile", 0),
            ("RtlGetVersion", 3),
            ("ZwAccessCheck", 2),
            ("ZwClose", 1),
            ("ZwOpenFile", 0),
        ],
        build: Some(26100),
    };
    let b = build(&spec);
    let sorting = ntdll::from_file(&b.file, NtdllMethod::Sorting, None, None).unwrap();
    let assembly = ntdll::from_file(&b.file, NtdllMethod::Assembly, None, None).unwrap();
    assert_eq!(sorting, named(&[("NtOpenFile", 0), ("NtClose", 1), ("NtAccessCheck", 2)]));
    assert_eq!(sorting, assembly);
}
