use nt_sysdump::statics::{copy, method_static, versions, SyscallTables};
use nt_sysdump::{Arch, LoadError, LoadFile};

type Table = phf::Map<&'static str, u16>;
type Builds = phf::Map<u32, Table>;

/// A table of builds holding one build (a one-entry map needs no displacement search).
fn builds(build: u32, syscalls: Vec<(&'static str, u16)>) -> &'static Builds {
    let table = Table { key: 0, disps: &[], entries: Box::leak(syscalls.into_boxed_slice()) };
    let entries: &'static [(u32, Table)] = Box::leak(vec![(build, table)].into_boxed_slice());
    Box::leak(Box::new(Builds { key: 0, disps: &[(0, 0)], entries }))
}

fn tables() -> SyscallTables {
    SyscallTables {
        ntdll64: builds(22000, vec![("NtWriteFile", 8), ("NtClose", 15), ("NtReadFile", 6)]),
        ntdll32: builds(19041, vec![("NtClose", 0x0f)]),
        win64: builds(22000, vec![("NtUserGetDC", 0x100a)]),
        win32: builds(26100, vec![("NtUserGetDC", 0x100b)]),
    }
}

fn named(v: &[(&str, u32)]) -> Vec<(String, u32)> {
    v.iter().map(|(n, i)| (n.to_string(), *i)).collect()
}

#[test]
fn known_builds_are_listed_in_order() {
    let v = versions();
    assert_eq!(v.len(), 32);
    assert_eq!(v[0], 528);
    assert_eq!(v[31], 26100);
    assert!(v.windows(2).all(|w| w[0] < w[1]));
}

#[test]
fn static_table_of_the_serving_build_sorted_by_index() {
    let t = tables();
    let r = method_static(22500, &Arch::X64, &LoadFile::Ntdll, &t).unwrap();
    assert_eq!(r, named(&[("NtReadFile", 6), ("NtWriteFile", 8), ("NtClose", 15)]));
    let w = method_static(22000, &Arch::X64, &LoadFile::Win32u, &t).unwrap();
    assert_eq!(w, named(&[("NtUserGetDC", 0x100a)]));
}

#[test]
fn static_versions_out_of_range_are_unsupported() {
    let t = tables();
    assert!(matches!(
        method_static(100, &Arch::X64, &LoadFile::Ntdll, &t),
        Err(LoadError::UnsupportedVersion(100))
    ));
    assert!(matches!(
        method_static(30000, &Arch::X64, &LoadFile::Ntdll, &t),
        Err(LoadError::UnsupportedVersion(30000))
    ));
}

#[test]
fn static_build_without_a_table_is_not_found() {
    let t = tables();
    // 19045 is served by build 19045, which the x64 table lacks.
    assert!(matches!(
        method_static(19045, &Arch::X64, &LoadFile::Ntdll, &t),
        Err(LoadError::ImageNotFound)
    ));
    // The last build serves itself.
    let r = method_static(26100, &Arch::X86, &LoadFile::Win32u, &t).unwrap();
    assert_eq!(r, named(&[("NtUserGetDC", 0x100b)]));
}

#[test]
fn static_version_is_served_by_the_known_build_below_it() {
    let t = tables();
    let below = method_static(22000, &Arch::X64, &LoadFile::Ntdll, &t).unwrap();
    let between = method_static(22620, &Arch::X64, &LoadFile::Ntdll, &t).unwrap();
    assert_eq!(below, between);
    // 22621 is a known build of its own, which the x64 table lacks.
    assert!(matches!(
        method_static(22621, &Arch::X64, &LoadFile::Ntdll, &t),
        Err(LoadError::ImageNotFound)
    ));
}

#[test]
fn copy_of_a_missing_table_is_not_found() {
    assert!(matches!(copy(None), Err(LoadError::ImageNotFound)));
    let table: &'static phf::Map<&'static str, u16> = Box::leak(Box::new(phf::Map {
        key: 0,
        disps: &[],
        entries: &[("NtClose", 15), ("NtReadFile", 6)],
    }));
    let v = copy(Some(table)).unwrap();
    assert_eq!(v, vec![("NtClose".to_string(), 15u64), ("NtReadFile".to_string(), 6u64)]);
}

#[test]
fn static_empty_table_of_builds_is_not_found() {
    let empty: &'static Builds = Box::leak(Box::new(Builds { key: 0, disps: &[(0, 0)], entries: &[] }));
    let mut t = tables();
    t.ntdll32 = empty;
    assert!(matches!(
        method_static(19041, &Arch::X86, &LoadFile::Ntdll, &t),
        Err(LoadError::ImageNotFound)
    ));
}
