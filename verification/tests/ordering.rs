use nt_sysdump::{Arch, LoadError};
use nt_sysdump::memory::u16_str_eq;
use nt_sysdump::names::{bytes_eq, name_string, nt_name_string, replace_zw_bytes};
use nt_sysdump::order::{dedup_by_key, sort_by_key};

fn entries(v: &[(&str, u64)]) -> Vec<(String, u64)> {
    v.iter().map(|(n, k)| (n.to_string(), *k)).collect()
}

#[test]
fn sort_keeps_the_order_of_equal_keys() {
    let v = entries(&[("c", 3), ("a", 1), ("b", 3), ("d", 0), ("e", 1)]);
    assert_eq!(
        sort_by_key(&v),
        entries(&[("d", 0), ("a", 1), ("e", 1), ("c", 3), ("b", 3)])
    );
    assert_eq!(sort_by_key(&Vec::new()), Vec::new());
}

#[test]
fn dedup_drops_entries_repeating_the_previous_key() {
    let v = entries(&[("a", 1), ("b", 1), ("c", 2), ("d", 1), ("e", 1)]);
    assert_eq!(dedup_by_key(&v), entries(&[("a", 1), ("c", 2), ("d", 1)]));
}

#[test]
fn zw_is_replaced_once() {
    assert_eq!(replace_zw_bytes(b"ZwClose"), b"NtClose".to_vec());
    assert_eq!(replace_zw_bytes(b"RtlZwZw"), b"RtlNtZw".to_vec());
    assert_eq!(replace_zw_bytes(b"Zx"), b"Zx".to_vec());
    assert_eq!(replace_zw_bytes(b"Z"), b"Z".to_vec());
}

#[test]
fn names_must_be_utf8() {
    assert_eq!(nt_name_string(b"ZwOpen").as_deref(), Some("NtOpen"));
    assert_eq!(nt_name_string(&[0x5a, 0x77, 0xff]), None);
    assert_eq!(name_string("Zwé".as_bytes()).as_deref(), Some("Zwé"));
    assert_eq!(nt_name_string("Zwé".as_bytes()).as_deref(), Some("Nté"));
}

#[test]
fn module_names_compare_ignoring_ascii_case() {
    let name: Vec<u16> = "NtDll.DLL".encode_utf16().collect();
    assert!(u16_str_eq(&name, "ntdll.dll"));
    assert!(!u16_str_eq(&name, "ntdll.dl"));
    assert!(!u16_str_eq(&name, "ntdll.dlx"));
    let wide: Vec<u16> = vec![0x6e, 0x100];
    assert!(!u16_str_eq(&wide, "nĀ"));
    let e: Vec<u16> = "é".encode_utf16().collect();
    assert!(!u16_str_eq(&e, "é"));
}

#[test]
fn byte_strings_compare() {
    assert!(bytes_eq(b"LdrLoadDll", b"LdrLoadDll"));
    assert!(!bytes_eq(b"LdrLoadDll", b"LdrLoadDl"));
    assert!(!bytes_eq(b"LdrLoadDll", b"LdrLoadDlL"));
}

#[test]
fn load_errors_describe_themselves() {
    assert_eq!(LoadError::ImageNotFound.message(), "Image not found");
    assert_eq!(LoadError::UnsupportedVersion(26100).message(), "Unsupported version: 26100");
    assert_eq!(LoadError::UnsupportedVersion(7).message(), "Unsupported version: 7");
    assert_eq!(
        LoadError::UnsupportedArchitecture(Arch::X64).message(),
        "Unsupported architecture: x64"
    );
    assert_eq!(LoadError::InvalidResourceDirectory.message(), "Invalid resource directory");
    let io = std::io::Error::new(std::io::ErrorKind::NotFound, "no such file");
    assert_eq!(LoadError::IoError(io).message(), "File IO error: no such file");
    assert_eq!(Arch::X86.name(), "x86");
}
