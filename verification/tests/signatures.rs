use nt_sysdump::image::{vs_fixedversion_sig, vs_version_sig};
use nt_sysdump::images::native_stub_sig;
use nt_sysdump::images::ntdll::ntdll_sig_wow;
use nt_sysdump::images::win32u::win32u_sig_wow;
use nt_sysdump::ptr::Ptr;
use nt_sysdump::signature::{
    byte, either, hex_from_str, sig_extract_u16, sig_extract_u32, sig_extract_u64, sig_extract_u8, sig_match,
    sig_search, sig_wide, SigByte,
};

#[test]
fn match_needs_a_byte_past_the_signature() {
    let sig = vec![byte(0x4c), byte(0x8b)];
    // The byte just below the end of the window is never read.
    assert!(!sig_match(Ptr::from_slice(&[0x4c, 0x8b]), &sig));
    assert!(sig_match(Ptr::from_slice(&[0x4c, 0x8b, 0x00]), &sig));
    assert!(!sig_match(Ptr::from_slice(&[0x4c, 0x8c, 0x00]), &sig));
}

#[test]
fn alternatives_targets_and_wildcards_accept_bytes() {
    let sig = vec![byte(0xb8), SigByte::Target, SigByte::Ignore, either(0xc2, 0xc3)];
    assert!(sig_match(Ptr::from_slice(&[0xb8, 0x11, 0x22, 0xc3, 0x00]), &sig));
    assert!(sig_match(Ptr::from_slice(&[0xb8, 0x99, 0x00, 0xc2, 0x00]), &sig));
    assert!(!sig_match(Ptr::from_slice(&[0xb8, 0x99, 0x00, 0xc4, 0x00]), &sig));
}

#[test]
fn empty_signature_matches_anywhere() {
    assert!(sig_match(Ptr::from_slice(&[]), &[]));
}

#[test]
fn search_finds_the_first_match() {
    let data = [0u8, 1, 0xaa, 0xbb, 0xaa, 0xbb, 0];
    let sig = vec![byte(0xaa), byte(0xbb)];
    let found = sig_search(Ptr::from_slice(&data), &sig).unwrap();
    assert_eq!(found.ptr(), 2);
    let again = sig_search(found.byte_add(1), &sig).unwrap();
    assert_eq!(again.ptr(), 4);
    assert!(sig_search(again.byte_add(1), &sig).is_none());
}

#[test]
fn search_respects_a_truncated_window() {
    let data = [0xaau8, 0xbb, 0x00, 0xaa, 0xbb, 0x00, 0x00];
    let sig = vec![byte(0xaa), byte(0xbb)];
    let window = Ptr::from_slice(&data).byte_add(1).truncate(4);
    assert_eq!(window.end(), 5);
    // The match at 3 would need the byte at 4 with one more after it in the window.
    assert!(sig_search(window, &sig).is_none());
    let wider = Ptr::from_slice(&data).byte_add(1).truncate(5);
    assert_eq!(sig_search(wider, &sig).unwrap().ptr(), 3);
    // A length past the end keeps the window.
    assert_eq!(Ptr::from_slice(&data).byte_add(2).truncate(100).end(), 7);
}

#[test]
fn extraction_reads_targets_little_endian() {
    let sig = vec![
        byte(0x01),
        SigByte::Target,
        SigByte::Ignore,
        SigByte::Target,
        SigByte::Target,
        SigByte::Target,
        SigByte::Target,
        SigByte::Target,
        SigByte::Target,
        SigByte::Target,
    ];
    let data = [0x01u8, 0x11, 0xee, 0x22, 0x33, 0x44, 0x55, 0x66, 0x77, 0x88, 0x00];
    let p = Ptr::from_slice(&data);
    assert_eq!(sig_extract_u8(p, &sig), Some(0x11));
    assert_eq!(sig_extract_u16(p, &sig), Some(0x2211));
    assert_eq!(sig_extract_u32(p, &sig), Some(0x4433_2211));
    assert_eq!(sig_extract_u64(p, &sig), Some(0x8877_6655_4433_2211));
    let other = [0x02u8, 0x11, 0xee, 0x22, 0x33, 0x44, 0x55, 0x66, 0x77, 0x88, 0x00];
    assert_eq!(sig_extract_u16(Ptr::from_slice(&other), &sig), None);
}

#[test]
fn extraction_never_reads_the_first_position() {
    // A target in the first position is passed over.
    let sig = vec![SigByte::Target, SigByte::Target, SigByte::Target];
    let data = [0x10u8, 0x20, 0x30, 0x00];
    assert_eq!(sig_extract_u16(Ptr::from_slice(&data), &sig), Some(0x3020));
}

#[test]
fn stub_signatures_have_their_lengths() {
    assert_eq!(native_stub_sig().len(), 24);
    assert_eq!(ntdll_sig_wow().len(), 13);
    assert_eq!(win32u_sig_wow().len(), 13);
    assert_eq!(vs_version_sig().len(), 30);
    assert_eq!(vs_fixedversion_sig().len(), 4);
}

#[test]
fn wide_signature_interleaves_zero_bytes() {
    let sig = sig_wide(b"AB");
    assert!(sig_match(Ptr::from_slice(&[b'A', 0, b'B', 0, 0]), &sig));
    assert!(!sig_match(Ptr::from_slice(&[b'A', b'B', 0, 0, 0]), &sig));
}

#[test]
fn cursor_window_checks() {
    let data = [1u8, 2, 3, 4, 5];
    let p = Ptr::from_slice(&data);
    assert_eq!(p.read_u8(), Some(1));
    assert_eq!(p.read_u16(), Some(0x0201));
    assert_eq!(p.read_u32(), Some(0x0403_0201));
    assert_eq!(p.byte_add(1).read_u32(), None);
    assert_eq!(p.byte_add(3).read_u8(), Some(4));
    assert_eq!(p.byte_add(4).read_u8(), None);
    let q = Ptr::new(&data, 2, 4);
    assert_eq!((q.start(), q.end(), q.ptr()), (2, 4, 2));
    assert!(q.is_valid());
    assert!(!q.byte_add(1).is_valid());
}

#[test]
fn hex_tokens_name_bytes() {
    assert_eq!(hex_from_str("4C"), 0x4c);
    assert_eq!(hex_from_str("c3"), 0xc3);
    assert_eq!(hex_from_str("\"2E\""), 0x2e);
    assert_eq!(hex_from_str("0x1f"), 0x1f);
    assert_eq!(hex_from_str("+ff"), 0xff);
    assert_eq!(hex_from_str("00C3"), 0xc3);
    assert_eq!(hex_from_str("7"), 7);
}

#[test]
fn formatted_bytes_read_back() {
    for v in 0..=255u8 {
        assert_eq!(hex_from_str(&format!("{:02X}", v)), v);
        assert_eq!(hex_from_str(&format!("{:02x}", v)), v);
        assert_eq!(hex_from_str(&format!("0x{:02X}", v)), v);
        assert_eq!(hex_from_str(&format!("\"{:02X}\"", v)), v);
    }
}
