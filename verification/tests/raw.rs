use libraw_nif::error::LibRawError;
use libraw_nif::raw::{c_path, cstr_to_string, handle_status, mem_image_status, ProcessedImage};

#[test]
fn handle_status_null_is_null_pointer() {
    assert_eq!(handle_status(true), Err(LibRawError::NullPointer));
    assert_eq!(handle_status(false), Ok(()));
}

#[test]
fn mem_image_status_cases() {
    assert_eq!(mem_image_status(false, 0), Ok(()));
    assert_eq!(mem_image_status(false, -7), Ok(()));
    assert_eq!(mem_image_status(true, -7), Err(LibRawError::LibRaw(-7)));
    assert_eq!(mem_image_status(true, 0), Err(LibRawError::NullPointer));
}

#[test]
fn c_path_appends_terminator() {
    assert_eq!(c_path("/photos/a.CR3"), Ok(b"/photos/a.CR3\0".to_vec()));
    assert_eq!(c_path(""), Ok(vec![0u8]));
}

#[test]
fn c_path_keeps_non_ascii_bytes() {
    let mut expected = "/fotos/é.NEF".as_bytes().to_vec();
    expected.push(0);
    assert_eq!(c_path("/fotos/é.NEF"), Ok(expected));
}

#[test]
fn c_path_rejects_nul_byte() {
    assert_eq!(c_path("a\0b.CR3"), Err(LibRawError::InvalidPath));
    assert_eq!(c_path("\0"), Err(LibRawError::InvalidPath));
}

#[test]
fn cstr_to_string_null_is_empty() {
    assert_eq!(cstr_to_string(None), "");
}

#[test]
fn cstr_to_string_plain_text() {
    assert_eq!(cstr_to_string(Some(b"Canon")), "Canon");
    assert_eq!(cstr_to_string(Some(b"EOS R5")), "EOS R5");
    assert_eq!(cstr_to_string(Some(b"")), "");
}

#[test]
fn cstr_to_string_decodes_utf8() {
    assert_eq!(cstr_to_string(Some("Ñikon Zé".as_bytes())), "Ñikon Zé");
}

#[test]
fn cstr_to_string_invalid_utf8_is_empty() {
    assert_eq!(cstr_to_string(Some(&[0x43, 0xff, 0x41])), "");
    assert_eq!(cstr_to_string(Some(&[0xc3])), "");
}

#[test]
fn cstr_to_string_drops_trailing_nul() {
    assert_eq!(cstr_to_string(Some(b"Sony\0\0")), "Sony");
    assert_eq!(cstr_to_string(Some(b"\0")), "");
    assert_eq!(cstr_to_string(Some(b"a\0b\0")), "a\0b");
}

#[test]
fn processed_image_getters() {
    let img = ProcessedImage::new(4000, 6000, 3, 8, vec![1, 2, 3, 4, 5, 6]);
    assert_eq!(img.height(), 4000);
    assert_eq!(img.width(), 6000);
    assert_eq!(img.colors(), 3);
    assert_eq!(img.bits(), 8);
    assert_eq!(img.pixel_bytes(), vec![1, 2, 3, 4, 5, 6]);
}

#[test]
fn processed_image_widens_dimensions() {
    let img = ProcessedImage::new(u16::MAX, 0, 4, 16, Vec::new());
    assert_eq!(img.height(), 65535u32);
    assert_eq!(img.width(), 0);
    assert_eq!(img.bits(), 16);
    assert!(img.pixel_bytes().is_empty());
}

#[test]
fn processed_image_into_pixels() {
    let img = ProcessedImage::new(1, 2, 3, 8, vec![9, 8, 7, 6, 5, 4]);
    assert_eq!(img.into_pixels(), vec![9, 8, 7, 6, 5, 4]);
}
