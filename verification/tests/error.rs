use libraw_nif::error::{check, LibRawError};

#[test]
fn from_code_carries_the_code() {
    assert_eq!(LibRawError::from_code(-4), LibRawError::LibRaw(-4));
    assert_eq!(LibRawError::from_code(7), LibRawError::LibRaw(7));
}

#[test]
fn check_zero_is_success() {
    assert_eq!(check(0), Ok(()));
}

#[test]
fn check_nonzero_is_the_libraw_error() {
    assert_eq!(check(-2), Err(LibRawError::LibRaw(-2)));
    assert_eq!(check(1), Err(LibRawError::LibRaw(1)));
    assert_eq!(check(i32::MIN), Err(LibRawError::LibRaw(i32::MIN)));
}

#[test]
fn message_of_libraw_error_negative() {
    assert_eq!(LibRawError::LibRaw(-4).message(), "libraw error code -4");
}

#[test]
fn message_of_libraw_error_positive_and_zero() {
    assert_eq!(LibRawError::LibRaw(123).message(), "libraw error code 123");
    assert_eq!(LibRawError::LibRaw(0).message(), "libraw error code 0");
    assert_eq!(LibRawError::LibRaw(10).message(), "libraw error code 10");
}

#[test]
fn message_of_libraw_error_extremes() {
    assert_eq!(LibRawError::LibRaw(i32::MIN).message(), "libraw error code -2147483648");
    assert_eq!(LibRawError::LibRaw(i32::MAX).message(), "libraw error code 2147483647");
}

#[test]
fn message_matches_display_formatting() {
    for code in [-100009, -1, 5, 99, 100, 65535] {
        assert_eq!(LibRawError::LibRaw(code).message(), format!("libraw error code {}", code));
    }
}

#[test]
fn message_of_invalid_path() {
    assert_eq!(LibRawError::InvalidPath.message(), "invalid path: contains null byte");
}

#[test]
fn message_of_null_pointer() {
    assert_eq!(LibRawError::NullPointer.message(), "libraw returned a null pointer");
}

#[test]
fn distinct_errors_have_distinct_messages() {
    let errors = [
        LibRawError::LibRaw(-1),
        LibRawError::LibRaw(1),
        LibRawError::LibRaw(10),
        LibRawError::LibRaw(-10),
        LibRawError::LibRaw(0),
        LibRawError::InvalidPath,
        LibRawError::NullPointer,
    ];
    for (i, a) in errors.iter().enumerate() {
        for (j, b) in errors.iter().enumerate() {
            assert_eq!(i == j, a.message() == b.message());
        }
    }
}
