use vstd::prelude::*;
use vstd::utf8::{decode_utf8, encode_scalar, encode_utf8, valid_utf8};
use vstd::string::StringSliceAdditionalSpecFns;

use crate::error::LibRawError;

verus! {

/// The outcome of a foreign call that hands back a pointer: a null pointer
/// is the error `NullPointer`, anything else is success.
pub open spec fn pointer_outcome(is_null: bool) -> Result<(), LibRawError> {
    if is_null {
        Err(LibRawError::NullPointer)
    } else {
        Ok(())
    }
}

/// The outcome of `libraw_dcraw_make_mem_image`: a null image is the error
/// code libraw reported, or `NullPointer` when it reported none.
pub open spec fn mem_image_outcome(is_null: bool, errc: i32) -> Result<(), LibRawError> {
    if !is_null {
        Ok(())
    } else if errc != 0 {
        Err(LibRawError::LibRaw(errc))
    } else {
        Err(LibRawError::NullPointer)
    }
}

/// What `CString::new` makes of a path: the error `InvalidPath` when the
/// path holds a zero byte, else its bytes followed by the terminating zero.
pub open spec fn c_path_of(bytes: Seq<u8>) -> Result<Seq<u8>, LibRawError> {
    if bytes.contains(0u8) {
        Err(LibRawError::InvalidPath)
    } else {
        Ok(bytes.push(0u8))
    }
}

/// A text with its trailing NUL characters removed.
pub open spec fn trim_trailing_nul(s: Seq<char>) -> Seq<char>
    decreases s.len(),
{
    if s.len() > 0 && s.last() == '\0' {
        trim_trailing_nul(s.drop_last())
    } else {
        s
    }
}

/// The text of a C string given by the bytes before its terminator (`None`
/// for a null pointer): empty for a null pointer or bytes that are not
/// UTF-8, else the decoded text without trailing NUL characters.
pub open spec fn c_text(bytes: Option<Seq<u8>>) -> Seq<char> {
    match bytes {
        None => Seq::empty(),
        Some(b) => if valid_utf8(b) {
            trim_trailing_nul(decode_utf8(b))
        } else {
            Seq::empty()
        },
    }
}

/// Decision taken on the pointer that `libraw_init` returns: a null handle
/// is the error `NullPointer`.
pub fn handle_status(is_null: bool) -> (r: Result<(), LibRawError>)
    ensures
        r == pointer_outcome(is_null),
        r is Ok <==> !is_null,
        is_null ==> r == Err::<(), LibRawError>(LibRawError::NullPointer),
{
    if is_null {
        Err(LibRawError::NullPointer)
    } else {
        Ok(())
    }
}

/// Decision taken on what `libraw_dcraw_make_mem_image` returns: the image
/// pointer (null or not) and the error code it wrote.
pub fn mem_image_status(is_null: bool, errc: i32) -> (r: Result<(), LibRawError>)
    ensures
        r == mem_image_outcome(is_null, errc),
        r is Ok <==> !is_null,
        is_null && errc != 0 ==> r == Err::<(), LibRawError>(LibRawError::LibRaw(errc)),
        is_null && errc == 0 ==> r == Err::<(), LibRawError>(LibRawError::NullPointer),
{
    if is_null {
        Err(
            if errc != 0 {
                LibRawError::from_code(errc)
            } else {
                LibRawError::NullPointer
            },
        )
    } else {
        Ok(())
    }
}

/// The NUL-terminated bytes of a path to hand to libraw, or `InvalidPath`
/// when the path holds a NUL byte and so cannot be passed to C.
pub fn c_path(path: &str) -> (r: Result<Vec<u8>, LibRawError>)
    ensures
        match r {
            Ok(v) => c_path_of(path.spec_bytes()) == Ok::<Seq<u8>, LibRawError>(v@),
            Err(e) => c_path_of(path.spec_bytes()) == Err::<Seq<u8>, LibRawError>(e),
        },
{
    let bytes: &[u8] = path.as_bytes();
    let mut out: Vec<u8> = Vec::new();
    let mut i: usize = 0;
    while i < bytes.len()
        invariant
            bytes@ == path.spec_bytes(),
            i <= bytes@.len(),
            out@ == bytes@.subrange(0, i as int),
            forall|j: int| 0 <= j < i ==> bytes@[j] != 0u8,
        decreases bytes@.len() - i,
    {
        if bytes[i] == 0u8 {
            proof {
                assert(bytes@.contains(0u8)) by {
                    assert(bytes@[i as int] == 0u8);
                }
            }
            return Err(LibRawError::InvalidPath);
        }
        out.push(bytes[i]);
        i = i + 1;
        assert(out@ =~= bytes@.subrange(0, i as int));
    }
    proof {
        assert(out@ =~= bytes@);
        assert(!bytes@.contains(0u8));
    }
    out.push(0u8);
    Ok(out)
}

/// `std::str::from_utf8`: the text whose UTF-8 encoding is `bytes`, when
/// `bytes` is valid UTF-8. The contract states that it succeeds exactly on
/// valid UTF-8 and that the text it gives back is made of the same bytes.
#[verifier::external_body]
fn utf8_str(bytes: &[u8]) -> (r: Option<&str>)
    ensures
        r is Some <==> valid_utf8(bytes@),
        r matches Some(s) ==> s.spec_bytes() == bytes@,
{
    std::str::from_utf8(bytes).ok()
}

/// The text of a C string, given the bytes before its terminator, or `None`
/// for a null pointer. Invalid UTF-8 and null pointers give the empty text;
/// trailing NUL characters are dropped.
pub fn cstr_to_string(bytes: Option<&[u8]>) -> (s: String)
    ensures
        s@ == c_text(
            match bytes {
                Some(b) => Some(b@),
                None => None,
            },
        ),
{
    match bytes {
        None => String::new(),
        Some(b) => match utf8_str(b) {
            None => String::new(),
            Some(text) => {
                proof {
                    vstd::utf8::encode_utf8_decode_utf8(text@);
                }
                let n: usize = text.unicode_len();
                let mut k: usize = n;
                assert(text@.subrange(0, n as int) =~= text@);
                while k > 0 && text.get_char(k - 1) == '\0'
                    invariant
                        k <= n,
                        n == text@.len(),
                        trim_trailing_nul(text@) == trim_trailing_nul(text@.subrange(0, k as int)),
                    decreases k,
                {
                    assert(text@.subrange(0, k as int).drop_last() =~= text@.subrange(0, k - 1));
                    k = k - 1;
                }
                let kept: &str = text.substring_char(0, k);
                kept.to_owned()
            },
        },
    }
}

} // verus!

verus! {

/// What a processed image holds: its dimensions as libraw reports them and
/// a copy of its pixel bytes.
pub struct ImageView {
    pub height: u16,
    pub width: u16,
    pub colors: u16,
    pub bits: u16,
    pub pixels: Seq<u8>,
}

/// An in-memory bitmap produced by libraw: the dimensions it reports and the
/// pixel bytes, row-major and interleaved per channel.
pub struct ProcessedImage {
    height: u16,
    width: u16,
    colors: u16,
    bits: u16,
    pixels: Vec<u8>,
}

impl View for ProcessedImage {
    type V = ImageView;

    closed spec fn view(&self) -> ImageView {
        ImageView {
            height: self.height,
            width: self.width,
            colors: self.colors,
            bits: self.bits,
            pixels: self.pixels@,
        }
    }
}

impl ProcessedImage {
    /// Holds the values read from a `libraw_processed_image_t`.
    pub fn new(height: u16, width: u16, colors: u16, bits: u16, pixels: Vec<u8>) -> (img: Self)
        ensures
            img@ == (ImageView { height, width, colors, bits, pixels: pixels@ }),
    {
        ProcessedImage { height, width, colors, bits, pixels }
    }

    /// Image height in pixels.
    pub fn height(&self) -> (h: u32)
        ensures
            h == self@.height,
    {
        self.height as u32
    }

    /// Image width in pixels.
    pub fn width(&self) -> (w: u32)
        ensures
            w == self@.width,
    {
        self.width as u32
    }

    /// Number of colour channels.
    pub fn colors(&self) -> (c: u32)
        ensures
            c == self@.colors,
    {
        self.colors as u32
    }

    /// Bits per sample.
    pub fn bits(&self) -> (b: u32)
        ensures
            b == self@.bits,
    {
        self.bits as u32
    }

    /// The pixel data, taken out of the image without a copy.
    pub fn into_pixels(self) -> (v: Vec<u8>)
        ensures
            v@ == self@.pixels,
    {
        self.pixels
    }

    /// A copy of the pixel data.
    pub fn pixel_bytes(&self) -> (v: Vec<u8>)
        ensures
            v@ == self@.pixels,
    {
        let mut out: Vec<u8> = Vec::new();
        let mut i: usize = 0;
        while i < self.pixels.len()
            invariant
                i <= self.pixels@.len(),
                out@ == self.pixels@.subrange(0, i as int),
            decreases self.pixels@.len() - i,
        {
            out.push(self.pixels[i]);
            i = i + 1;
            assert(out@ =~= self.pixels@.subrange(0, i as int));
        }
        assert(out@ =~= self.pixels@);
        out
    }
}

} // verus!

verus! {

/// A path reaches C exactly when none of its bytes is zero, and then as its
/// own bytes followed by one terminating zero.
pub proof fn c_path_meaning(bytes: Seq<u8>)
    ensures
        c_path_of(bytes) is Err <==> exists|i: int| 0 <= i < bytes.len() && bytes[i] == 0u8,
        c_path_of(bytes) is Err ==> c_path_of(bytes) == Err::<Seq<u8>, LibRawError>(LibRawError::InvalidPath),
        c_path_of(bytes) matches Ok(c) ==> c.len() == bytes.len() + 1 && c.subrange(0, bytes.len() as int)
            == bytes && c.last() == 0u8,
{
    if let Ok(c) = c_path_of(bytes) {
        assert(c.subrange(0, bytes.len() as int) =~= bytes);
    }
}

/// A null pointer is the error `NullPointer`; any other pointer is success.
pub proof fn pointer_meaning(is_null: bool)
    ensures
        pointer_outcome(is_null) is Ok <==> !is_null,
        is_null ==> pointer_outcome(is_null) == Err::<(), LibRawError>(LibRawError::NullPointer),
{
}

/// A null in-memory image is never success: it is the error code libraw
/// wrote, or `NullPointer` when that code is zero. A non-null image is
/// success whatever code was written.
pub proof fn mem_image_meaning(is_null: bool, errc: i32)
    ensures
        mem_image_outcome(is_null, errc) is Ok <==> !is_null,
        is_null && errc != 0 ==> mem_image_outcome(is_null, errc) == Err::<(), LibRawError>(
            LibRawError::LibRaw(errc),
        ),
        is_null && errc == 0 ==> mem_image_outcome(is_null, errc) == Err::<(), LibRawError>(
            LibRawError::NullPointer,
        ),
{
}

/// Dropping trailing NULs keeps a prefix of the text, removes only NUL
/// characters, and leaves no NUL at the end.
pub proof fn trim_trailing_nul_meaning(s: Seq<char>)
    ensures
        trim_trailing_nul(s).len() <= s.len(),
        trim_trailing_nul(s) == s.subrange(0, trim_trailing_nul(s).len() as int),
        forall|i: int| trim_trailing_nul(s).len() <= i < s.len() ==> #[trigger] s[i] == '\0',
        trim_trailing_nul(s).len() == 0 || trim_trailing_nul(s).last() != '\0',
    decreases s.len(),
{
    if s.len() > 0 && s.last() == '\0' {
        let d = s.drop_last();
        trim_trailing_nul_meaning(d);
        let t = trim_trailing_nul(d);
        assert(t == trim_trailing_nul(s));
        assert(s.subrange(0, t.len() as int) =~= d.subrange(0, t.len() as int));
        assert forall|i: int| t.len() <= i < s.len() implies #[trigger] s[i] == '\0' by {
            if i < d.len() {
                assert(s[i] == d[i]);
            }
        }
    } else {
        assert(s.subrange(0, s.len() as int) =~= s);
    }
}

proof fn lemma_encode_nul(chars: Seq<char>)
    requires
        chars.contains('\0'),
    ensures
        encode_utf8(chars).contains(0u8),
    decreases chars.len(),
{
    let first = encode_scalar(chars[0] as u32);
    assert(encode_utf8(chars) == first + encode_utf8(chars.drop_first()));
    if chars[0] == '\0' {
        assert((0u32 & 0x7F) as u8 == 0u8) by (bit_vector);
        assert(first == seq![0u8]);
        assert(encode_utf8(chars)[0] == 0u8);
    } else {
        let i = choose|i: int| 0 <= i < chars.len() && chars[i] == '\0';
        assert(chars.drop_first()[i - 1] == '\0');
        lemma_encode_nul(chars.drop_first());
        let rest = encode_utf8(chars.drop_first());
        let j = choose|j: int| 0 <= j < rest.len() && rest[j] == 0u8;
        assert(encode_utf8(chars)[first.len() + j] == 0u8);
    }
}

/// The text of a C string: a null pointer and bytes that are not UTF-8 give
/// the empty text; valid UTF-8 gives the whole decoded text except only its
/// trailing NULs, so bytes without a NUL give exactly their decoded text,
/// whatever its length.
pub proof fn c_text_meaning(b: Seq<u8>)
    ensures
        c_text(None).len() == 0,
        !valid_utf8(b) ==> c_text(Some(b)).len() == 0,
        valid_utf8(b) ==> c_text(Some(b)).len() <= decode_utf8(b).len(),
        valid_utf8(b) ==> c_text(Some(b)) == decode_utf8(b).subrange(0, c_text(Some(b)).len() as int),
        valid_utf8(b) ==> forall|i: int|
            c_text(Some(b)).len() <= i < decode_utf8(b).len() ==> #[trigger] decode_utf8(b)[i] == '\0',
        valid_utf8(b) ==> c_text(Some(b)).len() == 0 || c_text(Some(b)).last() != '\0',
        valid_utf8(b) && !b.contains(0u8) ==> c_text(Some(b)) == decode_utf8(b),
{
    if valid_utf8(b) {
        let d = decode_utf8(b);
        trim_trailing_nul_meaning(d);
        if !b.contains(0u8) {
            vstd::utf8::decode_utf8_encode_utf8(b);
            if d.contains('\0') {
                lemma_encode_nul(d);
            }
            if d.len() > 0 {
                assert(d[d.len() - 1] == d.last());
                assert(d.contains(d.last()));
            }
        }
    }
}

} // verus!
