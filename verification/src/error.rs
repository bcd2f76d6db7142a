use vstd::prelude::*;

verus! {

/// Errors reported by the libraw decoding pipeline.
#[derive(Debug, Clone, Copy, PartialEq, Eq, Structural)]
pub enum LibRawError {
    /// libraw returned a non-zero error code
    LibRaw(i32),
    /// Path contains a null byte and cannot be passed to C
    InvalidPath,
    /// libraw returned a null pointer where one was not expected
    NullPointer,
}

/// The character of a decimal digit `d` (`0 <= d < 10`).
pub open spec fn digit_char(d: nat) -> char {
    ((d + 48) as u32) as char
}

/// The decimal digits of a natural number, most significant first, with no
/// leading zeros (zero itself is `"0"`).
pub open spec fn decimal_digits(n: nat) -> Seq<char>
    decreases n,
{
    if n < 10 {
        seq![digit_char(n)]
    } else {
        decimal_digits(n / 10).push(digit_char(n % 10))
    }
}

/// How `{}` renders an integer: a minus sign for negative values, then the
/// decimal digits of its magnitude.
pub open spec fn decimal_text(n: int) -> Seq<char> {
    if n < 0 {
        seq!['-'] + decimal_digits((-n) as nat)
    } else {
        decimal_digits(n as nat)
    }
}

impl LibRawError {
    /// The human-readable text of an error, as handed back to Elixir in
    /// `{:error, reason}`.
    pub open spec fn text(self) -> Seq<char> {
        match self {
            LibRawError::LibRaw(code) => "libraw error code "@ + decimal_text(code as int),
            LibRawError::InvalidPath => "invalid path: contains null byte"@,
            LibRawError::NullPointer => "libraw returned a null pointer"@,
        }
    }

    /// The error carrying a non-zero libraw status code.
    pub fn from_code(code: i32) -> (e: Self)
        ensures
            e == LibRawError::LibRaw(code),
    {
        LibRawError::LibRaw(code)
    }

    /// Renders the error as text (what `Display` gives in plain Rust).
    pub fn message(&self) -> (s: String)
        ensures
            s@ == self.text(),
    {
        match self {
            LibRawError::LibRaw(code) => {
                let mut s = String::from_str("libraw error code ");
                push_decimal_i32(&mut s, *code);
                s
            },
            LibRawError::InvalidPath => String::from_str("invalid path: contains null byte"),
            LibRawError::NullPointer => String::from_str("libraw returned a null pointer"),
        }
    }
}

/// What a libraw status code means: `0` is success, anything else is the
/// error carrying that code.
pub open spec fn status_outcome(code: i32) -> Result<(), LibRawError> {
    if code == 0 {
        Ok(())
    } else {
        Err(LibRawError::LibRaw(code))
    }
}

/// Turns a libraw status code into a `Result`: `0` is success, anything else
/// is the error carrying that code.
pub fn check(code: i32) -> (r: Result<(), LibRawError>)
    ensures
        r == status_outcome(code),
        r is Ok <==> code == 0,
        code != 0 ==> r == Err::<(), LibRawError>(LibRawError::LibRaw(code)),
{
    if code == 0 {
        Ok(())
    } else {
        Err(LibRawError::from_code(code))
    }
}

/// Appends the one-character text of the decimal digit `d`.
fn push_digit(s: &mut String, d: u32)
    requires
        d < 10,
    ensures
        final(s)@ == old(s)@.push(digit_char(d as nat)),
{
    let t: &str = match d {
        0 => "0",
        1 => "1",
        2 => "2",
        3 => "3",
        4 => "4",
        5 => "5",
        6 => "6",
        7 => "7",
        8 => "8",
        _ => "9",
    };
    proof {
        reveal_strlit("0");
        reveal_strlit("1");
        reveal_strlit("2");
        reveal_strlit("3");
        reveal_strlit("4");
        reveal_strlit("5");
        reveal_strlit("6");
        reveal_strlit("7");
        reveal_strlit("8");
        reveal_strlit("9");
    }
    s.append(t);
}

/// Appends the decimal digits of `n`.
fn push_decimal_u32(s: &mut String, n: u32)
    ensures
        final(s)@ == old(s)@ + decimal_digits(n as nat),
    decreases n,
{
    if n >= 10 {
        push_decimal_u32(s, n / 10);
    }
    push_digit(s, n % 10);
}

/// Appends the decimal text of `n`, with a leading `-` when negative.
fn push_decimal_i32(s: &mut String, n: i32)
    ensures
        final(s)@ == old(s)@ + decimal_text(n as int),
{
    if n < 0 {
        let ghost before = s@;
        s.append("-");
        proof {
            reveal_strlit("-");
        }
        let magnitude: i64 = -(n as i64);
        push_decimal_u32(s, magnitude as u32);
        assert(s@ =~= before + (seq!['-'] + decimal_digits((-n) as nat)));
    } else {
        push_decimal_u32(s, n as u32);
    }
}

} // verus!

verus! {

proof fn lemma_digit_char_range(d: nat)
    requires
        d < 10,
    ensures
        48 <= digit_char(d) as u32 <= 57,
        digit_char(d) as u32 == d + 48,
{
}

proof fn lemma_decimal_digits_shape(n: nat)
    ensures
        decimal_digits(n).len() >= 1,
        (decimal_digits(n).len() == 1) == (n < 10),
        forall|i: int|
            0 <= i < decimal_digits(n).len() ==> 48 <= #[trigger] decimal_digits(n)[i] as u32 <= 57,
    decreases n,
{
    if n < 10 {
        lemma_digit_char_range(n);
    } else {
        lemma_decimal_digits_shape(n / 10);
        lemma_digit_char_range(n % 10);
        let s = decimal_digits(n / 10).push(digit_char(n % 10));
        assert forall|i: int| 0 <= i < s.len() implies 48 <= #[trigger] s[i] as u32 <= 57 by {
            if i < s.len() - 1 {
                assert(s[i] == decimal_digits(n / 10)[i]);
            }
        }
    }
}

proof fn lemma_decimal_digits_injective(n: nat, m: nat)
    requires
        decimal_digits(n) == decimal_digits(m),
    ensures
        n == m,
    decreases n,
{
    lemma_decimal_digits_shape(n);
    lemma_decimal_digits_shape(m);
    if n < 10 {
        lemma_digit_char_range(n);
        lemma_digit_char_range(m);
        assert(decimal_digits(n)[0] == digit_char(n));
        assert(decimal_digits(m)[0] == digit_char(m));
    } else {
        let a = decimal_digits(n);
        let b = decimal_digits(m);
        assert(a.drop_last() =~= decimal_digits(n / 10));
        assert(b.drop_last() =~= decimal_digits(m / 10));
        lemma_decimal_digits_injective(n / 10, m / 10);
        lemma_digit_char_range(n % 10);
        lemma_digit_char_range(m % 10);
        assert(a.last() == b.last());
    }
}

/// Distinct integers have distinct decimal texts.
pub proof fn decimal_text_injective(a: int, b: int)
    requires
        decimal_text(a) == decimal_text(b),
    ensures
        a == b,
{
    lemma_decimal_digits_shape((if a < 0 { -a } else { a }) as nat);
    lemma_decimal_digits_shape((if b < 0 { -b } else { b }) as nat);
    let ta = decimal_text(a);
    if a < 0 && b < 0 {
        assert(ta.subrange(1, ta.len() as int) =~= decimal_digits((-a) as nat));
        assert(ta.subrange(1, ta.len() as int) =~= decimal_digits((-b) as nat));
        lemma_decimal_digits_injective((-a) as nat, (-b) as nat);
    } else if a >= 0 && b >= 0 {
        lemma_decimal_digits_injective(a as nat, b as nat);
    } else if a < 0 {
        assert(ta[0] == '-');
        assert(decimal_digits(b as nat)[0] as u32 >= 48);
    } else {
        assert(decimal_text(b)[0] == '-');
        assert(decimal_digits(a as nat)[0] as u32 >= 48);
    }
}

/// Distinct errors have distinct texts: the text of a libraw error names its
/// code, and it differs from the texts of the other two errors.
pub proof fn error_text_injective(e1: LibRawError, e2: LibRawError)
    requires
        e1.text() == e2.text(),
    ensures
        e1 == e2,
{
    reveal_strlit("libraw error code ");
    reveal_strlit("invalid path: contains null byte");
    reveal_strlit("libraw returned a null pointer");
    let p = "libraw error code "@;
    let q = "invalid path: contains null byte"@;
    let r = "libraw returned a null pointer"@;
    assert(p[0] == 'l' && q[0] == 'i' && r[0] == 'l' && p[7] == 'e' && r[7] == 'r');
    match (e1, e2) {
        (LibRawError::LibRaw(a), LibRawError::LibRaw(b)) => {
            let t1 = e1.text();
            assert(t1.subrange(p.len() as int, t1.len() as int) =~= decimal_text(a as int));
            assert(t1.subrange(p.len() as int, t1.len() as int) =~= decimal_text(b as int));
            decimal_text_injective(a as int, b as int);
        },
        (LibRawError::LibRaw(a), LibRawError::InvalidPath) => {
            assert((p + decimal_text(a as int))[0] == p[0]);
            assert(e1.text()[0] != e2.text()[0]);
        },
        (LibRawError::InvalidPath, LibRawError::LibRaw(b)) => {
            assert((p + decimal_text(b as int))[0] == p[0]);
            assert(e1.text()[0] != e2.text()[0]);
        },
        (LibRawError::LibRaw(a), LibRawError::NullPointer) => {
            assert((p + decimal_text(a as int))[7] == p[7]);
            assert(e1.text()[7] != e2.text()[7]);
        },
        (LibRawError::NullPointer, LibRawError::LibRaw(b)) => {
            assert((p + decimal_text(b as int))[7] == p[7]);
            assert(e1.text()[7] != e2.text()[7]);
        },
        (LibRawError::InvalidPath, LibRawError::NullPointer) => {
            assert(e1.text()[0] != e2.text()[0]);
        },
        (LibRawError::NullPointer, LibRawError::InvalidPath) => {
            assert(e1.text()[0] != e2.text()[0]);
        },
        _ => {},
    }
}

} // verus!

verus! {

/// A libraw status code means success exactly when it is zero; every other
/// code is the libraw error carrying that very code.
pub proof fn status_meaning(code: i32)
    ensures
        status_outcome(code) is Ok <==> code == 0,
        code != 0 ==> status_outcome(code) == Err::<(), LibRawError>(LibRawError::LibRaw(code)),
{
}

} // verus!

verus! {

/// The number that a run of decimal digit characters spells, most
/// significant first.
pub open spec fn decimal_value(s: Seq<char>) -> int
    decreases s.len(),
{
    if s.len() == 0 {
        0
    } else {
        decimal_value(s.drop_last()) * 10 + (s.last() as u32 - 48)
    }
}

/// The decimal digits of `n` are digit characters (`'0'` is 48, `'9'` is
/// 57), start with a nonzero
/// digit unless `n` is zero, and spell `n` back.
pub proof fn decimal_digits_meaning(n: nat)
    ensures
        decimal_digits(n).len() >= 1,
        forall|i: int|
            0 <= i < decimal_digits(n).len() ==> 48 <= #[trigger] decimal_digits(n)[i] as u32 <= 57,
        n != 0 ==> decimal_digits(n)[0] != '0',
        decimal_value(decimal_digits(n)) == n,
    decreases n,
{
    lemma_decimal_digits_shape(n);
    let s = decimal_digits(n);
    if n < 10 {
        lemma_digit_char_range(n);
        assert(s.drop_last() =~= Seq::<char>::empty());
        assert(s.last() == digit_char(n));
        assert(decimal_value(s.drop_last()) == 0);
        assert(s.last() as u32 == n + 48);
        assert(decimal_value(s) == decimal_value(s.drop_last()) * 10 + (s.last() as u32 - 48));
    } else {
        decimal_digits_meaning(n / 10);
        lemma_digit_char_range(n % 10);
        assert(s.drop_last() =~= decimal_digits(n / 10));
        assert(s[0] == decimal_digits(n / 10)[0]);
        assert(s.last() == digit_char(n % 10));
        assert(s.last() as u32 == n % 10 + 48);
        assert(decimal_value(s) == decimal_value(s.drop_last()) * 10 + (s.last() as u32 - 48));
        assert(decimal_value(s.drop_last()) == n / 10);
        assert((n / 10) * 10 + n % 10 == n);
    }
}

/// The text of an integer is its digits, preceded by `-` exactly when it is
/// negative; the digits spell its magnitude.
pub proof fn decimal_text_meaning(n: int)
    ensures
        n < 0 ==> decimal_text(n)[0] == '-' && decimal_value(decimal_text(n).drop_first()) == -n,
        n >= 0 ==> decimal_value(decimal_text(n)) == n && decimal_text(n)[0] != '-',
{
    if n < 0 {
        decimal_digits_meaning((-n) as nat);
        assert(decimal_text(n).drop_first() =~= decimal_digits((-n) as nat));
    } else {
        decimal_digits_meaning(n as nat);
    }
}

} // verus!
