//! Command line arguments and the parsers of their values.
use vstd::prelude::*;
use vstd::string::StringSliceAdditionalSpecFns;

verus! {

/// The command line arguments of the tool.
pub struct Args {
    /// The filename of a filesystem image.
    pub filename: String,
    /// Create a new filesystem on the specified file.
    pub create: bool,
    /// Source the given file at start in place of the search paths.
    pub source: Option<String>,
    /// Don't source any files at startup, even if they exist.
    pub no_source: bool,
    /// Filesystem to create.
    pub fs_type: FsType,
    /// Open the file in read-only mode.
    pub no_write: bool,
    /// Size of the filesystem to create, in bytes.
    pub size: String,
    /// Disable colored output.
    pub no_color: bool,
    /// The user ID to use when creating a new filesystem.
    pub uid: u32,
    /// The group ID to use when creating a new filesystem.
    pub gid: u32,
    /// The default umask to use, in octal.
    pub umask: u16,
}

#[derive(Clone, Debug, PartialEq, Eq, Structural)]
pub enum FsType {
    Minix,
    Ext2,
    Exfat,
    Mzfat,
}

/// Why a string is not an integer of the wanted type.
#[derive(Clone, Debug, PartialEq, Eq, Structural)]
pub enum ParseIntError {
    /// The string is empty.
    Empty,
    /// The string holds a byte that is not a digit of the radix.
    InvalidDigit,
    /// The number does not fit in the type.
    PosOverflow,
}

/// The value of digit byte `b` in `radix` (at most 10), if it is one.
pub open spec fn digit_value(b: u8, radix: u32) -> Option<int> {
    if 0x30 <= b && (b as int) < 0x30 + radix {
        Some(b - 0x30)
    } else {
        None
    }
}

/// Reading the digits `bs[i..]` after the value `acc`, in the manner of
/// Rust's `from_str_radix` for an unsigned type whose largest value is `max`:
/// each byte is first checked to be a digit, then the value is checked to fit.
pub open spec fn digits_from(bs: Seq<u8>, i: int, radix: u32, max: int, acc: int) -> Result<int, ParseIntError>
    decreases bs.len() - i,
{
    if i < 0 || i >= bs.len() {
        Ok(acc)
    } else {
        match digit_value(bs[i], radix) {
            None => Err(ParseIntError::InvalidDigit),
            Some(d) => if acc * radix + d > max {
                Err(ParseIntError::PosOverflow)
            } else {
                digits_from(bs, i + 1, radix, max, acc * radix + d)
            },
        }
    }
}

/// What `from_str_radix` gives for the bytes `bs` of an unsigned type whose
/// largest value is `max`: an optional leading `+`, then at least one digit.
pub open spec fn spec_parse_unsigned(bs: Seq<u8>, radix: u32, max: int) -> Result<int, ParseIntError> {
    if bs.len() == 0 {
        Err(ParseIntError::Empty)
    } else if bs[0] == 0x2b {
        if bs.len() == 1 {
            Err(ParseIntError::InvalidDigit)
        } else {
            digits_from(bs, 1, radix, max, 0)
        }
    } else {
        digits_from(bs, 0, radix, max, 0)
    }
}

proof fn lemma_digits_bounded(bs: Seq<u8>, i: int, radix: u32, max: int, acc: int)
    requires
        0 <= acc <= max,
    ensures
        digits_from(bs, i, radix, max, acc) matches Ok(v) ==> 0 <= v <= max,
    decreases bs.len() - i,
{
    if 0 <= i < bs.len() {
        if let Some(d) = digit_value(bs[i], radix) {
            if acc * radix + d <= max {
                assert(acc * radix >= 0) by (nonlinear_arith)
                    requires
                        acc >= 0,
                ;
                lemma_digits_bounded(bs, i + 1, radix, max, acc * radix + d);
            }
        }
    }
}

/// Parse the bytes `bs[from..]` as an unsigned number of at most 64 bits no
/// larger than `max`, reading digits of `radix` (at most 10).
fn parse_unsigned(bs: &[u8], from: usize, radix: u32, max: u64) -> (r: Result<u64, ParseIntError>)
    requires
        2 <= radix <= 10,
        from <= bs@.len(),
        max >= 9,
    ensures
        match r {
            Ok(v) => spec_parse_unsigned(bs@.subrange(from as int, bs@.len() as int), radix, max as int) == Ok::<int, ParseIntError>(v as int),
            Err(e) => spec_parse_unsigned(bs@.subrange(from as int, bs@.len() as int), radix, max as int) == Err::<int, ParseIntError>(e),
        },
{
    let ghost s = bs@.subrange(from as int, bs@.len() as int);
    let n = bs.len();
    if from == n {
        return Err(ParseIntError::Empty);
    }
    let mut i = from;
    if bs[from] == 0x2b {
        if from + 1 == n {
            return Err(ParseIntError::InvalidDigit);
        }
        i = from + 1;
    }
    let ghost start = i - from;
    assert(spec_parse_unsigned(s, radix, max as int) == digits_from(s, start, radix, max as int, 0));
    let mut acc: u64 = 0;
    while i < n
        invariant
            2 <= radix <= 10,
            from <= i <= n,
            n == bs@.len(),
            s == bs@.subrange(from as int, n as int),
            acc <= max,
            max >= 9,
            spec_parse_unsigned(s, radix, max as int) == digits_from(s, start, radix, max as int, 0),
            digits_from(s, start, radix, max as int, 0) == digits_from(s, i - from, radix, max as int, acc as int),
        decreases n - i,
    {
        let b = bs[i];
        assert(b == s[i - from]);
        if !(0x30 <= b && (b as u32) < 0x30 + radix) {
            assert(digit_value(b, radix) is None);
            return Err(ParseIntError::InvalidDigit);
        }
        let d = (b - 0x30) as u64;
        // acc * radix + d <= max, computed without overflow.
        if acc > (max - d) / (radix as u64) {
            proof {
                assert(acc * radix + d > max) by (nonlinear_arith)
                    requires
                        acc > (max - d) / (radix as int),
                        radix > 0,
                        d <= max,
                ;
            }
            return Err(ParseIntError::PosOverflow);
        }
        proof {
            assert(acc * radix + d <= max) by (nonlinear_arith)
                requires
                    acc <= (max - d) / (radix as int),
                    radix > 0,
                    d <= max,
            ;
        }
        acc = acc * (radix as u64) + d;
        i += 1;
    }
    Ok(acc)
}

/// Parse an octal number that fits in 16 bits (the umask argument).
pub fn parse_octal(s: &str) -> (r: Result<u16, ParseIntError>)
    ensures
        match r {
            Ok(v) => spec_parse_unsigned(s.spec_bytes(), 8, 0xFFFF) == Ok::<int, ParseIntError>(v as int),
            Err(e) => spec_parse_unsigned(s.spec_bytes(), 8, 0xFFFF) == Err::<int, ParseIntError>(e),
        },
{
    let bs = s.as_bytes();
    assert(bs@.subrange(0, bs@.len() as int) =~= bs@);
    match parse_unsigned(bs, 0, 8, 0xFFFF) {
        Ok(v) => {
            proof {
                lemma_digits_bounded(bs@, 0, 8, 0xFFFF, 0);
                lemma_digits_bounded(bs@, 1, 8, 0xFFFF, 0);
            }
            Ok(v as u16)
        },
        Err(e) => Err(e),
    }
}

/// Parse a decimal number no larger than `max` (the largest value of the
/// integer type it is read into), as Rust's `str::parse` does for unsigned
/// integers: an optional `+`, then digits only.
pub fn parse_decimal(s: &str, max: u64) -> (r: Result<u64, ParseIntError>)
    requires
        max >= 9,
    ensures
        match r {
            Ok(v) => spec_parse_unsigned(s.spec_bytes(), 10, max as int) == Ok::<int, ParseIntError>(v as int) && v <= max,
            Err(e) => spec_parse_unsigned(s.spec_bytes(), 10, max as int) == Err::<int, ParseIntError>(e),
        },
{
    let bs = s.as_bytes();
    assert(bs@.subrange(0, bs@.len() as int) =~= bs@);
    proof {
        lemma_digits_bounded(bs@, 0, 10, max as int, 0);
        lemma_digits_bounded(bs@, 1, 10, max as int, 0);
    }
    parse_unsigned(bs, 0, 10, max)
}

/// The factor that a size suffix (`K`, `M`, `G` or `T`, in either case)
/// stands for, as a shift.
pub open spec fn suffix_shift(b: u8) -> Option<u64> {
    if b == 0x4b || b == 0x6b {
        Some(10)
    } else if b == 0x4d || b == 0x6d {
        Some(20)
    } else if b == 0x47 || b == 0x67 {
        Some(30)
    } else if b == 0x54 || b == 0x74 {
        Some(40)
    } else {
        None
    }
}

/// What `parse_size_string` gives for the bytes `bs`.
pub open spec fn spec_parse_size(bs: Seq<u8>) -> Result<u64, ParseIntError> {
    if bs.len() >= 2 && suffix_shift(bs.last()) is Some {
        match spec_parse_unsigned(bs.drop_last(), 10, u64::MAX as int) {
            Ok(x) => Ok((x as u64) << suffix_shift(bs.last())->0),
            Err(e) => Err(e),
        }
    } else {
        match spec_parse_unsigned(bs, 10, u64::MAX as int) {
            Ok(x) => Ok(x as u64),
            Err(e) => Err(e),
        }
    }
}

/// Parse a size string with an optional binary suffix: `K` (2^10), `M`
/// (2^20), `G` (2^30) or `T` (2^40), in either case. A string of digits
/// alone is a number of bytes. The shift by the suffix keeps the low 64
/// bits, as Rust's `<<` does.
pub fn parse_size_string(string: &String) -> (r: Result<u64, ParseIntError>)
    ensures
        r == spec_parse_size(vstd::utf8::encode_utf8(string@)),
{
    let bs = string.as_str().as_bytes();
    let n = bs.len();
    if n >= 2 {
        let last = bs[n - 1];
        assert(last == bs@.last());
        let shift: u64 = if last == 0x4b || last == 0x6b {
            10
        } else if last == 0x4d || last == 0x6d {
            20
        } else if last == 0x47 || last == 0x67 {
            30
        } else if last == 0x54 || last == 0x74 {
            40
        } else {
            0
        };
        if shift != 0 {
            let head = &bs[0..n - 1];
            assert(head@.subrange(0, head@.len() as int) =~= bs@.drop_last());
            return match parse_unsigned(head, 0, 10, u64::MAX) {
                Ok(x) => {
                    proof {
                        lemma_digits_bounded(bs@.drop_last(), 0, 10, u64::MAX as int, 0);
                        lemma_digits_bounded(bs@.drop_last(), 1, 10, u64::MAX as int, 0);
                    }
                    Ok(x << shift)
                },
                Err(e) => Err(e),
            };
        }
    }
    assert(bs@.subrange(0, bs@.len() as int) =~= bs@);
    match parse_unsigned(bs, 0, 10, u64::MAX) {
        Ok(x) => Ok(x),
        Err(e) => Err(e),
    }
}


/// The value of the decimal digits `d`, the last one the ones.
pub open spec fn dec_value(d: Seq<u8>) -> int
    decreases d.len(),
{
    if d.len() == 0 {
        0
    } else {
        dec_value(d.drop_last()) * 10 + (d.last() - 0x30)
    }
}

/// Whether every byte of `d` is a decimal digit.
pub open spec fn all_decimal(d: Seq<u8>) -> bool {
    forall|i: int| 0 <= i < d.len() ==> 0x30 <= #[trigger] d[i] <= 0x39
}

proof fn lemma_dec_nonneg(d: Seq<u8>)
    requires
        all_decimal(d),
    ensures
        dec_value(d) >= 0,
    decreases d.len(),
{
    if d.len() > 0 {
        assert(0x30 <= d[d.len() - 1]);
        lemma_dec_nonneg(d.drop_last());
    }
}

/// One more digit read after digits that read as `v`.
proof fn lemma_digits_push(d: Seq<u8>, i: int, acc: int, c: u8, max: int, v: int)
    requires
        0 <= i <= d.len(),
        0x30 <= c <= 0x39,
        digits_from(d, i, 10, max, acc) == Ok::<int, ParseIntError>(v),
    ensures
        digits_from(d.push(c), i, 10, max, acc) == (if v * 10 + (c - 0x30) > max {
            Err::<int, ParseIntError>(ParseIntError::PosOverflow)
        } else {
            Ok::<int, ParseIntError>(v * 10 + (c - 0x30))
        }),
    decreases d.len() - i,
{
    let e = d.push(c);
    if i == d.len() {
        assert(e[i] == c);
        if acc * 10 + (c - 0x30) <= max {
            assert(digits_from(e, i + 1, 10, max, acc * 10 + (c - 0x30)) == Ok::<int, ParseIntError>(acc * 10 + (c - 0x30)));
        }
    } else {
        assert(e[i] == d[i]);
        let dd = digit_value(d[i], 10)->0;
        lemma_digits_push(d, i + 1, acc * 10 + dd, c, max, v);
    }
}

/// Decimal digits that fit read as their value.
proof fn lemma_digits_value(d: Seq<u8>, max: int)
    requires
        all_decimal(d),
        0 <= dec_value(d) <= max,
    ensures
        digits_from(d, 0, 10, max, 0) == Ok::<int, ParseIntError>(dec_value(d)),
    decreases d.len(),
{
    if d.len() > 0 {
        let dl = d.drop_last();
        let c = d.last();
        assert(0x30 <= d[d.len() - 1] <= 0x39);
        assert(all_decimal(dl)) by {
            assert forall|i: int| 0 <= i < dl.len() implies 0x30 <= #[trigger] dl[i] <= 0x39 by {
                assert(dl[i] == d[i]);
            }
        }
        lemma_dec_nonneg(dl);
        lemma_digits_value(dl, max);
        lemma_digits_push(dl, 0, 0, c, max, dec_value(dl));
        assert(dl.push(c) =~= d);
    }
}

/// Shifting left by a size suffix multiplies, while the product fits.
proof fn lemma_shift_mul(x: u64)
    by (bit_vector)
    ensures
        x < 0x40_0000_0000_0000 ==> x << 10u64 == x * 1024,
        x < 0x1000_0000_0000 ==> x << 20u64 == x * 1048576,
        x < 0x4_0000_0000 ==> x << 30u64 == x * 1073741824,
        x < 0x100_0000 ==> x << 40u64 == x * 1099511627776,
{
}

/// A size is its digits' value, times 2^10, 2^20, 2^30 or 2^40 for a
/// `K`, `M`, `G` or `T` suffix in either case, where that fits in 64 bits.
pub proof fn law_size_suffix(d: Seq<u8>)
    requires
        d.len() >= 1,
        all_decimal(d),
    ensures
        dec_value(d) <= u64::MAX ==> spec_parse_size(d) == Ok::<u64, ParseIntError>(dec_value(d) as u64),
        dec_value(d) < 0x40_0000_0000_0000 ==> spec_parse_size(d.push(0x4b)) == Ok::<u64, ParseIntError>(
            (dec_value(d) * 1024) as u64,
        ) && spec_parse_size(d.push(0x6b)) == Ok::<u64, ParseIntError>((dec_value(d) * 1024) as u64),
        dec_value(d) < 0x1000_0000_0000 ==> spec_parse_size(d.push(0x4d)) == Ok::<u64, ParseIntError>(
            (dec_value(d) * 1048576) as u64,
        ) && spec_parse_size(d.push(0x6d)) == Ok::<u64, ParseIntError>((dec_value(d) * 1048576) as u64),
        dec_value(d) < 0x4_0000_0000 ==> spec_parse_size(d.push(0x47)) == Ok::<u64, ParseIntError>(
            (dec_value(d) * 1073741824) as u64,
        ) && spec_parse_size(d.push(0x67)) == Ok::<u64, ParseIntError>((dec_value(d) * 1073741824) as u64),
        dec_value(d) < 0x100_0000 ==> spec_parse_size(d.push(0x54)) == Ok::<u64, ParseIntError>(
            (dec_value(d) * 1099511627776) as u64,
        ) && spec_parse_size(d.push(0x74)) == Ok::<u64, ParseIntError>((dec_value(d) * 1099511627776) as u64),
{
    lemma_dec_nonneg(d);
    assert(0x30 <= d[0] <= 0x39);
    assert(0x30 <= d[d.len() - 1] <= 0x39);
    if dec_value(d) <= u64::MAX {
        lemma_digits_value(d, u64::MAX as int);
        let x = dec_value(d) as u64;
        lemma_shift_mul(x);
        assert(d.push(0x4b).drop_last() =~= d);
        assert(d.push(0x6b).drop_last() =~= d);
        assert(d.push(0x4d).drop_last() =~= d);
        assert(d.push(0x6d).drop_last() =~= d);
        assert(d.push(0x47).drop_last() =~= d);
        assert(d.push(0x67).drop_last() =~= d);
        assert(d.push(0x54).drop_last() =~= d);
        assert(d.push(0x74).drop_last() =~= d);
    }
}

/// The size suffixes read the same in either case: a string ending in an
/// upper case `K`, `M`, `G` or `T` gives what it gives ending in the lower
/// case letter.
pub proof fn law_size_suffix_case(d: Seq<u8>)
    ensures
        spec_parse_size(d.push(0x4b)) == spec_parse_size(d.push(0x6b)),
        spec_parse_size(d.push(0x4d)) == spec_parse_size(d.push(0x6d)),
        spec_parse_size(d.push(0x47)) == spec_parse_size(d.push(0x67)),
        spec_parse_size(d.push(0x54)) == spec_parse_size(d.push(0x74)),
{
    assert(d.push(0x4b).drop_last() =~= d.push(0x6b).drop_last());
    assert(d.push(0x4d).drop_last() =~= d.push(0x6d).drop_last());
    assert(d.push(0x47).drop_last() =~= d.push(0x67).drop_last());
    assert(d.push(0x54).drop_last() =~= d.push(0x74).drop_last());
}


/// Digits that already overflowed still overflow with one more digit.
proof fn lemma_digits_push_err(d: Seq<u8>, i: int, acc: int, c: u8, max: int, e: ParseIntError)
    requires
        0 <= i <= d.len(),
        digits_from(d, i, 10, max, acc) == Err::<int, ParseIntError>(e),
    ensures
        digits_from(d.push(c), i, 10, max, acc) == Err::<int, ParseIntError>(e),
    decreases d.len() - i,
{
    if i < d.len() {
        assert(d.push(c)[i] == d[i]);
        if let Some(dd) = digit_value(d[i], 10) {
            if acc * 10 + dd <= max {
                lemma_digits_push_err(d, i + 1, acc * 10 + dd, c, max, e);
            }
        }
    }
}

/// Decimal digits read as their value, or overflow past `max`.
proof fn lemma_digits_total(d: Seq<u8>, max: int)
    requires
        all_decimal(d),
        max >= 0,
    ensures
        digits_from(d, 0, 10, max, 0) == (if dec_value(d) <= max {
            Ok::<int, ParseIntError>(dec_value(d))
        } else {
            Err::<int, ParseIntError>(ParseIntError::PosOverflow)
        }),
    decreases d.len(),
{
    lemma_dec_nonneg(d);
    if d.len() > 0 {
        let dl = d.drop_last();
        let c = d.last();
        assert(0x30 <= d[d.len() - 1] <= 0x39);
        assert(all_decimal(dl)) by {
            assert forall|i: int| 0 <= i < dl.len() implies 0x30 <= #[trigger] dl[i] <= 0x39 by {
                assert(dl[i] == d[i]);
            }
        }
        lemma_dec_nonneg(dl);
        lemma_digits_total(dl, max);
        assert(dl.push(c) =~= d);
        if dec_value(dl) <= max {
            lemma_digits_push(dl, 0, 0, c, max, dec_value(dl));
        } else {
            lemma_digits_push_err(dl, 0, 0, c, max, ParseIntError::PosOverflow);
        }
    }
}

/// A leading byte read past gives the digits after it.
proof fn lemma_digits_shift(x: u8, d: Seq<u8>, i: int, radix: u32, max: int, acc: int)
    requires
        0 <= i <= d.len(),
    ensures
        digits_from(seq![x] + d, i + 1, radix, max, acc) == digits_from(d, i, radix, max, acc),
    decreases d.len() - i,
{
    if i < d.len() {
        assert((seq![x] + d)[i + 1] == d[i]);
        if let Some(dd) = digit_value(d[i], radix) {
            lemma_digits_shift(x, d, i + 1, radix, max, acc * radix + dd);
        }
    }
}

/// Reading a decimal number: digits give their value where it is at most
/// `max`, and overflow past it; a leading `+` changes nothing.
pub proof fn law_decimal_value(d: Seq<u8>, max: int)
    requires
        d.len() >= 1,
        all_decimal(d),
        max >= 0,
    ensures
        spec_parse_unsigned(d, 10, max) == (if dec_value(d) <= max {
            Ok::<int, ParseIntError>(dec_value(d))
        } else {
            Err::<int, ParseIntError>(ParseIntError::PosOverflow)
        }),
        spec_parse_unsigned(seq![0x2bu8] + d, 10, max) == spec_parse_unsigned(d, 10, max),
{
    assert(0x30 <= d[0] <= 0x39);
    lemma_digits_total(d, max);
    lemma_digits_shift(0x2b, d, 0, 10, max, 0);
    assert((seq![0x2bu8] + d)[0] == 0x2b);
}

} // verus!
