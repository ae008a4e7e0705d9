//! Text helpers: decimal numbers as `str::parse::<u32>` reads them, UTF-8
//! decoding, and byte-string comparison.

use vstd::prelude::*;
use vstd::string::*;

verus! {

/// Why a decimal number was refused, in the order `str::parse::<u32>` checks.
#[derive(Debug, Clone, Copy, PartialEq, Eq, Structural)]
pub enum NumberError {
    /// The text is empty.
    Empty,
    /// A character that is not a decimal digit (a lone sign included).
    InvalidDigit,
    /// The value does not fit in the target type.
    PosOverflow,
}

pub open spec fn is_digit(c: char) -> bool {
    '0' <= c <= '9'
}

pub open spec fn digit_value(c: char) -> int {
    (c as int) - ('0' as int)
}

/// Reads the first `n` characters of `ds` as decimal digits, from left to
/// right, stopping at the first character that is not a digit or at the
/// first step whose value exceeds `max`.
pub open spec fn digits_value(ds: Seq<char>, n: nat, max: int) -> Result<int, NumberError>
    decreases n,
{
    if n == 0 {
        Ok(0)
    } else {
        match digits_value(ds, (n - 1) as nat, max) {
            Err(e) => Err(e),
            Ok(v) => if !is_digit(ds[n - 1]) {
                Err(NumberError::InvalidDigit)
            } else if v * 10 + digit_value(ds[n - 1]) > max {
                Err(NumberError::PosOverflow)
            } else {
                Ok(v * 10 + digit_value(ds[n - 1]))
            },
        }
    }
}

/// The digits of an unsigned number: the text without one leading `+`.
pub open spec fn unsigned_digits(s: Seq<char>) -> Seq<char> {
    if s.len() > 0 && s[0] == '+' {
        s.drop_first()
    } else {
        s
    }
}

/// What `str::parse` gives for an unsigned integer type whose largest value is `max`.
pub open spec fn spec_parse_unsigned(s: Seq<char>, max: int) -> Result<int, NumberError> {
    if s.len() == 0 {
        Err(NumberError::Empty)
    } else if s.len() == 1 && (s[0] == '+' || s[0] == '-') {
        Err(NumberError::InvalidDigit)
    } else {
        let ds = unsigned_digits(s);
        digits_value(ds, ds.len(), max)
    }
}

pub open spec fn spec_parse_u32(s: Seq<char>) -> Result<u32, NumberError> {
    match spec_parse_unsigned(s, u32::MAX as int) {
        Ok(v) => Ok(v as u32),
        Err(e) => Err(e),
    }
}

/// The number that a string of decimal digits writes.
pub open spec fn decimal_value(ds: Seq<char>) -> int
    decreases ds.len(),
{
    if ds.len() == 0 {
        0
    } else {
        decimal_value(ds.drop_last()) * 10 + digit_value(ds.last())
    }
}

pub open spec fn all_digits(ds: Seq<char>) -> bool {
    forall|i: int| 0 <= i < ds.len() ==> #[trigger] is_digit(ds[i])
}

proof fn lemma_digits_value_of_digits(ds: Seq<char>, n: nat, max: int)
    requires
        n <= ds.len(),
        all_digits(ds),
        max >= 0,
    ensures
        decimal_value(ds.take(n as int)) >= 0,
        digits_value(ds, n, max) == if decimal_value(ds.take(n as int)) <= max {
            Ok::<int, NumberError>(decimal_value(ds.take(n as int)))
        } else {
            Err::<int, NumberError>(NumberError::PosOverflow)
        },
    decreases n,
{
    if n > 0 {
        lemma_digits_value_of_digits(ds, (n - 1) as nat, max);
        let t = ds.take(n as int);
        assert(t.drop_last() =~= ds.take(n - 1));
        assert(t.last() == ds[n - 1]);
        assert(is_digit(ds[n - 1]));
    } else {
        assert(ds.take(0) =~= Seq::<char>::empty());
    }
}

/// A text of decimal digits, after at most one leading `+`, is read as the
/// number it writes when that fits in `u32`, and refused as an overflow
/// otherwise; an empty text is refused as empty, and a text that starts
/// with `-` is never read as a number.
pub proof fn lemma_parse_u32_digits(s: Seq<char>)
    ensures
        s.len() == 0 ==> spec_parse_u32(s) == Err::<u32, NumberError>(NumberError::Empty),
        s.len() > 0 && s[0] == '-' ==> spec_parse_u32(s) is Err,
        ({
            let ds = unsigned_digits(s);
            ds.len() > 0 && all_digits(ds) ==> spec_parse_u32(s) == if decimal_value(ds) <= u32::MAX {
                Ok::<u32, NumberError>(decimal_value(ds) as u32)
            } else {
                Err::<u32, NumberError>(NumberError::PosOverflow)
            }
        }),
{
    let ds = unsigned_digits(s);
    if ds.len() > 0 && all_digits(ds) {
        lemma_digits_value_of_digits(ds, ds.len(), u32::MAX as int);
        assert(ds.take(ds.len() as int) =~= ds);
        if s.len() == 1 {
            assert(is_digit(ds[0]));
        }
    }
    if s.len() > 1 && s[0] == '-' {
        lemma_minus_refused(s, s.len(), u32::MAX as int);
    }
}

proof fn lemma_minus_refused(s: Seq<char>, n: nat, max: int)
    requires
        1 <= n <= s.len(),
        s[0] == '-',
    ensures
        digits_value(s, n, max) is Err,
    decreases n,
{
    if n > 1 {
        lemma_minus_refused(s, (n - 1) as nat, max);
    }
}

/// The characters of `s`, in order.
pub fn chars_of(s: &str) -> (v: Vec<char>)
    ensures
        v@ == s@,
{
    let n = s.unicode_len();
    let mut v: Vec<char> = Vec::new();
    let mut i: usize = 0;
    while i < n
        invariant
            n == s@.len(),
            i <= n,
            v@ == s@.take(i as int),
        decreases n - i,
    {
        let c = s.get_char(i);
        v.push(c);
        i += 1;
        assert(v@ =~= s@.take(i as int));
    }
    assert(v@ =~= s@);
    v
}

/// Parses `cs[from..to]` as `str::parse::<u32>` parses that text.
pub fn parse_u32_chars(cs: &Vec<char>, from: usize, to: usize) -> (res: Result<u32, NumberError>)
    requires
        from <= to <= cs@.len(),
    ensures
        res == spec_parse_u32(cs@.subrange(from as int, to as int)),
{
    let ghost s = cs@.subrange(from as int, to as int);
    if from == to {
        return Err(NumberError::Empty);
    }
    if to - from == 1 && (cs[from] == '+' || cs[from] == '-') {
        return Err(NumberError::InvalidDigit);
    }
    let start: usize = if cs[from] == '+' { from + 1 } else { from };
    let ghost ds = unsigned_digits(s);
    assert(ds =~= cs@.subrange(start as int, to as int));
    let mut value: u32 = 0;
    let mut i: usize = start;
    while i < to
        invariant
            from <= start <= i <= to <= cs@.len(),
            ds == cs@.subrange(start as int, to as int),
            s == cs@.subrange(from as int, to as int),
            ds == unsigned_digits(s),
            s.len() > 0,
            !(s.len() == 1 && (s[0] == '+' || s[0] == '-')),
            digits_value(ds, (i - start) as nat, u32::MAX as int) == Ok::<int, NumberError>(value as int),
        decreases to - i,
    {
        let c = cs[i];
        let ghost k: nat = (i - start) as nat;
        assert(ds[k as int] == c);
        if !('0' <= c && c <= '9') {
            assert(digits_value(ds, k + 1, u32::MAX as int) == Err::<int, NumberError>(NumberError::InvalidDigit));
            proof { lemma_digits_prefix_error(ds, k + 1, ds.len(), u32::MAX as int); }
            return Err(NumberError::InvalidDigit);
        }
        let d: u32 = (c as u32) - ('0' as u32);
        if value > 429496729 || (value == 429496729 && d > 5) {
            assert(digits_value(ds, k + 1, u32::MAX as int) == Err::<int, NumberError>(NumberError::PosOverflow));
            proof { lemma_digits_prefix_error(ds, k + 1, ds.len(), u32::MAX as int); }
            return Err(NumberError::PosOverflow);
        }
        value = value * 10 + d;
        i += 1;
        assert(digits_value(ds, (i - start) as nat, u32::MAX as int) == Ok::<int, NumberError>(value as int));
    }
    Ok(value)
}

/// Once a prefix of the digits is refused, the whole text is refused the same way.
proof fn lemma_digits_prefix_error(ds: Seq<char>, k: nat, n: nat, max: int)
    requires
        k <= n,
        digits_value(ds, k, max) is Err,
    ensures
        digits_value(ds, n, max) == digits_value(ds, k, max),
    decreases n - k,
{
    if k < n {
        lemma_digits_prefix_error(ds, k, (n - 1) as nat, max);
    }
}

/// Parses `s` as `str::parse::<u32>` does.
pub fn parse_u32(s: &str) -> (res: Result<u32, NumberError>)
    ensures
        res == spec_parse_u32(s@),
{
    let cs = chars_of(s);
    assert(cs@.subrange(0, cs@.len() as int) =~= s@);
    parse_u32_chars(&cs, 0, cs.len())
}

/// `true` when the bytes `a` and `b` are the same.
pub fn bytes_equal(a: &[u8], b: &[u8]) -> (res: bool)
    ensures
        res == (a@ == b@),
{
    if a.len() != b.len() {
        return false;
    }
    let mut i: usize = 0;
    while i < a.len()
        invariant
            i <= a.len(),
            a.len() == b.len(),
            forall|j: int| 0 <= j < i ==> a@[j] == b@[j],
        decreases a.len() - i,
    {
        if a[i] != b[i] {
            return false;
        }
        i += 1;
    }
    assert(a@ =~= b@);
    true
}

} // verus!
