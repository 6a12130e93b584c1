//! Reading numbers and benchmark selections out of command-line words.
use vstd::prelude::*;
use vstd::string::StrSliceExecFns;

verus! {

/// Why a number or an argument could not be read.
#[derive(PartialEq, Eq, Structural, Clone, Copy, Debug)]
pub enum ArgsError {
    /// No digits.
    Empty,
    /// A character that is not a decimal digit.
    InvalidDigit,
    /// The number does not fit.
    Overflow,
    /// Fewer parts than the argument needs.
    MissingField,
}

pub open spec fn is_digit(c: char) -> bool {
    '0' <= c <= '9'
}

/// The number that the decimal digits `s` spell.
pub open spec fn decimal_value(s: Seq<char>) -> nat
    decreases s.len(),
{
    if s.len() == 0 {
        0
    } else {
        decimal_value(s.drop_last()) * 10 + ((s.last() as nat) - ('0' as nat)) as nat
    }
}

/// `s` without its leading '+', if it has one.
pub open spec fn unsigned_part(s: Seq<char>) -> Seq<char> {
    if s.len() > 0 && s[0] == '+' {
        s.drop_first()
    } else {
        s
    }
}

/// `s` read as a decimal `usize`, after an optional leading '+': `Empty`
/// without digits, `InvalidDigit` if any character is not a digit, else
/// `Overflow` when the value is over `usize::MAX`.
pub open spec fn spec_parse_usize(s: Seq<char>) -> Result<usize, ArgsError> {
    let digits = unsigned_part(s);
    if s.len() == 0 {
        Err(ArgsError::Empty)
    } else if digits.len() == 0 || exists|i: int| 0 <= i < digits.len() && !is_digit(#[trigger] digits[i]) {
        Err(ArgsError::InvalidDigit)
    } else if decimal_value(digits) > usize::MAX {
        Err(ArgsError::Overflow)
    } else {
        Ok(decimal_value(digits) as usize)
    }
}

proof fn lemma_decimal_value_grows(s: Seq<char>, k: int)
    requires
        0 <= k <= s.len(),
        forall|i: int| 0 <= i < s.len() ==> is_digit(#[trigger] s[i]),
    ensures
        decimal_value(s.take(k)) <= decimal_value(s),
    decreases s.len() - k,
{
    if k < s.len() {
        lemma_decimal_value_grows(s, k + 1);
        let t = s.take(k + 1);
        assert(t.drop_last() =~= s.take(k));
        assert(decimal_value(t) == decimal_value(s.take(k)) * 10 + ((t.last() as nat) - ('0' as nat)) as nat);
        assert(is_digit(s[k]));
        assert(t.last() == s[k]);
    } else {
        assert(s.take(k) =~= s);
    }
}

/// Reads the decimal number in the characters `s[from..to]`.
pub fn parse_usize_range(s: &str, from: usize, to: usize) -> (r: Result<usize, ArgsError>)
    requires
        from <= to <= s@.len(),
    ensures
        r == spec_parse_usize(s@.subrange(from as int, to as int)),
{
    let ghost w = s@.subrange(from as int, to as int);
    if from == to {
        return Err(ArgsError::Empty);
    }
    let mut start = from;
    assert(w[0] == s@[from as int]);
    if s.get_char(from) == '+' {
        start = from + 1;
    }
    let ghost digits = s@.subrange(start as int, to as int);
    assert(digits =~= unsigned_part(w));
    if start == to {
        return Err(ArgsError::InvalidDigit);
    }
    let mut i: usize = start;
    while i < to
        invariant
            from <= start <= i <= to <= s@.len(),
            w == s@.subrange(from as int, to as int),
            w.len() > 0,
            digits == s@.subrange(start as int, to as int),
            digits == unsigned_part(w),
            forall|j: int| 0 <= j < i - start ==> is_digit(#[trigger] digits[j]),
        decreases to - i,
    {
        let c = s.get_char(i);
        if !('0' <= c && c <= '9') {
            assert(digits[i - start] == s@[i as int]);
            assert(0 <= i - start < digits.len() && !is_digit(digits[i - start]));
            return Err(ArgsError::InvalidDigit);
        }
        i = i + 1;
    }
    let mut v: usize = 0;
    let mut i: usize = start;
    while i < to
        invariant
            from <= start <= i <= to <= s@.len(),
            w == s@.subrange(from as int, to as int),
            w.len() > 0,
            digits == s@.subrange(start as int, to as int),
            digits == unsigned_part(w),
            forall|j: int| 0 <= j < digits.len() ==> is_digit(#[trigger] digits[j]),
            v == decimal_value(digits.take(i - start)),
        decreases to - i,
    {
        let c = s.get_char(i);
        assert(digits[i - start] == c);
        assert(is_digit(digits[i - start]));
        let d = (c as u32 - '0' as u32) as usize;
        assert(digits.take(i - start + 1).drop_last() =~= digits.take(i - start));
        assert(digits.take(i - start + 1).last() == c);
        if v > (usize::MAX - d) / 10 {
            proof {
                assert(decimal_value(digits.take(i - start + 1)) == v * 10 + d);
                assert(v * 10 + d > usize::MAX) by (nonlinear_arith)
                    requires
                        v > (usize::MAX - d) / 10,
                        d <= 9,
                ;
                lemma_decimal_value_grows(digits, i - start + 1);
            }
            return Err(ArgsError::Overflow);
        }
        proof {
            assert(v * 10 + d <= usize::MAX) by (nonlinear_arith)
                requires
                    v <= (usize::MAX - d) / 10,
                    d <= 9,
            ;
        }
        v = v * 10 + d;
        i = i + 1;
    }
    assert(digits.take(digits.len() as int) =~= digits);
    Ok(v)
}

/// Reads a whole word as a decimal number.
pub fn parse_usize(s: &str) -> (r: Result<usize, ArgsError>)
    ensures
        r == spec_parse_usize(s@),
{
    let n = s.unicode_len();
    assert(s@.subrange(0, n as int) =~= s@);
    parse_usize_range(s, 0, n)
}

/// The first place at or after `from` where `s` holds 'X', or its length.
pub open spec fn next_x(s: Seq<char>, from: int) -> int
    decreases s.len() - from,
{
    if from >= s.len() {
        s.len() as int
    } else if s[from] == 'X' {
        from
    } else {
        next_x(s, from + 1)
    }
}

proof fn lemma_next_x_bounds(s: Seq<char>, from: int)
    requires
        0 <= from <= s.len(),
    ensures
        from <= next_x(s, from) <= s.len(),
    decreases s.len() - from,
{
    if from < s.len() && s[from] != 'X' {
        lemma_next_x_bounds(s, from + 1);
    }
}

pub fn find_x(s: &str, from: usize, len: usize) -> (r: usize)
    requires
        len == s@.len(),
        from <= len,
    ensures
        r == next_x(s@, from as int),
        from <= r <= len,
{
    let mut i = from;
    while i < len
        invariant
            len == s@.len(),
            from <= i <= len,
            next_x(s@, i as int) == next_x(s@, from as int),
        decreases len - i,
    {
        if s.get_char(i) == 'X' {
            return i;
        }
        i = i + 1;
    }
    i
}

/// A benchmark selection: core count, open files, benchmark and write
/// ratio, written "CORESXFILESXNAMEXRATIO".
#[derive(Debug, PartialEq, Eq)]
pub struct ARGs {
    pub cores: usize,
    pub open_files: usize,
    pub benchmark: String,
    pub write_ratio: usize,
}

/// The four 'X'-separated parts of `s` (anything after a fourth 'X' is
/// ignored), as character ranges; `None` with fewer than four parts.
pub open spec fn spec_parts(s: Seq<char>) -> Option<(int, int, int, int)> {
    let a = next_x(s, 0);
    let b = next_x(s, a + 1);
    let c = next_x(s, b + 1);
    if a < s.len() && b < s.len() && c < s.len() {
        Some((a, b, c, next_x(s, c + 1)))
    } else {
        None
    }
}

impl ARGs {
    /// Reads a selection. Fails with `MissingField` when `s` has fewer than
    /// four parts, else with the first of its three numbers that cannot be
    /// read.
    pub fn parse(s: &str) -> (r: Result<ARGs, ArgsError>)
        ensures
            match spec_parts(s@) {
                None => r == Err::<ARGs, ArgsError>(ArgsError::MissingField),
                Some((a, b, c, d)) => {
                    let cores = spec_parse_usize(s@.subrange(0, a));
                    let files = spec_parse_usize(s@.subrange(a + 1, b));
                    let ratio = spec_parse_usize(s@.subrange(c + 1, d));
                    if cores is Err {
                        r == Err::<ARGs, ArgsError>(cores->Err_0)
                    } else if files is Err {
                        r == Err::<ARGs, ArgsError>(files->Err_0)
                    } else if ratio is Err {
                        r == Err::<ARGs, ArgsError>(ratio->Err_0)
                    } else {
                        r is Ok && r->Ok_0.cores == cores->Ok_0 && r->Ok_0.open_files == files->Ok_0
                            && r->Ok_0.benchmark@ == s@.subrange(b + 1, c) && r->Ok_0.write_ratio
                            == ratio->Ok_0
                    }
                },
            },
    {
        let len = s.unicode_len();
        proof {
            lemma_next_x_bounds(s@, 0);
        }
        let a = find_x(s, 0, len);
        if a >= len {
            return Err(ArgsError::MissingField);
        }
        proof {
            lemma_next_x_bounds(s@, a + 1);
        }
        let b = find_x(s, a + 1, len);
        if b >= len {
            return Err(ArgsError::MissingField);
        }
        let c = find_x(s, b + 1, len);
        if c >= len {
            return Err(ArgsError::MissingField);
        }
        let d = find_x(s, c + 1, len);
        let cores = match parse_usize_range(s, 0, a) {
            Ok(v) => v,
            Err(e) => return Err(e),
        };
        let open_files = match parse_usize_range(s, a + 1, b) {
            Ok(v) => v,
            Err(e) => return Err(e),
        };
        let write_ratio = match parse_usize_range(s, c + 1, d) {
            Ok(v) => v,
            Err(e) => return Err(e),
        };
        let benchmark = s.substring_char(b + 1, c).to_owned();
        Ok(ARGs { cores, open_files, benchmark, write_ratio })
    }
}

impl core::str::FromStr for ARGs {
    type Err = ArgsError;

    fn from_str(s: &str) -> Result<ARGs, ArgsError> {
        ARGs::parse(s)
    }
}

} // verus!
