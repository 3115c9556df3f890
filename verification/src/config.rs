use vstd::prelude::*;

verus! {

/// How many times the wrapped body may be attempted before the last failure is
/// surfaced. Parsing never produces a zero count.
#[derive(Clone, Copy, Debug, PartialEq, Eq, Structural)]
pub struct Configuration {
    pub count: u64,
}

/// The count used when the attribute carries no arguments.
pub const DEFAULT_COUNT: u64 = 3;

/// Why an attribute argument list was rejected at build time.
#[derive(Clone, Copy, Debug, PartialEq, Eq, Structural)]
pub enum ConfigError {
    /// The argument list is not of the form `count = <value>`.
    UnrecognizedArgument,
    /// The value given for `count` is not a plain integer literal.
    InvalidValue,
    /// `count = 0` would generate a wrapper that never runs the body at all.
    ZeroCount,
    /// The integer literal does not fit the supported range.
    CountTooLarge,
}

impl Configuration {
    /// A configuration is meaningful only when it asks for at least one attempt.
    pub open spec fn well_formed(self) -> bool {
        self.count >= 1
    }
}

impl ConfigError {
    /// The diagnostic text reported to the build when this error surfaces.
    pub open spec fn spec_message(self) -> Seq<char> {
        match self {
            ConfigError::UnrecognizedArgument => "expected `count = <integer>` as the attribute's argument"@,
            ConfigError::InvalidValue => "the value of `count` must be an integer literal"@,
            ConfigError::ZeroCount => "`count` must be at least 1"@,
            ConfigError::CountTooLarge => "`count` is too large"@,
        }
    }

    pub fn message(&self) -> (r: &'static str)
        ensures
            r@ == self.spec_message(),
    {
        match self {
            ConfigError::UnrecognizedArgument => "expected `count = <integer>` as the attribute's argument",
            ConfigError::InvalidValue => "the value of `count` must be an integer literal",
            ConfigError::ZeroCount => "`count` must be at least 1",
            ConfigError::CountTooLarge => "`count` is too large",
        }
    }
}

pub open spec fn is_ws(c: u8) -> bool {
    c == 32 || c == 9 || c == 10 || c == 13
}

pub open spec fn is_digit(c: u8) -> bool {
    48 <= c && c <= 57
}

pub open spec fn is_ident_char(c: u8) -> bool {
    is_digit(c) || (97 <= c && c <= 122) || (65 <= c && c <= 90) || c == 95
}

/// Index of the first byte at or after `i` that is not whitespace.
pub open spec fn skip_ws(s: Seq<u8>, i: int) -> int
    decreases s.len() - i when 0 <= i <= s.len()
{
    if i < s.len() && is_ws(s[i]) {
        skip_ws(s, i + 1)
    } else {
        i
    }
}

/// Index of the first byte at or after `i` that cannot be part of an identifier.
pub open spec fn ident_end(s: Seq<u8>, i: int) -> int
    decreases s.len() - i when 0 <= i <= s.len()
{
    if i < s.len() && is_ident_char(s[i]) {
        ident_end(s, i + 1)
    } else {
        i
    }
}

/// Index of the first byte at or after `i` that is not a decimal digit.
pub open spec fn digits_end(s: Seq<u8>, i: int) -> int
    decreases s.len() - i when 0 <= i <= s.len()
{
    if i < s.len() && is_digit(s[i]) {
        digits_end(s, i + 1)
    } else {
        i
    }
}

/// The bytes `s[i .. j]` spell exactly the argument name `count`.
pub open spec fn is_count_name(s: Seq<u8>, i: int, j: int) -> bool {
    &&& j - i == 5
    &&& s[i] == 99
    &&& s[i + 1] == 111
    &&& s[i + 2] == 117
    &&& s[i + 3] == 110
    &&& s[i + 4] == 116
}

/// Numeric value of a run of decimal digit bytes.
pub open spec fn dec_value(digits: Seq<u8>) -> int
    decreases digits.len()
{
    if digits.len() == 0 {
        0
    } else {
        dec_value(digits.drop_last()) * 10 + (digits.last() - 48)
    }
}

/// The argument grammar: an all-whitespace list selects the default count;
/// otherwise the list must read `count = <decimal digits>`, with a nonzero
/// value that fits in `u64`. Each rejected shape maps to one error.
pub open spec fn parse_result(s: Seq<u8>) -> Result<Configuration, ConfigError> {
    let i0 = skip_ws(s, 0);
    if i0 == s.len() {
        Ok(Configuration { count: DEFAULT_COUNT })
    } else {
        let j = ident_end(s, i0);
        if !is_count_name(s, i0, j) {
            Err(ConfigError::UnrecognizedArgument)
        } else {
            let i1 = skip_ws(s, j);
            if i1 == s.len() || s[i1] != 61 {
                Err(ConfigError::UnrecognizedArgument)
            } else {
                let i2 = skip_ws(s, i1 + 1);
                let k = digits_end(s, i2);
                if k == i2 || skip_ws(s, k) != s.len() {
                    Err(ConfigError::InvalidValue)
                } else {
                    let v = dec_value(s.subrange(i2, k));
                    if v > u64::MAX {
                        Err(ConfigError::CountTooLarge)
                    } else if v == 0 {
                        Err(ConfigError::ZeroCount)
                    } else {
                        Ok(Configuration { count: v as u64 })
                    }
                }
            }
        }
    }
}

fn ws_byte(c: u8) -> (r: bool)
    ensures
        r == is_ws(c),
{
    c == 32 || c == 9 || c == 10 || c == 13
}

fn ident_char_byte(c: u8) -> (r: bool)
    ensures
        r == is_ident_char(c),
{
    (48 <= c && c <= 57) || (97 <= c && c <= 122) || (65 <= c && c <= 90) || c == 95
}

fn digit_byte(c: u8) -> (r: bool)
    ensures
        r == is_digit(c),
{
    48 <= c && c <= 57
}

#[verifier::loop_isolation(false)]
fn skip_ws_from(s: &[u8], from: usize) -> (r: usize)
    requires
        from <= s@.len(),
    ensures
        r == skip_ws(s@, from as int),
        from <= r <= s@.len(),
{
    let mut i: usize = from;
    while i < s.len() && ws_byte(s[i])
        invariant
            from <= i <= s@.len(),
            skip_ws(s@, from as int) == skip_ws(s@, i as int),
        decreases s@.len() - i,
    {
        i = i + 1;
    }
    i
}

#[verifier::loop_isolation(false)]
fn ident_end_from(s: &[u8], from: usize) -> (r: usize)
    requires
        from <= s@.len(),
    ensures
        r == ident_end(s@, from as int),
        from <= r <= s@.len(),
{
    let mut i: usize = from;
    while i < s.len() && ident_char_byte(s[i])
        invariant
            from <= i <= s@.len(),
            ident_end(s@, from as int) == ident_end(s@, i as int),
        decreases s@.len() - i,
    {
        i = i + 1;
    }
    i
}

#[verifier::loop_isolation(false)]
fn digits_end_from(s: &[u8], from: usize) -> (r: usize)
    requires
        from <= s@.len(),
    ensures
        r == digits_end(s@, from as int),
        from <= r <= s@.len(),
{
    let mut i: usize = from;
    while i < s.len() && digit_byte(s[i])
        invariant
            from <= i <= s@.len(),
            digits_end(s@, from as int) == digits_end(s@, i as int),
        decreases s@.len() - i,
    {
        i = i + 1;
    }
    i
}

/// Every byte of a scanned digit run is a decimal digit.
proof fn lemma_digits_end_digits(s: Seq<u8>, i: int)
    requires
        0 <= i <= s.len(),
    ensures
        i <= digits_end(s, i) <= s.len(),
        forall|m: int| i <= m < digits_end(s, i) ==> is_digit(s[m]),
    decreases s.len() - i,
{
    if i < s.len() && is_digit(s[i]) {
        lemma_digits_end_digits(s, i + 1);
    }
}

proof fn lemma_dec_value_nonneg(digits: Seq<u8>)
    requires
        forall|m: int| 0 <= m < digits.len() ==> is_digit(digits[m]),
    ensures
        dec_value(digits) >= 0,
    decreases digits.len(),
{
    if digits.len() > 0 {
        lemma_dec_value_nonneg(digits.drop_last());
    }
}

/// Extending a digit run to the right never shrinks its value.
proof fn lemma_dec_value_prefix(digits: Seq<u8>, m: int)
    requires
        0 <= m <= digits.len(),
        forall|j: int| 0 <= j < digits.len() ==> is_digit(digits[j]),
    ensures
        dec_value(digits.subrange(0, m)) <= dec_value(digits),
    decreases digits.len() - m,
{
    if m < digits.len() {
        lemma_dec_value_prefix(digits.drop_last(), m);
        assert(digits.drop_last().subrange(0, m) =~= digits.subrange(0, m));
        lemma_dec_value_nonneg(digits.drop_last());
    } else {
        assert(digits.subrange(0, m) =~= digits);
    }
}

/// Parses the raw text of the attribute's argument list, handed over as bytes.
/// The result follows `parse_result` on every input: the default configuration
/// on an all-whitespace list, the requested count when the list reads
/// `count = <nonzero integer>`, and otherwise the error naming what was wrong.
#[verifier::loop_isolation(false)]
pub fn parse_configuration(raw_args: &[u8]) -> (r: Result<Configuration, ConfigError>)
    ensures
        r == parse_result(raw_args@),
        r is Ok ==> r.unwrap().well_formed(),
{
    let ghost s = raw_args@;
    let i0 = skip_ws_from(raw_args, 0);
    if i0 == raw_args.len() {
        return Ok(Configuration { count: DEFAULT_COUNT });
    }
    let j = ident_end_from(raw_args, i0);
    let name_ok = j - i0 == 5 && raw_args[i0] == 99 && raw_args[i0 + 1] == 111
        && raw_args[i0 + 2] == 117 && raw_args[i0 + 3] == 110 && raw_args[i0 + 4] == 116;
    if !name_ok {
        return Err(ConfigError::UnrecognizedArgument);
    }
    let i1 = skip_ws_from(raw_args, j);
    if i1 == raw_args.len() || raw_args[i1] != 61 {
        return Err(ConfigError::UnrecognizedArgument);
    }
    let i2 = skip_ws_from(raw_args, i1 + 1);
    let k = digits_end_from(raw_args, i2);
    if k == i2 || skip_ws_from(raw_args, k) != raw_args.len() {
        return Err(ConfigError::InvalidValue);
    }
    let ghost digits = s.subrange(i2 as int, k as int);
    proof {
        lemma_digits_end_digits(s, i2 as int);
    }
    let mut acc: u64 = 0;
    let mut idx: usize = i2;
    while idx < k
        invariant
            i2 <= idx <= k,
            acc == dec_value(s.subrange(i2 as int, idx as int)),
        decreases k - idx,
    {
        let d = raw_args[idx] - 48;
        let next = match acc.checked_mul(10) {
            Some(t) => t.checked_add(d as u64),
            None => None,
        };
        proof {
            assert(s.subrange(i2 as int, idx + 1).drop_last() =~= s.subrange(
                i2 as int,
                idx as int,
            ));
        }
        match next {
            Some(v) => {
                acc = v;
            },
            None => {
                proof {
                    assert(dec_value(s.subrange(i2 as int, idx + 1)) > u64::MAX);
                    assert(digits.subrange(0, idx + 1 - i2) =~= s.subrange(i2 as int, idx + 1));
                    lemma_dec_value_prefix(digits, idx + 1 - i2);
                }
                return Err(ConfigError::CountTooLarge);
            },
        }
        idx = idx + 1;
    }
    assert(s.subrange(i2 as int, idx as int) =~= digits);
    if acc == 0 {
        return Err(ConfigError::ZeroCount);
    }
    Ok(Configuration { count: acc })
}

} // verus!
