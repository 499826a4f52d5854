//! Decoder for the bracketed, space-delimited text grammar that some cgminer
//! builds answer with (`key[value] key[v1 v2] key[a:1 b:2]`).
use vstd::prelude::*;
use vstd::string::StringSliceAdditionalSpecFns;

verus! {

/// Why decoding stopped.
#[derive(Debug, Clone, PartialEq, Eq)]
pub enum ErrorCode {
    Message(String),
    Eof,
    Syntax,
    ExpectedUnsignedInteger,
    ExpectedMap,
    ExpectedSequence,
    TrailingCharacters,
    Overflow,
    InvalidNumber,
    NumberOutOfRange,
    InvalidIdentifier,
    ExpectedMapBracket,
    ExpectedMapColon,
    ExpectedChar(u8, u8),
}

/// A decoding error with the byte offset at which it was found.
#[derive(Debug, Clone, PartialEq, Eq)]
pub struct DeError {
    pub code: ErrorCode,
    pub column: usize,
}

impl DeError {
    pub fn new(code: ErrorCode, column: usize) -> (r: Self)
        ensures
            r.code == code,
            r.column == column,
    {
        DeError { code, column }
    }
}

/// The column reported for the cursor at `index`: the byte just read.
pub open spec fn column_at(index: int) -> int {
    if index > 0 { index - 1 } else { 0 }
}

pub open spec fn is_digit(c: u8) -> bool {
    48 <= c <= 57
}

pub open spec fn digit_value(c: u8) -> int {
    c - 48
}

/// Value of the run of decimal digits starting at `k`, appended to `acc`,
/// and the index just past the run.
pub open spec fn digits_from(s: Seq<u8>, k: int, acc: int) -> (int, int)
    decreases s.len() - k,
{
    if 0 <= k < s.len() && is_digit(s[k]) {
        digits_from(s, k + 1, acc * 10 + digit_value(s[k]))
    } else {
        (acc, k)
    }
}

/// Index of the first digit of the run starting at `k` that would carry the
/// accumulated value past `u64::MAX`, or `None` if the run fits.
pub open spec fn overflow_digit(s: Seq<u8>, k: int, acc: int) -> Option<int>
    decreases s.len() - k,
{
    if 0 <= k < s.len() && is_digit(s[k]) {
        if acc * 10 + digit_value(s[k]) > u64::MAX {
            Some(k)
        } else {
            overflow_digit(s, k + 1, acc * 10 + digit_value(s[k]))
        }
    } else {
        None
    }
}

/// End of a string token starting at `k`, and how many bytes at its end are a
/// trailing space that belongs to no value (one before a closing `]`).
pub open spec fn str_end(s: Seq<u8>, k: int) -> (int, int)
    decreases s.len() - k,
{
    if k < 0 || k >= s.len() {
        (k, 0)
    } else if s[k] == 91u8 || s[k] == 93u8 || s[k] == 44u8 {
        (k, 0)
    } else if s[k] == 32u8 && k + 1 < s.len() && s[k + 1] == 93u8 {
        (k + 1, 1)
    } else {
        str_end(s, k + 1)
    }
}

/// End of an identifier starting at `k`: the first of `[`, `:`, `]`, `,`.
pub open spec fn ident_end(s: Seq<u8>, k: int) -> int
    decreases s.len() - k,
{
    if k < 0 || k >= s.len() {
        k
    } else if s[k] == 91u8 || s[k] == 58u8 || s[k] == 93u8 || s[k] == 44u8 {
        k
    } else {
        ident_end(s, k + 1)
    }
}

/// A cursor over the bytes of one message.
pub struct MsgDeserializer<'a> {
    pub input: &'a [u8],
    pub index: usize,
    pub depth: usize,
}

impl<'a> MsgDeserializer<'a> {
    pub open spec fn wf(&self) -> bool {
        self.index <= self.input@.len()
    }

    pub fn from_str(input: &'a str) -> (r: Self)
        ensures
            r.wf(),
            r.input@ == input.spec_bytes(),
            r.index == 0,
            r.depth == 0,
    {
        MsgDeserializer { input: input.as_bytes(), index: 0, depth: 0 }
    }

    pub fn pos(&self) -> (r: usize)
        ensures
            r == column_at(self.index as int),
    {
        if self.index > 0 {
            self.index - 1
        } else {
            0
        }
    }

    pub fn error(&self, code: ErrorCode) -> (r: DeError)
        ensures
            r.code == code,
            r.column == column_at(self.index as int),
    {
        DeError::new(code, self.pos())
    }

    pub fn peek(&self) -> (r: Option<u8>)
        requires
            self.wf(),
        ensures
            self.index < self.input@.len() ==> r == Some(self.input@[self.index as int]),
            self.index >= self.input@.len() ==> r.is_none(),
    {
        if self.index < self.input.len() {
            Some(self.input[self.index])
        } else {
            None
        }
    }

    pub fn peek_some(&self) -> (r: Result<u8, DeError>)
        requires
            self.wf(),
        ensures
            self.index < self.input@.len() ==> r == Ok::<u8, DeError>(self.input@[self.index as int]),
            self.index >= self.input@.len() ==> r == Err::<u8, DeError>(
                DeError { code: ErrorCode::Eof, column: column_at(self.index as int) as usize },
            ),
    {
        match self.peek() {
            Some(c) => Ok(c),
            None => Err(self.error(ErrorCode::Eof)),
        }
    }

    pub fn peek_or_null(&self) -> (r: u8)
        requires
            self.wf(),
        ensures
            self.index < self.input@.len() ==> r == self.input@[self.index as int],
            self.index >= self.input@.len() ==> r == 0,
    {
        match self.peek() {
            Some(c) => c,
            None => 0,
        }
    }

    pub fn peek2(&self) -> (r: Option<(u8, u8)>)
        requires
            self.wf(),
        ensures
            self.index + 1 < self.input@.len() ==> r == Some(
                (self.input@[self.index as int], self.input@[self.index + 1]),
            ),
            self.index + 1 >= self.input@.len() ==> r.is_none(),
    {
        if self.index < self.input.len() && self.input.len() - self.index > 1 {
            Some((self.input[self.index], self.input[self.index + 1]))
        } else {
            None
        }
    }

    pub fn next(&mut self) -> (r: Option<u8>)
        requires
            old(self).wf(),
        ensures
            final(self).wf(),
            final(self).input == old(self).input,
            final(self).depth == old(self).depth,
            old(self).index < old(self).input@.len() ==> r == Some(old(self).input@[old(self).index as int])
                && final(self).index == old(self).index + 1,
            old(self).index >= old(self).input@.len() ==> r.is_none() && final(self).index == old(self).index,
    {
        if self.index < self.input.len() {
            self.index = self.index + 1;
            Some(self.input[self.index - 1])
        } else {
            None
        }
    }

    pub fn next_some(&mut self) -> (r: Result<u8, DeError>)
        requires
            old(self).wf(),
        ensures
            final(self).wf(),
            final(self).input == old(self).input,
            final(self).depth == old(self).depth,
            old(self).index < old(self).input@.len() ==> r == Ok::<u8, DeError>(old(self).input@[old(self).index as int])
                && final(self).index == old(self).index + 1,
            old(self).index >= old(self).input@.len() ==> r == Err::<u8, DeError>(
                DeError { code: ErrorCode::Eof, column: column_at(old(self).index as int) as usize },
            ) && final(self).index == old(self).index,
    {
        match self.next() {
            Some(c) => Ok(c),
            None => Err(self.error(ErrorCode::Eof)),
        }
    }

    pub fn discard(&mut self)
        requires
            old(self).index < old(self).input@.len(),
        ensures
            final(self).input == old(self).input,
            final(self).depth == old(self).depth,
            final(self).index == old(self).index + 1,
    {
        if self.index < self.input.len() {
            self.index = self.index + 1;
        }
    }

    pub fn expect(&mut self, c: u8) -> (r: Result<(), DeError>)
        requires
            old(self).wf(),
        ensures
            final(self).wf(),
            final(self).input == old(self).input,
            final(self).depth == old(self).depth,
            r == expect_result(old(self).input@, old(self).index as int, c),
            r is Ok ==> final(self).index == old(self).index + 1,
    {
        let ch = self.next_some()?;
        if c == ch {
            Ok(())
        } else {
            Err(self.error(ErrorCode::ExpectedChar(c, ch)))
        }
    }
}

/// What expecting byte `c` at index `i` gives.
pub open spec fn expect_result(s: Seq<u8>, i: int, c: u8) -> Result<(), DeError> {
    if i >= s.len() {
        Err(DeError { code: ErrorCode::Eof, column: column_at(i) as usize })
    } else if s[i] == c {
        Ok(())
    } else {
        Err(DeError { code: ErrorCode::ExpectedChar(c, s[i]), column: i as usize })
    }
}


/// An exact decimal: `mantissa / 10^scale`, negated when `negative`.
#[derive(Debug, Clone, Copy, PartialEq, Eq)]
pub struct Decimal {
    pub negative: bool,
    pub mantissa: u64,
    pub scale: usize,
}

/// A number as read from the wire, before a field's type is applied to it.
#[derive(Debug, Clone, Copy, PartialEq, Eq)]
pub enum Number {
    U64(u64),
    I64(i64),
    Dec(Decimal),
}

pub open spec fn err_at<T>(code: ErrorCode, column: int) -> Result<T, DeError> {
    Err(DeError { code, column: column as usize })
}

/// The digits after a decimal point at `e`, appended to `sig`, then an
/// optional `%` that moves the point two places further left.
pub open spec fn decimal_part(s: Seq<u8>, e: int, sig: int) -> Result<(Number, int), DeError> {
    match overflow_digit(s, e + 1, sig) {
        Some(k) => err_at(ErrorCode::Overflow, column_at(k)),
        None => {
            let (m, f) = digits_from(s, e + 1, sig);
            let pct = f < s.len() && s[f] == 37u8;
            let scale = if pct { f - (e + 1) + 2 } else { f - (e + 1) };
            let end = if pct { f + 1 } else { f };
            if scale == 0 {
                if end < s.len() {
                    err_at(ErrorCode::InvalidNumber, column_at(end))
                } else {
                    err_at(ErrorCode::Eof, column_at(end))
                }
            } else {
                Ok((Number::Dec(Decimal { negative: false, mantissa: m as u64, scale: scale as usize }), end))
            }
        },
    }
}

/// An unsigned number token at `i`: digits, then a decimal part, a `%`
/// (hundredths) or nothing. On success, the number and the index past it.
pub open spec fn any_number(s: Seq<u8>, i: int) -> Result<(Number, int), DeError> {
    if i >= s.len() {
        err_at(ErrorCode::Eof, column_at(i))
    } else if !is_digit(s[i]) {
        err_at(ErrorCode::ExpectedUnsignedInteger, i)
    } else {
        match overflow_digit(s, i + 1, digit_value(s[i])) {
            Some(k) => err_at(ErrorCode::Overflow, column_at(k)),
            None => {
                let (sig, e) = digits_from(s, i + 1, digit_value(s[i]));
                if e < s.len() && s[e] == 46u8 {
                    decimal_part(s, e, sig)
                } else if e < s.len() && s[e] == 37u8 {
                    Ok((Number::Dec(Decimal { negative: false, mantissa: sig as u64, scale: 2 }), e + 1))
                } else {
                    Ok((Number::U64(sig as u64), e))
                }
            },
        }
    }
}

/// The negation of a number, or `None` where it has no `i64` form.
pub open spec fn negated(n: Number) -> Option<Number> {
    match n {
        Number::U64(u) => if u <= 0x8000_0000_0000_0000u64 {
            Some(Number::I64((-(u as int)) as i64))
        } else {
            None
        },
        Number::I64(v) => if v == i64::MIN {
            None
        } else {
            Some(Number::I64((-v) as i64))
        },
        Number::Dec(d) => Some(Number::Dec(Decimal { negative: !d.negative, ..d })),
    }
}

/// A possibly negative number token at `i`.
pub open spec fn number_token(s: Seq<u8>, i: int) -> Result<(Number, int), DeError> {
    if i >= s.len() {
        err_at(ErrorCode::Eof, column_at(i))
    } else if s[i] == 45u8 {
        match any_number(s, i + 1) {
            Ok((n, e)) => match negated(n) {
                Some(m) => Ok((m, e)),
                None => err_at(ErrorCode::Overflow, column_at(e)),
            },
            Err(x) => Err(x),
        }
    } else if is_digit(s[i]) {
        any_number(s, i)
    } else {
        err_at(ErrorCode::InvalidNumber, column_at(i))
    }
}

proof fn lemma_digits(s: Seq<u8>, k: int, acc: int)
    requires
        0 <= k <= s.len(),
        0 <= acc <= u64::MAX,
        overflow_digit(s, k, acc) is None,
    ensures
        acc <= digits_from(s, k, acc).0 <= u64::MAX,
        k <= digits_from(s, k, acc).1 <= s.len(),
    decreases s.len() - k,
{
    if 0 <= k < s.len() && is_digit(s[k]) {
        lemma_digits(s, k + 1, acc * 10 + digit_value(s[k]));
    }
}

proof fn lemma_overflow_col(s: Seq<u8>, k: int, acc: int)
    requires
        0 <= k <= s.len(),
    ensures
        overflow_digit(s, k, acc) matches Some(j) ==> k <= j < s.len(),
    decreases s.len() - k,
{
    if 0 <= k < s.len() && is_digit(s[k]) {
        lemma_overflow_col(s, k + 1, acc * 10 + digit_value(s[k]));
    }
}

impl<'a> MsgDeserializer<'a> {
    /// Reads a run of digits into `acc`, failing where the value would pass
    /// `u64::MAX`.
    fn scan_digits(&mut self, acc: u64) -> (r: Result<u64, DeError>)
        requires
            old(self).wf(),
        ensures
            final(self).wf(),
            final(self).input == old(self).input,
            final(self).depth == old(self).depth,
            match overflow_digit(old(self).input@, old(self).index as int, acc as int) {
                Some(k) => r == err_at::<u64>(ErrorCode::Overflow, column_at(k)),
                None => r == Ok::<u64, DeError>(
                    digits_from(old(self).input@, old(self).index as int, acc as int).0 as u64,
                ) && final(self).index == digits_from(old(self).input@, old(self).index as int, acc as int).1,
            },
    {
        let ghost s = self.input@;
        let ghost start = self.index as int;
        let mut sig = acc;
        loop
            invariant
                self.wf(),
                self.input == old(self).input,
                self.depth == old(self).depth,
                s == self.input@,
                s == old(self).input@,
                start == old(self).index,
                start <= self.index,
                digits_from(s, self.index as int, sig as int) == digits_from(s, start, acc as int),
                overflow_digit(s, self.index as int, sig as int) == overflow_digit(s, start, acc as int),
            decreases s.len() - self.index,
        {
            let c = self.peek_or_null();
            if 48 <= c && c <= 57 {
                let d = (c - 48) as u64;
                if sig > 1844674407370955161u64 || (sig == 1844674407370955161u64 && d > 5) {
                    assert(overflow_digit(s, self.index as int, sig as int) == Some(self.index as int));
                    return Err(self.error(ErrorCode::Overflow));
                }
                self.discard();
                sig = sig * 10 + d;
            } else {
                assert(digits_from(s, self.index as int, sig as int) == (sig as int, self.index as int));
                return Ok(sig);
            }
        }
    }

    pub fn parse_decimal(&mut self, significand: u64) -> (r: Result<Number, DeError>)
        requires
            old(self).wf(),
            old(self).index < old(self).input@.len(),
        ensures
            final(self).wf(),
            final(self).input == old(self).input,
            final(self).depth == old(self).depth,
            decimal_part(old(self).input@, old(self).index as int, significand as int) matches Ok(p) ==> r
                == Ok::<Number, DeError>(p.0) && final(self).index == p.1,
            decimal_part(old(self).input@, old(self).index as int, significand as int) matches Err(x) ==> r
                == Err::<Number, DeError>(x),
    {
        let ghost s = self.input@;
        let ghost e = self.index as int;
        self.discard();
        let start = self.index;
        proof {
            lemma_overflow_col(s, e + 1, significand as int);
        }
        let m = self.scan_digits(significand)?;
        proof {
            lemma_digits(s, e + 1, significand as int);
        }
        let mut scale: usize = self.index - start;
        if self.peek() == Some(37u8) {
            self.discard();
            scale = scale + 2;
        }
        if scale == 0 {
            match self.peek() {
                Some(_) => {
                    return Err(self.error(ErrorCode::InvalidNumber));
                },
                None => {
                    return Err(self.error(ErrorCode::Eof));
                },
            }
        }
        Ok(Number::Dec(Decimal { negative: false, mantissa: m, scale }))
    }

    pub fn parse_any_number(&mut self) -> (r: Result<Number, DeError>)
        requires
            old(self).wf(),
        ensures
            final(self).wf(),
            final(self).input == old(self).input,
            final(self).depth == old(self).depth,
            any_number(old(self).input@, old(self).index as int) matches Ok(p) ==> r == Ok::<Number, DeError>(
                p.0,
            ) && final(self).index == p.1,
            any_number(old(self).input@, old(self).index as int) matches Err(x) ==> r == Err::<Number, DeError>(
                x,
            ),
    {
        let ghost s = self.input@;
        let ghost i = self.index as int;
        let c = match self.next() {
            Some(b) => b,
            None => {
                return Err(self.error(ErrorCode::Eof));
            },
        };
        if !(48 <= c && c <= 57) {
            return Err(self.error(ErrorCode::ExpectedUnsignedInteger));
        }
        proof {
            lemma_overflow_col(s, i + 1, digit_value(c));
        }
        let significand = self.scan_digits((c - 48) as u64)?;
        proof {
            lemma_digits(s, i + 1, digit_value(c));
        }
        let next = self.peek_or_null();
        if next == 46u8 {
            self.parse_decimal(significand)
        } else if next == 37u8 {
            self.discard();
            Ok(Number::Dec(Decimal { negative: false, mantissa: significand, scale: 2 }))
        } else {
            Ok(Number::U64(significand))
        }
    }

    pub fn deserialize_number(&mut self) -> (r: Result<Number, DeError>)
        requires
            old(self).wf(),
        ensures
            final(self).wf(),
            final(self).input == old(self).input,
            final(self).depth == old(self).depth,
            number_token(old(self).input@, old(self).index as int) matches Ok(p) ==> r == Ok::<
                Number,
                DeError,
            >(p.0) && final(self).index == p.1,
            number_token(old(self).input@, old(self).index as int) matches Err(x) ==> r == Err::<
                Number,
                DeError,
            >(x),
    {
        let c = self.peek_some()?;
        if c == 45u8 {
            self.discard();
            let n = self.parse_any_number()?;
            match negate(n) {
                Some(m) => Ok(m),
                None => Err(self.error(ErrorCode::Overflow)),
            }
        } else if 48 <= c && c <= 57 {
            self.parse_any_number()
        } else {
            Err(self.error(ErrorCode::InvalidNumber))
        }
    }
}

/// Negates a number read after a `-`.
pub fn negate(n: Number) -> (r: Option<Number>)
    ensures
        r == negated(n),
{
    match n {
        Number::U64(u) => {
            if u < 0x8000_0000_0000_0000u64 {
                Some(Number::I64(-(u as i64)))
            } else if u == 0x8000_0000_0000_0000u64 {
                Some(Number::I64(i64::MIN))
            } else {
                None
            }
        },
        Number::I64(v) => {
            if v == i64::MIN {
                None
            } else {
                Some(Number::I64((-v) as i64))
            }
        },
        Number::Dec(d) => Some(Number::Dec(Decimal { negative: !d.negative, mantissa: d.mantissa, scale: d.scale })),
    }
}


/// The type a schema gives to one value.
#[derive(Debug, Clone, Copy, PartialEq, Eq, Structural)]
pub enum ScalarKind {
    Text,
    Unsigned,
    Signed,
    Float,
}

/// One decoded scalar.
#[derive(Debug, Clone, PartialEq, Eq)]
pub enum Scalar {
    Text(Vec<u8>),
    Unsigned(u64),
    Signed(i64),
    Float(Decimal),
}

pub enum ScalarView {
    Text(Seq<u8>),
    Unsigned(u64),
    Signed(i64),
    Float(Decimal),
}

impl View for Scalar {
    type V = ScalarView;

    open spec fn view(&self) -> ScalarView {
        match self {
            Scalar::Text(t) => ScalarView::Text(t@),
            Scalar::Unsigned(u) => ScalarView::Unsigned(*u),
            Scalar::Signed(v) => ScalarView::Signed(*v),
            Scalar::Float(d) => ScalarView::Float(*d),
        }
    }
}

/// A number read into an unsigned field; `None` for a negative number or a
/// decimal.
pub open spec fn as_unsigned(n: Number) -> Option<u64> {
    match n {
        Number::U64(u) => Some(u),
        Number::I64(v) => if v >= 0 { Some(v as u64) } else { None },
        Number::Dec(_) => None,
    }
}

/// A number read into a signed field; `None` for an unsigned number above
/// `i64::MAX` or a decimal.
pub open spec fn as_signed(n: Number) -> Option<i64> {
    match n {
        Number::U64(u) => if u <= i64::MAX { Some(u as i64) } else { None },
        Number::I64(v) => Some(v),
        Number::Dec(_) => None,
    }
}

/// Why a number does not fit an integer field: a decimal is no integer,
/// and an integer may be out of the field's range; either is reported at
/// the number's last byte.
pub open spec fn integer_field_error<T>(n: Number, e: int) -> Result<T, DeError> {
    if n is Dec {
        err_at(ErrorCode::InvalidNumber, column_at(e))
    } else {
        err_at(ErrorCode::NumberOutOfRange, column_at(e))
    }
}

/// A number read into a decimal field: a bare integer is a fixed-point value
/// in hundredths.
pub open spec fn as_decimal(n: Number) -> Decimal {
    match n {
        Number::U64(u) => Decimal { negative: false, mantissa: u, scale: 2 },
        Number::I64(v) => Decimal {
            negative: v < 0,
            mantissa: (if v < 0 { -(v as int) } else { v as int }) as u64,
            scale: 2,
        },
        Number::Dec(d) => d,
    }
}

/// A scalar of the given kind at `i`, and the index past it.
pub open spec fn scalar_token(s: Seq<u8>, i: int, kind: ScalarKind) -> Result<(ScalarView, int), DeError> {
    match kind {
        ScalarKind::Text => {
            let (e, t) = str_end(s, i);
            Ok((ScalarView::Text(s.subrange(i, e - t)), e))
        },
        _ => match number_token(s, i) {
            Err(x) => Err(x),
            Ok((n, e)) => match kind {
                ScalarKind::Unsigned => match as_unsigned(n) {
                    Some(u) => Ok((ScalarView::Unsigned(u), e)),
                    None => integer_field_error(n, e),
                },
                ScalarKind::Signed => match as_signed(n) {
                    Some(v) => Ok((ScalarView::Signed(v), e)),
                    None => integer_field_error(n, e),
                },
                _ => Ok((ScalarView::Float(as_decimal(n)), e)),
            },
        },
    }
}

proof fn lemma_str_end(s: Seq<u8>, k: int)
    requires
        0 <= k <= s.len(),
    ensures
        k <= str_end(s, k).0 <= s.len(),
        0 <= str_end(s, k).1 <= 1,
        str_end(s, k).1 <= str_end(s, k).0 - k,
    decreases s.len() - k,
{
    if k < s.len() && !(s[k] == 91u8 || s[k] == 93u8 || s[k] == 44u8) && !(s[k] == 32u8 && k + 1 < s.len()
        && s[k + 1] == 93u8) {
        lemma_str_end(s, k + 1);
    }
}

proof fn lemma_ident_end(s: Seq<u8>, k: int)
    requires
        0 <= k <= s.len(),
    ensures
        k <= ident_end(s, k) <= s.len(),
    decreases s.len() - k,
{
    if k < s.len() && !(s[k] == 91u8 || s[k] == 58u8 || s[k] == 93u8 || s[k] == 44u8) {
        lemma_ident_end(s, k + 1);
    }
}

proof fn lemma_number_end(s: Seq<u8>, i: int)
    requires
        0 <= i <= s.len(),
    ensures
        number_token(s, i) matches Ok(p) ==> i < p.1 <= s.len(),
{
    let j = if i < s.len() && s[i] == 45u8 { i + 1 } else { i };
    if j < s.len() && is_digit(s[j]) {
        lemma_overflow_col(s, j + 1, digit_value(s[j]));
        if overflow_digit(s, j + 1, digit_value(s[j])) is None {
            lemma_digits(s, j + 1, digit_value(s[j]));
            let (sig, e) = digits_from(s, j + 1, digit_value(s[j]));
            if e < s.len() && s[e] == 46u8 {
                lemma_overflow_col(s, e + 1, sig);
                if overflow_digit(s, e + 1, sig) is None {
                    lemma_digits(s, e + 1, sig);
                }
            }
        }
    }
}

proof fn lemma_scalar_end(s: Seq<u8>, i: int, kind: ScalarKind)
    requires
        0 <= i <= s.len(),
    ensures
        scalar_token(s, i, kind) matches Ok(p) ==> i <= p.1 <= s.len(),
{
    lemma_str_end(s, i);
    lemma_number_end(s, i);
}

impl<'a> MsgDeserializer<'a> {
    /// Copies `input[start..end]`.
    fn copy_range(&self, start: usize, end: usize) -> (r: Vec<u8>)
        requires
            start <= end <= self.input@.len(),
        ensures
            r@ == self.input@.subrange(start as int, end as int),
    {
        let mut out: Vec<u8> = Vec::new();
        let mut k = start;
        while k < end
            invariant
                start <= k <= end <= self.input@.len(),
                out@ == self.input@.subrange(start as int, k as int),
            decreases end - k,
        {
            out.push(self.input[k]);
            k = k + 1;
        }
        out
    }

    /// Reads a string value: up to `[`, `]` or `,`, leaving out a single
    /// space before a closing `]`.
    pub fn parse_str(&mut self) -> (r: Vec<u8>)
        requires
            old(self).wf(),
        ensures
            final(self).wf(),
            final(self).input == old(self).input,
            final(self).depth == old(self).depth,
            final(self).index == str_end(old(self).input@, old(self).index as int).0,
            r@ == old(self).input@.subrange(
                old(self).index as int,
                str_end(old(self).input@, old(self).index as int).0 - str_end(
                    old(self).input@,
                    old(self).index as int,
                ).1,
            ),
    {
        let ghost s = self.input@;
        let start = self.index;
        let mut negoff: usize = 0;
        proof {
            lemma_str_end(s, start as int);
        }
        loop
            invariant_except_break
                negoff == 0,
                str_end(s, self.index as int) == str_end(s, start as int),
            invariant
                self.wf(),
                self.input == old(self).input,
                self.depth == old(self).depth,
                s == self.input@,
                start == old(self).index,
                start <= self.index,
            ensures
                self.index == str_end(s, start as int).0,
                negoff == str_end(s, start as int).1,
            decreases s.len() - self.index,
        {
            match self.peek() {
                None => {
                    break;
                },
                Some(c) => {
                    if c == 91u8 || c == 93u8 || c == 44u8 {
                        break;
                    } else if c == 32u8 {
                        self.discard();
                        if self.peek() == Some(93u8) {
                            negoff = 1;
                            break;
                        }
                    } else {
                        self.discard();
                    }
                },
            }
        }
        proof {
            lemma_str_end(s, start as int);
        }
        self.copy_range(start, self.index - negoff)
    }

    /// Reads a key: up to `[`, `:`, `]` or `,`.
    pub fn parse_identifier(&mut self) -> (r: Vec<u8>)
        requires
            old(self).wf(),
        ensures
            final(self).wf(),
            final(self).input == old(self).input,
            final(self).depth == old(self).depth,
            final(self).index == ident_end(old(self).input@, old(self).index as int),
            r@ == old(self).input@.subrange(old(self).index as int, final(self).index as int),
    {
        let ghost s = self.input@;
        let start = self.index;
        loop
            invariant_except_break
                ident_end(s, self.index as int) == ident_end(s, start as int),
            invariant
                self.wf(),
                self.input == old(self).input,
                self.depth == old(self).depth,
                s == self.input@,
                start == old(self).index,
                start <= self.index,
            ensures
                self.index == ident_end(s, start as int),
            decreases s.len() - self.index,
        {
            match self.peek() {
                None => {
                    break;
                },
                Some(c) => {
                    if c == 91u8 || c == 58u8 || c == 93u8 || c == 44u8 {
                        break;
                    }
                    self.discard();
                },
            }
        }
        self.copy_range(start, self.index)
    }

    /// Reads one scalar of the given kind.
    pub fn parse_scalar(&mut self, kind: ScalarKind) -> (r: Result<Scalar, DeError>)
        requires
            old(self).wf(),
        ensures
            final(self).wf(),
            final(self).input == old(self).input,
            final(self).depth == old(self).depth,
            match scalar_token(old(self).input@, old(self).index as int, kind) {
                Ok(p) => r matches Ok(v) && v@ == p.0 && final(self).index == p.1,
                Err(x) => r == Err::<Scalar, DeError>(x),
            },
    {
        match kind {
            ScalarKind::Text => Ok(Scalar::Text(self.parse_str())),
            _ => {
                let n = self.deserialize_number()?;
                match kind {
                    ScalarKind::Unsigned => match to_unsigned(n) {
                        Some(u) => Ok(Scalar::Unsigned(u)),
                        None => Err(self.integer_field_error(n)),
                    },
                    ScalarKind::Signed => match to_signed(n) {
                        Some(v) => Ok(Scalar::Signed(v)),
                        None => Err(self.integer_field_error(n)),
                    },
                    _ => Ok(Scalar::Float(to_decimal(n))),
                }
            },
        }
    }
}

impl<'a> MsgDeserializer<'a> {
    /// The error for a number, just read, that does not fit an integer field.
    fn integer_field_error(&self, n: Number) -> (r: DeError)
        ensures
            Err::<(), DeError>(r) == integer_field_error::<()>(n, self.index as int),
    {
        match n {
            Number::Dec(_) => self.error(ErrorCode::InvalidNumber),
            _ => self.error(ErrorCode::NumberOutOfRange),
        }
    }
}

/// Applies an unsigned field's type to a number.
pub fn to_unsigned(n: Number) -> (r: Option<u64>)
    ensures
        r == as_unsigned(n),
{
    match n {
        Number::U64(u) => Some(u),
        Number::I64(v) => if v >= 0 {
            Some(v as u64)
        } else {
            None
        },
        Number::Dec(_) => None,
    }
}

/// Applies a signed field's type to a number.
pub fn to_signed(n: Number) -> (r: Option<i64>)
    ensures
        r == as_signed(n),
{
    match n {
        Number::U64(u) => if u <= i64::MAX as u64 {
            Some(u as i64)
        } else {
            None
        },
        Number::I64(v) => Some(v),
        Number::Dec(_) => None,
    }
}

/// Applies a decimal field's type to a number.
pub fn to_decimal(n: Number) -> (r: Decimal)
    ensures
        r == as_decimal(n),
{
    match n {
        Number::U64(u) => Decimal { negative: false, mantissa: u, scale: 2 },
        Number::I64(v) => {
            let m: u64 = if v < 0 {
                if v == i64::MIN {
                    0x8000_0000_0000_0000u64
                } else {
                    (-v) as u64
                }
            } else {
                v as u64
            };
            Decimal { negative: v < 0, mantissa: m, scale: 2 }
        },
        Number::Dec(d) => d,
    }
}


pub open spec fn scalars_view(v: Seq<Scalar>) -> Seq<ScalarView> {
    v.map_values(|x: Scalar| x@)
}

/// Puts `p` in front of the items of a successful result.
pub open spec fn with_prefix<T>(p: Seq<T>, r: Result<(Seq<T>, int), DeError>) -> Result<(Seq<T>, int), DeError> {
    match r {
        Ok((v, e)) => Ok((p + v, e)),
        Err(x) => Err(x),
    }
}

proof fn lemma_with_prefix_push<T>(p: Seq<T>, x: T, r: Result<(Seq<T>, int), DeError>)
    ensures
        with_prefix(p, with_prefix(seq![x], r)) == with_prefix(p.push(x), r),
{
    if let Ok((v, e)) = r {
        assert(p + (seq![x] + v) =~= p.push(x) + v);
    }
}

/// Where the separator before a list item or a map entry leaves the cursor:
/// nothing before the first one, else an optional `,` and a space.
pub open spec fn separator(s: Seq<u8>, i: int, first: bool) -> Result<int, DeError> {
    if first {
        Ok(i)
    } else {
        let j = if 0 <= i < s.len() && s[i] == 44u8 { i + 1 } else { i };
        match expect_result(s, j, 32u8) {
            Ok(_) => Ok(j + 1),
            Err(x) => Err(x),
        }
    }
}

/// A closing `]` at `i`, or a space and then one.
pub open spec fn at_close(s: Seq<u8>, i: int) -> bool {
    0 <= i < s.len() && (s[i] == 93u8 || (s[i] == 32u8 && i + 1 < s.len() && s[i + 1] == 93u8))
}

/// The items of a space-separated list, up to (not past) its closing bracket.
pub open spec fn list_items(s: Seq<u8>, i: int, kind: ScalarKind, first: bool) -> Result<
    (Seq<ScalarView>, int),
    DeError,
>
    decreases s.len() - i, if first { 1int } else { 0int },
    via list_items_decreases
{
    if i < 0 || i >= s.len() {
        err_at(ErrorCode::Eof, column_at(i))
    } else if at_close(s, i) {
        Ok((seq![], i))
    } else {
        match separator(s, i, first) {
            Err(x) => Err(x),
            Ok(j) => if j >= s.len() {
                err_at(ErrorCode::Eof, column_at(j))
            } else {
                let k = if s[j] == 32u8 { j + 1 } else { j };
                match scalar_token(s, k, kind) {
                    Err(x) => Err(x),
                    Ok((v, e)) => with_prefix(seq![v], list_items(s, e, kind, false)),
                }
            },
        }
    }
}

#[via_fn]
proof fn list_items_decreases(s: Seq<u8>, i: int, kind: ScalarKind, first: bool) {
    if 0 <= i < s.len() && !at_close(s, i) {
        if let Ok(j) = separator(s, i, first) {
            if j < s.len() {
                let k = if s[j] == 32u8 { j + 1 } else { j };
                lemma_scalar_end(s, k, kind);
            }
        }
    }
}

/// The schema of one entry of an inline map.
#[derive(Debug, Clone, PartialEq, Eq)]
pub struct SubField {
    pub name: Vec<u8>,
    pub kind: ScalarKind,
}

/// The kind of the first sub-field named `key`, from position `n` on.
pub open spec fn lookup_sub(fields: Seq<SubField>, key: Seq<u8>, n: int) -> Option<ScalarKind>
    decreases fields.len() - n,
{
    if n < 0 || n >= fields.len() {
        None
    } else if fields[n].name@ == key {
        Some(fields[n].kind)
    } else {
        lookup_sub(fields, key, n + 1)
    }
}

/// One entry of a decoded inline map.
#[derive(Debug, Clone, PartialEq, Eq)]
pub struct MapEntry {
    pub key: Vec<u8>,
    pub value: Scalar,
}

impl View for MapEntry {
    type V = (Seq<u8>, ScalarView);

    open spec fn view(&self) -> (Seq<u8>, ScalarView) {
        (self.key@, self.value@)
    }
}

pub open spec fn entries_view(v: Seq<MapEntry>) -> Seq<(Seq<u8>, ScalarView)> {
    v.map_values(|x: MapEntry| x@)
}

/// Where the value of an inline map entry starts, its key ending at `k`: a
/// colon, then an optional space.
pub open spec fn value_start(s: Seq<u8>, k: int) -> Result<int, DeError> {
    match expect_result(s, k, 58u8) {
        Err(x) => Err(x),
        Ok(_) => if k + 1 >= s.len() {
            err_at(ErrorCode::Eof, column_at(k + 1))
        } else if s[k + 1] == 32u8 {
            Ok(k + 2)
        } else {
            Ok(k + 1)
        },
    }
}

/// The entries of an inline map (`a:1 b:2` or `a: x, b: y`) whose keys the
/// schema names, up to (not past) the closing bracket. Values of other keys
/// are read as strings and dropped.
pub open spec fn map_entries(s: Seq<u8>, i: int, fields: Seq<SubField>, first: bool) -> Result<
    (Seq<(Seq<u8>, ScalarView)>, int),
    DeError,
>
    decreases s.len() - i,
    via map_entries_decreases
{
    if i < 0 || i >= s.len() {
        err_at(ErrorCode::Eof, column_at(i))
    } else if at_close(s, i) {
        Ok((seq![], i))
    } else {
        match separator(s, i, first) {
            Err(x) => Err(x),
            Ok(j) => {
                let ke = ident_end(s, j);
                let key = s.subrange(j, ke);
                match value_start(s, ke) {
                    Err(x) => Err(x),
                    Ok(v) => match lookup_sub(fields, key, 0) {
                        Some(kind) => match scalar_token(s, v, kind) {
                            Err(x) => Err(x),
                            Ok((x, e)) => with_prefix(seq![(key, x)], map_entries(s, e, fields, false)),
                        },
                        None => map_entries(s, str_end(s, v).0, fields, false),
                    },
                }
            },
        }
    }
}

#[via_fn]
proof fn map_entries_decreases(s: Seq<u8>, i: int, fields: Seq<SubField>, first: bool) {
    if 0 <= i < s.len() && !at_close(s, i) {
        if let Ok(j) = separator(s, i, first) {
            lemma_ident_end(s, j);
            let ke = ident_end(s, j);
            if let Ok(v) = value_start(s, ke) {
                lemma_str_end(s, v);
                if let Some(kind) = lookup_sub(fields, s.subrange(j, ke), 0) {
                    lemma_scalar_end(s, v, kind);
                }
            }
        }
    }
}

pub open spec fn sep_ok(s: Seq<u8>, i: int, first: bool) -> bool {
    separator(s, i, first) matches Ok(j) && (if first { j == i } else { i < j <= s.len() })
}

proof fn lemma_separator(s: Seq<u8>, i: int, first: bool)
    requires
        0 <= i <= s.len(),
    ensures
        separator(s, i, first) is Ok ==> sep_ok(s, i, first),
{
}

proof fn lemma_value_start(s: Seq<u8>, k: int)
    requires
        0 <= k <= s.len(),
    ensures
        value_start(s, k) matches Ok(v) ==> k < v <= s.len(),
{
}

impl<'a> MsgDeserializer<'a> {
    /// Consumes the separator before a list item or map entry.
    fn parse_separator(&mut self, first: bool) -> (r: Result<(), DeError>)
        requires
            old(self).wf(),
        ensures
            final(self).wf(),
            final(self).input == old(self).input,
            final(self).depth == old(self).depth,
            match separator(old(self).input@, old(self).index as int, first) {
                Ok(j) => r is Ok && final(self).index == j,
                Err(x) => r == Err::<(), DeError>(x),
            },
    {
        if !first {
            if self.peek() == Some(44u8) {
                self.discard();
            }
            self.expect(32u8)?;
        }
        Ok(())
    }

    /// Whether the cursor stands at a closing bracket, or a space and one.
    fn closing(&self) -> (r: bool)
        requires
            self.wf(),
        ensures
            r == at_close(self.input@, self.index as int),
    {
        if self.peek() == Some(93u8) {
            return true;
        }
        match self.peek2() {
            Some((a, b)) => a == 32u8 && b == 93u8,
            None => false,
        }
    }

    /// Reads the items of a list, stopping before its closing bracket.
    pub fn parse_list(&mut self, kind: ScalarKind) -> (r: Result<Vec<Scalar>, DeError>)
        requires
            old(self).wf(),
        ensures
            final(self).wf(),
            final(self).input == old(self).input,
            final(self).depth == old(self).depth,
            match list_items(old(self).input@, old(self).index as int, kind, true) {
                Ok(p) => r matches Ok(v) && scalars_view(v@) == p.0 && final(self).index == p.1,
                Err(x) => r == Err::<Vec<Scalar>, DeError>(x),
            },
    {
        let ghost s = self.input@;
        let ghost start = self.index as int;
        let mut items: Vec<Scalar> = Vec::new();
        let mut first = true;
        assert(scalars_view(items@) =~= seq![]);
        assert(with_prefix(seq![], list_items(s, start, kind, true)) == list_items(s, start, kind, true)) by {
            if let Ok((v, e)) = list_items(s, start, kind, true) {
                assert(Seq::<ScalarView>::empty() + v =~= v);
            }
        }
        loop
            invariant
                self.wf(),
                self.input == old(self).input,
                self.depth == old(self).depth,
                s == self.input@,
                start == old(self).index,
                list_items(s, start, kind, true) == with_prefix(
                    scalars_view(items@),
                    list_items(s, self.index as int, kind, first),
                ),
            decreases 2 * (s.len() - self.index) + if first { 1int } else { 0int },
        {
            let ghost i0 = self.index as int;
            let ghost f0 = first;
            let ghost pre = scalars_view(items@);
            self.peek_some()?;
            if self.closing() {
                assert(pre + seq![] =~= pre);
                return Ok(items);
            }
            proof {
                lemma_separator(s, i0, f0);
            }
            self.parse_separator(first)?;
            first = false;
            let ghost j = self.index as int;
            let c2 = self.peek_some()?;
            if c2 == 32u8 {
                self.discard();
            }
            let ghost k = self.index as int;
            proof {
                lemma_scalar_end(s, k, kind);
            }
            let v = self.parse_scalar(kind)?;
            let ghost vv = v@;
            items.push(v);
            proof {
                assert(scalars_view(items@) =~= pre.push(vv));
                lemma_with_prefix_push(pre, vv, list_items(s, self.index as int, kind, false));
            }
        }
    }

    /// Finds the kind of the first sub-field named `key`.
    fn find_sub(fields: &Vec<SubField>, key: &Vec<u8>) -> (r: Option<ScalarKind>)
        ensures
            r == lookup_sub(fields@, key@, 0),
    {
        let mut n: usize = 0;
        while n < fields.len()
            invariant
                n <= fields@.len(),
                lookup_sub(fields@, key@, 0) == lookup_sub(fields@, key@, n as int),
            decreases fields@.len() - n,
        {
            if bytes_equal(&fields[n].name, key) {
                return Some(fields[n].kind);
            }
            n = n + 1;
        }
        None
    }

    /// Consumes the colon and optional space between a key and its value.
    fn parse_value_start(&mut self) -> (r: Result<(), DeError>)
        requires
            old(self).wf(),
        ensures
            final(self).wf(),
            final(self).input == old(self).input,
            final(self).depth == old(self).depth,
            match value_start(old(self).input@, old(self).index as int) {
                Ok(v) => r is Ok && final(self).index == v,
                Err(x) => r == Err::<(), DeError>(x),
            },
    {
        self.expect(58u8)?;
        let c = self.peek_some()?;
        if c == 32u8 {
            self.discard();
        }
        Ok(())
    }

    /// Reads the entries of an inline map, stopping before its closing
    /// bracket.
    pub fn parse_child_map(&mut self, fields: &Vec<SubField>) -> (r: Result<Vec<MapEntry>, DeError>)
        requires
            old(self).wf(),
            old(self).depth < usize::MAX,
        ensures
            final(self).wf(),
            final(self).input == old(self).input,
            final(self).depth == old(self).depth,
            match map_entries(old(self).input@, old(self).index as int, fields@, true) {
                Ok(p) => r matches Ok(v) && entries_view(v@) == p.0 && final(self).index == p.1,
                Err(x) => r == Err::<Vec<MapEntry>, DeError>(x),
            },
    {
        let ghost s = self.input@;
        let ghost start = self.index as int;
        let mut items: Vec<MapEntry> = Vec::new();
        let mut first = true;
        assert(entries_view(items@) =~= seq![]);
        assert(with_prefix(seq![], map_entries(s, start, fields@, true)) == map_entries(s, start, fields@, true))
            by {
            if let Ok((v, e)) = map_entries(s, start, fields@, true) {
                assert(Seq::<(Seq<u8>, ScalarView)>::empty() + v =~= v);
            }
        }
        self.depth = self.depth + 1;
        loop
            invariant
                self.wf(),
                self.input == old(self).input,
                self.depth == old(self).depth + 1,
                s == self.input@,
                start == old(self).index,
                map_entries(s, start, fields@, true) == with_prefix(
                    entries_view(items@),
                    map_entries(s, self.index as int, fields@, first),
                ),
            decreases s.len() - self.index,
        {
            let ghost i0 = self.index as int;
            let ghost f0 = first;
            let ghost pre = entries_view(items@);
            match self.peek_some() {
                Ok(_) => {},
                Err(x) => {
                    self.depth = self.depth - 1;
                    return Err(x);
                },
            }
            if self.closing() {
                assert(pre + seq![] =~= pre);
                self.depth = self.depth - 1;
                return Ok(items);
            }
            proof {
                lemma_separator(s, i0, f0);
            }
            match self.parse_separator(first) {
                Ok(_) => {},
                Err(x) => {
                    self.depth = self.depth - 1;
                    return Err(x);
                },
            }
            first = false;
            let ghost j = self.index as int;
            proof {
                lemma_ident_end(s, j);
            }
            let key = self.parse_identifier();
            let ghost ke = self.index as int;
            proof {
                lemma_value_start(s, ke);
            }
            match self.parse_value_start() {
                Ok(_) => {},
                Err(x) => {
                    self.depth = self.depth - 1;
                    return Err(x);
                },
            }
            let ghost v0 = self.index as int;
            proof {
                lemma_str_end(s, v0);
            }
            match Self::find_sub(fields, &key) {
                Some(kind) => {
                    proof {
                        lemma_scalar_end(s, v0, kind);
                    }
                    match self.parse_scalar(kind) {
                        Ok(v) => {
                            let entry = MapEntry { key, value: v };
                            let ghost ev = entry@;
                            items.push(entry);
                            proof {
                                assert(entries_view(items@) =~= pre.push(ev));
                                lemma_with_prefix_push(pre, ev, map_entries(s, self.index as int, fields@, false));
                            }
                        },
                        Err(x) => {
                            self.depth = self.depth - 1;
                            return Err(x);
                        },
                    }
                },
                None => {
                    self.parse_str();
                },
            }
        }
    }
}

/// Whether two byte strings are equal.
pub fn bytes_equal(a: &Vec<u8>, b: &Vec<u8>) -> (r: bool)
    ensures
        r == (a@ == b@),
{
    if a.len() != b.len() {
        return false;
    }
    let mut k: usize = 0;
    while k < a.len()
        invariant
            a@.len() == b@.len(),
            k <= a@.len(),
            a@.subrange(0, k as int) == b@.subrange(0, k as int),
        decreases a@.len() - k,
    {
        if a[k] != b[k] {
            assert(a@[k as int] != b@[k as int]);
            return false;
        }
        assert(a@.subrange(0, k + 1) =~= a@.subrange(0, k as int).push(a@[k as int]));
        assert(b@.subrange(0, k + 1) =~= b@.subrange(0, k as int).push(b@[k as int]));
        k = k + 1;
    }
    assert(a@ =~= a@.subrange(0, k as int));
    assert(b@ =~= b@.subrange(0, k as int));
    true
}


/// What a top-level key holds.
#[derive(Debug, Clone, PartialEq, Eq)]
pub enum FieldKind {
    Scalar(ScalarKind),
    List(ScalarKind),
    Inline(Vec<SubField>),
}

/// The schema of one top-level `key[...]` entry.
#[derive(Debug, Clone, PartialEq, Eq)]
pub struct Field {
    pub name: Vec<u8>,
    pub kind: FieldKind,
}

/// One decoded top-level value.
#[derive(Debug, Clone, PartialEq, Eq)]
pub enum FieldValue {
    Scalar(Scalar),
    List(Vec<Scalar>),
    Inline(Vec<MapEntry>),
}

pub enum FieldValueView {
    Scalar(ScalarView),
    List(Seq<ScalarView>),
    Inline(Seq<(Seq<u8>, ScalarView)>),
}

impl View for FieldValue {
    type V = FieldValueView;

    open spec fn view(&self) -> FieldValueView {
        match self {
            FieldValue::Scalar(x) => FieldValueView::Scalar(x@),
            FieldValue::List(v) => FieldValueView::List(scalars_view(v@)),
            FieldValue::Inline(v) => FieldValueView::Inline(entries_view(v@)),
        }
    }
}

/// One decoded `key[...]` entry of a record.
#[derive(Debug, Clone, PartialEq, Eq)]
pub struct RecordEntry {
    pub key: Vec<u8>,
    pub value: FieldValue,
}

impl View for RecordEntry {
    type V = (Seq<u8>, FieldValueView);

    open spec fn view(&self) -> (Seq<u8>, FieldValueView) {
        (self.key@, self.value@)
    }
}

pub open spec fn record_view(v: Seq<RecordEntry>) -> Seq<(Seq<u8>, FieldValueView)> {
    v.map_values(|x: RecordEntry| x@)
}

/// The kind of the first field named `key`, from position `n` on.
pub open spec fn lookup_field(fields: Seq<Field>, key: Seq<u8>, n: int) -> Option<FieldKind>
    decreases fields.len() - n,
{
    if n < 0 || n >= fields.len() {
        None
    } else if fields[n].name@ == key {
        Some(fields[n].kind)
    } else {
        lookup_field(fields, key, n + 1)
    }
}

/// The value inside the brackets of a top-level entry starting at `v`,
/// decoded as `kind` says, and the index past it.
pub open spec fn field_value(s: Seq<u8>, v: int, kind: FieldKind) -> Result<(FieldValueView, int), DeError> {
    match kind {
        FieldKind::Scalar(k) => match scalar_token(s, v, k) {
            Ok((x, e)) => Ok((FieldValueView::Scalar(x), e)),
            Err(x) => Err(x),
        },
        FieldKind::List(k) => match list_items(s, v, k, true) {
            Ok((x, e)) => Ok((FieldValueView::List(x), e)),
            Err(x) => Err(x),
        },
        FieldKind::Inline(subs) => match map_entries(s, v, subs@, true) {
            Ok((x, e)) => Ok((FieldValueView::Inline(x), e)),
            Err(x) => Err(x),
        },
    }
}

/// Where a top-level value ends at `e`: an optional space, then `]`.
pub open spec fn value_close(s: Seq<u8>, e: int) -> Result<int, DeError> {
    if e < 0 || e >= s.len() {
        err_at(ErrorCode::Eof, column_at(e))
    } else {
        let c = if s[e] == 32u8 { e + 1 } else { e };
        match expect_result(s, c, 93u8) {
            Ok(_) => Ok(c + 1),
            Err(x) => Err(x),
        }
    }
}

/// Where the opening bracket after a key ending at `k` leaves the cursor.
pub open spec fn value_open(s: Seq<u8>, k: int) -> Result<int, DeError> {
    if k < 0 || k >= s.len() {
        err_at(ErrorCode::Eof, column_at(k))
    } else if s[k] != 91u8 {
        err_at(ErrorCode::ExpectedMapBracket, k)
    } else {
        Ok(k + 1)
    }
}

/// The entries `key[value]` of a record, separated by single spaces, up to
/// the end of the input. Entries whose keys the schema does not name are
/// read as strings and dropped.
pub open spec fn root_entries(s: Seq<u8>, i: int, fields: Seq<Field>, first: bool) -> Result<
    (Seq<(Seq<u8>, FieldValueView)>, int),
    DeError,
>
    decreases s.len() - i,
    via root_entries_decreases
{
    if i < 0 || i >= s.len() {
        Ok((seq![], i))
    } else {
        let j = if first { Ok(i) } else {
            match expect_result(s, i, 32u8) {
                Ok(_) => Ok(i + 1),
                Err(x) => Err(x),
            }
        };
        match j {
            Err(x) => Err(x),
            Ok(j) => {
                let ke = ident_end(s, j);
                let key = s.subrange(j, ke);
                match value_open(s, ke) {
                    Err(x) => Err(x),
                    Ok(v) => {
                        let val = match lookup_field(fields, key, 0) {
                            Some(kind) => match field_value(s, v, kind) {
                                Ok((x, e)) => Ok((Some(x), e)),
                                Err(x) => Err(x),
                            },
                            None => Ok((None, str_end(s, v).0)),
                        };
                        match val {
                            Err(x) => Err(x),
                            Ok((x, e)) => match value_close(s, e) {
                                Err(y) => Err(y),
                                Ok(n) => match x {
                                    Some(x) => with_prefix(seq![(key, x)], root_entries(s, n, fields, false)),
                                    None => root_entries(s, n, fields, false),
                                },
                            },
                        }
                    },
                }
            },
        }
    }
}

proof fn lemma_list_end(s: Seq<u8>, i: int, kind: ScalarKind, first: bool)
    requires
        0 <= i <= s.len(),
    ensures
        list_items(s, i, kind, first) matches Ok(p) ==> i <= p.1 <= s.len(),
    decreases s.len() - i, if first { 1int } else { 0int },
{
    if 0 <= i < s.len() && !at_close(s, i) {
        lemma_separator(s, i, first);
        if let Ok(j) = separator(s, i, first) {
            if j < s.len() {
                let k = if s[j] == 32u8 { j + 1 } else { j };
                lemma_scalar_end(s, k, kind);
                if let Ok((v, e)) = scalar_token(s, k, kind) {
                    lemma_list_end(s, e, kind, false);
                }
            }
        }
    }
}

proof fn lemma_map_end(s: Seq<u8>, i: int, fields: Seq<SubField>, first: bool)
    requires
        0 <= i <= s.len(),
    ensures
        map_entries(s, i, fields, first) matches Ok(p) ==> i <= p.1 <= s.len(),
    decreases s.len() - i,
{
    if 0 <= i < s.len() && !at_close(s, i) {
        lemma_separator(s, i, first);
        if let Ok(j) = separator(s, i, first) {
            lemma_ident_end(s, j);
            let ke = ident_end(s, j);
            lemma_value_start(s, ke);
            if let Ok(v) = value_start(s, ke) {
                lemma_str_end(s, v);
                match lookup_sub(fields, s.subrange(j, ke), 0) {
                    Some(kind) => {
                        lemma_scalar_end(s, v, kind);
                        if let Ok((x, e)) = scalar_token(s, v, kind) {
                            lemma_map_end(s, e, fields, false);
                        }
                    },
                    None => {
                        lemma_map_end(s, str_end(s, v).0, fields, false);
                    },
                }
            }
        }
    }
}

proof fn lemma_field_value_end(s: Seq<u8>, v: int, kind: FieldKind)
    requires
        0 <= v <= s.len(),
    ensures
        field_value(s, v, kind) matches Ok(p) ==> v <= p.1 <= s.len(),
{
    match kind {
        FieldKind::Scalar(k) => lemma_scalar_end(s, v, k),
        FieldKind::List(k) => lemma_list_end(s, v, k, true),
        FieldKind::Inline(subs) => lemma_map_end(s, v, subs@, true),
    }
}

#[via_fn]
proof fn root_entries_decreases(s: Seq<u8>, i: int, fields: Seq<Field>, first: bool) {
    if 0 <= i < s.len() {
        let j = if first { i } else { i + 1 };
        if j <= s.len() {
            lemma_ident_end(s, j);
            let ke = ident_end(s, j);
            if let Ok(v) = value_open(s, ke) {
                lemma_str_end(s, v);
                if let Some(kind) = lookup_field(fields, s.subrange(j, ke), 0) {
                    lemma_field_value_end(s, v, kind);
                }
            }
        }
    }
}

impl<'a> MsgDeserializer<'a> {
    /// Finds the kind of the first field named `key`.
    fn find_field(fields: &Vec<Field>, key: &Vec<u8>) -> (r: Option<usize>)
        ensures
            r matches Some(n) ==> n < fields@.len() && lookup_field(fields@, key@, 0) == Some(fields@[n as int].kind),
            r is None ==> lookup_field(fields@, key@, 0) is None,
    {
        let mut n: usize = 0;
        while n < fields.len()
            invariant
                n <= fields@.len(),
                lookup_field(fields@, key@, 0) == lookup_field(fields@, key@, n as int),
            decreases fields@.len() - n,
        {
            if bytes_equal(&fields[n].name, key) {
                return Some(n);
            }
            n = n + 1;
        }
        None
    }

    /// Reads the value inside the brackets of a top-level entry.
    fn parse_field_value(&mut self, kind: &FieldKind) -> (r: Result<FieldValue, DeError>)
        requires
            old(self).wf(),
            old(self).depth < usize::MAX,
        ensures
            final(self).wf(),
            final(self).input == old(self).input,
            final(self).depth == old(self).depth,
            match field_value(old(self).input@, old(self).index as int, *kind) {
                Ok(p) => r matches Ok(v) && v@ == p.0 && final(self).index == p.1,
                Err(x) => r == Err::<FieldValue, DeError>(x),
            },
    {
        match kind {
            FieldKind::Scalar(k) => Ok(FieldValue::Scalar(self.parse_scalar(*k)?)),
            FieldKind::List(k) => Ok(FieldValue::List(self.parse_list(*k)?)),
            FieldKind::Inline(subs) => Ok(FieldValue::Inline(self.parse_child_map(subs)?)),
        }
    }

    /// Consumes the optional space and the `]` that end a top-level value.
    fn parse_value_close(&mut self) -> (r: Result<(), DeError>)
        requires
            old(self).wf(),
        ensures
            final(self).wf(),
            final(self).input == old(self).input,
            final(self).depth == old(self).depth,
            match value_close(old(self).input@, old(self).index as int) {
                Ok(n) => r is Ok && final(self).index == n,
                Err(x) => r == Err::<(), DeError>(x),
            },
    {
        let c = self.peek_some()?;
        if c == 32u8 {
            self.discard();
        }
        self.expect(93u8)
    }

    /// Consumes the `[` that opens a top-level value.
    fn parse_value_open(&mut self) -> (r: Result<(), DeError>)
        requires
            old(self).wf(),
        ensures
            final(self).wf(),
            final(self).input == old(self).input,
            final(self).depth == old(self).depth,
            match value_open(old(self).input@, old(self).index as int) {
                Ok(n) => r is Ok && final(self).index == n,
                Err(x) => r == Err::<(), DeError>(x),
            },
    {
        let c = self.next_some()?;
        if c != 91u8 {
            return Err(self.error(ErrorCode::ExpectedMapBracket));
        }
        Ok(())
    }

    /// Reads a record: `key[value]` entries up to the end of the input.
    pub fn parse_root_map(&mut self, fields: &Vec<Field>) -> (r: Result<Vec<RecordEntry>, DeError>)
        requires
            old(self).wf(),
            old(self).depth < usize::MAX - 1,
        ensures
            final(self).wf(),
            final(self).input == old(self).input,
            final(self).depth == old(self).depth,
            match root_entries(old(self).input@, old(self).index as int, fields@, true) {
                Ok(p) => r matches Ok(v) && record_view(v@) == p.0 && final(self).index == p.1,
                Err(x) => r == Err::<Vec<RecordEntry>, DeError>(x),
            },
    {
        let ghost s = self.input@;
        let ghost start = self.index as int;
        let mut items: Vec<RecordEntry> = Vec::new();
        let mut first = true;
        assert(record_view(items@) =~= seq![]);
        assert(with_prefix(seq![], root_entries(s, start, fields@, true)) == root_entries(s, start, fields@, true))
            by {
            if let Ok((v, e)) = root_entries(s, start, fields@, true) {
                assert(Seq::<(Seq<u8>, FieldValueView)>::empty() + v =~= v);
            }
        }
        self.depth = self.depth + 1;
        loop
            invariant
                self.wf(),
                self.input == old(self).input,
                self.depth == old(self).depth + 1,
                old(self).depth < usize::MAX - 1,
                s == self.input@,
                start == old(self).index,
                root_entries(s, start, fields@, true) == with_prefix(
                    record_view(items@),
                    root_entries(s, self.index as int, fields@, first),
                ),
            decreases s.len() - self.index,
        {
            let ghost i0 = self.index as int;
            let ghost pre = record_view(items@);
            if self.peek().is_none() {
                assert(pre + seq![] =~= pre);
                self.depth = self.depth - 1;
                return Ok(items);
            }
            if !first {
                if let Err(x) = self.expect(32u8) {
                    self.depth = self.depth - 1;
                    return Err(x);
                }
            }
            first = false;
            let ghost j = self.index as int;
            proof {
                lemma_ident_end(s, j);
            }
            let key = self.parse_identifier();
            if let Err(x) = self.parse_value_open() {
                self.depth = self.depth - 1;
                return Err(x);
            }
            let ghost v0 = self.index as int;
            proof {
                lemma_str_end(s, v0);
            }
            let val = match Self::find_field(fields, &key) {
                Some(n) => {
                    proof {
                        lemma_field_value_end(s, v0, fields@[n as int].kind);
                    }
                    match self.parse_field_value(&fields[n].kind) {
                        Ok(v) => Some(v),
                        Err(x) => {
                            self.depth = self.depth - 1;
                            return Err(x);
                        },
                    }
                },
                None => {
                    self.parse_str();
                    None
                },
            };
            if let Err(x) = self.parse_value_close() {
                self.depth = self.depth - 1;
                return Err(x);
            }
            match val {
                Some(v) => {
                    let entry = RecordEntry { key, value: v };
                    let ghost ev = entry@;
                    items.push(entry);
                    proof {
                        assert(record_view(items@) =~= pre.push(ev));
                        lemma_with_prefix_push(pre, ev, root_entries(s, self.index as int, fields@, false));
                    }
                },
                None => {},
            }
        }
    }
}

/// Decodes a whole message as a record with the given schema.
pub open spec fn decode(s: Seq<u8>, fields: Seq<Field>) -> Result<Seq<(Seq<u8>, FieldValueView)>, DeError> {
    match root_entries(s, 0, fields, true) {
        Ok((v, e)) => if e >= s.len() {
            Ok(v)
        } else {
            err_at(ErrorCode::TrailingCharacters, column_at(e))
        },
        Err(x) => Err(x),
    }
}

/// Decodes `s` as a record: its `key[value]` entries whose keys `fields`
/// names, in the order they come, each read as its field's kind says.
pub fn from_str(s: &str, fields: &Vec<Field>) -> (r: Result<Vec<RecordEntry>, DeError>)
    ensures
        match decode(s.spec_bytes(), fields@) {
            Ok(v) => r matches Ok(x) && record_view(x@) == v,
            Err(e) => r == Err::<Vec<RecordEntry>, DeError>(e),
        },
{
    let mut de = MsgDeserializer::from_str(s);
    let t = de.parse_root_map(fields)?;
    if de.peek().is_none() {
        Ok(t)
    } else {
        Err(de.error(ErrorCode::TrailingCharacters))
    }
}

} // verus!
