//! The textual dictionary format, parsed byte by byte: message lines
//! (`BO_ <id> <name>: <size> <sender>`) and signal lines
//! (`SG_ <name> : <start>|<size>@<endian><sign> (<factor>,<offset>)
//! [<min>|<max>] "<unit>" <receivers>`). Every scan is specified as a
//! function of the line's bytes.

use vstd::prelude::*;

verus! {

/// Whether a byte is horizontal whitespace (space, tab, carriage return).
pub open spec fn is_ws(b: u8) -> bool {
    b == 32 || b == 9 || b == 13
}

/// Whether a byte is an ASCII decimal digit.
pub open spec fn is_digit(b: u8) -> bool {
    48 <= b <= 57
}

/// Whether a byte can stand in a name: not whitespace and not one of the
/// delimiters `:`, `|`, `@`, `"`.
pub open spec fn is_name_byte(b: u8) -> bool {
    !is_ws(b) && b != 58 && b != 124 && b != 64 && b != 34
}

/// The first position at or after `i` that is not whitespace.
pub open spec fn ws_end(s: Seq<u8>, i: int) -> int
    decreases s.len() - i,
{
    if i < 0 || i >= s.len() || !is_ws(s[i]) {
        i
    } else {
        ws_end(s, i + 1)
    }
}

/// The first position at or after `i` that is not a digit.
pub open spec fn digits_end(s: Seq<u8>, i: int) -> int
    decreases s.len() - i,
{
    if i < 0 || i >= s.len() || !is_digit(s[i]) {
        i
    } else {
        digits_end(s, i + 1)
    }
}

/// The first position at or after `i` that cannot stand in a name.
pub open spec fn name_end(s: Seq<u8>, i: int) -> int
    decreases s.len() - i,
{
    if i < 0 || i >= s.len() || !is_name_byte(s[i]) {
        i
    } else {
        name_end(s, i + 1)
    }
}

/// The first position at or after `i` holding a double quote, or the end.
pub open spec fn quote_end(s: Seq<u8>, i: int) -> int
    decreases s.len() - i,
{
    if i < 0 || i >= s.len() || s[i] == 34 {
        i
    } else {
        quote_end(s, i + 1)
    }
}

/// The value of the decimal digits `s[i..j]`.
pub open spec fn digits_val(s: Seq<u8>, i: int, j: int) -> nat
    decreases j - i,
{
    if j <= i {
        0
    } else {
        digits_val(s, i, j - 1) * 10 + (s[j - 1] - 48) as nat
    }
}

/// Ten to the power `n`.
pub open spec fn pow10(n: nat) -> nat
    decreases n,
{
    if n == 0 {
        1
    } else {
        10 * pow10((n - 1) as nat)
    }
}

/// A longer digit span never has a smaller value.
pub proof fn lemma_digits_val_monotonic(s: Seq<u8>, i: int, j: int, k: int)
    requires
        i <= j <= k,
    ensures
        digits_val(s, i, j) <= digits_val(s, i, k),
    decreases k - j,
{
    if j < k {
        lemma_digits_val_monotonic(s, i, j, k - 1);
    }
}

/// Scan positions are monotone and bounded by the length.
pub proof fn lemma_ws_end_bounds(s: Seq<u8>, i: int)
    requires
        0 <= i <= s.len(),
    ensures
        i <= ws_end(s, i) <= s.len(),
    decreases s.len() - i,
{
    if i < s.len() && is_ws(s[i]) {
        lemma_ws_end_bounds(s, i + 1);
    }
}

/// Scan positions are monotone and bounded by the length.
pub proof fn lemma_digits_end_bounds(s: Seq<u8>, i: int)
    requires
        0 <= i <= s.len(),
    ensures
        i <= digits_end(s, i) <= s.len(),
    decreases s.len() - i,
{
    if i < s.len() && is_digit(s[i]) {
        lemma_digits_end_bounds(s, i + 1);
    }
}

/// Scan positions are monotone and bounded by the length.
pub proof fn lemma_name_end_bounds(s: Seq<u8>, i: int)
    requires
        0 <= i <= s.len(),
    ensures
        i <= name_end(s, i) <= s.len(),
    decreases s.len() - i,
{
    if i < s.len() && is_name_byte(s[i]) {
        lemma_name_end_bounds(s, i + 1);
    }
}

/// Scan positions are monotone and bounded by the length.
pub proof fn lemma_quote_end_bounds(s: Seq<u8>, i: int)
    requires
        0 <= i <= s.len(),
    ensures
        i <= quote_end(s, i) <= s.len(),
    decreases s.len() - i,
{
    if i < s.len() && s[i] != 34 {
        lemma_quote_end_bounds(s, i + 1);
    }
}

/// Skips whitespace from `i`.
pub fn skip_ws(s: &[u8], i: usize) -> (j: usize)
    requires
        i <= s@.len(),
    ensures
        j == ws_end(s@, i as int),
        i <= j <= s@.len(),
{
    let mut j = i;
    while j < s.len() && (s[j] == 32 || s[j] == 9 || s[j] == 13)
        invariant
            i <= j <= s@.len(),
            ws_end(s@, i as int) == ws_end(s@, j as int),
        decreases s@.len() - j,
    {
        j = j + 1;
    }
    j
}

/// Finds the end of the digit run starting at `i`.
pub fn scan_digits(s: &[u8], i: usize) -> (j: usize)
    requires
        i <= s@.len(),
    ensures
        j == digits_end(s@, i as int),
        i <= j <= s@.len(),
{
    let mut j = i;
    while j < s.len() && 48 <= s[j] && s[j] <= 57
        invariant
            i <= j <= s@.len(),
            digits_end(s@, i as int) == digits_end(s@, j as int),
        decreases s@.len() - j,
    {
        j = j + 1;
    }
    j
}

/// Finds the end of the name starting at `i`.
pub fn scan_name(s: &[u8], i: usize) -> (j: usize)
    requires
        i <= s@.len(),
    ensures
        j == name_end(s@, i as int),
        i <= j <= s@.len(),
{
    let mut j = i;
    while j < s.len() && !(s[j] == 32 || s[j] == 9 || s[j] == 13 || s[j] == 58 || s[j] == 124
        || s[j] == 64 || s[j] == 34)
        invariant
            i <= j <= s@.len(),
            name_end(s@, i as int) == name_end(s@, j as int),
        decreases s@.len() - j,
    {
        j = j + 1;
    }
    j
}

/// Finds the next double quote at or after `i`.
pub fn scan_quote(s: &[u8], i: usize) -> (j: usize)
    requires
        i <= s@.len(),
    ensures
        j == quote_end(s@, i as int),
        i <= j <= s@.len(),
{
    let mut j = i;
    while j < s.len() && s[j] != 34
        invariant
            i <= j <= s@.len(),
            quote_end(s@, i as int) == quote_end(s@, j as int),
        decreases s@.len() - j,
    {
        j = j + 1;
    }
    j
}

/// Every byte of `s[i .. digits_end(s, i))` is a digit.
pub proof fn lemma_digits_end_all(s: Seq<u8>, i: int)
    requires
        0 <= i <= s.len(),
    ensures
        forall|k: int| i <= k < digits_end(s, i) ==> is_digit(s[k]),
    decreases s.len() - i,
{
    if i < s.len() && is_digit(s[i]) {
        lemma_digits_end_all(s, i + 1);
    }
}

/// Reads the value of the digits `s[i..j]`, or nothing where it does not
/// fit a machine word.
pub fn read_digits(s: &[u8], i: usize, j: usize) -> (r: Option<u64>)
    requires
        i <= j <= s@.len(),
        forall|k: int| i <= k < j ==> is_digit(s@[k]),
    ensures
        digits_val(s@, i as int, j as int) <= u64::MAX ==> r == Some(
            digits_val(s@, i as int, j as int) as u64,
        ),
        digits_val(s@, i as int, j as int) > u64::MAX ==> r is None,
{
    let mut acc: u64 = 0;
    let mut k = i;
    while k < j
        invariant
            i <= k <= j <= s@.len(),
            forall|m: int| i <= m < j ==> is_digit(s@[m]),
            acc == digits_val(s@, i as int, k as int),
        decreases j - k,
    {
        let d = s[k];
        proof {
            assert(is_digit(s@[k as int]));
        }
        let dv: u64 = (d - 48) as u64;
        if acc > (u64::MAX - dv) / 10 {
            proof {
                assert(acc * 10 + dv > u64::MAX) by (nonlinear_arith)
                    requires
                        acc > (u64::MAX - dv) / 10,
                        0 <= dv <= 9,
                        acc >= 0,
                ;
                lemma_digits_val_monotonic(s@, i as int, k + 1, j as int);
            }
            return None;
        }
        proof {
            assert(acc * 10 + dv <= u64::MAX) by (nonlinear_arith)
                requires
                    acc <= (u64::MAX - dv) / 10,
                    0 <= dv <= 9,
                    acc >= 0,
            ;
        }
        acc = acc * 10 + dv;
        k = k + 1;
    }
    Some(acc)
}

/// A decimal number from the dictionary text, kept exact: the value is
/// `int_part + frac_part / 10^frac_len`, negated when `neg` holds.
#[derive(Clone, Copy, Debug, PartialEq, Eq, Structural)]
pub struct Decimal {
    /// Whether the number is negative.
    pub neg: bool,
    /// Digits before the decimal point.
    pub int_part: u64,
    /// Digits after the decimal point, as an integer.
    pub frac_part: u64,
    /// How many digits stand after the decimal point.
    pub frac_len: u32,
}

impl Decimal {
    /// The number zero.
    pub open spec fn spec_zero() -> Decimal {
        Decimal { neg: false, int_part: 0, frac_part: 0, frac_len: 0 }
    }

    /// The number one.
    pub open spec fn spec_one() -> Decimal {
        Decimal { neg: false, int_part: 1, frac_part: 0, frac_len: 0 }
    }
}

/// The decimal number starting at `i`: an optional minus sign, at least one
/// digit, then optionally a point and at least one more digit. `None` where
/// the text does not fit this shape or a digit run does not fit a machine
/// word; otherwise the number and the position after it.
pub open spec fn spec_decimal(s: Seq<u8>, i: int) -> Option<(Decimal, int)> {
    let neg = 0 <= i < s.len() && s[i] == 45;
    let i0 = if neg {
        i + 1
    } else {
        i
    };
    let a = digits_end(s, i0);
    if a == i0 || digits_val(s, i0, a) > u64::MAX {
        None
    } else if a < s.len() && s[a] == 46 {
        let b = digits_end(s, a + 1);
        if b == a + 1 || digits_val(s, a + 1, b) > u64::MAX || b - a - 1 > u32::MAX {
            None
        } else {
            Some(
                (
                    Decimal {
                        neg,
                        int_part: digits_val(s, i0, a) as u64,
                        frac_part: digits_val(s, a + 1, b) as u64,
                        frac_len: (b - a - 1) as u32,
                    },
                    b,
                ),
            )
        }
    } else {
        Some(
            (
                Decimal {
                    neg,
                    int_part: digits_val(s, i0, a) as u64,
                    frac_part: 0,
                    frac_len: 0,
                },
                a,
            ),
        )
    }
}

/// Reads the decimal number starting at `i`.
pub fn read_decimal(s: &[u8], i: usize) -> (r: Option<(Decimal, usize)>)
    requires
        i <= s@.len(),
    ensures
        match r {
            Some((d, j)) => spec_decimal(s@, i as int) == Some((d, j as int)) && i <= j <= s@.len(),
            None => spec_decimal(s@, i as int) is None,
        },
{
    let neg = i < s.len() && s[i] == 45;
    let i0 = if neg {
        i + 1
    } else {
        i
    };
    let a = scan_digits(s, i0);
    if a == i0 {
        return None;
    }
    proof {
        lemma_digits_end_all(s@, i0 as int);
    }
    let int_part = match read_digits(s, i0, a) {
        Some(v) => v,
        None => {
            return None;
        },
    };
    if a < s.len() && s[a] == 46 {
        let b = scan_digits(s, a + 1);
        if b == a + 1 {
            return None;
        }
        proof {
            lemma_digits_end_all(s@, a + 1);
        }
        let frac_part = match read_digits(s, a + 1, b) {
            Some(v) => v,
            None => {
                return None;
            },
        };
        if b - a - 1 > u32::MAX as usize {
            return None;
        }
        let frac_len = (b - a - 1) as u32;
        Some((Decimal { neg, int_part, frac_part, frac_len }, b))
    } else {
        Some((Decimal { neg, int_part, frac_part: 0, frac_len: 0 }, a))
    }
}

/// One signal definition of a dictionary message.
#[derive(Clone, Debug)]
pub struct SignalDef {
    /// Signal name.
    pub name: Vec<u8>,
    /// First bit of the signal window in the frame data.
    pub start_bit: u16,
    /// Width of the signal window in bits.
    pub bit_length: u16,
    /// Whether the window is read little-endian (`@1`) or big-endian (`@0`).
    pub little_endian: bool,
    /// Whether the raw value is sign-extended (`-`) or not (`+`).
    pub signed: bool,
    /// Scale factor applied to the raw value.
    pub factor: Decimal,
    /// Offset added after scaling.
    pub offset: Decimal,
    /// Declared minimum of the physical value.
    pub min: Decimal,
    /// Declared maximum of the physical value.
    pub max: Decimal,
    /// Unit text, possibly empty.
    pub unit: Vec<u8>,
}

/// Mathematical image of a signal definition.
#[verifier::ext_equal]
pub ghost struct SpecSignal {
    /// Signal name.
    pub name: Seq<u8>,
    /// First bit of the signal window.
    pub start_bit: u16,
    /// Width of the signal window in bits.
    pub bit_length: u16,
    /// Whether the window is read little-endian.
    pub little_endian: bool,
    /// Whether the raw value is sign-extended.
    pub signed: bool,
    /// Scale factor.
    pub factor: Decimal,
    /// Offset.
    pub offset: Decimal,
    /// Declared minimum.
    pub min: Decimal,
    /// Declared maximum.
    pub max: Decimal,
    /// Unit text.
    pub unit: Seq<u8>,
}

impl DeepView for SignalDef {
    type V = SpecSignal;

    open spec fn deep_view(&self) -> SpecSignal {
        SpecSignal {
            name: self.name@,
            start_bit: self.start_bit,
            bit_length: self.bit_length,
            little_endian: self.little_endian,
            signed: self.signed,
            factor: self.factor,
            offset: self.offset,
            min: self.min,
            max: self.max,
            unit: self.unit@,
        }
    }
}

/// The signal definition on one `SG_` line, or `None` where the line does
/// not fit the grammar `SG_ <name> : <start>|<size>@<endian><sign>
/// (<factor>,<offset>) [<min>|<max>] "<unit>" <receivers>`.
pub open spec fn spec_sg_line(s: Seq<u8>) -> Option<SpecSignal> {
    let i0 = ws_end(s, 0);
    if !(i0 + 4 <= s.len() && s[i0] == 83 && s[i0 + 1] == 71 && s[i0 + 2] == 95 && is_ws(
        s[i0 + 3],
    )) {
        None
    } else {
        let n0 = ws_end(s, i0 + 3);
        let n1 = name_end(s, n0);
        if n1 == n0 {
            None
        } else {
            let i2 = ws_end(s, n1);
            if !(i2 < s.len() && s[i2] == 58) {
                None
            } else {
                let i3 = ws_end(s, i2 + 1);
                let a1 = digits_end(s, i3);
                if a1 == i3 || digits_val(s, i3, a1) > u16::MAX {
                    None
                } else if !(a1 < s.len() && s[a1] == 124) {
                    None
                } else {
                    let b1 = digits_end(s, a1 + 1);
                    if b1 == a1 + 1 || digits_val(s, a1 + 1, b1) > u16::MAX {
                        None
                    } else if !(b1 + 3 <= s.len() && s[b1] == 64 && (s[b1 + 1] == 48 || s[b1 + 1]
                        == 49) && (s[b1 + 2] == 43 || s[b1 + 2] == 45)) {
                        None
                    } else {
                        spec_sg_line_tail(s, i0 + 3, n0, n1, i3, a1, b1)
                    }
                }
            }
        }
    }
}

/// The tail of an `SG_` line from the scaling parenthesis on; positions of
/// the already-scanned name and number spans are handed through.
pub open spec fn spec_sg_line_tail(
    s: Seq<u8>,
    after_kw: int,
    n0: int,
    n1: int,
    i3: int,
    a1: int,
    b1: int,
) -> Option<SpecSignal> {
    let i4 = ws_end(s, b1 + 3);
    if !(i4 < s.len() && s[i4] == 40) {
        None
    } else {
        match spec_decimal(s, i4 + 1) {
            None => None,
            Some((factor, p1)) => {
                if !(p1 < s.len() && s[p1] == 44) {
                    None
                } else {
                    match spec_decimal(s, p1 + 1) {
                        None => None,
                        Some((offset, p2)) => {
                            if !(p2 < s.len() && s[p2] == 41) {
                                None
                            } else {
                                let i5 = ws_end(s, p2 + 1);
                                if !(i5 < s.len() && s[i5] == 91) {
                                    None
                                } else {
                                    spec_sg_line_range(s, n0, n1, i3, a1, b1, factor, offset, i5)
                                }
                            }
                        },
                    }
                }
            },
        }
    }
}

/// The `[min|max] "unit"` tail of an `SG_` line.
pub open spec fn spec_sg_line_range(
    s: Seq<u8>,
    n0: int,
    n1: int,
    i3: int,
    a1: int,
    b1: int,
    factor: Decimal,
    offset: Decimal,
    i5: int,
) -> Option<SpecSignal> {
    match spec_decimal(s, i5 + 1) {
        None => None,
        Some((minv, q1)) => {
            if !(q1 < s.len() && s[q1] == 124) {
                None
            } else {
                match spec_decimal(s, q1 + 1) {
                    None => None,
                    Some((maxv, q2)) => {
                        if !(q2 < s.len() && s[q2] == 93) {
                            None
                        } else {
                            let i6 = ws_end(s, q2 + 1);
                            if !(i6 < s.len() && s[i6] == 34) {
                                None
                            } else {
                                let u1 = quote_end(s, i6 + 1);
                                if u1 >= s.len() {
                                    None
                                } else {
                                    Some(
                                        SpecSignal {
                                            name: s.subrange(n0, n1),
                                            start_bit: digits_val(s, i3, a1) as u16,
                                            bit_length: digits_val(s, a1 + 1, b1) as u16,
                                            little_endian: s[b1 + 1] == 49,
                                            signed: s[b1 + 2] == 45,
                                            factor,
                                            offset,
                                            min: minv,
                                            max: maxv,
                                            unit: s.subrange(i6 + 1, u1),
                                        },
                                    )
                                }
                            }
                        }
                    },
                }
            }
        },
    }
}

/// Parses one `SG_` line.
#[verifier::rlimit(100)]
pub fn parse_sg_line(s: &[u8]) -> (r: Option<SignalDef>)
    ensures
        match r {
            Some(sig) => spec_sg_line(s@) == Some(sig.deep_view()),
            None => spec_sg_line(s@) is None,
        },
{
    let i0 = skip_ws(s, 0);
    if !(s.len() >= 4 && i0 <= s.len() - 4 && s[i0] == 83 && s[i0 + 1] == 71 && s[i0 + 2] == 95 && (
    s[i0 + 3] == 32 || s[i0 + 3] == 9 || s[i0 + 3] == 13)) {
        return None;
    }
    let n0 = skip_ws(s, i0 + 3);
    let n1 = scan_name(s, n0);
    if n1 == n0 {
        return None;
    }
    let i2 = skip_ws(s, n1);
    if !(i2 < s.len() && s[i2] == 58) {
        return None;
    }
    let i3 = skip_ws(s, i2 + 1);
    let a1 = scan_digits(s, i3);
    proof {
        lemma_digits_end_all(s@, i3 as int);
    }
    if a1 == i3 {
        return None;
    }
    let start_bit = match read_digits(s, i3, a1) {
        Some(v) if v <= u16::MAX as u64 => v as u16,
        _ => {
            return None;
        },
    };
    if !(a1 < s.len() && s[a1] == 124) {
        return None;
    }
    let b1 = scan_digits(s, a1 + 1);
    proof {
        lemma_digits_end_all(s@, a1 + 1);
    }
    if b1 == a1 + 1 {
        return None;
    }
    let bit_length = match read_digits(s, a1 + 1, b1) {
        Some(v) if v <= u16::MAX as u64 => v as u16,
        _ => {
            return None;
        },
    };
    if !(s.len() >= 3 && b1 <= s.len() - 3 && s[b1] == 64 && (s[b1 + 1] == 48 || s[b1 + 1] == 49)
        && (s[b1 + 2] == 43 || s[b1 + 2] == 45)) {
        return None;
    }
    let little_endian = s[b1 + 1] == 49;
    let signed = s[b1 + 2] == 45;
    let i4 = skip_ws(s, b1 + 3);
    if !(i4 < s.len() && s[i4] == 40) {
        return None;
    }
    let (factor, p1) = match read_decimal(s, i4 + 1) {
        Some(p) => p,
        None => {
            return None;
        },
    };
    if !(p1 < s.len() && s[p1] == 44) {
        return None;
    }
    let (offset, p2) = match read_decimal(s, p1 + 1) {
        Some(p) => p,
        None => {
            return None;
        },
    };
    if !(p2 < s.len() && s[p2] == 41) {
        return None;
    }
    let i5 = skip_ws(s, p2 + 1);
    if !(i5 < s.len() && s[i5] == 91) {
        return None;
    }
    let (minv, q1) = match read_decimal(s, i5 + 1) {
        Some(p) => p,
        None => {
            return None;
        },
    };
    if !(q1 < s.len() && s[q1] == 124) {
        return None;
    }
    let (maxv, q2) = match read_decimal(s, q1 + 1) {
        Some(p) => p,
        None => {
            return None;
        },
    };
    if !(q2 < s.len() && s[q2] == 93) {
        return None;
    }
    let i6 = skip_ws(s, q2 + 1);
    if !(i6 < s.len() && s[i6] == 34) {
        return None;
    }
    let u1 = scan_quote(s, i6 + 1);
    if u1 >= s.len() {
        return None;
    }
    let name = crate::data_layer::copy_range(s, n0, n1);
    let unit = crate::data_layer::copy_range(s, i6 + 1, u1);
    let sig = SignalDef {
        name,
        start_bit,
        bit_length,
        little_endian,
        signed,
        factor,
        offset,
        min: minv,
        max: maxv,
        unit,
    };
    proof {
        assert(spec_sg_line(s@) == Some(sig.deep_view()));
    }
    Some(sig)
}

/// The header of one `BO_` line: identifier, name, byte size, sender.
#[verifier::ext_equal]
pub ghost struct SpecMsgHeader {
    /// Message identifier, extended identifiers with bit 31 cleared.
    pub id: u32,
    /// Message name.
    pub name: Seq<u8>,
    /// Declared byte size, informational.
    pub size: u32,
    /// Sending node, empty where absent.
    pub sender: Seq<u8>,
}

/// The identifier a raw dictionary number names: numbers with bit 31 set
/// are extended identifiers and keep their low 29 bits.
pub open spec fn spec_msg_id(raw: nat) -> nat {
    if raw >= 0x80000000 {
        raw % 0x20000000
    } else {
        raw
    }
}

/// The message header on one `BO_` line, or `None` where the line does not
/// fit the grammar `BO_ <id> <name>: <size> <sender>`.
pub open spec fn spec_bo_line(s: Seq<u8>) -> Option<SpecMsgHeader> {
    let i0 = ws_end(s, 0);
    if !(i0 + 4 <= s.len() && s[i0] == 66 && s[i0 + 1] == 79 && s[i0 + 2] == 95 && is_ws(
        s[i0 + 3],
    )) {
        None
    } else {
        let i1 = ws_end(s, i0 + 3);
        let d1 = digits_end(s, i1);
        if d1 == i1 || digits_val(s, i1, d1) > u32::MAX {
            None
        } else {
            let n0 = ws_end(s, d1);
            let n1 = name_end(s, n0);
            if n1 == n0 {
                None
            } else {
                let c0 = ws_end(s, n1);
                if !(c0 < s.len() && s[c0] == 58) {
                    None
                } else {
                    let z0 = ws_end(s, c0 + 1);
                    let z1 = digits_end(s, z0);
                    if z1 == z0 || digits_val(s, z0, z1) > u32::MAX {
                        None
                    } else {
                        let s0 = ws_end(s, z1);
                        let s1 = name_end(s, s0);
                        Some(
                            SpecMsgHeader {
                                id: spec_msg_id(digits_val(s, i1, d1)) as u32,
                                name: s.subrange(n0, n1),
                                size: digits_val(s, z0, z1) as u32,
                                sender: s.subrange(s0, s1),
                            },
                        )
                    }
                }
            }
        }
    }
}

/// Parses one `BO_` line.
#[verifier::rlimit(100)]
pub fn parse_bo_line(s: &[u8]) -> (r: Option<(u32, Vec<u8>, u32, Vec<u8>)>)
    ensures
        match r {
            Some((id, name, size, sender)) => spec_bo_line(s@) == Some(
                SpecMsgHeader { id, name: name@, size, sender: sender@ },
            ),
            None => spec_bo_line(s@) is None,
        },
{
    let i0 = skip_ws(s, 0);
    if !(s.len() >= 4 && i0 <= s.len() - 4 && s[i0] == 66 && s[i0 + 1] == 79 && s[i0 + 2] == 95 && (
    s[i0 + 3] == 32 || s[i0 + 3] == 9 || s[i0 + 3] == 13)) {
        return None;
    }
    let i1 = skip_ws(s, i0 + 3);
    let d1 = scan_digits(s, i1);
    proof {
        lemma_digits_end_all(s@, i1 as int);
    }
    if d1 == i1 {
        return None;
    }
    let raw_id = match read_digits(s, i1, d1) {
        Some(v) if v <= u32::MAX as u64 => v as u32,
        _ => {
            return None;
        },
    };
    let id: u32 = if raw_id >= 0x80000000 {
        raw_id % 0x20000000
    } else {
        raw_id
    };
    let n0 = skip_ws(s, d1);
    let n1 = scan_name(s, n0);
    if n1 == n0 {
        return None;
    }
    let c0 = skip_ws(s, n1);
    if !(c0 < s.len() && s[c0] == 58) {
        return None;
    }
    let z0 = skip_ws(s, c0 + 1);
    let z1 = scan_digits(s, z0);
    proof {
        lemma_digits_end_all(s@, z0 as int);
    }
    if z1 == z0 {
        return None;
    }
    let size = match read_digits(s, z0, z1) {
        Some(v) if v <= u32::MAX as u64 => v as u32,
        _ => {
            return None;
        },
    };
    let s0 = skip_ws(s, z1);
    let s1 = scan_name(s, s0);
    let name = crate::data_layer::copy_range(s, n0, n1);
    let sender = crate::data_layer::copy_range(s, s0, s1);
    Some((id, name, size, sender))
}

} // verus!
