//! Decoding the 255-byte text payload of an electricity meter into its readings.
//!
//! Every reading sits at a fixed byte range of the payload and is written as text. Integer
//! readings are decoded here; the decimal readings are checked against std's float grammar and
//! kept as text, together with the scale or sense that says how to interpret them.

use vstd::prelude::*;
use vstd::utf8::{decode_utf8, valid_utf8};

use crate::numeric::{
    lemma_parse_integer_accepts_only_digits, parse_i16, parse_integer, parse_u8, IntegerError,
};
use crate::text::{
    check_float, decimal_text, float_check, trim_bounds, trimmed, u8_decimal, FloatError,
};
use crate::utf8_text::{decode_utf8_text, utf8_error_text};

verus! {

/// Why a payload could not be decoded: the reading that failed, what went wrong, and the text
/// that was being read (empty where the failure came before any text).
#[derive(Debug)]
pub struct ElectricValueParseError {
    pub element: String,
    pub message: String,
    pub data: String,
}

/// The contents of an `ElectricValueParseError`.
pub struct ErrorReport {
    pub element: Seq<char>,
    pub message: Seq<char>,
    pub data: Seq<char>,
}

impl View for ElectricValueParseError {
    type V = ErrorReport;

    open spec fn view(&self) -> ErrorReport {
        ErrorReport { element: self.element@, message: self.message@, data: self.data@ }
    }
}

/// The sentence that describes a failure.
pub open spec fn error_sentence(e: ErrorReport) -> Seq<char> {
    "Failed parsing element '"@ + e.element + "', with error '"@ + e.message + "', and data '"@
        + e.data + "'"@
}

impl ElectricValueParseError {
    /// The sentence that describes this failure, naming the reading, the error and the data.
    pub fn to_string(&self) -> (res: String)
        ensures
            res@ == error_sentence(self@),
    {
        let res = String::from_str("Failed parsing element '").concat(self.element.as_str()).concat(
            "', with error '",
        ).concat(self.message.as_str()).concat("', and data '").concat(self.data.as_str()).concat(
            "'",
        );
        proof {
            assert(res@ =~= error_sentence(self@));
        }
        res
    }
}

/// The divisor by which the energy totals are scaled: they are written in units, tenths or
/// hundredths.
#[derive(Debug, Clone, Copy, PartialEq, Eq, Structural)]
pub enum KwhScale {
    Units,
    Tenths,
    Hundredths,
}

/// How a power factor is marked: `L` (inductive), `C` (capacitive), or neither. A capacitive
/// factor `f` stands for `2 - f`.
#[derive(Debug, Clone, Copy, PartialEq, Eq, Structural)]
pub enum PowerFactorSense {
    Inductive,
    Capacitive,
    Unmarked,
}

/// The readings of one meter payload. Decimal readings are kept as their text, which is a float
/// literal of std's grammar, so that `str::parse` turns each of them into a float.
#[derive(Debug)]
pub struct ElectricReading {
    pub timestamp: u64,
    pub location: i16,
    pub kwh_scale: KwhScale,
    pub total_kwh: String,
    pub total_reactive: String,
    pub total_reverse: String,
    pub volts_l1: String,
    pub volts_l2: String,
    pub amps_l1: String,
    pub amps_l2: String,
    pub watts_l1: i16,
    pub watts_l2: i16,
    pub watts_total: i16,
    pub pf_l1_sense: PowerFactorSense,
    pub pf_l1: String,
    pub pf_l2_sense: PowerFactorSense,
    pub pf_l2: String,
    pub reactive_l1: i16,
    pub reactive_l2: i16,
    pub reactive_total: i16,
    pub frequency: String,
}

/// The energy totals of a payload.
pub struct EnergyView {
    pub kwh_scale: KwhScale,
    pub total_kwh: Seq<char>,
    pub total_reactive: Seq<char>,
    pub total_reverse: Seq<char>,
}

/// The per-line voltage, current and power of a payload.
pub struct LineView {
    pub volts_l1: Seq<char>,
    pub volts_l2: Seq<char>,
    pub amps_l1: Seq<char>,
    pub amps_l2: Seq<char>,
    pub watts_l1: i16,
    pub watts_l2: i16,
    pub watts_total: i16,
}

/// The power factors of a payload.
pub struct PowerFactorView {
    pub pf_l1_sense: PowerFactorSense,
    pub pf_l1: Seq<char>,
    pub pf_l2_sense: PowerFactorSense,
    pub pf_l2: Seq<char>,
}

/// The reactive power and the frequency of a payload.
pub struct ReactiveView {
    pub reactive_l1: i16,
    pub reactive_l2: i16,
    pub reactive_total: i16,
    pub frequency: Seq<char>,
}

/// The contents of an `ElectricReading`.
pub struct ReadingView {
    pub timestamp: u64,
    pub location: i16,
    pub energy: EnergyView,
    pub lines: LineView,
    pub power_factors: PowerFactorView,
    pub reactive: ReactiveView,
}

impl View for ElectricReading {
    type V = ReadingView;

    open spec fn view(&self) -> ReadingView {
        ReadingView {
            timestamp: self.timestamp,
            location: self.location,
            energy: EnergyView {
                kwh_scale: self.kwh_scale,
                total_kwh: self.total_kwh@,
                total_reactive: self.total_reactive@,
                total_reverse: self.total_reverse@,
            },
            lines: LineView {
                volts_l1: self.volts_l1@,
                volts_l2: self.volts_l2@,
                amps_l1: self.amps_l1@,
                amps_l2: self.amps_l2@,
                watts_l1: self.watts_l1,
                watts_l2: self.watts_l2,
                watts_total: self.watts_total,
            },
            power_factors: PowerFactorView {
                pf_l1_sense: self.pf_l1_sense,
                pf_l1: self.pf_l1@,
                pf_l2_sense: self.pf_l2_sense,
                pf_l2: self.pf_l2@,
            },
            reactive: ReactiveView {
                reactive_l1: self.reactive_l1,
                reactive_l2: self.reactive_l2,
                reactive_total: self.reactive_total,
                frequency: self.frequency@,
            },
        }
    }
}

/// The display text of an integer error, as std writes it.
pub open spec fn integer_error_text(e: IntegerError) -> Seq<char> {
    match e {
        IntegerError::Empty => "cannot parse integer from empty string"@,
        IntegerError::InvalidDigit => "invalid digit found in string"@,
        IntegerError::PosOverflow => "number too large to fit in target type"@,
        IntegerError::NegOverflow => "number too small to fit in target type"@,
    }
}

/// The display text of a float error, as std writes it.
pub open spec fn float_error_text(e: FloatError) -> Seq<char> {
    match e {
        FloatError::Empty => "cannot parse float from empty string"@,
        FloatError::Invalid => "invalid float literal"@,
    }
}

/// The text of the field `p[start..end]`, or the failure to read it as UTF-8.
pub open spec fn field_text(p: Seq<u8>, name: Seq<char>, start: int, end: int) -> Result<
    Seq<char>,
    ErrorReport,
> {
    let bytes = p.subrange(start, end);
    if valid_utf8(bytes) {
        Ok(decode_utf8(bytes))
    } else {
        Err(ErrorReport { element: name, message: utf8_error_text(bytes), data: Seq::empty() })
    }
}

/// An integer field that must fit an `i16`.
pub open spec fn integer_field(p: Seq<u8>, name: Seq<char>, start: int, end: int) -> Result<
    i16,
    ErrorReport,
> {
    match field_text(p, name, start, end) {
        Err(e) => Err(e),
        Ok(t) => match parse_integer(t, -32768, 32767) {
            Ok(v) => Ok(v as i16),
            Err(k) => Err(ErrorReport { element: name, message: integer_error_text(k), data: t }),
        },
    }
}

/// A decimal field: its text must be a float literal.
pub open spec fn decimal_field(p: Seq<u8>, name: Seq<char>, start: int, end: int) -> Result<
    Seq<char>,
    ErrorReport,
> {
    match field_text(p, name, start, end) {
        Err(e) => Err(e),
        Ok(t) => match float_check(t) {
            Ok(_) => Ok(t),
            Err(k) => Err(ErrorReport { element: name, message: float_error_text(k), data: t }),
        },
    }
}

/// The scale byte of the energy totals, at byte 230.
pub open spec fn scale_field(p: Seq<u8>) -> Result<u8, ErrorReport> {
    match field_text(p, "kwh_scale"@, 230, 231) {
        Err(e) => Err(e),
        Ok(t) => match parse_integer(t, 0, 255) {
            Ok(v) => Ok(v as u8),
            Err(k) => Err(
                ErrorReport { element: "kwh_scale"@, message: integer_error_text(k), data: t },
            ),
        },
    }
}

/// The scale that the scale number `n` stands for; only 0, 1 and 2 stand for one.
pub open spec fn scale_of(n: u8) -> Option<KwhScale> {
    if n == 0 {
        Some(KwhScale::Units)
    } else if n == 1 {
        Some(KwhScale::Tenths)
    } else if n == 2 {
        Some(KwhScale::Hundredths)
    } else {
        None
    }
}

/// An energy total: a decimal field whose scale number must be 0, 1 or 2.
pub open spec fn energy_field(p: Seq<u8>, name: Seq<char>, start: int, end: int, scale: u8) -> Result<
    Seq<char>,
    ErrorReport,
> {
    match decimal_field(p, name, start, end) {
        Err(e) => Err(e),
        Ok(t) => if scale_of(scale) is Some {
            Ok(t)
        } else {
            Err(
                ErrorReport {
                    element: name,
                    message: "Unexpected kwh_scale: "@ + decimal_text(scale as nat),
                    data: Seq::empty(),
                },
            )
        },
    }
}

/// A power factor: after trimming white space its text must be a float literal.
pub open spec fn power_factor_field(p: Seq<u8>, name: Seq<char>, start: int, end: int) -> Result<
    Seq<char>,
    ErrorReport,
> {
    match field_text(p, name, start, end) {
        Err(e) => Err(e),
        Ok(t) => match float_check(trimmed(t)) {
            Ok(_) => Ok(trimmed(t)),
            Err(k) => Err(ErrorReport { element: name, message: float_error_text(k), data: t }),
        },
    }
}

/// The sense that a one-character mark stands for.
pub open spec fn sense_of(mark: Seq<char>) -> PowerFactorSense {
    if mark == seq!['L'] {
        PowerFactorSense::Inductive
    } else if mark == seq!['C'] {
        PowerFactorSense::Capacitive
    } else {
        PowerFactorSense::Unmarked
    }
}

/// The scale and the energy totals, or the first of them that fails.
pub open spec fn energy_outcome(p: Seq<u8>) -> Result<EnergyView, ErrorReport> {
    match scale_field(p) {
        Err(e) => Err(e),
        Ok(n) => match energy_field(p, "total_kwh"@, 16, 24, n) {
            Err(e) => Err(e),
            Ok(total_kwh) => match energy_field(p, "total_reactive"@, 24, 32, n) {
                Err(e) => Err(e),
                Ok(total_reactive) => match energy_field(p, "total_reverse"@, 32, 40, n) {
                    Err(e) => Err(e),
                    Ok(total_reverse) => Ok(
                        EnergyView {
                            kwh_scale: scale_of(n)->Some_0,
                            total_kwh,
                            total_reactive,
                            total_reverse,
                        },
                    ),
                },
            },
        },
    }
}

/// The voltages, currents and powers of the two lines, or the first of them that fails.
pub open spec fn line_outcome(p: Seq<u8>) -> Result<LineView, ErrorReport> {
    match decimal_field(p, "volts_l1"@, 104, 108) {
        Err(e) => Err(e),
        Ok(volts_l1) => match decimal_field(p, "volts_l2"@, 108, 112) {
            Err(e) => Err(e),
            Ok(volts_l2) => match decimal_field(p, "amps_l1"@, 116, 121) {
                Err(e) => Err(e),
                Ok(amps_l1) => match decimal_field(p, "amps_l2"@, 121, 126) {
                    Err(e) => Err(e),
                    Ok(amps_l2) => match integer_field(p, "watts_l1"@, 131, 138) {
                        Err(e) => Err(e),
                        Ok(watts_l1) => match integer_field(p, "watts_l2"@, 138, 145) {
                            Err(e) => Err(e),
                            Ok(watts_l2) => match integer_field(p, "watts_total"@, 152, 159) {
                                Err(e) => Err(e),
                                Ok(watts_total) => Ok(
                                    LineView {
                                        volts_l1,
                                        volts_l2,
                                        amps_l1,
                                        amps_l2,
                                        watts_l1,
                                        watts_l2,
                                        watts_total,
                                    },
                                ),
                            },
                        },
                    },
                },
            },
        },
    }
}

/// The two power factors with their marks, or the first of them that fails.
pub open spec fn power_factor_outcome(p: Seq<u8>) -> Result<PowerFactorView, ErrorReport> {
    match field_text(p, "pf_l1_dir"@, 159, 160) {
        Err(e) => Err(e),
        Ok(dir_l1) => match power_factor_field(p, "pf_l1"@, 160, 163) {
            Err(e) => Err(e),
            Ok(pf_l1) => match field_text(p, "pf_l2_dir"@, 163, 164) {
                Err(e) => Err(e),
                Ok(dir_l2) => match power_factor_field(p, "pf_l2"@, 164, 167) {
                    Err(e) => Err(e),
                    Ok(pf_l2) => Ok(
                        PowerFactorView {
                            pf_l1_sense: sense_of(dir_l1),
                            pf_l1,
                            pf_l2_sense: sense_of(dir_l2),
                            pf_l2,
                        },
                    ),
                },
            },
        },
    }
}

/// The reactive powers and the frequency, or the first of them that fails.
pub open spec fn reactive_outcome(p: Seq<u8>) -> Result<ReactiveView, ErrorReport> {
    match integer_field(p, "reactive_l1"@, 171, 178) {
        Err(e) => Err(e),
        Ok(reactive_l1) => match integer_field(p, "reactive_l2"@, 178, 185) {
            Err(e) => Err(e),
            Ok(reactive_l2) => match integer_field(p, "reactive_total"@, 192, 199) {
                Err(e) => Err(e),
                Ok(reactive_total) => match decimal_field(p, "frequency"@, 199, 203) {
                    Err(e) => Err(e),
                    Ok(frequency) => Ok(
                        ReactiveView { reactive_l1, reactive_l2, reactive_total, frequency },
                    ),
                },
            },
        },
    }
}

/// What a payload decodes to: the readings in payload order, each read only if all before it
/// were read, and the failure of the first one that cannot be.
pub open spec fn reading_outcome(timestamp: u64, location: i16, p: Seq<u8>) -> Result<
    ReadingView,
    ErrorReport,
> {
    match energy_outcome(p) {
        Err(e) => Err(e),
        Ok(energy) => match line_outcome(p) {
            Err(e) => Err(e),
            Ok(lines) => match power_factor_outcome(p) {
                Err(e) => Err(e),
                Ok(power_factors) => match reactive_outcome(p) {
                    Err(e) => Err(e),
                    Ok(reactive) => Ok(
                        ReadingView { timestamp, location, energy, lines, power_factors, reactive },
                    ),
                },
            },
        },
    }
}

/// A failure report with no data.
fn bare_error(name: &str, message: String) -> (res: ElectricValueParseError)
    ensures
        res@ == (ErrorReport { element: name@, message: message@, data: Seq::empty() }),
{
    ElectricValueParseError { element: String::from_str(name), message, data: String::new() }
}

/// The display text of an integer error.
fn integer_error_message(e: IntegerError) -> (res: String)
    ensures
        res@ == integer_error_text(e),
{
    match e {
        IntegerError::Empty => String::from_str("cannot parse integer from empty string"),
        IntegerError::InvalidDigit => String::from_str("invalid digit found in string"),
        IntegerError::PosOverflow => String::from_str("number too large to fit in target type"),
        IntegerError::NegOverflow => String::from_str("number too small to fit in target type"),
    }
}

/// The display text of a float error.
fn float_error_message(e: FloatError) -> (res: String)
    ensures
        res@ == float_error_text(e),
{
    match e {
        FloatError::Empty => String::from_str("cannot parse float from empty string"),
        FloatError::Invalid => String::from_str("invalid float literal"),
    }
}

/// The characters of `s`.
fn chars_of(s: &str) -> (res: Vec<char>)
    ensures
        res@ == s@,
{
    let n = s.unicode_len();
    let mut res: Vec<char> = Vec::new();
    let mut i: usize = 0;
    while i < n
        invariant
            n == s@.len(),
            i <= n,
            res@ == s@.take(i as int),
        decreases n - i,
    {
        res.push(s.get_char(i));
        i = i + 1;
        proof {
            assert(res@ =~= s@.take(i as int));
        }
    }
    proof {
        assert(s@.take(n as int) =~= s@);
    }
    res
}

/// The text of `p[start..end]`.
fn read_text(p: &[u8], name: &str, start: usize, end: usize) -> (res: Result<
    String,
    ElectricValueParseError,
>)
    requires
        start <= end <= p@.len(),
    ensures
        match res {
            Ok(t) => field_text(p@, name@, start as int, end as int) == Ok::<
                Seq<char>,
                ErrorReport,
            >(t@),
            Err(e) => field_text(p@, name@, start as int, end as int) == Err::<
                Seq<char>,
                ErrorReport,
            >(e@),
        },
{
    let mut bytes: Vec<u8> = Vec::new();
    let mut i: usize = start;
    while i < end
        invariant
            start <= i <= end <= p@.len(),
            bytes@ == p@.subrange(start as int, i as int),
        decreases end - i,
    {
        bytes.push(p[i]);
        i = i + 1;
        proof {
            assert(bytes@ =~= p@.subrange(start as int, i as int));
        }
    }
    match decode_utf8_text(bytes.as_slice()) {
        Ok(text) => Ok(text),
        Err(message) => Err(bare_error(name, message)),
    }
}

/// An integer field that must fit an `i16`.
fn read_integer(p: &[u8], name: &str, start: usize, end: usize) -> (res: Result<
    i16,
    ElectricValueParseError,
>)
    requires
        start <= end <= p@.len(),
    ensures
        match res {
            Ok(v) => integer_field(p@, name@, start as int, end as int) == Ok::<i16, ErrorReport>(
                v,
            ),
            Err(e) => integer_field(p@, name@, start as int, end as int) == Err::<
                i16,
                ErrorReport,
            >(e@),
        },
{
    let text = read_text(p, name, start, end)?;
    match parse_i16(chars_of(text.as_str()).as_slice()) {
        Ok(v) => Ok(v),
        Err(k) => Err(
            ElectricValueParseError {
                element: String::from_str(name),
                message: integer_error_message(k),
                data: text,
            },
        ),
    }
}

/// A decimal field: its text must be a float literal.
fn read_decimal(p: &[u8], name: &str, start: usize, end: usize) -> (res: Result<
    String,
    ElectricValueParseError,
>)
    requires
        start <= end <= p@.len(),
    ensures
        match res {
            Ok(t) => decimal_field(p@, name@, start as int, end as int) == Ok::<
                Seq<char>,
                ErrorReport,
            >(t@),
            Err(e) => decimal_field(p@, name@, start as int, end as int) == Err::<
                Seq<char>,
                ErrorReport,
            >(e@),
        },
{
    let text = read_text(p, name, start, end)?;
    match check_float(chars_of(text.as_str()).as_slice()) {
        Ok(()) => Ok(text),
        Err(k) => Err(
            ElectricValueParseError {
                element: String::from_str(name),
                message: float_error_message(k),
                data: text,
            },
        ),
    }
}

/// The scale number of the energy totals.
fn read_scale(p: &[u8]) -> (res: Result<u8, ElectricValueParseError>)
    requires
        p@.len() == 255,
    ensures
        match res {
            Ok(n) => scale_field(p@) == Ok::<u8, ErrorReport>(n),
            Err(e) => scale_field(p@) == Err::<u8, ErrorReport>(e@),
        },
{
    let text = read_text(p, "kwh_scale", 230, 231)?;
    match parse_u8(chars_of(text.as_str()).as_slice()) {
        Ok(n) => Ok(n),
        Err(k) => Err(
            ElectricValueParseError {
                element: String::from_str("kwh_scale"),
                message: integer_error_message(k),
                data: text,
            },
        ),
    }
}

/// The scale that the scale number `n` stands for.
fn scale_from_number(n: u8) -> (res: Option<KwhScale>)
    ensures
        res == scale_of(n),
{
    if n == 0 {
        Some(KwhScale::Units)
    } else if n == 1 {
        Some(KwhScale::Tenths)
    } else if n == 2 {
        Some(KwhScale::Hundredths)
    } else {
        None
    }
}

/// An energy total, under the scale number `scale`, with the scale that the number stands for.
fn read_energy(p: &[u8], name: &str, start: usize, end: usize, scale: u8) -> (res: Result<
    (String, KwhScale),
    ElectricValueParseError,
>)
    requires
        start <= end <= p@.len(),
    ensures
        match res {
            Ok((t, s)) => energy_field(p@, name@, start as int, end as int, scale) == Ok::<
                Seq<char>,
                ErrorReport,
            >(t@) && scale_of(scale) == Some(s),
            Err(e) => energy_field(p@, name@, start as int, end as int, scale) == Err::<
                Seq<char>,
                ErrorReport,
            >(e@),
        },
{
    let text = read_decimal(p, name, start, end)?;
    match scale_from_number(scale) {
        Some(s) => Ok((text, s)),
        None => {
            let message = String::from_str("Unexpected kwh_scale: ").concat(
                u8_decimal(scale).as_str(),
            );
            Err(bare_error(name, message))
        },
    }
}

/// A power factor: its trimmed text must be a float literal.
fn read_power_factor(p: &[u8], name: &str, start: usize, end: usize) -> (res: Result<
    String,
    ElectricValueParseError,
>)
    requires
        start <= end <= p@.len(),
    ensures
        match res {
            Ok(t) => power_factor_field(p@, name@, start as int, end as int) == Ok::<
                Seq<char>,
                ErrorReport,
            >(t@),
            Err(e) => power_factor_field(p@, name@, start as int, end as int) == Err::<
                Seq<char>,
                ErrorReport,
            >(e@),
        },
{
    let text = read_text(p, name, start, end)?;
    let chars = chars_of(text.as_str());
    let (a, b) = trim_bounds(chars.as_slice());
    let mut inner: Vec<char> = Vec::new();
    let mut i: usize = a;
    while i < b
        invariant
            a <= i <= b <= chars@.len(),
            inner@ == chars@.subrange(a as int, i as int),
        decreases b - i,
    {
        inner.push(chars[i]);
        i = i + 1;
        proof {
            assert(inner@ =~= chars@.subrange(a as int, i as int));
        }
    }
    match check_float(inner.as_slice()) {
        Ok(()) => Ok(String::from_str(text.as_str().substring_char(a, b))),
        Err(k) => Err(
            ElectricValueParseError {
                element: String::from_str(name),
                message: float_error_message(k),
                data: text,
            },
        ),
    }
}

/// The sense that a power-factor mark stands for.
fn sense_from_mark(mark: &str) -> (res: PowerFactorSense)
    ensures
        res == sense_of(mark@),
{
    let chars = chars_of(mark);
    if chars.len() == 1 && chars[0] == 'L' {
        proof {
            assert(mark@ =~= seq!['L']);
        }
        PowerFactorSense::Inductive
    } else if chars.len() == 1 && chars[0] == 'C' {
        proof {
            assert(mark@ =~= seq!['C']);
        }
        PowerFactorSense::Capacitive
    } else {
        PowerFactorSense::Unmarked
    }
}

impl ElectricReading {
    /// Decodes the payload of a meter, read at `timestamp` at `location`. The readings are
    /// taken in payload order and the first that cannot be read is reported.
    pub fn new(timestamp: u64, location: i16, payload: &[u8; 255]) -> (res: Result<
        ElectricReading,
        ElectricValueParseError,
    >)
        ensures
            match res {
                Ok(r) => reading_outcome(timestamp, location, payload@) == Ok::<
                    ReadingView,
                    ErrorReport,
                >(r@),
                Err(e) => reading_outcome(timestamp, location, payload@) == Err::<
                    ReadingView,
                    ErrorReport,
                >(e@),
            },
    {
        let p = payload.as_slice();
        let scale = read_scale(p)?;
        let (total_kwh, kwh_scale) = read_energy(p, "total_kwh", 16, 24, scale)?;
        let (total_reactive, _) = read_energy(p, "total_reactive", 24, 32, scale)?;
        let (total_reverse, _) = read_energy(p, "total_reverse", 32, 40, scale)?;
        let volts_l1 = read_decimal(p, "volts_l1", 104, 108)?;
        let volts_l2 = read_decimal(p, "volts_l2", 108, 112)?;
        let amps_l1 = read_decimal(p, "amps_l1", 116, 121)?;
        let amps_l2 = read_decimal(p, "amps_l2", 121, 126)?;
        let watts_l1 = read_integer(p, "watts_l1", 131, 138)?;
        let watts_l2 = read_integer(p, "watts_l2", 138, 145)?;
        let watts_total = read_integer(p, "watts_total", 152, 159)?;
        let pf_l1_dir = read_text(p, "pf_l1_dir", 159, 160)?;
        let pf_l1 = read_power_factor(p, "pf_l1", 160, 163)?;
        let pf_l2_dir = read_text(p, "pf_l2_dir", 163, 164)?;
        let pf_l2 = read_power_factor(p, "pf_l2", 164, 167)?;
        let reactive_l1 = read_integer(p, "reactive_l1", 171, 178)?;
        let reactive_l2 = read_integer(p, "reactive_l2", 178, 185)?;
        let reactive_total = read_integer(p, "reactive_total", 192, 199)?;
        let frequency = read_decimal(p, "frequency", 199, 203)?;
        Ok(
            ElectricReading {
                timestamp,
                location,
                kwh_scale,
                total_kwh,
                total_reactive,
                total_reverse,
                volts_l1,
                volts_l2,
                amps_l1,
                amps_l2,
                watts_l1,
                watts_l2,
                watts_total,
                pf_l1_sense: sense_from_mark(pf_l1_dir.as_str()),
                pf_l1,
                pf_l2_sense: sense_from_mark(pf_l2_dir.as_str()),
                pf_l2,
                reactive_l1,
                reactive_l2,
                reactive_total,
                frequency,
            },
        )
    }
}

/// Whether byte `i` of a payload belongs to one of the fields that are read.
pub open spec fn is_field_byte(i: int) -> bool {
    ||| 16 <= i < 40
    ||| 104 <= i < 112
    ||| 116 <= i < 126
    ||| 131 <= i < 145
    ||| 152 <= i < 167
    ||| 171 <= i < 185
    ||| 192 <= i < 203
    ||| i == 230
}

/// Two payloads that agree on `start..end` have the same bytes there.
proof fn lemma_same_bytes(p1: Seq<u8>, p2: Seq<u8>, start: int, end: int)
    requires
        0 <= start <= end <= 255,
        p1.len() == 255,
        p2.len() == 255,
        forall|i: int| 0 <= i < 255 && is_field_byte(i) ==> p1[i] == p2[i],
        forall|i: int| start <= i < end ==> is_field_byte(i),
    ensures
        p1.subrange(start, end) == p2.subrange(start, end),
{
    assert forall|k: int| 0 <= k < end - start implies #[trigger] p1.subrange(start, end)[k]
        == p2.subrange(start, end)[k] by {
        assert(is_field_byte(start + k));
    }
    assert(p1.subrange(start, end) =~= p2.subrange(start, end));
}

/// Decoding looks at the field bytes only: two payloads that agree on every field decode alike,
/// whatever the other bytes hold.
pub proof fn lemma_outcome_reads_only_fields(
    timestamp: u64,
    location: i16,
    p1: Seq<u8>,
    p2: Seq<u8>,
)
    requires
        p1.len() == 255,
        p2.len() == 255,
        forall|i: int| 0 <= i < 255 && is_field_byte(i) ==> p1[i] == p2[i],
    ensures
        reading_outcome(timestamp, location, p1) == reading_outcome(timestamp, location, p2),
{
    lemma_same_bytes(p1, p2, 230, 231);
    lemma_same_bytes(p1, p2, 16, 24);
    lemma_same_bytes(p1, p2, 24, 32);
    lemma_same_bytes(p1, p2, 32, 40);
    lemma_same_bytes(p1, p2, 104, 108);
    lemma_same_bytes(p1, p2, 108, 112);
    lemma_same_bytes(p1, p2, 116, 121);
    lemma_same_bytes(p1, p2, 121, 126);
    lemma_same_bytes(p1, p2, 131, 138);
    lemma_same_bytes(p1, p2, 138, 145);
    lemma_same_bytes(p1, p2, 152, 159);
    lemma_same_bytes(p1, p2, 159, 160);
    lemma_same_bytes(p1, p2, 160, 163);
    lemma_same_bytes(p1, p2, 163, 164);
    lemma_same_bytes(p1, p2, 164, 167);
    lemma_same_bytes(p1, p2, 171, 178);
    lemma_same_bytes(p1, p2, 178, 185);
    lemma_same_bytes(p1, p2, 192, 199);
    lemma_same_bytes(p1, p2, 199, 203);
}

/// A decoded payload carries the timestamp and location it was given, a scale that its scale
/// byte names, and decimal readings that are all float literals, so that each of them can be
/// turned into a float.
pub proof fn lemma_decoded_readings_are_well_formed(timestamp: u64, location: i16, p: Seq<u8>)
    ensures
        reading_outcome(timestamp, location, p) matches Ok(v) ==> {
            &&& v.timestamp == timestamp
            &&& v.location == location
            &&& scale_field(p) matches Ok(n) && scale_of(n) == Some(v.energy.kwh_scale)
            &&& float_check(v.energy.total_kwh) is Ok
            &&& float_check(v.energy.total_reactive) is Ok
            &&& float_check(v.energy.total_reverse) is Ok
            &&& float_check(v.lines.volts_l1) is Ok
            &&& float_check(v.lines.volts_l2) is Ok
            &&& float_check(v.lines.amps_l1) is Ok
            &&& float_check(v.lines.amps_l2) is Ok
            &&& float_check(v.power_factors.pf_l1) is Ok
            &&& float_check(v.power_factors.pf_l2) is Ok
            &&& float_check(v.reactive.frequency) is Ok
        },
{
}

/// A payload whose scale byte names no scale (anything but 0, 1 or 2) is never decoded.
pub proof fn lemma_unknown_scale_is_refused(timestamp: u64, location: i16, p: Seq<u8>)
    requires
        scale_field(p) matches Ok(n) && n > 2,
    ensures
        reading_outcome(timestamp, location, p) is Err,
{
}

/// The bytes `p[start..end]` are UTF-8 text that reads as the `i16` value `v`.
pub open spec fn reads_as_i16(p: Seq<u8>, start: int, end: int, v: i16) -> bool {
    &&& valid_utf8(p.subrange(start, end))
    &&& parse_integer(decode_utf8(p.subrange(start, end)), -32768, 32767) == Ok::<
        int,
        IntegerError,
    >(v as int)
}

/// The bytes `p[start..end]` are UTF-8 text whose characters are `text`.
pub open spec fn reads_as_text(p: Seq<u8>, start: int, end: int, text: Seq<char>) -> bool {
    valid_utf8(p.subrange(start, end)) && decode_utf8(p.subrange(start, end)) == text
}

/// A decoded integer field is the value its bytes read as.
proof fn lemma_integer_field_reads(p: Seq<u8>, name: Seq<char>, start: int, end: int)
    ensures
        integer_field(p, name, start, end) matches Ok(w) ==> reads_as_i16(p, start, end, w),
{
    let bytes = p.subrange(start, end);
    if valid_utf8(bytes) {
        lemma_parse_integer_accepts_only_digits(decode_utf8(bytes), -32768, 32767);
    }
}

/// A decoded payload is made of the four groups of readings, each decoded.
proof fn lemma_reading_groups(timestamp: u64, location: i16, p: Seq<u8>)
    ensures
        reading_outcome(timestamp, location, p) matches Ok(v) ==> {
            &&& energy_outcome(p) == Ok::<EnergyView, ErrorReport>(v.energy)
            &&& line_outcome(p) == Ok::<LineView, ErrorReport>(v.lines)
            &&& power_factor_outcome(p) == Ok::<PowerFactorView, ErrorReport>(v.power_factors)
            &&& reactive_outcome(p) == Ok::<ReactiveView, ErrorReport>(v.reactive)
        },
{
}

/// The line readings, field by field.
proof fn lemma_line_fields(p: Seq<u8>)
    ensures
        line_outcome(p) matches Ok(l) ==> {
            &&& decimal_field(p, "volts_l1"@, 104, 108) == Ok::<Seq<char>, ErrorReport>(l.volts_l1)
            &&& decimal_field(p, "volts_l2"@, 108, 112) == Ok::<Seq<char>, ErrorReport>(l.volts_l2)
            &&& decimal_field(p, "amps_l1"@, 116, 121) == Ok::<Seq<char>, ErrorReport>(l.amps_l1)
            &&& decimal_field(p, "amps_l2"@, 121, 126) == Ok::<Seq<char>, ErrorReport>(l.amps_l2)
            &&& integer_field(p, "watts_l1"@, 131, 138) == Ok::<i16, ErrorReport>(l.watts_l1)
            &&& integer_field(p, "watts_l2"@, 138, 145) == Ok::<i16, ErrorReport>(l.watts_l2)
            &&& integer_field(p, "watts_total"@, 152, 159) == Ok::<i16, ErrorReport>(
                l.watts_total,
            )
        },
{
}

/// The reactive readings and the frequency, field by field.
proof fn lemma_reactive_fields(p: Seq<u8>)
    ensures
        reactive_outcome(p) matches Ok(r) ==> {
            &&& integer_field(p, "reactive_l1"@, 171, 178) == Ok::<i16, ErrorReport>(
                r.reactive_l1,
            )
            &&& integer_field(p, "reactive_l2"@, 178, 185) == Ok::<i16, ErrorReport>(
                r.reactive_l2,
            )
            &&& integer_field(p, "reactive_total"@, 192, 199) == Ok::<i16, ErrorReport>(
                r.reactive_total,
            )
            &&& decimal_field(p, "frequency"@, 199, 203) == Ok::<Seq<char>, ErrorReport>(
                r.frequency,
            )
        },
{
}

/// The energy readings, field by field.
proof fn lemma_energy_fields(p: Seq<u8>)
    ensures
        energy_outcome(p) matches Ok(en) ==> {
            &&& scale_field(p) matches Ok(n) && scale_of(n) == Some(en.kwh_scale)
            &&& decimal_field(p, "total_kwh"@, 16, 24) == Ok::<Seq<char>, ErrorReport>(
                en.total_kwh,
            )
            &&& decimal_field(p, "total_reactive"@, 24, 32) == Ok::<Seq<char>, ErrorReport>(
                en.total_reactive,
            )
            &&& decimal_field(p, "total_reverse"@, 32, 40) == Ok::<Seq<char>, ErrorReport>(
                en.total_reverse,
            )
        },
{
}

/// The power factors and their marks, field by field.
proof fn lemma_power_factor_fields(p: Seq<u8>)
    ensures
        power_factor_outcome(p) matches Ok(f) ==> {
            &&& field_text(p, "pf_l1_dir"@, 159, 160) is Ok
            &&& f.pf_l1_sense == sense_of(field_text(p, "pf_l1_dir"@, 159, 160)->Ok_0)
            &&& power_factor_field(p, "pf_l1"@, 160, 163) == Ok::<Seq<char>, ErrorReport>(f.pf_l1)
            &&& field_text(p, "pf_l2_dir"@, 163, 164) is Ok
            &&& f.pf_l2_sense == sense_of(field_text(p, "pf_l2_dir"@, 163, 164)->Ok_0)
            &&& power_factor_field(p, "pf_l2"@, 164, 167) == Ok::<Seq<char>, ErrorReport>(f.pf_l2)
        },
{
}

/// Each integer reading of a decoded payload is the signed value that its own byte range
/// reads as, whatever the other readings are: the powers `watts_l1` (131..138), `watts_l2`
/// (138..145) and `watts_total` (152..159), and the reactive powers `reactive_l1` (171..178),
/// `reactive_l2` (178..185) and `reactive_total` (192..199).
pub proof fn lemma_integer_readings_come_from_their_fields(
    timestamp: u64,
    location: i16,
    p: Seq<u8>,
)
    ensures
        reading_outcome(timestamp, location, p) matches Ok(v) ==> {
            &&& reads_as_i16(p, 131, 138, v.lines.watts_l1)
            &&& reads_as_i16(p, 138, 145, v.lines.watts_l2)
            &&& reads_as_i16(p, 152, 159, v.lines.watts_total)
            &&& reads_as_i16(p, 171, 178, v.reactive.reactive_l1)
            &&& reads_as_i16(p, 178, 185, v.reactive.reactive_l2)
            &&& reads_as_i16(p, 192, 199, v.reactive.reactive_total)
        },
{
    lemma_reading_groups(timestamp, location, p);
    lemma_line_fields(p);
    lemma_reactive_fields(p);
    lemma_integer_field_reads(p, "watts_l1"@, 131, 138);
    lemma_integer_field_reads(p, "watts_l2"@, 138, 145);
    lemma_integer_field_reads(p, "watts_total"@, 152, 159);
    lemma_integer_field_reads(p, "reactive_l1"@, 171, 178);
    lemma_integer_field_reads(p, "reactive_l2"@, 178, 185);
    lemma_integer_field_reads(p, "reactive_total"@, 192, 199);
}

/// A decoded decimal field is the text of its bytes.
proof fn lemma_decimal_field_reads(p: Seq<u8>, name: Seq<char>, start: int, end: int)
    ensures
        decimal_field(p, name, start, end) matches Ok(t) ==> reads_as_text(p, start, end, t),
{
}

/// A decoded power factor is the text of its bytes without white space at its ends.
proof fn lemma_power_factor_field_reads(p: Seq<u8>, name: Seq<char>, start: int, end: int)
    ensures
        power_factor_field(p, name, start, end) matches Ok(t) ==> valid_utf8(
            p.subrange(start, end),
        ) && t == trimmed(decode_utf8(p.subrange(start, end))),
{
}

/// A decoded scale number is the value its byte reads as.
proof fn lemma_scale_field_reads(p: Seq<u8>)
    ensures
        scale_field(p) matches Ok(n) ==> valid_utf8(p.subrange(230, 231)) && parse_integer(
            decode_utf8(p.subrange(230, 231)),
            0,
            255,
        ) == Ok::<int, IntegerError>(n as int),
{
    let bytes = p.subrange(230, 231);
    if valid_utf8(bytes) {
        lemma_parse_integer_accepts_only_digits(decode_utf8(bytes), 0, 255);
    }
}

/// Each decimal reading of a decoded payload is the text of its own byte range: the totals at
/// 16..24, 24..32 and 32..40, the voltages at 104..108 and 108..112, the currents at 116..121
/// and 121..126, and the frequency at 199..203.
pub proof fn lemma_decimal_readings_come_from_their_fields(
    timestamp: u64,
    location: i16,
    p: Seq<u8>,
)
    ensures
        reading_outcome(timestamp, location, p) matches Ok(v) ==> {
            &&& reads_as_text(p, 16, 24, v.energy.total_kwh)
            &&& reads_as_text(p, 24, 32, v.energy.total_reactive)
            &&& reads_as_text(p, 32, 40, v.energy.total_reverse)
            &&& reads_as_text(p, 104, 108, v.lines.volts_l1)
            &&& reads_as_text(p, 108, 112, v.lines.volts_l2)
            &&& reads_as_text(p, 116, 121, v.lines.amps_l1)
            &&& reads_as_text(p, 121, 126, v.lines.amps_l2)
            &&& reads_as_text(p, 199, 203, v.reactive.frequency)
        },
{
    lemma_reading_groups(timestamp, location, p);
    lemma_energy_fields(p);
    lemma_line_fields(p);
    lemma_reactive_fields(p);
    lemma_decimal_field_reads(p, "total_kwh"@, 16, 24);
    lemma_decimal_field_reads(p, "total_reactive"@, 24, 32);
    lemma_decimal_field_reads(p, "total_reverse"@, 32, 40);
    lemma_decimal_field_reads(p, "volts_l1"@, 104, 108);
    lemma_decimal_field_reads(p, "volts_l2"@, 108, 112);
    lemma_decimal_field_reads(p, "amps_l1"@, 116, 121);
    lemma_decimal_field_reads(p, "amps_l2"@, 121, 126);
    lemma_decimal_field_reads(p, "frequency"@, 199, 203);
}

/// The sense that the one-byte mark at `at` gives: `L` inductive, `C` capacitive, anything else
/// unmarked.
pub open spec fn marked_sense(p: Seq<u8>, at: int, sense: PowerFactorSense) -> bool {
    &&& valid_utf8(p.subrange(at, at + 1))
    &&& (decode_utf8(p.subrange(at, at + 1)) == seq!['L'] ==> sense == PowerFactorSense::Inductive)
    &&& (decode_utf8(p.subrange(at, at + 1)) == seq!['C'] ==> sense
        == PowerFactorSense::Capacitive)
    &&& (decode_utf8(p.subrange(at, at + 1)) != seq!['L'] && decode_utf8(p.subrange(at, at + 1))
        != seq!['C'] ==> sense == PowerFactorSense::Unmarked)
}

/// A mark read from its byte gives the sense that the byte names.
proof fn lemma_mark_reads(p: Seq<u8>, name: Seq<char>, at: int)
    ensures
        field_text(p, name, at, at + 1) matches Ok(m) ==> marked_sense(p, at, sense_of(m)),
{
    if field_text(p, name, at, at + 1) is Ok {
        let m = field_text(p, name, at, at + 1)->Ok_0;
        assert(seq!['C'] != seq!['L']) by {
            assert(seq!['C'][0] != seq!['L'][0]);
        }
        if m == seq!['L'] {
            assert(sense_of(m) == PowerFactorSense::Inductive);
        } else if m == seq!['C'] {
            assert(sense_of(m) == PowerFactorSense::Capacitive);
        } else {
            assert(sense_of(m) == PowerFactorSense::Unmarked);
        }
    }
}

/// Each power factor of a decoded payload is the text at 160..163 or 164..167 without white
/// space at its ends, and its sense follows the mark just before it, at 159 or 163.
pub proof fn lemma_power_factors_come_from_their_fields(
    timestamp: u64,
    location: i16,
    p: Seq<u8>,
)
    ensures
        reading_outcome(timestamp, location, p) matches Ok(v) ==> {
            &&& valid_utf8(p.subrange(160, 163))
            &&& v.power_factors.pf_l1 == trimmed(decode_utf8(p.subrange(160, 163)))
            &&& valid_utf8(p.subrange(164, 167))
            &&& v.power_factors.pf_l2 == trimmed(decode_utf8(p.subrange(164, 167)))
            &&& marked_sense(p, 159, v.power_factors.pf_l1_sense)
            &&& marked_sense(p, 163, v.power_factors.pf_l2_sense)
        },
{
    lemma_reading_groups(timestamp, location, p);
    lemma_power_factor_fields(p);
    lemma_mark_reads(p, "pf_l1_dir"@, 159);
    lemma_mark_reads(p, "pf_l2_dir"@, 163);
    lemma_power_factor_field_reads(p, "pf_l1"@, 160, 163);
    lemma_power_factor_field_reads(p, "pf_l2"@, 164, 167);
}

/// The scale of a decoded payload follows the number at byte 230: 0 units, 1 tenths,
/// 2 hundredths.
pub proof fn lemma_scale_comes_from_its_field(timestamp: u64, location: i16, p: Seq<u8>)
    ensures
        reading_outcome(timestamp, location, p) matches Ok(v) ==> {
            &&& valid_utf8(p.subrange(230, 231))
            &&& parse_integer(decode_utf8(p.subrange(230, 231)), 0, 255) matches Ok(n) && (n
                == 0 && v.energy.kwh_scale == KwhScale::Units || n == 1 && v.energy.kwh_scale
                == KwhScale::Tenths || n == 2 && v.energy.kwh_scale == KwhScale::Hundredths)
        },
{
    lemma_reading_groups(timestamp, location, p);
    lemma_energy_fields(p);
    lemma_scale_field_reads(p);
}

} // verus!
