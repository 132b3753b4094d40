//! Enumerated parameters, the table of recognised fields, and the checks
//! that turn one field's text into a value or an error.

use crate::numeral::{abs, decimal_within, NUMERAL_CAP, integer_value, scan_decimal_segment, scan_integer};
use vstd::prelude::*;
use vstd::string::*;

verus! {

/// A named bundle of settings that replaces the defaults wholesale.
#[derive(Clone, Copy, Debug, PartialEq, Eq, Structural)]
pub enum Preset {
    Bw,
    Poster,
    Photo,
}

#[derive(Clone, Copy, Debug, PartialEq, Eq, Structural)]
pub enum ColorMode {
    Color,
    Binary,
}

/// How nested colour regions are laid out; meaningful in colour mode only.
#[derive(Clone, Copy, Debug, PartialEq, Eq, Structural)]
pub enum Hierarchical {
    Stacked,
    Cutout,
}

/// The curve-fitting strategy; `Pixel` (also read from `none`) keeps the
/// raw per-pixel paths without simplification.
#[derive(Clone, Copy, Debug, PartialEq, Eq, Structural)]
pub enum SimplifyMode {
    Pixel,
    Polygon,
    Spline,
}

/// The recognised input keys.
#[derive(Clone, Copy, Debug, PartialEq, Eq, Structural)]
pub enum Field {
    Input,
    Output,
    ColorMode,
    Hierarchical,
    Preset,
    FilterSpeckle,
    ColorPrecision,
    GradientStep,
    CornerThreshold,
    SegmentLength,
    SpliceThreshold,
    Mode,
    PathPrecision,
}

#[derive(Clone, Copy, Debug, PartialEq, Eq, Structural)]
pub enum ErrorKind {
    MissingRequiredField,
    UnrecognizedEnumToken,
    NonNumericValue,
    OutOfRange,
}

/// A rejected input: what went wrong, for which field, and the text that
/// was offered (empty for a missing field).
#[derive(Debug)]
pub struct ConfigError {
    pub kind: ErrorKind,
    pub field: Field,
    pub value: String,
}

impl View for ConfigError {
    type V = (ErrorKind, Field, Seq<char>);

    open spec fn view(&self) -> (ErrorKind, Field, Seq<char>) {
        (self.kind, self.field, self.value@)
    }
}

impl ConfigError {
    pub fn new(kind: ErrorKind, field: Field, value: &str) -> (r: ConfigError)
        ensures
            r@ == (kind, field, value@),
    {
        ConfigError { kind, field, value: value.to_owned() }
    }
}

/// The characters with the Unicode property White_Space.
pub open spec fn is_white_space(c: char) -> bool {
    ||| ('\u{9}' <= c && c <= '\u{d}')
    ||| c == ' '
    ||| c == '\u{85}'
    ||| c == '\u{a0}'
    ||| c == '\u{1680}'
    ||| ('\u{2000}' <= c && c <= '\u{200a}')
    ||| c == '\u{2028}'
    ||| c == '\u{2029}'
    ||| c == '\u{202f}'
    ||| c == '\u{205f}'
    ||| c == '\u{3000}'
}

pub open spec fn trim_start(s: Seq<char>) -> Seq<char>
    decreases s.len(),
{
    if s.len() > 0 && is_white_space(s[0]) {
        trim_start(s.drop_first())
    } else {
        s
    }
}

pub open spec fn trim_end(s: Seq<char>) -> Seq<char>
    decreases s.len(),
{
    if s.len() > 0 && is_white_space(s.last()) {
        trim_end(s.drop_last())
    } else {
        s
    }
}

/// `s` without its leading and trailing white space.
#[verifier::opaque]
pub open spec fn trimmed(s: Seq<char>) -> Seq<char> {
    trim_end(trim_start(s))
}

/// Relies on `str::trim`: the slice without leading and trailing
/// characters of the Unicode property White_Space.
#[verifier::external_body]
pub(crate) fn trim_text<'a>(s: &'a str) -> (r: &'a str)
    ensures
        r@ == trimmed(s@),
{
    s.trim()
}

/// `c` is `l` or, where `c` is an ASCII capital, its lower-case letter.
pub open spec fn folds_to(c: char, l: char) -> bool {
    c == l || ('A' <= c && c <= 'Z' && (c as int) + 32 == (l as int))
}

/// `t` spells the lower-case word `w`, ignoring ASCII case.
pub open spec fn spells(t: Seq<char>, w: Seq<char>) -> bool {
    t.len() == w.len() && forall|i: int| 0 <= i < t.len() ==> folds_to(#[trigger] t[i], w[i])
}

/// Compares `t` with the lower-case word `w`, ignoring ASCII case.
pub fn spells_word(t: &str, w: &str) -> (r: bool)
    ensures
        r == spells(t@, w@),
{
    let n = t.unicode_len();
    if n != w.unicode_len() {
        return false;
    }
    let mut i: usize = 0;
    while i < n
        invariant
            n == t@.len(),
            n == w@.len(),
            i <= n,
            forall|j: int| 0 <= j < i ==> folds_to(#[trigger] t@[j], w@[j]),
        decreases n - i,
    {
        let c = t.get_char(i);
        let l = w.get_char(i);
        if !(c == l || ('A' <= c && c <= 'Z' && (c as u32) + 32 == (l as u32))) {
            return false;
        }
        i = i + 1;
    }
    true
}

/// Compares two texts character by character.
pub fn same_text(t: &str, w: &str) -> (r: bool)
    ensures
        r == (t@ == w@),
{
    let n = t.unicode_len();
    if n != w.unicode_len() {
        return false;
    }
    let mut i: usize = 0;
    while i < n
        invariant
            n == t@.len(),
            n == w@.len(),
            i <= n,
            forall|j: int| 0 <= j < i ==> t@[j] == w@[j],
        decreases n - i,
    {
        if t.get_char(i) != w.get_char(i) {
            return false;
        }
        i = i + 1;
    }
    assert(t@ =~= w@);
    true
}

pub open spec fn preset_of(t: Seq<char>) -> Option<Preset> {
    if t == seq!['b', 'w'] {
        Some(Preset::Bw)
    } else if t == seq!['p', 'o', 's', 't', 'e', 'r'] {
        Some(Preset::Poster)
    } else if t == seq!['p', 'h', 'o', 't', 'o'] {
        Some(Preset::Photo)
    } else {
        None
    }
}

/// Exactly `bw` or `BW` selects binary; any other text selects colour.
pub open spec fn color_mode_of(t: Seq<char>) -> ColorMode {
    if t == seq!['b', 'w'] || t == seq!['B', 'W'] {
        ColorMode::Binary
    } else {
        ColorMode::Color
    }
}

pub open spec fn hierarchical_of(t: Seq<char>) -> Option<Hierarchical> {
    if spells(t, seq!['s', 't', 'a', 'c', 'k', 'e', 'd']) {
        Some(Hierarchical::Stacked)
    } else if spells(t, seq!['c', 'u', 't', 'o', 'u', 't']) {
        Some(Hierarchical::Cutout)
    } else {
        None
    }
}

pub open spec fn mode_of(t: Seq<char>) -> Option<SimplifyMode> {
    if spells(t, seq!['p', 'i', 'x', 'e', 'l']) || spells(t, seq!['n', 'o', 'n', 'e']) {
        Some(SimplifyMode::Pixel)
    } else if spells(t, seq!['p', 'o', 'l', 'y', 'g', 'o', 'n']) {
        Some(SimplifyMode::Polygon)
    } else if spells(t, seq!['s', 'p', 'l', 'i', 'n', 'e']) {
        Some(SimplifyMode::Spline)
    } else {
        None
    }
}

impl Preset {
    /// Reads a preset name, which must match exactly.
    pub fn parse(t: &str) -> (r: Result<Preset, ConfigError>)
        ensures
            match preset_of(t@) {
                Some(p) => r == Ok::<Preset, ConfigError>(p),
                None => r matches Err(e) && e@ == (ErrorKind::UnrecognizedEnumToken, Field::Preset, t@),
            },
    {
        proof {
            reveal_strlit("bw");
            reveal_strlit("poster");
            reveal_strlit("photo");
            assert("bw"@ =~= seq!['b', 'w']);
            assert("poster"@ =~= seq!['p', 'o', 's', 't', 'e', 'r']);
            assert("photo"@ =~= seq!['p', 'h', 'o', 't', 'o']);
        }
        if same_text(t, "bw") {
            Ok(Preset::Bw)
        } else if same_text(t, "poster") {
            Ok(Preset::Poster)
        } else if same_text(t, "photo") {
            Ok(Preset::Photo)
        } else {
            Err(ConfigError::new(ErrorKind::UnrecognizedEnumToken, Field::Preset, t))
        }
    }
}

pub open spec fn color_name_of(t: Seq<char>) -> Option<ColorMode> {
    if spells(t, seq!['c', 'o', 'l', 'o', 'r']) {
        Some(ColorMode::Color)
    } else if spells(t, seq!['b', 'i', 'n', 'a', 'r', 'y']) {
        Some(ColorMode::Binary)
    } else {
        None
    }
}

impl ColorMode {
    /// Reads the colour-mode key: trimmed, exactly `bw` or `BW` selects
    /// binary and any other text colour; never fails.
    pub fn parse(s: &str) -> (r: ColorMode)
        ensures
            r == color_mode_of(trimmed(s@)),
    {
        proof {
            reveal_strlit("bw");
            reveal_strlit("BW");
            assert("bw"@ =~= seq!['b', 'w']);
            assert("BW"@ =~= seq!['B', 'W']);
        }
        let t = trim_text(s);
        if same_text(t, "bw") || same_text(t, "BW") {
            ColorMode::Binary
        } else {
            ColorMode::Color
        }
    }

    /// Reads a colour mode by its own name, `color` or `binary`, ignoring
    /// ASCII case.
    pub fn from_name(s: &str) -> (r: Result<ColorMode, ConfigError>)
        ensures
            match color_name_of(s@) {
                Some(m) => r == Ok::<ColorMode, ConfigError>(m),
                None => r matches Err(e) && e@ == (
                    ErrorKind::UnrecognizedEnumToken,
                    Field::ColorMode,
                    s@,
                ),
            },
    {
        proof {
            reveal_strlit("color");
            reveal_strlit("binary");
        }
        if spells_word(s, "color") {
            Ok(ColorMode::Color)
        } else if spells_word(s, "binary") {
            Ok(ColorMode::Binary)
        } else {
            Err(ConfigError::new(ErrorKind::UnrecognizedEnumToken, Field::ColorMode, s))
        }
    }
}

impl Hierarchical {
    /// Reads a clustering mode, ignoring ASCII case.
    pub fn parse(t: &str) -> (r: Result<Hierarchical, ConfigError>)
        ensures
            match hierarchical_of(t@) {
                Some(h) => r == Ok::<Hierarchical, ConfigError>(h),
                None => r matches Err(e) && e@ == (
                    ErrorKind::UnrecognizedEnumToken,
                    Field::Hierarchical,
                    t@,
                ),
            },
    {
        proof {
            reveal_strlit("stacked");
            reveal_strlit("cutout");
        }
        if spells_word(t, "stacked") {
            Ok(Hierarchical::Stacked)
        } else if spells_word(t, "cutout") {
            Ok(Hierarchical::Cutout)
        } else {
            Err(ConfigError::new(ErrorKind::UnrecognizedEnumToken, Field::Hierarchical, t))
        }
    }
}

impl SimplifyMode {
    /// Reads a curve-fitting mode as given, ignoring ASCII case.
    pub fn parse(s: &str) -> (r: Result<SimplifyMode, ConfigError>)
        ensures
            match mode_of(s@) {
                Some(m) => r == Ok::<SimplifyMode, ConfigError>(m),
                None => r matches Err(e) && e@ == (ErrorKind::UnrecognizedEnumToken, Field::Mode, s@),
            },
    {
        proof {
            reveal_strlit("pixel");
            reveal_strlit("none");
            reveal_strlit("polygon");
            reveal_strlit("spline");
        }
        if spells_word(s, "pixel") || spells_word(s, "none") {
            Ok(SimplifyMode::Pixel)
        } else if spells_word(s, "polygon") {
            Ok(SimplifyMode::Polygon)
        } else if spells_word(s, "spline") {
            Ok(SimplifyMode::Spline)
        } else {
            Err(ConfigError::new(ErrorKind::UnrecognizedEnumToken, Field::Mode, s))
        }
    }
}

/// The fields whose value is an integer.
pub open spec fn is_integer_field(f: Field) -> bool {
    match f {
        Field::FilterSpeckle | Field::ColorPrecision | Field::GradientStep | Field::CornerThreshold
        | Field::SpliceThreshold | Field::PathPrecision => true,
        _ => false,
    }
}

/// Whether the field's integer type is signed (`i32`); the speckle size is a
/// `usize` and the path precision a `u32`.
pub open spec fn field_signed(f: Field) -> bool {
    !(f == Field::FilterSpeckle || f == Field::PathPrecision)
}

/// `v` fits the field's integer type.
pub open spec fn fits_type(f: Field, v: int) -> bool {
    match f {
        Field::FilterSpeckle => 0 <= v <= usize::MAX,
        Field::PathPrecision => 0 <= v <= u32::MAX,
        _ => i32::MIN <= v <= i32::MAX,
    }
}

pub open spec fn field_min(f: Field) -> int {
    match f {
        Field::FilterSpeckle => 1,
        Field::ColorPrecision => 1,
        _ => 0,
    }
}

pub open spec fn field_max(f: Field) -> int {
    match f {
        Field::FilterSpeckle => 16,
        Field::ColorPrecision => 8,
        Field::GradientStep => 255,
        Field::CornerThreshold => 180,
        Field::SpliceThreshold => 180,
        _ => u32::MAX as int,
    }
}

/// The integer value that an integer field accepts from the text `t`, or
/// the kind of error it raises.
pub open spec fn integer_outcome(f: Field, t: Seq<char>) -> Result<int, ErrorKind> {
    match integer_value(t, field_signed(f)) {
        Some(v) => if !fits_type(f, v) {
            Err(ErrorKind::NonNumericValue)
        } else if field_min(f) <= v <= field_max(f) {
            Ok(v)
        } else {
            Err(ErrorKind::OutOfRange)
        },
        None => Err(ErrorKind::NonNumericValue),
    }
}

/// What the segment-length field makes of the text `t`: a decimal number
/// within `[3.5, 10]` is accepted.
/// `t` names an infinity: an optional sign, then `inf` or `infinity`,
/// ignoring ASCII case.
pub open spec fn infinity_word(t: Seq<char>) -> bool {
    let b = if t.len() > 0 && (t[0] == '+' || t[0] == '-') {
        t.drop_first()
    } else {
        t
    };
    spells(b, seq!['i', 'n', 'f']) || spells(b, seq!['i', 'n', 'f', 'i', 'n', 'i', 't', 'y'])
}

/// What the segment-length field makes of the text `t`: a number within
/// `[3.5, 10]` is accepted; an infinity is a number, out of range.
pub open spec fn segment_outcome(t: Seq<char>) -> Result<(), ErrorKind> {
    match decimal_within(t, SEGMENT_MIN_TENTHS as int, SEGMENT_MAX_TENTHS as int) {
        Some(true) => Ok(()),
        Some(false) => Err(ErrorKind::OutOfRange),
        None => if infinity_word(t) {
            Err(ErrorKind::OutOfRange)
        } else {
            Err(ErrorKind::NonNumericValue)
        },
    }
}

/// Tells whether `t` names an infinity.
pub fn is_infinity_word(t: &str) -> (r: bool)
    ensures
        r == infinity_word(t@),
{
    proof {
        reveal_strlit("inf");
        reveal_strlit("infinity");
    }
    let n = t.unicode_len();
    let b = if n > 0 && (t.get_char(0) == '+' || t.get_char(0) == '-') {
        let b = t.substring_char(1, n);
        assert(b@ =~= t@.drop_first());
        b
    } else {
        t
    };
    spells_word(b, "inf") || spells_word(b, "infinity")
}

impl Field {
    pub fn is_signed(self) -> (r: bool)
        ensures
            r == field_signed(self),
    {
        !(self == Field::FilterSpeckle || self == Field::PathPrecision)
    }

    /// The closed range of an integer field.
    pub fn bounds(self) -> (r: (u32, u32))
        requires
            is_integer_field(self),
        ensures
            r.0 == field_min(self),
            r.1 == field_max(self),
    {
        match self {
            Field::FilterSpeckle => (1, 16),
            Field::ColorPrecision => (1, 8),
            Field::GradientStep => (0, 255),
            Field::CornerThreshold => (0, 180),
            Field::SpliceThreshold => (0, 180),
            _ => (0, u32::MAX),
        }
    }
}

/// The closed range of a numeric field, in tenths.
pub open spec fn range_in_tenths(f: Field) -> (int, int) {
    if f == Field::SegmentLength {
        (SEGMENT_MIN_TENTHS as int, SEGMENT_MAX_TENTHS as int)
    } else {
        (field_min(f) * 10, field_max(f) * 10)
    }
}

impl ConfigError {
    /// For a range error, the accepted closed range of its field, in
    /// tenths; `None` for the other kinds of error.
    pub fn accepted_range_tenths(&self) -> (r: Option<(u64, u64)>)
        ensures
            r == (if self.kind == ErrorKind::OutOfRange && (is_integer_field(self.field)
                || self.field == Field::SegmentLength) {
                Some(
                    (range_in_tenths(self.field).0 as u64, range_in_tenths(self.field).1 as u64),
                )
            } else {
                None
            }),
    {
        if self.kind != ErrorKind::OutOfRange {
            return None;
        }
        match self.field {
            Field::SegmentLength => Some((SEGMENT_MIN_TENTHS as u64, SEGMENT_MAX_TENTHS as u64)),
            Field::FilterSpeckle | Field::ColorPrecision | Field::GradientStep
            | Field::CornerThreshold | Field::SpliceThreshold | Field::PathPrecision => {
                let (lo, hi) = self.field.bounds();
                Some((lo as u64 * 10, hi as u64 * 10))
            },
            _ => None,
        }
    }
}

/// Checks the text `s` of an integer field: once trimmed, a numeral of
/// the field's type within the field's closed range.
pub fn check_integer(f: Field, s: &str) -> (r: Result<u32, ConfigError>)
    requires
        is_integer_field(f),
    ensures
        match integer_outcome(f, trimmed(s@)) {
            Ok(v) => r matches Ok(x) && x == v,
            Err(k) => r matches Err(e) && e@ == (k, f, s@),
        },
{
    let t = trim_text(s);
    let (lo, hi) = f.bounds();
    match scan_integer(t, f.is_signed()) {
        None => Err(ConfigError::new(ErrorKind::NonNumericValue, f, s)),
        Some((neg, m)) => {
            let ghost v = integer_value(t@, field_signed(f))->0;
            assert(m > NUMERAL_CAP ==> abs(v) > NUMERAL_CAP);
            assert(m <= NUMERAL_CAP ==> m == abs(v));
            let type_max: u128 = if f == Field::FilterSpeckle {
                usize::MAX as u128
            } else if f == Field::PathPrecision {
                u32::MAX as u128
            } else if neg {
                0x8000_0000
            } else {
                0x7fff_ffff
            };
            if m > type_max {
                Err(ConfigError::new(ErrorKind::NonNumericValue, f, s))
            } else if neg {
                if m == 0 && lo == 0 {
                    Ok(0)
                } else {
                    Err(ConfigError::new(ErrorKind::OutOfRange, f, s))
                }
            } else if lo as u128 <= m && m <= hi as u128 {
                Ok(m as u32)
            } else {
                Err(ConfigError::new(ErrorKind::OutOfRange, f, s))
            }
        },
    }
}

/// Lower end of the segment length, in tenths.
pub const SEGMENT_MIN_TENTHS: u32 = 35;

/// Upper end of the segment length, in tenths.
pub const SEGMENT_MAX_TENTHS: u32 = 100;

/// Checks the text `s` of the segment length and hands back its trimmed
/// numeral.
pub fn check_segment_length(s: &str) -> (r: Result<String, ConfigError>)
    ensures
        match segment_outcome(trimmed(s@)) {
            Ok(()) => r matches Ok(x) && x@ == trimmed(s@),
            Err(k) => r matches Err(e) && e@ == (k, Field::SegmentLength, s@),
        },
{
    let t = trim_text(s);
    match scan_decimal_segment(t) {
        Some(true) => Ok(t.to_owned()),
        Some(false) => Err(ConfigError::new(ErrorKind::OutOfRange, Field::SegmentLength, s)),
        None => if is_infinity_word(t) {
            Err(ConfigError::new(ErrorKind::OutOfRange, Field::SegmentLength, s))
        } else {
            Err(ConfigError::new(ErrorKind::NonNumericValue, Field::SegmentLength, s))
        },
    }
}

} // verus!
