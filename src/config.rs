//! The user-facing configuration: defaults, presets, building it from raw
//! text inputs, and deriving the engine-facing configuration from it.

use crate::params::{
    check_integer, check_segment_length, color_mode_of, field_max, field_min, hierarchical_of, integer_outcome,
    is_integer_field, mode_of, preset_of, segment_outcome, trim_text, trimmed, ColorMode,
    ConfigError, ErrorKind, Field, Hierarchical, Preset, SimplifyMode,
};
use crate::numeral::integer_value;
use vstd::prelude::*;

verus! {

/// Validated settings as the user states them: angles in degrees, the
/// speckle filter as a side length, colour precision in bits.
#[derive(Debug)]
pub struct Config {
    pub input_path: String,
    pub output_path: String,
    pub color_mode: ColorMode,
    pub hierarchical: Hierarchical,
    pub filter_speckle: usize,
    pub color_precision: i32,
    pub layer_difference: i32,
    pub mode: SimplifyMode,
    pub corner_threshold: i32,
    /// The segment length as the trimmed numeral it was given in.
    pub length_threshold: String,
    pub max_iterations: usize,
    pub splice_threshold: i32,
    pub path_precision: Option<u32>,
}

pub struct ConfigView {
    pub input_path: Seq<char>,
    pub output_path: Seq<char>,
    pub color_mode: ColorMode,
    pub hierarchical: Hierarchical,
    pub filter_speckle: int,
    pub color_precision: int,
    pub layer_difference: int,
    pub mode: SimplifyMode,
    pub corner_threshold: int,
    pub length_threshold: Seq<char>,
    pub max_iterations: int,
    pub splice_threshold: int,
    pub path_precision: Option<int>,
}

pub open spec fn opt_int(o: Option<u32>) -> Option<int> {
    match o {
        Some(p) => Some(p as int),
        None => None,
    }
}

impl View for Config {
    type V = ConfigView;

    open spec fn view(&self) -> ConfigView {
        ConfigView {
            input_path: self.input_path@,
            output_path: self.output_path@,
            color_mode: self.color_mode,
            hierarchical: self.hierarchical,
            filter_speckle: self.filter_speckle as int,
            color_precision: self.color_precision as int,
            layer_difference: self.layer_difference as int,
            mode: self.mode,
            corner_threshold: self.corner_threshold as int,
            length_threshold: self.length_threshold@,
            max_iterations: self.max_iterations as int,
            splice_threshold: self.splice_threshold as int,
            path_precision: opt_int(self.path_precision),
        }
    }
}

/// Every numeric setting lies within its closed range.
pub open spec fn valid(c: ConfigView) -> bool {
    &&& 1 <= c.filter_speckle <= 16
    &&& 1 <= c.color_precision <= 8
    &&& 0 <= c.layer_difference <= 255
    &&& 0 <= c.corner_threshold <= 180
    &&& segment_outcome(c.length_threshold) is Ok
    &&& 0 <= c.splice_threshold <= 180
}

pub open spec fn four_point_zero() -> Seq<char> {
    seq!['4', '.', '0']
}

/// A complete set of settings: the paths, the colour mode and the numbers
/// in which the defaults and presets differ; the rest is shared.
pub open spec fn settings(
    input: Seq<char>,
    output: Seq<char>,
    color_mode: ColorMode,
    speckle: int,
    precision: int,
    step: int,
    corner: int,
) -> ConfigView {
    ConfigView {
        input_path: input,
        output_path: output,
        color_mode,
        hierarchical: Hierarchical::Stacked,
        filter_speckle: speckle,
        color_precision: precision,
        layer_difference: step,
        mode: SimplifyMode::Spline,
        corner_threshold: corner,
        length_threshold: four_point_zero(),
        max_iterations: 10,
        splice_threshold: 45,
        path_precision: Some(8),
    }
}

/// The baseline used where no preset is selected.
pub open spec fn default_view(input: Seq<char>, output: Seq<char>) -> ConfigView {
    settings(input, output, ColorMode::Color, 4, 6, 16, 60)
}

/// The fixed bundle of each preset.
pub open spec fn preset_view(p: Preset, input: Seq<char>, output: Seq<char>) -> ConfigView {
    match p {
        Preset::Bw => settings(input, output, ColorMode::Binary, 4, 6, 16, 60),
        Preset::Poster => settings(input, output, ColorMode::Color, 4, 8, 16, 60),
        Preset::Photo => settings(input, output, ColorMode::Color, 10, 8, 48, 180),
    }
}

impl Config {
    fn settings(
        input: &str,
        output: &str,
        color_mode: ColorMode,
        speckle: usize,
        precision: i32,
        step: i32,
        corner: i32,
    ) -> (r: Config)
        ensures
            r@ == settings(
                input@,
                output@,
                color_mode,
                speckle as int,
                precision as int,
                step as int,
                corner as int,
            ),
    {
        proof {
            reveal_strlit("4.0");
            assert("4.0"@ =~= four_point_zero());
        }
        Config {
            input_path: input.to_owned(),
            output_path: output.to_owned(),
            color_mode,
            hierarchical: Hierarchical::Stacked,
            filter_speckle: speckle,
            color_precision: precision,
            layer_difference: step,
            mode: SimplifyMode::Spline,
            corner_threshold: corner,
            length_threshold: "4.0".to_owned(),
            max_iterations: 10,
            splice_threshold: 45,
            path_precision: Some(8),
        }
    }

    /// The baseline settings with the given paths.
    pub fn with_paths(input_path: &str, output_path: &str) -> (r: Config)
        ensures
            r@ == default_view(input_path@, output_path@),
    {
        Config::settings(input_path, output_path, ColorMode::Color, 4, 6, 16, 60)
    }

    /// The fixed bundle of `preset` with the given paths; nothing of the
    /// defaults leaks into it.
    pub fn from_preset(preset: Preset, input_path: &str, output_path: &str) -> (r: Config)
        ensures
            r@ == preset_view(preset, input_path@, output_path@),
    {
        match preset {
            Preset::Bw => Config::settings(input_path, output_path, ColorMode::Binary, 4, 6, 16, 60),
            Preset::Poster => Config::settings(
                input_path,
                output_path,
                ColorMode::Color,
                4,
                8,
                16,
                60,
            ),
            Preset::Photo => Config::settings(
                input_path,
                output_path,
                ColorMode::Color,
                10,
                8,
                48,
                180,
            ),
        }
    }
}

impl Default for Config {
    /// The baseline settings, with empty paths.
    fn default() -> (r: Config)
        ensures
            r@ == default_view(Seq::empty(), Seq::empty()),
    {
        proof {
            reveal_strlit("");
            assert(""@ =~= Seq::<char>::empty());
        }
        Config::with_paths("", "")
    }
}

/// The raw text of each recognised key, `None` where it was not given.
#[derive(Debug, Default)]
pub struct RawArgs {
    pub input: Option<String>,
    pub output: Option<String>,
    pub color_mode: Option<String>,
    pub hierarchical: Option<String>,
    pub preset: Option<String>,
    pub filter_speckle: Option<String>,
    pub color_precision: Option<String>,
    pub gradient_step: Option<String>,
    pub corner_threshold: Option<String>,
    pub segment_length: Option<String>,
    pub splice_threshold: Option<String>,
    pub mode: Option<String>,
    pub path_precision: Option<String>,
}

/// The settings built so far, or the first error as (kind, field, text).
pub type Outcome = Result<ConfigView, (ErrorKind, Field, Seq<char>)>;

/// Both paths are required; a preset replaces the defaults wholesale.
pub open spec fn start_outcome(a: &RawArgs) -> Outcome {
    if a.input is None {
        Err((ErrorKind::MissingRequiredField, Field::Input, Seq::empty()))
    } else if a.output is None {
        Err((ErrorKind::MissingRequiredField, Field::Output, Seq::empty()))
    } else {
        let i = a.input->0@;
        let o = a.output->0@;
        match a.preset {
            None => Ok(default_view(i, o)),
            Some(p) => match preset_of(p@) {
                Some(ps) => Ok(preset_view(ps, i, o)),
                None => Err((ErrorKind::UnrecognizedEnumToken, Field::Preset, p@)),
            },
        }
    }
}

pub open spec fn step_color(r: Outcome, v: Option<String>) -> Outcome {
    match r {
        Ok(c) => match v {
            Some(s) => Ok(ConfigView { color_mode: color_mode_of(trimmed(s@)), ..c }),
            None => r,
        },
        Err(_) => r,
    }
}

pub open spec fn step_hierarchical(r: Outcome, v: Option<String>) -> Outcome {
    match r {
        Ok(c) => match v {
            Some(s) => match hierarchical_of(s@) {
                Some(h) => Ok(ConfigView { hierarchical: h, ..c }),
                None => Err((ErrorKind::UnrecognizedEnumToken, Field::Hierarchical, s@)),
            },
            None => r,
        },
        Err(_) => r,
    }
}

pub open spec fn step_mode(r: Outcome, v: Option<String>) -> Outcome {
    match r {
        Ok(c) => match v {
            Some(s) => match mode_of(trimmed(s@)) {
                Some(m) => Ok(ConfigView { mode: m, ..c }),
                None => Err((ErrorKind::UnrecognizedEnumToken, Field::Mode, s@)),
            },
            None => r,
        },
        Err(_) => r,
    }
}

/// Sets the integer field `f` to `x`.
pub open spec fn with_integer(c: ConfigView, f: Field, x: int) -> ConfigView {
    match f {
        Field::FilterSpeckle => ConfigView { filter_speckle: x, ..c },
        Field::ColorPrecision => ConfigView { color_precision: x, ..c },
        Field::GradientStep => ConfigView { layer_difference: x, ..c },
        Field::CornerThreshold => ConfigView { corner_threshold: x, ..c },
        Field::SpliceThreshold => ConfigView { splice_threshold: x, ..c },
        Field::PathPrecision => ConfigView { path_precision: Some(x), ..c },
        _ => c,
    }
}

pub open spec fn step_integer(r: Outcome, f: Field, v: Option<String>) -> Outcome {
    match r {
        Ok(c) => match v {
            Some(s) => match integer_outcome(f, trimmed(s@)) {
                Ok(x) => Ok(with_integer(c, f, x)),
                Err(k) => Err((k, f, s@)),
            },
            None => r,
        },
        Err(_) => r,
    }
}

pub open spec fn step_segment(r: Outcome, v: Option<String>) -> Outcome {
    match r {
        Ok(c) => match v {
            Some(s) => match segment_outcome(trimmed(s@)) {
                Ok(_) => Ok(ConfigView { length_threshold: trimmed(s@), ..c }),
                Err(k) => Err((k, Field::SegmentLength, s@)),
            },
            None => r,
        },
        Err(_) => r,
    }
}

/// Defaults, then the preset, then each given key in turn; the first
/// rejected key ends the build.
pub open spec fn built(a: &RawArgs) -> Outcome {
    let r = start_outcome(a);
    let r = step_color(r, a.color_mode);
    let r = step_hierarchical(r, a.hierarchical);
    let r = step_mode(r, a.mode);
    let r = step_integer(r, Field::FilterSpeckle, a.filter_speckle);
    let r = step_integer(r, Field::ColorPrecision, a.color_precision);
    let r = step_integer(r, Field::GradientStep, a.gradient_step);
    let r = step_integer(r, Field::CornerThreshold, a.corner_threshold);
    let r = step_segment(r, a.segment_length);
    let r = step_integer(r, Field::SpliceThreshold, a.splice_threshold);
    step_integer(r, Field::PathPrecision, a.path_precision)
}

impl Config {
    fn apply_integer(&mut self, f: Field, v: &Option<String>) -> (r: Result<(), ConfigError>)
        requires
            is_integer_field(f),
        ensures
            match step_integer(Ok(old(self)@), f, *v) {
                Ok(c) => r is Ok && final(self)@ == c,
                Err(e) => r matches Err(x) && x@ == e,
            },
    {
        match v {
            None => Ok(()),
            Some(s) => {
                match check_integer(f, s.as_str()) {
                    Err(e) => Err(e),
                    Ok(x) => {
                        match f {
                            Field::FilterSpeckle => self.filter_speckle = x as usize,
                            Field::ColorPrecision => self.color_precision = x as i32,
                            Field::GradientStep => self.layer_difference = x as i32,
                            Field::CornerThreshold => self.corner_threshold = x as i32,
                            Field::SpliceThreshold => self.splice_threshold = x as i32,
                            _ => self.path_precision = Some(x),
                        }
                        Ok(())
                    },
                }
            },
        }
    }

    /// Builds the settings from raw text inputs: both paths are required,
    /// a preset replaces the defaults, and each given key then overrides
    /// its field. The first rejected key is reported.
    #[verifier::rlimit(60)]
    pub fn from_args(a: &RawArgs) -> (r: Result<Config, ConfigError>)
        ensures
            match built(a) {
                Ok(c) => r matches Ok(x) && x@ == c && valid(c),
                Err(e) => r matches Err(x) && x@ == e,
            },
    {
        proof {
            if built(a) is Ok {
                lemma_built_valid(a);
            }
            reveal_strlit("");
            assert(""@ =~= Seq::<char>::empty());
        }
        let input = match &a.input {
            None => {
                return Err(ConfigError::new(ErrorKind::MissingRequiredField, Field::Input, ""));
            },
            Some(s) => s.as_str(),
        };
        let output = match &a.output {
            None => {
                return Err(ConfigError::new(ErrorKind::MissingRequiredField, Field::Output, ""));
            },
            Some(s) => s.as_str(),
        };
        let mut cfg = match &a.preset {
            None => Config::with_paths(input, output),
            Some(p) => match Preset::parse(p.as_str()) {
                Ok(ps) => Config::from_preset(ps, input, output),
                Err(e) => return Err(e),
            },
        };
        let ghost mut acc = start_outcome(a);
        assert(acc == Ok::<ConfigView, (ErrorKind, Field, Seq<char>)>(cfg@));
        if let Some(v) = &a.color_mode {
            cfg.color_mode = ColorMode::parse(v.as_str());
        }
        proof { acc = step_color(acc, a.color_mode); }
        assert(acc == Ok::<ConfigView, (ErrorKind, Field, Seq<char>)>(cfg@));
        if let Some(v) = &a.hierarchical {
            match Hierarchical::parse(v.as_str()) {
                Ok(h) => cfg.hierarchical = h,
                Err(e) => return Err(e),
            }
        }
        proof { acc = step_hierarchical(acc, a.hierarchical); }
        assert(acc == Ok::<ConfigView, (ErrorKind, Field, Seq<char>)>(cfg@));
        if let Some(v) = &a.mode {
            match SimplifyMode::parse(trim_text(v.as_str())) {
                Ok(m) => cfg.mode = m,
                Err(_) => {
                    return Err(
                        ConfigError::new(ErrorKind::UnrecognizedEnumToken, Field::Mode, v.as_str()),
                    );
                },
            }
        }
        proof { acc = step_mode(acc, a.mode); }
        assert(acc == Ok::<ConfigView, (ErrorKind, Field, Seq<char>)>(cfg@));
        if let Err(e) = cfg.apply_integer(Field::FilterSpeckle, &a.filter_speckle) {
            return Err(e);
        }
        proof { acc = step_integer(acc, Field::FilterSpeckle, a.filter_speckle); }
        if let Err(e) = cfg.apply_integer(Field::ColorPrecision, &a.color_precision) {
            return Err(e);
        }
        proof { acc = step_integer(acc, Field::ColorPrecision, a.color_precision); }
        if let Err(e) = cfg.apply_integer(Field::GradientStep, &a.gradient_step) {
            return Err(e);
        }
        proof { acc = step_integer(acc, Field::GradientStep, a.gradient_step); }
        if let Err(e) = cfg.apply_integer(Field::CornerThreshold, &a.corner_threshold) {
            return Err(e);
        }
        proof { acc = step_integer(acc, Field::CornerThreshold, a.corner_threshold); }
        if let Some(v) = &a.segment_length {
            match check_segment_length(v.as_str()) {
                Ok(t) => cfg.length_threshold = t,
                Err(e) => return Err(e),
            }
        }
        proof { acc = step_segment(acc, a.segment_length); }
        assert(acc == Ok::<ConfigView, (ErrorKind, Field, Seq<char>)>(cfg@));
        if let Err(e) = cfg.apply_integer(Field::SpliceThreshold, &a.splice_threshold) {
            return Err(e);
        }
        proof { acc = step_integer(acc, Field::SpliceThreshold, a.splice_threshold); }
        if let Err(e) = cfg.apply_integer(Field::PathPrecision, &a.path_precision) {
            return Err(e);
        }
        proof { acc = step_integer(acc, Field::PathPrecision, a.path_precision); }
        assert(acc == built(a));
        Ok(cfg)
    }
}

/// The settings in the engine's terms: the speckle filter as an area and
/// colour precision as the number of bits dropped. Angles stay in whole
/// degrees here; the conversion to radians is floating point and happens
/// where the engine is called.
#[derive(Debug)]
pub struct ConverterConfig {
    pub input_path: String,
    pub output_path: String,
    pub color_mode: ColorMode,
    pub hierarchical: Hierarchical,
    pub filter_speckle_area: usize,
    pub color_precision_loss: i32,
    pub layer_difference: i32,
    pub mode: SimplifyMode,
    pub corner_threshold_deg: i32,
    pub length_threshold: String,
    pub max_iterations: usize,
    pub splice_threshold_deg: i32,
    pub path_precision: Option<u32>,
}

pub struct ConverterView {
    pub input_path: Seq<char>,
    pub output_path: Seq<char>,
    pub color_mode: ColorMode,
    pub hierarchical: Hierarchical,
    pub filter_speckle_area: int,
    pub color_precision_loss: int,
    pub layer_difference: int,
    pub mode: SimplifyMode,
    pub corner_threshold_deg: int,
    pub length_threshold: Seq<char>,
    pub max_iterations: int,
    pub splice_threshold_deg: int,
    pub path_precision: Option<int>,
}

impl View for ConverterConfig {
    type V = ConverterView;

    open spec fn view(&self) -> ConverterView {
        ConverterView {
            input_path: self.input_path@,
            output_path: self.output_path@,
            color_mode: self.color_mode,
            hierarchical: self.hierarchical,
            filter_speckle_area: self.filter_speckle_area as int,
            color_precision_loss: self.color_precision_loss as int,
            layer_difference: self.layer_difference as int,
            mode: self.mode,
            corner_threshold_deg: self.corner_threshold_deg as int,
            length_threshold: self.length_threshold@,
            max_iterations: self.max_iterations as int,
            splice_threshold_deg: self.splice_threshold_deg as int,
            path_precision: opt_int(self.path_precision),
        }
    }
}

/// The engine-facing settings of `c`.
pub open spec fn derived(c: ConfigView) -> ConverterView {
    ConverterView {
        input_path: c.input_path,
        output_path: c.output_path,
        color_mode: c.color_mode,
        hierarchical: c.hierarchical,
        filter_speckle_area: c.filter_speckle * c.filter_speckle,
        color_precision_loss: 8 - c.color_precision,
        layer_difference: c.layer_difference,
        mode: c.mode,
        corner_threshold_deg: c.corner_threshold,
        length_threshold: c.length_threshold,
        max_iterations: c.max_iterations,
        splice_threshold_deg: c.splice_threshold,
        path_precision: c.path_precision,
    }
}

impl Config {
    /// Derives the engine-facing settings; never fails on valid settings.
    pub fn into_converter_config(self) -> (r: ConverterConfig)
        requires
            valid(self@),
        ensures
            r@ == derived(self@),
    {
        assert(self.filter_speckle * self.filter_speckle <= 256) by (nonlinear_arith)
            requires
                1 <= self.filter_speckle <= 16,
        ;
        ConverterConfig {
            input_path: self.input_path,
            output_path: self.output_path,
            color_mode: self.color_mode,
            hierarchical: self.hierarchical,
            filter_speckle_area: self.filter_speckle * self.filter_speckle,
            color_precision_loss: 8 - self.color_precision,
            layer_difference: self.layer_difference,
            mode: self.mode,
            corner_threshold_deg: self.corner_threshold,
            length_threshold: self.length_threshold,
            max_iterations: self.max_iterations,
            splice_threshold_deg: self.splice_threshold,
            path_precision: self.path_precision,
        }
    }
}

/// Every setting that a build produces is valid: each numeric field lies
/// within its closed range, whatever the preset and overrides.
#[verifier::rlimit(60)]
pub proof fn lemma_built_valid(a: &RawArgs)
    requires
        built(a) is Ok,
    ensures
        valid(built(a)->Ok_0),
{
    reveal_strlit("4.0");
    assert(segment_outcome(four_point_zero()) is Ok) by {
        crate::numeral::lemma_four_point_zero();
    }
}

/// A missing input or output path fails the build as a missing required
/// field, whatever else is given, before any other key is examined.
pub proof fn lemma_missing_paths(a: &RawArgs)
    requires
        a.input is None || a.output is None,
    ensures
        built(a) matches Err(e) && e.0 == ErrorKind::MissingRequiredField,
        a.input is None ==> built(a) == Err::<ConfigView, (ErrorKind, Field, Seq<char>)>(
            (ErrorKind::MissingRequiredField, Field::Input, Seq::empty()),
        ),
{
}

/// An explicit colour precision wins over the preset's own: a successful
/// build carries the override, and its derived precision loss is eight
/// minus that override.
pub proof fn lemma_override_wins(a: &RawArgs, v: int)
    requires
        a.color_precision matches Some(s) && integer_outcome(Field::ColorPrecision, trimmed(s@))
            == Ok::<int, ErrorKind>(v),
        built(a) is Ok,
    ensures
        built(a)->Ok_0.color_precision == v,
        derived(built(a)->Ok_0).color_precision_loss == 8 - v,
{
}

/// The derivation is a function of its input: equal settings derive equal
/// engine settings.
pub proof fn lemma_derive_deterministic(a: ConfigView, b: ConfigView)
    requires
        a == b,
    ensures
        derived(a) == derived(b),
{
}

/// On valid settings the speckle area is the square of the speckle size,
/// between 1 and 256.
pub proof fn lemma_speckle_area(c: ConfigView)
    requires
        valid(c),
    ensures
        derived(c).filter_speckle_area == c.filter_speckle * c.filter_speckle,
        1 <= derived(c).filter_speckle_area <= 256,
{
    assert(1 <= c.filter_speckle * c.filter_speckle <= 256) by (nonlinear_arith)
        requires
            1 <= c.filter_speckle <= 16,
    ;
}

/// On valid settings the precision loss is eight minus the precision, and
/// lies in `[0, 7]`.
pub proof fn lemma_precision_loss(c: ConfigView)
    requires
        valid(c),
    ensures
        derived(c).color_precision_loss == 8 - c.color_precision,
        0 <= derived(c).color_precision_loss <= 7,
{
}

/// For each integer field, a numeral accepted by the field's type is
/// accepted exactly when it lies in the field's closed range: both ends are
/// accepted, and the values just beyond them are rejected.
pub proof fn lemma_integer_bounds(f: Field, t: Seq<char>, v: int)
    requires
        is_integer_field(f),
        integer_value(t, crate::params::field_signed(f)) == Some(v),
    ensures
        (integer_outcome(f, t) is Ok) == (field_min(f) <= v <= field_max(f)),
        integer_outcome(f, t) is Ok ==> integer_outcome(f, t) == Ok::<int, ErrorKind>(v),
        v == field_min(f) ==> integer_outcome(f, t) == Ok::<int, ErrorKind>(v),
        v == field_max(f) ==> integer_outcome(f, t) == Ok::<int, ErrorKind>(v),
        v == field_min(f) - 1 ==> integer_outcome(f, t) is Err,
        v == field_max(f) + 1 ==> integer_outcome(f, t) is Err,
{
}

} // verus!
