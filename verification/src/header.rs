//! TM-25-13 header: the fixed 36 288-byte block (file fields, known-data
//! flags, nine UTF-32 description strings) and the variable blocks that
//! follow it (spectral tables, column names, additional text).
//!
//! Field names follow the section numbers of the format (4.7.x).

use vstd::prelude::*;
use vstd::string::*;

use crate::bits::{
    is_nan, is_nan_exec, nan_or_negative, nan_or_negative_exec, nan_or_not_positive, nan_or_not_positive_exec,
    NAN_BITS, SWAPPED_UNKNOWN_BITS,
};
use crate::error::{ErrorModel, Tm25Error};
use crate::text::{int_text, push_u64};

verus! {

/// Magic bytes at offset 0.
pub const MAGIC: [u8; 4] = [0x54, 0x4D, 0x32, 0x35];

/// The only format version understood.
pub const VERSION_2013: i32 = 2013;

/// Size of the file-field block (4.7.1) including reserved bytes.
pub const HEADER_BLOCK_SIZE: usize = 256;

/// Offset of the known-data-flags block (4.7.2): eight little-endian i32.
pub const FLAGS_OFFSET: usize = 256;

/// Offset of the nine description strings (4.7.3).
pub const TEXT_OFFSET: usize = 288;

/// Code points per description string, UTF-32LE, NUL padded.
pub const TEXT_FIELD_CHARS: usize = 1000;

/// Number of description strings.
pub const TEXT_FIELDS: usize = 9;

/// Offset of the first variable block (spectral tables, 4.7.4):
/// `TEXT_OFFSET + TEXT_FIELDS * TEXT_FIELD_CHARS * 4`.
pub const FIXED_HEADER_SIZE: usize = 36288;

/// Width of the creation date/time field in bytes. The field is followed by
/// the ray-start-position field at offset 56.
pub const DATE_TIME_LEN: usize = 28;

/// The magic as a byte sequence.
pub open spec fn magic_seq() -> Seq<u8> {
    seq![0x54u8, 0x4Du8, 0x32u8, 0x35u8]
}

/// Spectral data identifier (4.7.1.9).
#[derive(Clone, Copy, Debug, PartialEq, Eq, Structural)]
pub enum SpectralId {
    /// 0: no spectral information.
    NoSpectrum,
    /// 1: one wavelength for the whole file.
    SingleWavelength,
    /// 2: every ray carries its own wavelength column.
    PerRayWavelength,
    /// 3: one spectral table in the header applies to every ray.
    SharedTable,
    /// 4: several tables; every ray carries a table index column.
    PerRayTableIndex,
    /// Anything else (kept so unknown files still parse leniently).
    Unknown(i32),
}

/// The identifier a stored integer names.
pub open spec fn spectral_id_of(v: i32) -> SpectralId {
    if v == 0 {
        SpectralId::NoSpectrum
    } else if v == 1 {
        SpectralId::SingleWavelength
    } else if v == 2 {
        SpectralId::PerRayWavelength
    } else if v == 3 {
        SpectralId::SharedTable
    } else if v == 4 {
        SpectralId::PerRayTableIndex
    } else {
        SpectralId::Unknown(v)
    }
}

/// The integer stored for an identifier.
pub open spec fn spectral_id_code(s: SpectralId) -> i32 {
    match s {
        SpectralId::NoSpectrum => 0,
        SpectralId::SingleWavelength => 1,
        SpectralId::PerRayWavelength => 2,
        SpectralId::SharedTable => 3,
        SpectralId::PerRayTableIndex => 4,
        SpectralId::Unknown(v) => v,
    }
}

/// The TM-25 numbering of the spectral identifier (4.7.1.9): 0 no
/// spectral information, 1 a single wavelength, 2 a wavelength per ray,
/// 3 one shared table, 4 a table index per ray; other values are kept as
/// they are.
pub proof fn lemma_spectral_id_numbering(v: i32)
    ensures
        spectral_id_code(SpectralId::NoSpectrum) == 0,
        spectral_id_code(SpectralId::SingleWavelength) == 1,
        spectral_id_code(SpectralId::PerRayWavelength) == 2,
        spectral_id_code(SpectralId::SharedTable) == 3,
        spectral_id_code(SpectralId::PerRayTableIndex) == 4,
        spectral_id_of(0) == SpectralId::NoSpectrum,
        spectral_id_of(1) == SpectralId::SingleWavelength,
        spectral_id_of(2) == SpectralId::PerRayWavelength,
        spectral_id_of(3) == SpectralId::SharedTable,
        spectral_id_of(4) == SpectralId::PerRayTableIndex,
        !(0 <= v <= 4) ==> spectral_id_of(v) == SpectralId::Unknown(v),
{
}

/// Every stored integer is read back as itself: `to_i32(from_i32(v)) == v`.
pub proof fn lemma_spectral_id_code_round_trip(v: i32)
    ensures
        spectral_id_code(spectral_id_of(v)) == v,
{
}

/// An identifier survives being stored, except `Unknown` values that name
/// one of the known codes `0..=4`, which are read back as that code's
/// variant.
pub proof fn lemma_spectral_id_round_trip(s: SpectralId)
    requires
        s matches SpectralId::Unknown(v) ==> !(0 <= v <= 4),
    ensures
        spectral_id_of(spectral_id_code(s)) == s,
{
}

impl SpectralId {
    pub fn from_i32(v: i32) -> (r: Self)
        ensures
            r == spectral_id_of(v),
            v == 0 ==> r == SpectralId::NoSpectrum,
            v == 1 ==> r == SpectralId::SingleWavelength,
            v == 2 ==> r == SpectralId::PerRayWavelength,
            v == 3 ==> r == SpectralId::SharedTable,
            v == 4 ==> r == SpectralId::PerRayTableIndex,
            !(0 <= v <= 4) ==> r == SpectralId::Unknown(v),
    {
        match v {
            0 => SpectralId::NoSpectrum,
            1 => SpectralId::SingleWavelength,
            2 => SpectralId::PerRayWavelength,
            3 => SpectralId::SharedTable,
            4 => SpectralId::PerRayTableIndex,
            other => SpectralId::Unknown(other),
        }
    }

    pub fn to_i32(self) -> (r: i32)
        ensures
            r == spectral_id_code(self),
            self == SpectralId::NoSpectrum ==> r == 0,
            self == SpectralId::SingleWavelength ==> r == 1,
            self == SpectralId::PerRayWavelength ==> r == 2,
            self == SpectralId::SharedTable ==> r == 3,
            self == SpectralId::PerRayTableIndex ==> r == 4,
            self matches SpectralId::Unknown(v) ==> r == v,
    {
        match self {
            SpectralId::NoSpectrum => 0,
            SpectralId::SingleWavelength => 1,
            SpectralId::PerRayWavelength => 2,
            SpectralId::SharedTable => 3,
            SpectralId::PerRayTableIndex => 4,
            SpectralId::Unknown(v) => v,
        }
    }
}

/// Known data flags block (4.7.2): which per-ray columns exist.
#[derive(Clone, Copy, Debug, PartialEq, Eq, Structural)]
pub struct KnownDataFlags {
    pub position: bool,
    pub direction: bool,
    pub radiant_flux: bool,
    pub wavelength: bool,
    pub luminous_flux: bool,
    pub stokes: bool,
    pub tristimulus: bool,
    pub spectrum_index: bool,
}

/// All flags cleared.
pub open spec fn no_flags() -> KnownDataFlags {
    KnownDataFlags {
        position: false,
        direction: false,
        radiant_flux: false,
        wavelength: false,
        luminous_flux: false,
        stokes: false,
        tristimulus: false,
        spectrum_index: false,
    }
}

/// The flags a block of eight stored words sets: a word sets its flag when
/// it is non-zero.
pub open spec fn flags_of_words(w: Seq<i32>) -> KnownDataFlags {
    KnownDataFlags {
        position: w[0] != 0,
        direction: w[1] != 0,
        radiant_flux: w[2] != 0,
        wavelength: w[3] != 0,
        luminous_flux: w[4] != 0,
        stokes: w[5] != 0,
        tristimulus: w[6] != 0,
        spectrum_index: w[7] != 0,
    }
}

/// The word stored for a flag.
pub open spec fn flag_word(b: bool) -> i32 {
    if b {
        1
    } else {
        0
    }
}

/// The eight words stored for a set of flags, in file order.
pub open spec fn words_of_flags(f: KnownDataFlags) -> Seq<i32> {
    seq![
        flag_word(f.position),
        flag_word(f.direction),
        flag_word(f.radiant_flux),
        flag_word(f.wavelength),
        flag_word(f.luminous_flux),
        flag_word(f.stokes),
        flag_word(f.tristimulus),
        flag_word(f.spectrum_index),
    ]
}

/// The order of the known-data flag words (4.7.2): position, direction,
/// radiant flux, wavelength, luminous flux, Stokes, tristimulus, spectrum
/// index. Flag `k` is set exactly when word `k` is non-zero, and a set
/// flag is stored as 1, a clear one as 0, in word `k`.
pub proof fn lemma_flag_word_order(w: Seq<i32>, f: KnownDataFlags)
    requires
        w.len() == 8,
    ensures
        flags_of_words(w).position == (w[0] != 0),
        flags_of_words(w).direction == (w[1] != 0),
        flags_of_words(w).radiant_flux == (w[2] != 0),
        flags_of_words(w).wavelength == (w[3] != 0),
        flags_of_words(w).luminous_flux == (w[4] != 0),
        flags_of_words(w).stokes == (w[5] != 0),
        flags_of_words(w).tristimulus == (w[6] != 0),
        flags_of_words(w).spectrum_index == (w[7] != 0),
        words_of_flags(f).len() == 8,
        words_of_flags(f)[0] == (if f.position { 1i32 } else { 0i32 }),
        words_of_flags(f)[1] == (if f.direction { 1i32 } else { 0i32 }),
        words_of_flags(f)[2] == (if f.radiant_flux { 1i32 } else { 0i32 }),
        words_of_flags(f)[3] == (if f.wavelength { 1i32 } else { 0i32 }),
        words_of_flags(f)[4] == (if f.luminous_flux { 1i32 } else { 0i32 }),
        words_of_flags(f)[5] == (if f.stokes { 1i32 } else { 0i32 }),
        words_of_flags(f)[6] == (if f.tristimulus { 1i32 } else { 0i32 }),
        words_of_flags(f)[7] == (if f.spectrum_index { 1i32 } else { 0i32 }),
{
}

/// Flags stored and read back are the same flags.
pub proof fn lemma_flags_round_trip(f: KnownDataFlags)
    ensures
        flags_of_words(words_of_flags(f)) == f,
{
}

/// A block of 0/1 words read as flags and stored again is the same block.
pub proof fn lemma_words_round_trip(w: Seq<i32>)
    requires
        w.len() == 8,
        forall|k: int| 0 <= k < 8 ==> #[trigger] w[k] == 0 || w[k] == 1,
    ensures
        words_of_flags(flags_of_words(w)) == w,
{
    assert(words_of_flags(flags_of_words(w)) =~= w);
}

impl Default for KnownDataFlags {
    fn default() -> (r: Self)
        ensures
            r == no_flags(),
    {
        KnownDataFlags {
            position: false,
            direction: false,
            radiant_flux: false,
            wavelength: false,
            luminous_flux: false,
            stokes: false,
            tristimulus: false,
            spectrum_index: false,
        }
    }
}

impl KnownDataFlags {
    /// The minimal, most common layout: position, direction, radiant flux.
    pub fn radiometric() -> (r: Self)
        ensures
            r == (KnownDataFlags { position: true, direction: true, radiant_flux: true, ..no_flags() }),
    {
        KnownDataFlags {
            position: true,
            direction: true,
            radiant_flux: true,
            wavelength: false,
            luminous_flux: false,
            stokes: false,
            tristimulus: false,
            spectrum_index: false,
        }
    }

    /// Position, direction, luminous flux.
    pub fn photometric() -> (r: Self)
        ensures
            r == (KnownDataFlags { position: true, direction: true, luminous_flux: true, ..no_flags() }),
    {
        KnownDataFlags {
            position: true,
            direction: true,
            radiant_flux: false,
            wavelength: false,
            luminous_flux: true,
            stokes: false,
            tristimulus: false,
            spectrum_index: false,
        }
    }

    /// The flags of a stored block of eight words.
    pub fn from_words(w: &[i32; 8]) -> (r: Self)
        ensures
            r == flags_of_words(w@),
            r.position == (w@[0] != 0),
            r.direction == (w@[1] != 0),
            r.radiant_flux == (w@[2] != 0),
            r.wavelength == (w@[3] != 0),
            r.luminous_flux == (w@[4] != 0),
            r.stokes == (w@[5] != 0),
            r.tristimulus == (w@[6] != 0),
            r.spectrum_index == (w@[7] != 0),
    {
        KnownDataFlags {
            position: w[0] != 0,
            direction: w[1] != 0,
            radiant_flux: w[2] != 0,
            wavelength: w[3] != 0,
            luminous_flux: w[4] != 0,
            stokes: w[5] != 0,
            tristimulus: w[6] != 0,
            spectrum_index: w[7] != 0,
        }
    }

    /// The block of eight words stored for these flags.
    pub fn to_words(self) -> (r: [i32; 8])
        ensures
            r@ == words_of_flags(self),
            r@[0] == (if self.position { 1i32 } else { 0i32 }),
            r@[1] == (if self.direction { 1i32 } else { 0i32 }),
            r@[2] == (if self.radiant_flux { 1i32 } else { 0i32 }),
            r@[3] == (if self.wavelength { 1i32 } else { 0i32 }),
            r@[4] == (if self.luminous_flux { 1i32 } else { 0i32 }),
            r@[5] == (if self.stokes { 1i32 } else { 0i32 }),
            r@[6] == (if self.tristimulus { 1i32 } else { 0i32 }),
            r@[7] == (if self.spectrum_index { 1i32 } else { 0i32 }),
    {
        let r = [
            if self.position {
                1
            } else {
                0
            },
            if self.direction {
                1
            } else {
                0
            },
            if self.radiant_flux {
                1
            } else {
                0
            },
            if self.wavelength {
                1
            } else {
                0
            },
            if self.luminous_flux {
                1
            } else {
                0
            },
            if self.stokes {
                1
            } else {
                0
            },
            if self.tristimulus {
                1
            } else {
                0
            },
            if self.spectrum_index {
                1
            } else {
                0
            },
        ];
        assert(r@ =~= words_of_flags(self));
        r
    }
}

/// Which flux a file carries, derived from the flags.
#[derive(Clone, Copy, Debug, PartialEq, Eq, Structural)]
pub enum FluxKind {
    /// Per-ray radiant flux in W; header radiant total.
    Radiometric,
    /// Per-ray luminous flux in lm; header luminous total.
    Photometric,
    /// Both columns present; the radiant one is preferred.
    Both,
}

/// The nine description strings (4.7.3.1 to 4.7.3.9), in file order.
#[derive(Clone, Debug, PartialEq, Eq)]
pub struct TextFields {
    pub raw: [String; 9],
}

impl Default for TextFields {
    fn default() -> (r: Self)
        ensures
            forall|i: int| 0 <= i < 9 ==> (#[trigger] r.raw@[i])@.len() == 0,
    {
        TextFields {
            raw: [
                String::new(),
                String::new(),
                String::new(),
                String::new(),
                String::new(),
                String::new(),
                String::new(),
                String::new(),
                String::new(),
            ],
        }
    }
}

impl TextFields {
    /// Name of the light source (4.7.3.1).
    pub fn name(&self) -> (r: &str)
        ensures
            r@ == self.raw@[0]@,
    {
        self.raw[0].as_str()
    }

    /// Manufacturer (4.7.3.2).
    pub fn manufacturer(&self) -> (r: &str)
        ensures
            r@ == self.raw@[1]@,
    {
        self.raw[1].as_str()
    }

    /// Model / type code (4.7.3.3).
    pub fn model(&self) -> (r: &str)
        ensures
            r@ == self.raw@[2]@,
    {
        self.raw[2].as_str()
    }

    /// Measurement laboratory or simulation author (4.7.3.4).
    pub fn laboratory(&self) -> (r: &str)
        ensures
            r@ == self.raw@[3]@,
    {
        self.raw[3].as_str()
    }

    /// Measurement equipment / simulation software (4.7.3.5).
    pub fn equipment(&self) -> (r: &str)
        ensures
            r@ == self.raw@[4]@,
    {
        self.raw[4].as_str()
    }

    /// Camera / detector information (4.7.3.6).
    pub fn camera(&self) -> (r: &str)
        ensures
            r@ == self.raw@[5]@,
    {
        self.raw[5].as_str()
    }

    /// Operating condition, e.g. drive current (4.7.3.7).
    pub fn operating_condition(&self) -> (r: &str)
        ensures
            r@ == self.raw@[6]@,
    {
        self.raw[6].as_str()
    }

    /// Additional information (4.7.3.8).
    pub fn additional_info(&self) -> (r: &str)
        ensures
            r@ == self.raw@[7]@,
    {
        self.raw[7].as_str()
    }

    /// Data reference (4.7.3.9).
    pub fn data_reference(&self) -> (r: &str)
        ensures
            r@ == self.raw@[8]@,
    {
        self.raw[8].as_str()
    }
}

/// One spectral table (4.7.4): `(wavelength nm, value)` pairs, each `f32`
/// kept as its bit pattern.
#[derive(Clone, Debug, PartialEq, Eq)]
pub struct SpectralTable {
    pub wavelengths_nm: Vec<u32>,
    pub values: Vec<u32>,
}

/// A spectral table in specifications.
pub struct TableModel {
    pub wavelengths: Seq<u32>,
    pub values: Seq<u32>,
}

impl View for SpectralTable {
    type V = TableModel;

    open spec fn view(&self) -> TableModel {
        TableModel { wavelengths: self.wavelengths_nm@, values: self.values@ }
    }
}

/// The largest of the first `n` pairs, scanning left to right: a pair
/// replaces the best so far unless the best value is `>=` its value (so the
/// first of equal maxima wins, and a NaN never stays best).
pub open spec fn peak_of(w: Seq<u32>, v: Seq<u32>, n: int) -> Option<(u32, u32)>
    decreases n,
{
    if n <= 0 {
        None
    } else {
        match peak_of(w, v, n - 1) {
            Some((bw, bv)) => if crate::bits::ge(bv, v[n - 1]) {
                Some((bw, bv))
            } else {
                Some((w[n - 1], v[n - 1]))
            },
            None => Some((w[n - 1], v[n - 1])),
        }
    }
}

/// Number of `(wavelength, value)` pairs of a table (the shorter column).
pub open spec fn pair_count(t: TableModel) -> int {
    if t.wavelengths.len() <= t.values.len() {
        t.wavelengths.len() as int
    } else {
        t.values.len() as int
    }
}

impl SpectralTable {
    pub fn len(&self) -> (r: usize)
        ensures
            r == self.wavelengths_nm@.len(),
    {
        self.wavelengths_nm.len()
    }

    pub fn is_empty(&self) -> (r: bool)
        ensures
            r == (self.wavelengths_nm@.len() == 0),
    {
        self.wavelengths_nm.len() == 0
    }

    /// `(wavelength, value)` of the largest value.
    pub fn peak(&self) -> (r: Option<(u32, u32)>)
        ensures
            r == peak_of(self.wavelengths_nm@, self.values@, pair_count(self@)),
    {
        let n = if self.wavelengths_nm.len() <= self.values.len() {
            self.wavelengths_nm.len()
        } else {
            self.values.len()
        };
        let mut best: Option<(u32, u32)> = None;
        let mut i: usize = 0;
        while i < n
            invariant
                i <= n,
                n == pair_count(self@),
                n <= self.wavelengths_nm@.len(),
                n <= self.values@.len(),
                best == peak_of(self.wavelengths_nm@, self.values@, i as int),
            decreases n - i,
        {
            let w = self.wavelengths_nm[i];
            let v = self.values[i];
            best = match best {
                Some((bw, bv)) => if crate::bits::ge_exec(bv, v) {
                    Some((bw, bv))
                } else {
                    Some((w, v))
                },
                None => Some((w, v)),
            };
            i = i + 1;
        }
        best
    }
}

/// One `f32` column of a ray record, in file order.
#[derive(Clone, Copy, Debug, PartialEq, Eq, Structural)]
pub enum Column {
    X,
    Y,
    Z,
    Kx,
    Ky,
    Kz,
    RadiantFlux,
    Wavelength,
    LuminousFlux,
    S1,
    S2,
    S3,
    PolX,
    PolY,
    PolZ,
    TriX,
    TriZ,
    SpectrumIndex,
    /// User-defined item `i`, named by `Header::column_names[i]` when present.
    Additional(usize),
}

/// Columns for the known-data flags: position and direction always, then
/// each flagged group in file order.
pub open spec fn flagged_columns(f: KnownDataFlags) -> Seq<Column> {
    Seq::empty() + if_set(true, seq![Column::X, Column::Y, Column::Z, Column::Kx, Column::Ky, Column::Kz])
        + if_set(f.radiant_flux, seq![Column::RadiantFlux])
        + if_set(f.wavelength, seq![Column::Wavelength])
        + if_set(f.luminous_flux, seq![Column::LuminousFlux])
        + if_set(f.stokes, seq![Column::S1, Column::S2, Column::S3, Column::PolX, Column::PolY, Column::PolZ])
        + if_set(f.tristimulus, seq![Column::TriX, Column::TriZ])
        + if_set(f.spectrum_index, seq![Column::SpectrumIndex])
}

/// The full column layout: the flagged columns, then `n` additional items.
pub open spec fn columns_spec(f: KnownDataFlags, n: nat) -> Seq<Column> {
    flagged_columns(f) + Seq::new(n, |i: int| Column::Additional(i as usize))
}

/// `s` when `b`, else nothing.
pub open spec fn if_set(b: bool, s: Seq<Column>) -> Seq<Column> {
    if b {
        s
    } else {
        Seq::empty()
    }
}

/// Append `s` to `c` when `b`.
fn push_when(c: &mut Vec<Column>, b: bool, s: &[Column])
    ensures
        final(c)@ == old(c)@ + if_set(b, s@),
{
    let ghost start = c@;
    if b {
        let mut i: usize = 0;
        while i < s.len()
            invariant
                i <= s@.len(),
                c@ == start + s@.take(i as int),
            decreases s@.len() - i,
        {
            c.push(s[i]);
            assert(s@.take(i + 1) =~= s@.take(i as int).push(s@[i as int]));
            i = i + 1;
        }
        assert(s@.take(s@.len() as int) =~= s@);
    } else {
        assert(start + if_set(b, s@) =~= start);
    }
}

/// Position, direction and the flagged columns, in file order.
fn flagged_columns_vec(flags: &KnownDataFlags) -> (c: Vec<Column>)
    ensures
        c@ == flagged_columns(*flags),
{
    let mut c: Vec<Column> = Vec::new();
    push_when(&mut c, true, &[Column::X, Column::Y, Column::Z, Column::Kx, Column::Ky, Column::Kz]);
    push_when(&mut c, flags.radiant_flux, &[Column::RadiantFlux]);
    push_when(&mut c, flags.wavelength, &[Column::Wavelength]);
    push_when(&mut c, flags.luminous_flux, &[Column::LuminousFlux]);
    push_when(
        &mut c,
        flags.stokes,
        &[Column::S1, Column::S2, Column::S3, Column::PolX, Column::PolY, Column::PolZ],
    );
    push_when(&mut c, flags.tristimulus, &[Column::TriX, Column::TriZ]);
    push_when(&mut c, flags.spectrum_index, &[Column::SpectrumIndex]);
    c
}

/// Column order implied by the known-data flags and the number of
/// additional per-ray items.
pub fn columns_from_flags(flags: &KnownDataFlags, n_additional: usize) -> (c: Vec<Column>)
    ensures
        c@ == columns_spec(*flags, n_additional as nat),
{
    let mut c = flagged_columns_vec(flags);
    let ghost flagged = c@;
    let mut i: usize = 0;
    while i < n_additional
        invariant
            i <= n_additional,
            c@ =~= flagged + Seq::new(i as nat, |k: int| Column::Additional(k as usize)),
        decreases n_additional - i,
    {
        c.push(Column::Additional(i));
        i = i + 1;
    }
    c
}

/// Parsing knobs.
#[derive(Clone, Copy, Debug)]
pub struct ParseOptions {
    /// Reject flag combinations that break the consistency rules (e.g.
    /// no flux column at all). Default `true`.
    pub strict_flags: bool,
    /// Size of the whole file in bytes, when known. It settles whether the
    /// optional column-name / additional-text trailer (4.7.5, 4.7.6) is
    /// present: without it, an empty trailer and a first ray starting at the
    /// origin look the same. Default `None`.
    pub total_size: Option<u64>,
}

impl Default for ParseOptions {
    fn default() -> (r: Self)
        ensures
            r.strict_flags,
            r.total_size is None,
    {
        ParseOptions { strict_flags: true, total_size: None }
    }
}

/// Parsed TM-25 header. Every `f32` field holds the bit pattern found in
/// the file, so a header that is written back reproduces its bytes.
#[derive(Clone, Debug, PartialEq, Eq)]
pub struct Header {
    pub version: i32,
    /// 4.7.1.3. 0 = simulation; vendor files show -1.
    pub creation_method: i32,
    /// 4.7.1.4, lm, as stored. See [`Header::luminous_flux_lm`].
    pub luminous_flux_bits: u32,
    /// 4.7.1.5, W, as stored. See [`Header::radiant_flux_w`].
    pub radiant_flux_bits: u32,
    /// 4.7.1.6.
    pub n_rays: u64,
    /// 4.7.1.7, trimmed of NUL padding and surrounding white space.
    pub date_time: String,
    /// 4.7.1.8.
    pub start_position: i32,
    /// 4.7.1.9.
    pub spectral_id: SpectralId,
    /// 4.7.1.10, as stored (NaN when unused).
    pub single_wavelength_bits: u32,
    /// 4.7.1.11, as stored.
    pub min_wavelength_bits: u32,
    /// 4.7.1.12, as stored.
    pub max_wavelength_bits: u32,
    /// 4.7.1.14: user-defined per-ray columns.
    pub n_additional_items: usize,
    /// Size of the additional text block in code points (offset 84).
    pub additional_text_size: i32,
    pub flags: KnownDataFlags,
    pub text: TextFields,
    /// 4.7.4, one table per count in 4.7.1.13.
    pub spectra: Vec<SpectralTable>,
    /// Whether the file carries the column-name / additional-text trailer
    /// (4.7.5, 4.7.6) after the spectral tables. Some producers start the
    /// ray block right after the tables.
    pub has_name_block: bool,
    /// 4.7.5, names of the additional columns.
    pub column_names: Vec<String>,
    /// 4.7.6.
    pub additional_text: String,
    /// Column layout of one ray record, derived from the flags.
    pub columns: Vec<Column>,
    /// Byte offset of the first ray record.
    pub ray_start: usize,
}

/// A header in specifications.
pub struct HeaderModel {
    pub version: i32,
    pub creation_method: i32,
    pub luminous_flux_bits: u32,
    pub radiant_flux_bits: u32,
    pub n_rays: u64,
    pub date_time: Seq<char>,
    pub start_position: i32,
    pub spectral_id: SpectralId,
    pub single_wavelength_bits: u32,
    pub min_wavelength_bits: u32,
    pub max_wavelength_bits: u32,
    pub n_additional_items: usize,
    pub additional_text_size: i32,
    pub flags: KnownDataFlags,
    pub text: Seq<Seq<char>>,
    pub spectra: Seq<TableModel>,
    pub has_name_block: bool,
    pub column_names: Seq<Seq<char>>,
    pub additional_text: Seq<char>,
    pub columns: Seq<Column>,
    pub ray_start: usize,
}

impl View for Header {
    type V = HeaderModel;

    open spec fn view(&self) -> HeaderModel {
        HeaderModel {
            version: self.version,
            creation_method: self.creation_method,
            luminous_flux_bits: self.luminous_flux_bits,
            radiant_flux_bits: self.radiant_flux_bits,
            n_rays: self.n_rays,
            date_time: self.date_time@,
            start_position: self.start_position,
            spectral_id: self.spectral_id,
            single_wavelength_bits: self.single_wavelength_bits,
            min_wavelength_bits: self.min_wavelength_bits,
            max_wavelength_bits: self.max_wavelength_bits,
            n_additional_items: self.n_additional_items,
            additional_text_size: self.additional_text_size,
            flags: self.flags,
            text: self.text.raw@.map_values(|s: String| s@),
            spectra: self.spectra@.map_values(|t: SpectralTable| t@),
            has_name_block: self.has_name_block,
            column_names: self.column_names@.map_values(|s: String| s@),
            additional_text: self.additional_text@,
            columns: self.columns@,
            ray_start: self.ray_start,
        }
    }
}

/// Which flux a set of flags carries.
pub open spec fn flux_kind_of(f: KnownDataFlags) -> FluxKind {
    if f.radiant_flux && f.luminous_flux {
        FluxKind::Both
    } else if !f.radiant_flux && f.luminous_flux {
        FluxKind::Photometric
    } else {
        FluxKind::Radiometric
    }
}

/// A stored flux total as reported: the byte-swapped "unknown" pattern
/// reads as zero, everything else as stored.
pub open spec fn reported_flux(b: u32) -> u32 {
    if b == SWAPPED_UNKNOWN_BITS {
        0
    } else {
        b
    }
}

/// A stored wavelength bound as reported: `None` for NaN and for the
/// byte-swapped "unknown" pattern.
pub open spec fn reported_bound(b: u32) -> Option<u32> {
    if is_nan(b) || b == SWAPPED_UNKNOWN_BITS {
        None
    } else {
        Some(b)
    }
}

/// Index of the first occurrence of `c` in `s`, if any.
pub open spec fn first_index(s: Seq<Column>, c: Column) -> Option<int>
    decreases s.len(),
{
    if s.len() == 0 {
        None
    } else if s.last() == c && first_index(s.drop_last(), c) is None {
        Some(s.len() - 1)
    } else {
        first_index(s.drop_last(), c)
    }
}

// ---------------------------------------------------------------------
// Consistency rules.

/// The message for a table with a bad wavelength.
pub open spec fn bad_wavelength_message(i: int) -> Seq<char> {
    "spectral table "@ + int_text(i) + " has a non-positive wavelength"@
}

/// The message for a table with a bad value.
pub open spec fn bad_value_message(i: int) -> Seq<char> {
    "spectral table "@ + int_text(i) + " has a negative or NaN value"@
}

/// The first rule a table among `spectra[i..]` breaks: every wavelength is
/// a number > 0, every value a number >= 0.
pub open spec fn table_problem(spectra: Seq<TableModel>, i: int) -> Option<Seq<char>>
    decreases spectra.len() - i,
{
    if i < 0 || i >= spectra.len() {
        None
    } else if exists|k: int|
        0 <= k < spectra[i].wavelengths.len() && nan_or_not_positive(
            #[trigger] spectra[i].wavelengths[k],
        ) {
        Some(bad_wavelength_message(i))
    } else if exists|k: int|
        0 <= k < spectra[i].values.len() && nan_or_negative(#[trigger] spectra[i].values[k]) {
        Some(bad_value_message(i))
    } else {
        table_problem(spectra, i + 1)
    }
}

/// The value is a number below zero (not NaN, not a zero of either sign):
/// flux totals must be zero, positive or NaN.
pub open spec fn negative_value(b: u32) -> bool {
    nan_or_negative(b) && !is_nan(b)
}

/// The first consistency rule `h` breaks, as the message reported for it.
pub open spec fn consistency_problem(h: HeaderModel) -> Option<Seq<char>> {
    let f = h.flags;
    let id = h.spectral_id;
    if !f.position || !f.direction {
        Some("position and direction flags must be set"@)
    } else if !f.radiant_flux && !f.luminous_flux {
        Some("both radiant and luminous flux flags are missing"@)
    } else if negative_value(h.radiant_flux_bits) {
        Some("radiant flux total is negative"@)
    } else if negative_value(h.luminous_flux_bits) {
        Some("luminous flux total is negative"@)
    } else if id == SpectralId::PerRayWavelength && !f.wavelength {
        Some("spectral id 2 (per-ray wavelength) requires the wavelength flag"@)
    } else if id == SpectralId::PerRayWavelength && !f.radiant_flux {
        Some("spectral id 2 requires the radiant flux flag"@)
    } else if id == SpectralId::SharedTable && h.spectra.len() == 0 {
        Some("spectral id 3 (shared table) but no spectral table"@)
    } else if id == SpectralId::PerRayTableIndex && !f.spectrum_index {
        Some("spectral id 4 requires the spectrum index flag"@)
    } else if id == SpectralId::PerRayTableIndex && !f.radiant_flux {
        Some("spectral id 4 requires the radiant flux flag"@)
    } else if id == SpectralId::PerRayTableIndex && h.spectra.len() == 0 {
        Some("spectral id 4 but no spectral tables"@)
    } else if f.spectrum_index && id != SpectralId::PerRayTableIndex {
        Some("spectrum index flag requires spectral id 4"@)
    } else if f.stokes && !f.radiant_flux {
        Some("Stokes flag requires the radiant flux flag"@)
    } else if f.tristimulus && (!f.luminous_flux || id != SpectralId::NoSpectrum) {
        Some("tristimulus flag requires the luminous flux flag and spectral id 0"@)
    } else {
        table_problem(h.spectra, 0)
    }
}

fn invalid(msg: &str) -> (r: Result<(), Tm25Error>)
    ensures
        r matches Err(e) && e@ == ErrorModel::InvalidHeader(msg@),
{
    Err(Tm25Error::InvalidHeader(String::from_str(msg)))
}

fn table_message(i: usize, what: &str) -> (s: String)
    ensures
        s@ == "spectral table "@ + int_text(i as int) + what@,
{
    let mut s = String::from_str("spectral table ");
    push_u64(&mut s, i as u64);
    s.append(what);
    s
}

impl Header {
    /// An empty header for the given flags: no rays, no spectra, empty
    /// strings, the wavelength fields unused (NaN), and the column-name /
    /// additional-text trailer present (empty).
    pub fn new(flags: KnownDataFlags) -> (r: Self)
        ensures
            r@.version == VERSION_2013,
            r@.creation_method == 0,
            r@.luminous_flux_bits == 0,
            r@.radiant_flux_bits == 0,
            r@.n_rays == 0,
            r@.date_time.len() == 0,
            r@.start_position == 0,
            r@.spectral_id == SpectralId::NoSpectrum,
            r@.single_wavelength_bits == NAN_BITS,
            r@.min_wavelength_bits == NAN_BITS,
            r@.max_wavelength_bits == NAN_BITS,
            r@.n_additional_items == 0,
            r@.additional_text_size == 0,
            r@.flags == flags,
            r@.text.len() == 9,
            forall|i: int| 0 <= i < 9 ==> (#[trigger] r@.text[i]).len() == 0,
            r@.spectra.len() == 0,
            r@.has_name_block,
            r@.column_names.len() == 0,
            r@.additional_text.len() == 0,
            r@.columns == columns_spec(flags, 0),
            r@.ray_start == 0,
    {
        Header {
            version: VERSION_2013,
            creation_method: 0,
            luminous_flux_bits: 0,
            radiant_flux_bits: 0,
            n_rays: 0,
            date_time: String::new(),
            start_position: 0,
            spectral_id: SpectralId::NoSpectrum,
            single_wavelength_bits: NAN_BITS,
            min_wavelength_bits: NAN_BITS,
            max_wavelength_bits: NAN_BITS,
            n_additional_items: 0,
            additional_text_size: 0,
            flags,
            text: TextFields::default(),
            spectra: Vec::new(),
            has_name_block: true,
            column_names: Vec::new(),
            additional_text: String::new(),
            columns: columns_from_flags(&flags, 0),
            ray_start: 0,
        }
    }

    /// Bytes per ray record.
    pub fn record_size(&self) -> (r: usize)
        requires
            self.columns@.len() * 4 <= usize::MAX,
        ensures
            r == self.columns@.len() * 4,
    {
        self.columns.len() * 4
    }

    /// Total size of the ray block promised by the header.
    pub fn ray_block_size(&self) -> (r: u64)
        requires
            self.columns@.len() * 4 <= usize::MAX,
            self.n_rays * (self.columns@.len() * 4) <= u64::MAX,
        ensures
            r == self.n_rays * (self.columns@.len() * 4),
    {
        let rs = self.record_size() as u64;
        self.n_rays * rs
    }

    /// Which flux the rays carry.
    pub fn flux_kind(&self) -> (r: FluxKind)
        ensures
            r == flux_kind_of(self.flags),
    {
        match (self.flags.radiant_flux, self.flags.luminous_flux) {
            (true, true) => FluxKind::Both,
            (false, true) => FluxKind::Photometric,
            _ => FluxKind::Radiometric,
        }
    }

    /// Total luminous flux (4.7.1.4) as reported: zero for the byte-swapped
    /// "unknown" pattern, else as stored.
    pub fn luminous_flux_lm(&self) -> (r: u32)
        ensures
            r == reported_flux(self.luminous_flux_bits),
    {
        if self.luminous_flux_bits == SWAPPED_UNKNOWN_BITS {
            0
        } else {
            self.luminous_flux_bits
        }
    }

    /// Total radiant flux (4.7.1.5) as reported: zero for the byte-swapped
    /// "unknown" pattern, else as stored.
    pub fn radiant_flux_w(&self) -> (r: u32)
        ensures
            r == reported_flux(self.radiant_flux_bits),
    {
        if self.radiant_flux_bits == SWAPPED_UNKNOWN_BITS {
            0
        } else {
            self.radiant_flux_bits
        }
    }

    /// Single wavelength (4.7.1.10); `None` when the file stores NaN.
    pub fn single_wavelength_nm(&self) -> (r: Option<u32>)
        ensures
            r == crate::bits::known(self.single_wavelength_bits),
    {
        crate::bits::known_exec(self.single_wavelength_bits)
    }

    /// Minimum wavelength (4.7.1.11); `None` for NaN and for the
    /// byte-swapped "unknown" pattern.
    pub fn min_wavelength_nm(&self) -> (r: Option<u32>)
        ensures
            r == reported_bound(self.min_wavelength_bits),
    {
        if crate::bits::is_nan_exec(self.min_wavelength_bits) || self.min_wavelength_bits
            == SWAPPED_UNKNOWN_BITS {
            None
        } else {
            Some(self.min_wavelength_bits)
        }
    }

    /// Maximum wavelength (4.7.1.12); `None` for NaN and for the
    /// byte-swapped "unknown" pattern.
    pub fn max_wavelength_nm(&self) -> (r: Option<u32>)
        ensures
            r == reported_bound(self.max_wavelength_bits),
    {
        if crate::bits::is_nan_exec(self.max_wavelength_bits) || self.max_wavelength_bits
            == SWAPPED_UNKNOWN_BITS {
            None
        } else {
            Some(self.max_wavelength_bits)
        }
    }

    /// Header total for the given kind, as reported.
    pub fn total_flux(&self, kind: FluxKind) -> (r: u32)
        ensures
            r == (match kind {
                FluxKind::Photometric => reported_flux(self.luminous_flux_bits),
                _ => reported_flux(self.radiant_flux_bits),
            }),
    {
        match kind {
            FluxKind::Radiometric | FluxKind::Both => self.radiant_flux_w(),
            FluxKind::Photometric => self.luminous_flux_lm(),
        }
    }

    /// Index of a column in the record, if present.
    pub fn column_index(&self, col: Column) -> (r: Option<usize>)
        ensures
            r matches Some(i) ==> first_index(self.columns@, col) == Some(i as int),
            r is None ==> first_index(self.columns@, col) is None,
    {
        position_of(&self.columns, col)
    }

    /// The table that applies to every ray (`SpectralId::SharedTable`).
    pub fn shared_spectrum(&self) -> (r: Option<&SpectralTable>)
        ensures
            r matches Some(t) ==> self.spectral_id == SpectralId::SharedTable
                && self.spectra@.len() > 0 && *t == self.spectra@[0],
            r is None ==> self.spectral_id != SpectralId::SharedTable || self.spectra@.len()
                == 0,
    {
        match self.spectral_id {
            SpectralId::SharedTable => if self.spectra.len() > 0 {
                Some(&self.spectra[0])
            } else {
                None
            },
            _ => None,
        }
    }

    /// Check the consistency rules of the format.
    pub fn validate(&self) -> (r: Result<(), Tm25Error>)
        ensures
            match consistency_problem(self@) {
                None => r is Ok,
                Some(msg) => r matches Err(e) && e@ == ErrorModel::InvalidHeader(msg),
            },
    {
        let f = &self.flags;
        if !f.position || !f.direction {
            return invalid("position and direction flags must be set");
        }
        if !f.radiant_flux && !f.luminous_flux {
            return invalid("both radiant and luminous flux flags are missing");
        }
        if nan_or_negative_exec(self.radiant_flux_bits) && !is_nan_exec(self.radiant_flux_bits) {
            return invalid("radiant flux total is negative");
        }
        if nan_or_negative_exec(self.luminous_flux_bits) && !is_nan_exec(self.luminous_flux_bits) {
            return invalid("luminous flux total is negative");
        }
        match self.spectral_id {
            SpectralId::PerRayWavelength => {
                if !f.wavelength {
                    return invalid(
                        "spectral id 2 (per-ray wavelength) requires the wavelength flag",
                    );
                }
                if !f.radiant_flux {
                    return invalid("spectral id 2 requires the radiant flux flag");
                }
            },
            SpectralId::SharedTable => {
                if self.spectra.len() == 0 {
                    return invalid("spectral id 3 (shared table) but no spectral table");
                }
            },
            SpectralId::PerRayTableIndex => {
                if !f.spectrum_index {
                    return invalid("spectral id 4 requires the spectrum index flag");
                }
                if !f.radiant_flux {
                    return invalid("spectral id 4 requires the radiant flux flag");
                }
                if self.spectra.len() == 0 {
                    return invalid("spectral id 4 but no spectral tables");
                }
            },
            _ => {},
        }
        let is_table_index = match self.spectral_id {
            SpectralId::PerRayTableIndex => true,
            _ => false,
        };
        if f.spectrum_index && !is_table_index {
            return invalid("spectrum index flag requires spectral id 4");
        }
        if f.stokes && !f.radiant_flux {
            return invalid("Stokes flag requires the radiant flux flag");
        }
        let is_none = match self.spectral_id {
            SpectralId::NoSpectrum => true,
            _ => false,
        };
        if f.tristimulus && (!f.luminous_flux || !is_none) {
            return invalid("tristimulus flag requires the luminous flux flag and spectral id 0");
        }
        let ghost spectra = self@.spectra;
        assert(consistency_problem(self@) == table_problem(spectra, 0));
        let mut i: usize = 0;
        while i < self.spectra.len()
            invariant
                consistency_problem(self@) == table_problem(spectra, 0),
                i <= self.spectra@.len(),
                spectra == self@.spectra,
                table_problem(spectra, 0) == table_problem(spectra, i as int),
            decreases self.spectra@.len() - i,
        {
            let t = &self.spectra[i];
            assert(spectra[i as int] == t@);
            let mut k: usize = 0;
            while k < t.wavelengths_nm.len()
                invariant
                    consistency_problem(self@) == table_problem(spectra, 0),
                    table_problem(spectra, 0) == table_problem(spectra, i as int),
                    k <= t.wavelengths_nm@.len(),
                    i < self.spectra@.len(),
                    spectra == self@.spectra,
                    spectra[i as int] == t@,
                    forall|j: int| 0 <= j < k ==> !nan_or_not_positive(t.wavelengths_nm@[j]),
                decreases t.wavelengths_nm@.len() - k,
            {
                if nan_or_not_positive_exec(t.wavelengths_nm[k]) {
                    assert(nan_or_not_positive(spectra[i as int].wavelengths[k as int]));
                    assert(table_problem(spectra, i as int) == Some(bad_wavelength_message(i as int)));
                    return Err(
                        Tm25Error::InvalidHeader(table_message(i, " has a non-positive wavelength")),
                    );
                }
                k = k + 1;
            }
            let mut k: usize = 0;
            while k < t.values.len()
                invariant
                    consistency_problem(self@) == table_problem(spectra, 0),
                    table_problem(spectra, 0) == table_problem(spectra, i as int),
                    k <= t.values@.len(),
                    i < self.spectra@.len(),
                    spectra == self@.spectra,
                    spectra[i as int] == t@,
                    forall|j: int|
                        0 <= j < t.wavelengths_nm@.len() ==> !nan_or_not_positive(
                            #[trigger] t.wavelengths_nm@[j],
                        ),
                    forall|j: int| 0 <= j < k ==> !nan_or_negative(t.values@[j]),
                decreases t.values@.len() - k,
            {
                if nan_or_negative_exec(t.values[k]) {
                    assert(!(exists|j: int|
                        0 <= j < spectra[i as int].wavelengths.len() && nan_or_not_positive(
                            #[trigger] spectra[i as int].wavelengths[j],
                        )));
                    assert(nan_or_negative(spectra[i as int].values[k as int]));
                    return Err(
                        Tm25Error::InvalidHeader(table_message(i, " has a negative or NaN value")),
                    );
                }
                k = k + 1;
            }
            i = i + 1;
        }
        Ok(())
    }
}

/// Index of the first occurrence of `col` in `columns`.
pub fn position_of(columns: &Vec<Column>, col: Column) -> (r: Option<usize>)
    ensures
        r matches Some(i) ==> first_index(columns@, col) == Some(i as int),
        r is None ==> first_index(columns@, col) is None,
{
    let mut i: usize = 0;
    while i < columns.len()
        invariant
            i <= columns@.len(),
            first_index(columns@.take(i as int), col) is None,
        decreases columns@.len() - i,
    {
        if columns[i] == col {
            proof {
                lemma_first_index_prefix(columns@, col, i as int);
            }
            return Some(i);
        }
        proof {
            let t = columns@.take(i + 1);
            assert(t.drop_last() =~= columns@.take(i as int));
        }
        i = i + 1;
    }
    proof {
        assert(columns@.take(columns@.len() as int) =~= columns@);
    }
    None
}

/// When `s[i] == c` and no earlier element is `c`, the first index is `i`.
pub proof fn lemma_first_index_prefix(s: Seq<Column>, c: Column, i: int)
    requires
        0 <= i < s.len(),
        s[i] == c,
        first_index(s.take(i), c) is None,
    ensures
        first_index(s, c) == Some(i),
    decreases s.len(),
{
    if i == s.len() - 1 {
        assert(s.drop_last() =~= s.take(i));
    } else {
        assert(s.drop_last().take(i) =~= s.take(i));
        lemma_first_index_prefix(s.drop_last(), c, i);
    }
}

} // verus!
