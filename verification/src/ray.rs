//! Ray records: decoding and encoding, a zero-copy view over the ray
//! block, and the axis mapping shared with the viewer.

use vstd::arithmetic::power2::pow2;
use vstd::prelude::*;

use crate::bits::{exponent, fraction, neg, neg_exec, sign};
use crate::header::{first_index, position_of, Column, FluxKind, Header};
use crate::le::{put_u32, u32_at, u32_bytes, u32_from_le};

verus! {

/// One decoded ray. Positions in mm, direction a unit vector, fluxes in W
/// (radiant) or lm (luminous), each `f32` held as its bit pattern. Columns
/// the file does not carry are `None`.
#[derive(Clone, Copy, Debug, PartialEq, Eq, Structural)]
pub struct Ray {
    pub x: u32,
    pub y: u32,
    pub z: u32,
    pub kx: u32,
    pub ky: u32,
    pub kz: u32,
    pub radiant_flux_w: Option<u32>,
    pub luminous_flux_lm: Option<u32>,
    pub wavelength_nm: Option<u32>,
    /// 1-based index into `Header::spectra` (spectral id 4).
    pub spectrum_index: Option<u32>,
}

impl Default for Ray {
    fn default() -> (r: Self)
        ensures
            r == (Ray {
                x: 0,
                y: 0,
                z: 0,
                kx: 0,
                ky: 0,
                kz: 0,
                radiant_flux_w: None,
                luminous_flux_lm: None,
                wavelength_nm: None,
                spectrum_index: None,
            }),
    {
        Ray {
            x: 0,
            y: 0,
            z: 0,
            kx: 0,
            ky: 0,
            kz: 0,
            radiant_flux_w: None,
            luminous_flux_lm: None,
            wavelength_nm: None,
            spectrum_index: None,
        }
    }
}

impl Ray {
    /// Position and direction only.
    pub fn new(pos: [u32; 3], dir: [u32; 3]) -> (r: Self)
        ensures
            r == (Ray {
                x: pos@[0],
                y: pos@[1],
                z: pos@[2],
                kx: dir@[0],
                ky: dir@[1],
                kz: dir@[2],
                radiant_flux_w: None,
                luminous_flux_lm: None,
                wavelength_nm: None,
                spectrum_index: None,
            }),
    {
        Ray {
            x: pos[0],
            y: pos[1],
            z: pos[2],
            kx: dir[0],
            ky: dir[1],
            kz: dir[2],
            radiant_flux_w: None,
            luminous_flux_lm: None,
            wavelength_nm: None,
            spectrum_index: None,
        }
    }

    pub fn with_radiant_flux(self, w: u32) -> (r: Self)
        ensures
            r == (Ray { radiant_flux_w: Some(w), ..self }),
    {
        Ray { radiant_flux_w: Some(w), ..self }
    }

    pub fn with_luminous_flux(self, lm: u32) -> (r: Self)
        ensures
            r == (Ray { luminous_flux_lm: Some(lm), ..self }),
    {
        Ray { luminous_flux_lm: Some(lm), ..self }
    }

    pub fn position(&self) -> (r: [u32; 3])
        ensures
            r@ == seq![self.x, self.y, self.z],
    {
        let r = [self.x, self.y, self.z];
        assert(r@ =~= seq![self.x, self.y, self.z]);
        r
    }

    pub fn direction(&self) -> (r: [u32; 3])
        ensures
            r@ == seq![self.kx, self.ky, self.kz],
    {
        let r = [self.kx, self.ky, self.kz];
        assert(r@ =~= seq![self.kx, self.ky, self.kz]);
        r
    }

    /// The flux for `kind` (`Both` prefers radiant); 0.0 when absent.
    pub fn flux(&self, kind: FluxKind) -> (r: u32)
        ensures
            r == (match kind {
                FluxKind::Photometric => match self.luminous_flux_lm {
                    Some(v) => v,
                    None => 0,
                },
                _ => match self.radiant_flux_w {
                    Some(v) => v,
                    None => 0,
                },
            }),
    {
        match kind {
            FluxKind::Radiometric | FluxKind::Both => match self.radiant_flux_w {
                Some(v) => v,
                None => 0,
            },
            FluxKind::Photometric => match self.luminous_flux_lm {
                Some(v) => v,
                None => 0,
            },
        }
    }

    /// Position in Bevy space, see [`to_bevy`].
    pub fn bevy_position(&self) -> (r: [u32; 3])
        ensures
            r@ == bevy_of(seq![self.x, self.y, self.z]),
    {
        to_bevy(self.position())
    }

    /// Direction in Bevy space, see [`to_bevy`].
    pub fn bevy_direction(&self) -> (r: [u32; 3])
        ensures
            r@ == bevy_of(seq![self.kx, self.ky, self.kz]),
    {
        to_bevy(self.direction())
    }
}

/// `(x, y, z)` mapped to Bevy `(x, −z, y)`.
pub open spec fn bevy_of(v: Seq<u32>) -> Seq<u32> {
    seq![v[0], neg(v[2]), v[1]]
}

/// Bevy `(x, y, z)` mapped back to `(x, z, −y)`.
pub open spec fn from_bevy_of(v: Seq<u32>) -> Seq<u32> {
    seq![v[0], v[2], neg(v[1])]
}

/// Map a TM-25 vector `(x, y, z)` to Bevy `(x, −z, y)`: the emission axis
/// (+z) lands on Bevy −Y, C = 0 (+x) on +X and C = 90 (+y) on +Z. It is a
/// proper rotation (−90° about X), so handedness is preserved.
pub fn to_bevy(v: [u32; 3]) -> (r: [u32; 3])
    ensures
        r@ == bevy_of(v@),
{
    let r = [v[0], neg_exec(v[2]), v[1]];
    assert(r@ =~= bevy_of(v@));
    r
}

/// Inverse of [`to_bevy`].
pub fn from_bevy(v: [u32; 3]) -> (r: [u32; 3])
    ensures
        r@ == from_bevy_of(v@),
{
    let r = [v[0], v[2], neg_exec(v[1])];
    assert(r@ =~= from_bevy_of(v@));
    r
}

/// Mapping to Bevy space and back returns the same vector, bit for bit.
pub proof fn lemma_bevy_round_trip(v: Seq<u32>)
    requires
        v.len() == 3,
    ensures
        from_bevy_of(bevy_of(v)) == v,
        bevy_of(from_bevy_of(v)) == v,
{
    assert(from_bevy_of(bevy_of(v)) =~= v);
    assert(bevy_of(from_bevy_of(v)) =~= v);
}

// ---------------------------------------------------------------------
// The spectrum-index column: a 1-based index stored as `f32`.

/// The index a stored `f32` names: the value rounded half away from zero,
/// negative values and NaN as 0, values beyond `u32::MAX` as `u32::MAX`
/// (`v.round().max(0.0) as u32`).
pub open spec fn index_of_bits(b: u32) -> u32 {
    let e = exponent(b);
    let f = fraction(b);
    if e == 0xFF {
        if f == 0 && sign(b) == 0 {
            u32::MAX
        } else {
            0
        }
    } else if sign(b) == 1 {
        0
    } else {
        let m = if e == 0 {
            f
        } else {
            f + 0x80_0000
        };
        let e2 = if e == 0 {
            1
        } else {
            e
        };
        let r = if e2 >= 150 {
            m * pow2((e2 - 150) as nat)
        } else {
            (m + pow2((149 - e2) as nat)) / (pow2((150 - e2) as nat) as int)
        };
        if r > u32::MAX {
            u32::MAX
        } else {
            r as u32
        }
    }
}

proof fn lemma_pow2_mono(a: nat, b: nat)
    requires
        a <= b,
    ensures
        pow2(a) <= pow2(b),
{
    if a < b {
        vstd::arithmetic::power2::lemma_pow2_strictly_increases(a, b);
    }
}

fn pow2_exec(k: u32) -> (r: u64)
    requires
        k < 64,
    ensures
        r == pow2(k as nat),
{
    let mut r: u64 = 1;
    let mut i: u32 = 0;
    proof {
        vstd::arithmetic::power2::lemma2_to64();
    }
    while i < k
        invariant
            i <= k < 64,
            r == pow2(i as nat),
        decreases k - i,
    {
        proof {
            vstd::arithmetic::power2::lemma_pow2_unfold((i + 1) as nat);
            vstd::arithmetic::power2::lemma_pow2_strictly_increases((i + 1) as nat, 64);
            vstd::arithmetic::power2::lemma2_to64();
        }
        r = r * 2;
        i = i + 1;
    }
    r
}

/// Decode the spectrum-index column.
pub fn index_from_bits(b: u32) -> (r: u32)
    ensures
        r == index_of_bits(b),
{
    let e = (b / 0x80_0000) % 0x100;
    let f = b % 0x80_0000;
    if e == 0xFF {
        return if f == 0 && b / 0x8000_0000 == 0 {
            u32::MAX
        } else {
            0
        };
    }
    if b / 0x8000_0000 == 1 {
        return 0;
    }
    let m: u64 = if e == 0 {
        f as u64
    } else {
        f as u64 + 0x80_0000
    };
    let e2: u32 = if e == 0 {
        1
    } else {
        e
    };
    if e2 >= 150 {
        let sh = e2 - 150;
        if sh >= 9 {
            proof {
                lemma_pow2_mono(9, sh as nat);
                vstd::arithmetic::power2::lemma2_to64();
                assert(m >= 0x80_0000);
                assert(m * pow2(sh as nat) >= 0x80_0000 * pow2(9)) by (nonlinear_arith)
                    requires
                        m >= 0x80_0000,
                        pow2(sh as nat) >= pow2(9),
                ;
            }
            u32::MAX
        } else {
            let p = pow2_exec(sh);
            proof {
                vstd::arithmetic::power2::lemma2_to64();
                lemma_pow2_mono(sh as nat, 8);
                assert(m * p <= 0x100_0000 * 0x100) by (nonlinear_arith)
                    requires
                        m < 0x100_0000,
                        p <= 0x100,
                ;
            }
            let v = m * p;
            if v > u32::MAX as u64 {
                u32::MAX
            } else {
                v as u32
            }
        }
    } else {
        let k = 150 - e2;
        if k >= 26 {
            proof {
                lemma_pow2_mono(25, (k - 1) as nat);
                vstd::arithmetic::power2::lemma_pow2_unfold(k as nat);
                vstd::arithmetic::power2::lemma2_to64();
                let half = pow2((k - 1) as nat) as int;
                assert(pow2(k as nat) == 2 * half);
                assert(m < half);
                assert((m + half) / (2 * half) == 0) by (nonlinear_arith)
                    requires
                        0 <= m < half,
                ;
            }
            0
        } else {
            let half = pow2_exec(k - 1);
            let den = pow2_exec(k);
            proof {
                vstd::arithmetic::power2::lemma2_to64();
                lemma_pow2_mono((k - 1) as nat, 24);
                vstd::arithmetic::power2::lemma_pow2_pos(k as nat);
            }
            let v = (m + half) / den;
            proof {
                assert(v <= m + half);
            }
            if v > u32::MAX as u64 {
                u32::MAX
            } else {
                v as u32
            }
        }
    }
}

// ---------------------------------------------------------------------
// Record layout.

/// Byte layout of one ray record.
#[derive(Debug, PartialEq, Eq)]
pub struct RayLayout {
    pub columns: Vec<Column>,
    pub record_size: usize,
    radiant: Option<usize>,
    luminous: Option<usize>,
    wavelength: Option<usize>,
    spectrum_index: Option<usize>,
}

/// Where a column sits, as an index option.
pub open spec fn slot(cols: Seq<Column>, c: Column) -> Option<usize> {
    match first_index(cols, c) {
        Some(i) => Some(i as usize),
        None => None,
    }
}

/// The ray a record holds under a column layout: position and direction
/// in the first six columns, each optional field from its column.
pub open spec fn decode_spec(cols: Seq<Column>, rec: Seq<u8>) -> Ray {
    Ray {
        x: u32_at(rec, 0),
        y: u32_at(rec, 4),
        z: u32_at(rec, 8),
        kx: u32_at(rec, 12),
        ky: u32_at(rec, 16),
        kz: u32_at(rec, 20),
        radiant_flux_w: match slot(cols, Column::RadiantFlux) {
            Some(i) => Some(u32_at(rec, 4 * i)),
            None => None,
        },
        luminous_flux_lm: match slot(cols, Column::LuminousFlux) {
            Some(i) => Some(u32_at(rec, 4 * i)),
            None => None,
        },
        wavelength_nm: match slot(cols, Column::Wavelength) {
            Some(i) => Some(u32_at(rec, 4 * i)),
            None => None,
        },
        spectrum_index: match slot(cols, Column::SpectrumIndex) {
            Some(i) => Some(index_of_bits(u32_at(rec, 4 * i))),
            None => None,
        },
    }
}

/// The value written for column `c` of `ray`: the ray's own fields, the
/// spectrum index as an `f32`, and 0.0 for what a ray does not carry.
pub open spec fn column_value(ray: Ray, c: Column) -> u32 {
    match c {
        Column::X => ray.x,
        Column::Y => ray.y,
        Column::Z => ray.z,
        Column::Kx => ray.kx,
        Column::Ky => ray.ky,
        Column::Kz => ray.kz,
        Column::RadiantFlux => match ray.radiant_flux_w {
            Some(v) => v,
            None => 0,
        },
        Column::LuminousFlux => match ray.luminous_flux_lm {
            Some(v) => v,
            None => 0,
        },
        Column::Wavelength => match ray.wavelength_nm {
            Some(v) => v,
            None => 0,
        },
        Column::SpectrumIndex => match ray.spectrum_index {
            Some(v) => bits_of_index(v),
            None => 0,
        },
        _ => 0,
    }
}

/// The bytes of one record.
pub open spec fn encode_spec(cols: Seq<Column>, ray: Ray) -> Seq<u8>
    decreases cols.len(),
{
    if cols.len() == 0 {
        Seq::empty()
    } else {
        encode_spec(cols.drop_last(), ray) + u32_bytes(column_value(ray, cols.last()))
    }
}

/// The `f32` bit pattern nearest to `v` (`v as f32`): exact up to 2^24,
/// rounded to nearest, ties to even, above.
pub open spec fn bits_of_index(v: u32) -> u32 {
    if v == 0 {
        0
    } else {
        let e = log2_floor(v as nat);
        if e < 24 {
            // Exact: v = 1.f × 2^e.
            (((127 + e) * 0x80_0000) + (v * pow2((23 - e) as nat) - 0x80_0000)) as u32
        } else {
            let sh = (e - 23) as nat;
            let q = (v as int) / (pow2(sh) as int);
            let rem = (v as int) % (pow2(sh) as int);
            let half = pow2((sh - 1) as nat) as int;
            let up = rem > half || (rem == half && q % 2 == 1);
            let m = if up {
                q + 1
            } else {
                q
            };
            if m == 0x100_0000 {
                (((127 + e + 1) * 0x80_0000)) as u32
            } else {
                (((127 + e) * 0x80_0000) + (m - 0x80_0000)) as u32
            }
        }
    }
}

/// Position of the highest set bit of `v > 0`.
pub open spec fn log2_floor(v: nat) -> nat
    decreases v,
{
    if v <= 1 {
        0
    } else {
        1 + log2_floor(v / 2)
    }
}

proof fn lemma_log2_floor(v: nat, e: nat)
    requires
        pow2(e) <= v < pow2(e + 1),
    ensures
        log2_floor(v) == e,
    decreases e,
{
    vstd::arithmetic::power2::lemma_pow2_unfold(e + 1);
    if e == 0 {
        vstd::arithmetic::power2::lemma2_to64();
    } else {
        vstd::arithmetic::power2::lemma_pow2_unfold(e);
        assert(pow2((e - 1) as nat) <= v / 2 < pow2(e));
        lemma_log2_floor(v / 2, (e - 1) as nat);
    }
}

/// Encode a spectrum index as an `f32` (`v as f32`).
pub fn bits_from_index(v: u32) -> (r: u32)
    ensures
        r == bits_of_index(v),
{
    if v == 0 {
        return 0;
    }
    let mut e: u32 = 0;
    let mut p: u64 = 1;
    proof {
        vstd::arithmetic::power2::lemma2_to64();
    }
    while p * 2 <= v as u64
        invariant
            e <= 31,
            p == pow2(e as nat),
            1 <= p <= v,
        decreases 32 - e,
    {
        proof {
            vstd::arithmetic::power2::lemma_pow2_unfold((e + 1) as nat);
            vstd::arithmetic::power2::lemma2_to64();
            if e == 31 {
                assert(p == 0x8000_0000);
            }
        }
        p = p * 2;
        e = e + 1;
    }
    proof {
        vstd::arithmetic::power2::lemma_pow2_unfold((e + 1) as nat);
        lemma_log2_floor(v as nat, e as nat);
    }
    if e < 24 {
        let f = pow2_exec(23 - e);
        proof {
            vstd::arithmetic::power2::lemma2_to64();
            vstd::arithmetic::power2::lemma_pow2_adds(e as nat, (23 - e) as nat);
            assert(pow2(e as nat) * pow2((23 - e) as nat) == pow2(23));
            assert(pow2(23) == 0x80_0000);
            assert(p * f == 0x80_0000);
            assert(v * f < 2 * (p * f)) by (nonlinear_arith)
                requires
                    v < 2 * p,
                    f > 0,
            ;
            assert(v * f >= p * f) by (nonlinear_arith)
                requires
                    v >= p,
                    f > 0,
            ;
        }
        assert(v * f < 0x100_0000);
        assert(v * f >= 0x80_0000);
        let m = v as u64 * f;
        ((127 + e as u64) * 0x80_0000 + (m - 0x80_0000)) as u32
    } else {
        let sh = e - 23;
        let d = pow2_exec(sh);
        let half = pow2_exec(sh - 1);
        proof {
            vstd::arithmetic::power2::lemma_pow2_pos(sh as nat);
            lemma_pow2_mono(sh as nat, 8);
            vstd::arithmetic::power2::lemma2_to64();
            vstd::arithmetic::power2::lemma_pow2_adds(23, sh as nat);
            assert(p == pow2(23) * d);
            assert((v as int) / (d as int) < 0x100_0000) by (nonlinear_arith)
                requires
                    (v as int) < 2 * (pow2(23) * d),
                    pow2(23) == 0x80_0000,
                    d > 0,
            ;
        }
        let q = v as u64 / d;
        let rem = v as u64 % d;
        let up = rem > half || (rem == half && q % 2 == 1);
        let m = if up {
            q + 1
        } else {
            q
        };
        proof {
            assert((v as int) / (d as int) >= 0x80_0000) by (nonlinear_arith)
                requires
                    (v as int) >= (pow2(23) * d),
                    pow2(23) == 0x80_0000,
                    d > 0,
            ;
        }
        if m == 0x100_0000 {
            ((127 + e as u64 + 1) * 0x80_0000) as u32
        } else {
            ((127 + e as u64) * 0x80_0000 + (m - 0x80_0000)) as u32
        }
    }
}

/// `log2_floor(v)` is the exponent of the power of two at or below `v`.
proof fn lemma_log2_floor_bounds(v: nat)
    requires
        v >= 1,
    ensures
        pow2(log2_floor(v)) <= v < pow2(log2_floor(v) + 1),
    decreases v,
{
    vstd::arithmetic::power2::lemma_pow2_unfold(log2_floor(v) + 1);
    if v == 1 {
        vstd::arithmetic::power2::lemma2_to64();
    } else {
        lemma_log2_floor_bounds(v / 2);
        vstd::arithmetic::power2::lemma_pow2_unfold(log2_floor(v));
    }
}

/// A spectrum index up to 2^24 survives `as f32` and back: it is a whole
/// number that an `f32` holds exactly.
pub proof fn lemma_index_round_trip(v: u32)
    requires
        v <= 0x100_0000,
    ensures
        index_of_bits(bits_of_index(v)) == v,
{
    vstd::arithmetic::power2::lemma2_to64();
    if v == 0 {
        vstd::arithmetic::power2::lemma_pow2_unfold(149);
        vstd::arithmetic::power2::lemma_pow2_pos(148);
        let h = pow2(148) as int;
        assert((0 + h) / (2 * h) == 0) by (nonlinear_arith)
            requires
                h > 0,
        ;
        assert(bits_of_index(0) == 0);
        assert(exponent(0) == 0 && fraction(0) == 0 && sign(0) == 0);
        assert(index_of_bits(0) == 0);
    } else if v == 0x100_0000 {
        lemma_log2_floor(v as nat, 24);
        let b = bits_of_index(v);
        assert(b == 151 * 0x80_0000);
        assert(exponent(b) == 151 && fraction(b) == 0 && sign(b) == 0);
        assert(index_of_bits(b) == 0x80_0000 * pow2(1));
        assert(index_of_bits(b) == v);
    } else {
        lemma_log2_floor_bounds(v as nat);
        let e = log2_floor(v as nat);
        if e >= 24 {
            lemma_pow2_mono(24, e);
        }
        assert(e < 24);
        let k = (23 - e) as nat;
        vstd::arithmetic::power2::lemma_pow2_adds(e, k);
        vstd::arithmetic::power2::lemma_pow2_unfold(e + 1);
        vstd::arithmetic::power2::lemma_pow2_pos(k);
        let pk = pow2(k) as int;
        let pe = pow2(e) as int;
        assert(pe * pk == 0x80_0000);
        assert(v * pk >= pe * pk) by (nonlinear_arith)
            requires
                v >= pe,
                pk > 0,
        ;
        assert(v * pk < 2 * (pe * pk)) by (nonlinear_arith)
            requires
                v < 2 * pe,
                pk > 0,
        ;
        let m = v * pk;
        let b = bits_of_index(v);
        assert(b == (127 + e) * 0x80_0000 + (m - 0x80_0000));
        assert(exponent(b) == 127 + e);
        assert(fraction(b) == m - 0x80_0000);
        assert(sign(b) == 0);
        if e == 23 {
            assert(k == 0);
            assert(pk == 1);
            assert(m == v) by (nonlinear_arith)
                requires
                    m == v * pk,
                    pk == 1,
            ;
            assert(index_of_bits(b) == m * pow2(0));
            assert(index_of_bits(b) == v);
        } else {
            vstd::arithmetic::power2::lemma_pow2_unfold(k);
            let h = pow2((k - 1) as nat) as int;
            assert(pk == 2 * h);
            assert((m + h) / pk == v) by (nonlinear_arith)
                requires
                    m == v * pk,
                    pk == 2 * h,
                    h > 0,
            ;
            assert((149 - (127 + e)) as nat == (k - 1) as nat);
            assert((150 - (127 + e)) as nat == k);
            assert(index_of_bits(b) == v);
        }
    }
}

pub proof fn lemma_first_index_bound(s: Seq<Column>, c: Column)
    ensures
        first_index(s, c) matches Some(i) ==> 0 <= i < s.len() && s[i] == c,
    decreases s.len(),
{
    if s.len() > 0 {
        lemma_first_index_bound(s.drop_last(), c);
    }
}

/// A copy of a column list.
pub fn copy_columns(v: &Vec<Column>) -> (r: Vec<Column>)
    ensures
        r@ == v@,
{
    let mut r: Vec<Column> = Vec::new();
    let mut i: usize = 0;
    while i < v.len()
        invariant
            i <= v@.len(),
            r@ =~= v@.take(i as int),
        decreases v@.len() - i,
    {
        r.push(v[i]);
        i = i + 1;
    }
    assert(v@.take(v@.len() as int) =~= v@);
    r
}

impl Clone for RayLayout {
    fn clone(&self) -> (r: Self)
        ensures
            r.column_seq() == self.column_seq(),
            r.size() == self.size(),
            self.wf() ==> r.wf(),
    {
        RayLayout {
            columns: copy_columns(&self.columns),
            record_size: self.record_size,
            radiant: self.radiant,
            luminous: self.luminous,
            wavelength: self.wavelength,
            spectrum_index: self.spectrum_index,
        }
    }
}

impl RayLayout {
    /// The columns, in record order.
    pub closed spec fn column_seq(&self) -> Seq<Column> {
        self.columns@
    }

    /// Bytes per record.
    pub closed spec fn size(&self) -> usize {
        self.record_size
    }

    /// The cached column positions agree with the columns and the record
    /// size is four bytes per column.
    pub closed spec fn wf(&self) -> bool {
        &&& self.record_size == self.columns@.len() * 4
        &&& self.radiant == slot(self.columns@, Column::RadiantFlux)
        &&& self.luminous == slot(self.columns@, Column::LuminousFlux)
        &&& self.wavelength == slot(self.columns@, Column::Wavelength)
        &&& self.spectrum_index == slot(self.columns@, Column::SpectrumIndex)
    }

    pub fn from_header(h: &Header) -> (r: Self)
        requires
            h.columns@.len() * 4 <= usize::MAX,
        ensures
            r.wf(),
            r.column_seq() == h.columns@,
            r.size() == h.columns@.len() * 4,
    {
        Self::from_columns(h.columns.clone())
    }

    pub fn from_columns(columns: Vec<Column>) -> (r: Self)
        requires
            columns@.len() * 4 <= usize::MAX,
        ensures
            r.wf(),
            r.column_seq() == columns@,
            r.size() == columns@.len() * 4,
    {
        let radiant = position_of(&columns, Column::RadiantFlux);
        let luminous = position_of(&columns, Column::LuminousFlux);
        let wavelength = position_of(&columns, Column::Wavelength);
        let spectrum_index = position_of(&columns, Column::SpectrumIndex);
        let record_size = columns.len() * 4;
        RayLayout { radiant, luminous, wavelength, spectrum_index, record_size, columns }
    }

    /// Bytes per record.
    pub fn record_size(&self) -> (r: usize)
        ensures
            r == self.size(),
    {
        self.record_size
    }

    /// The `f32` column `i` of a record, as its bit pattern.
    fn f32_at(rec: &[u8], i: usize) -> (v: u32)
        requires
            4 * i + 4 <= rec@.len(),
        ensures
            v == u32_at(rec@, 4 * i),
    {
        let n = rec.len();
        u32_from_le(rec[4 * i], rec[4 * i + 1], rec[4 * i + 2], rec[4 * i + 3])
    }

    /// Decode one record.
    pub fn decode(&self, rec: &[u8]) -> (r: Ray)
        requires
            self.wf(),
            rec@.len() >= self.size(),
            rec@.len() >= 24,
        ensures
            r == decode_spec(self.column_seq(), rec@),
    {
        proof {
            lemma_first_index_bound(self.columns@, Column::RadiantFlux);
            lemma_first_index_bound(self.columns@, Column::LuminousFlux);
            lemma_first_index_bound(self.columns@, Column::Wavelength);
            lemma_first_index_bound(self.columns@, Column::SpectrumIndex);
        }
        Ray {
            x: Self::f32_at(rec, 0),
            y: Self::f32_at(rec, 1),
            z: Self::f32_at(rec, 2),
            kx: Self::f32_at(rec, 3),
            ky: Self::f32_at(rec, 4),
            kz: Self::f32_at(rec, 5),
            radiant_flux_w: match self.radiant {
                Some(i) => Some(Self::f32_at(rec, i)),
                None => None,
            },
            luminous_flux_lm: match self.luminous {
                Some(i) => Some(Self::f32_at(rec, i)),
                None => None,
            },
            wavelength_nm: match self.wavelength {
                Some(i) => Some(Self::f32_at(rec, i)),
                None => None,
            },
            spectrum_index: match self.spectrum_index {
                Some(i) => Some(index_from_bits(Self::f32_at(rec, i))),
                None => None,
            },
        }
    }

    /// Any column of a raw record (Stokes, tristimulus, additional items
    /// included).
    pub fn field(&self, rec: &[u8], col: Column) -> (r: Option<u32>)
        requires
            self.wf(),
            rec@.len() >= self.size(),
        ensures
            r == (match first_index(self.column_seq(), col) {
                Some(i) => Some(u32_at(rec@, 4 * i)),
                None => None,
            }),
    {
        proof {
            lemma_first_index_bound(self.columns@, col);
        }
        match position_of(&self.columns, col) {
            Some(i) => Some(Self::f32_at(rec, i)),
            None => None,
        }
    }

    /// Append the record for `ray`. Columns a `Ray` does not carry
    /// (Stokes, tristimulus, additional items) are written as 0.
    pub fn encode(&self, ray: &Ray, out: &mut Vec<u8>)
        ensures
            final(out)@ == old(out)@ + encode_spec(self.column_seq(), *ray),
    {
        let ghost start = out@;
        let mut i: usize = 0;
        while i < self.columns.len()
            invariant
                i <= self.columns@.len(),
                out@ == start + encode_spec(self.columns@.take(i as int), *ray),
            decreases self.columns@.len() - i,
        {
            let col = self.columns[i];
            let v = match col {
                Column::X => ray.x,
                Column::Y => ray.y,
                Column::Z => ray.z,
                Column::Kx => ray.kx,
                Column::Ky => ray.ky,
                Column::Kz => ray.kz,
                Column::RadiantFlux => match ray.radiant_flux_w {
                    Some(v) => v,
                    None => 0,
                },
                Column::LuminousFlux => match ray.luminous_flux_lm {
                    Some(v) => v,
                    None => 0,
                },
                Column::Wavelength => match ray.wavelength_nm {
                    Some(v) => v,
                    None => 0,
                },
                Column::SpectrumIndex => match ray.spectrum_index {
                    Some(v) => bits_from_index(v),
                    None => 0,
                },
                _ => 0,
            };
            put_u32(out, v);
            proof {
                let t = self.columns@.take(i + 1);
                assert(t.drop_last() =~= self.columns@.take(i as int));
                assert(t.last() == col);
            }
            i = i + 1;
        }
        assert(self.columns@.take(self.columns@.len() as int) =~= self.columns@);
    }
}

// ---------------------------------------------------------------------
// Zero-copy view.

/// Zero-copy view over a ray block: `len` records of the layout's size.
#[derive(Debug)]
pub struct RayView<'a> {
    layout: RayLayout,
    data: &'a [u8],
    len: usize,
}

impl<'a> Clone for RayView<'a> {
    fn clone(&self) -> (r: Self)
        ensures
            r.columns_spec() == self.columns_spec(),
            r.record_size_spec() == self.record_size_spec(),
            r.data_spec() == self.data_spec(),
            r.len_spec() == self.len_spec(),
    {
        proof {
            use_type_invariant(self);
        }
        RayView { layout: self.layout.clone(), data: self.data, len: self.len }
    }
}

impl<'a> RayView<'a> {
    #[verifier::type_invariant]
    spec fn inv(self) -> bool {
        &&& self.layout.wf()
        &&& self.len * self.layout.size() <= self.data@.len()
    }

    /// The record layout's columns.
    pub closed spec fn columns_spec(&self) -> Seq<Column> {
        self.layout.column_seq()
    }

    /// The record size.
    pub closed spec fn record_size_spec(&self) -> usize {
        self.layout.size()
    }

    /// The bytes viewed.
    pub closed spec fn data_spec(&self) -> Seq<u8> {
        self.data@
    }

    /// Number of records.
    pub closed spec fn len_spec(&self) -> nat {
        self.len as nat
    }

    /// The bytes of record `i`.
    pub open spec fn record(&self, i: int) -> Seq<u8> {
        let rs = self.record_size_spec() as int;
        self.data_spec().subrange(i * rs, i * rs + rs)
    }

    /// `data` must hold at least `len` records.
    pub fn new(layout: RayLayout, data: &'a [u8], len: usize) -> (r: Self)
        requires
            layout.wf(),
            len * layout.size() <= data@.len(),
        ensures
            r.columns_spec() == layout.column_seq(),
            r.record_size_spec() == layout.size(),
            r.data_spec() == data@,
            r.len_spec() == len,
    {
        RayView { layout, data, len }
    }

    pub fn layout(&self) -> (r: &RayLayout)
        ensures
            r.column_seq() == self.columns_spec(),
            r.size() == self.record_size_spec(),
            r.wf(),
    {
        proof {
            use_type_invariant(self);
        }
        &self.layout
    }

    pub fn len(&self) -> (r: usize)
        ensures
            r == self.len_spec(),
    {
        self.len
    }

    pub fn is_empty(&self) -> (r: bool)
        ensures
            r == (self.len_spec() == 0),
    {
        self.len == 0
    }

    /// Raw bytes of record `i`.
    pub fn raw(&self, i: usize) -> (r: Option<&'a [u8]>)
        ensures
            i < self.len_spec() ==> (r matches Some(s) && s@ == self.record(i as int)),
            i >= self.len_spec() ==> r is None,
    {
        proof {
            use_type_invariant(self);
        }
        if i >= self.len {
            return None;
        }
        let rs = self.layout.record_size;
        let dl = self.data.len();
        proof {
            assert((i + 1) * rs <= self.len * rs) by (nonlinear_arith)
                requires
                    i < self.len,
            ;
            assert((i + 1) * rs == i * rs + rs) by (nonlinear_arith);
        }
        let s = i * rs;
        Some(&self.data[s..s + rs])
    }

    /// Decoded record `i`.
    pub fn get(&self, i: usize) -> (r: Option<Ray>)
        requires
            self.record_size_spec() >= 24,
        ensures
            i < self.len_spec() ==> r == Some(
                decode_spec(self.columns_spec(), self.record(i as int)),
            ),
            i >= self.len_spec() ==> r is None,
    {
        proof {
            use_type_invariant(self);
            let rs = self.layout.record_size as int;
            if i < self.len {
                assert((i + 1) * rs <= self.len * rs) by (nonlinear_arith)
                    requires
                        i < self.len,
                        rs >= 0,
                ;
                assert((i + 1) * rs == i * rs + rs) by (nonlinear_arith);
            }
        }
        match self.raw(i) {
            Some(rec) => Some(self.layout.decode(rec)),
            None => None,
        }
    }

    /// An iterator-like cursor over the records, front to back.
    pub fn iter(&self) -> (r: RayIter<'a>)
        ensures
            r.columns_spec() == self.columns_spec(),
            r.record_size_spec() == self.record_size_spec(),
            r.data_spec() == self.data_spec(),
            r.pos_spec() == 0,
            r.len_spec() == self.len_spec(),
    {
        proof {
            use_type_invariant(self);
        }
        RayIter { layout: self.layout.clone(), data: self.data, i: 0, len: self.len }
    }

    /// The whole block as bytes (for uploading to a GPU buffer as-is).
    pub fn bytes(&self) -> (r: &'a [u8])
        ensures
            r@ == self.data_spec().subrange(
                0,
                self.len_spec() * self.record_size_spec(),
            ),
    {
        proof {
            use_type_invariant(self);
        }
        let dl = self.data.len();
        &self.data[0..self.len * self.layout.record_size]
    }

    /// All records, decoded.
    pub fn to_vec(&self) -> (r: Vec<Ray>)
        requires
            self.record_size_spec() >= 24,
        ensures
            r@.len() == self.len_spec(),
            forall|i: int|
                0 <= i < self.len_spec() ==> r@[i] == decode_spec(
                    self.columns_spec(),
                    #[trigger] self.record(i),
                ),
    {
        let mut out: Vec<Ray> = Vec::new();
        let mut i: usize = 0;
        while i < self.len
            invariant
                self.record_size_spec() >= 24,
                i <= self.len_spec(),
                out@.len() == i,
                forall|k: int|
                    0 <= k < i ==> out@[k] == decode_spec(
                        self.columns_spec(),
                        #[trigger] self.record(k),
                    ),
            decreases self.len_spec() - i,
        {
            match self.get(i) {
                Some(r) => out.push(r),
                None => {},
            }
            i = i + 1;
        }
        out
    }
}

/// Cursor over the records of a [`RayView`].
pub struct RayIter<'a> {
    layout: RayLayout,
    data: &'a [u8],
    i: usize,
    len: usize,
}

impl<'a> RayIter<'a> {
    #[verifier::type_invariant]
    spec fn inv(self) -> bool {
        &&& self.layout.wf()
        &&& self.len * self.layout.size() <= self.data@.len()
        &&& self.i <= self.len
    }

    pub closed spec fn columns_spec(&self) -> Seq<Column> {
        self.layout.column_seq()
    }

    pub closed spec fn record_size_spec(&self) -> usize {
        self.layout.size()
    }

    pub closed spec fn data_spec(&self) -> Seq<u8> {
        self.data@
    }

    /// Records already delivered.
    pub closed spec fn pos_spec(&self) -> nat {
        self.i as nat
    }

    pub closed spec fn len_spec(&self) -> nat {
        self.len as nat
    }

    /// The next record, decoded; `None` after the last.
    pub fn next(&mut self) -> (r: Option<Ray>)
        requires
            old(self).record_size_spec() >= 24,
        ensures
            final(self).columns_spec() == old(self).columns_spec(),
            final(self).record_size_spec() == old(self).record_size_spec(),
            final(self).data_spec() == old(self).data_spec(),
            final(self).len_spec() == old(self).len_spec(),
            old(self).pos_spec() < old(self).len_spec() ==> {
                let rs = old(self).record_size_spec() as int;
                let i = old(self).pos_spec() as int;
                &&& r == Some(
                    decode_spec(
                        old(self).columns_spec(),
                        old(self).data_spec().subrange(i * rs, i * rs + rs),
                    ),
                )
                &&& final(self).pos_spec() == old(self).pos_spec() + 1
            },
            old(self).pos_spec() >= old(self).len_spec() ==> r is None && final(self).pos_spec()
                == old(self).pos_spec(),
    {
        proof {
            use_type_invariant(&*self);
        }
        if self.i >= self.len {
            return None;
        }
        let rs = self.layout.record_size;
        let dl = self.data.len();
        proof {
            assert((self.i + 1) * rs <= self.len * rs) by (nonlinear_arith)
                requires
                    self.i < self.len,
            ;
            assert((self.i + 1) * rs == self.i * rs + rs) by (nonlinear_arith);
        }
        let s = self.i * rs;
        let r = self.layout.decode(&self.data[s..s + rs]);
        self.i = self.i + 1;
        Some(r)
    }

    /// `(remaining, Some(remaining))`.
    pub fn size_hint(&self) -> (r: (usize, Option<usize>))
        ensures
            r.0 == self.len_spec() - self.pos_spec(),
            r.1 == Some(r.0),
    {
        proof {
            use_type_invariant(self);
        }
        let n = self.len - self.i;
        (n, Some(n))
    }
}

} // verus!
