//! Laws of ray records: what a layout's encoder writes, its decoder reads
//! back.

use vstd::prelude::*;

use crate::header::{columns_spec, first_index, flagged_columns, if_set, Column, KnownDataFlags};
use crate::le::{lemma_u32_at_bytes, lemma_u32_round_trip, u32_at, u32_bytes};
use crate::ray::{
    column_value, decode_spec, encode_spec, lemma_first_index_bound, lemma_index_round_trip, Ray,
};

verus! {

/// `c` occurs somewhere in `s`.
pub open spec fn occurs(s: Seq<Column>, c: Column) -> bool {
    exists|j: int| 0 <= j < s.len() && s[j] == c
}

/// A ray carries exactly the optional fields that records under `f` hold,
/// and its spectrum index (if any) is a whole number an `f32` holds
/// exactly.
pub open spec fn carries(ray: Ray, f: KnownDataFlags) -> bool {
    &&& ray.radiant_flux_w is Some <==> f.radiant_flux
    &&& ray.luminous_flux_lm is Some <==> f.luminous_flux
    &&& ray.wavelength_nm is Some <==> f.wavelength
    &&& ray.spectrum_index is Some <==> f.spectrum_index
    &&& (ray.spectrum_index matches Some(v) ==> v <= 0x100_0000)
}

/// A record is four bytes per column, column `i` at offset `4 i`.
pub proof fn lemma_encode_reads(cols: Seq<Column>, ray: Ray)
    ensures
        encode_spec(cols, ray).len() == 4 * cols.len(),
        forall|i: int|
            0 <= i < cols.len() ==> u32_at(encode_spec(cols, ray), 4 * i) == column_value(
                ray,
                #[trigger] cols[i],
            ),
    decreases cols.len(),
{
    if cols.len() > 0 {
        let d = cols.drop_last();
        lemma_encode_reads(d, ray);
        let v = column_value(ray, cols.last());
        lemma_u32_round_trip(v);
        let e = encode_spec(d, ray);
        let all = encode_spec(cols, ray);
        assert(all == e + u32_bytes(v));
        assert forall|i: int| 0 <= i < cols.len() implies u32_at(all, 4 * i) == column_value(
            ray,
            #[trigger] cols[i],
        ) by {
            if i < cols.len() - 1 {
                assert(d[i] == cols[i]);
                assert(all[4 * i] == e[4 * i]);
                assert(all[4 * i + 1] == e[4 * i + 1]);
                assert(all[4 * i + 2] == e[4 * i + 2]);
                assert(all[4 * i + 3] == e[4 * i + 3]);
            } else {
                assert(all.subrange(4 * i, 4 * i + 4) =~= u32_bytes(v));
                lemma_u32_at_bytes(all, 4 * i, v);
            }
        }
    }
}

/// The first index of `c` exists exactly when `c` occurs.
proof fn lemma_first_index_occurs(s: Seq<Column>, c: Column)
    ensures
        (first_index(s, c) is Some) == occurs(s, c),
    decreases s.len(),
{
    lemma_first_index_bound(s, c);
    if s.len() > 0 {
        let d = s.drop_last();
        lemma_first_index_occurs(d, c);
        if occurs(s, c) {
            let j = choose|j: int| 0 <= j < s.len() && s[j] == c;
            if j < s.len() - 1 {
                assert(d[j] == c);
            }
        }
        if occurs(d, c) {
            let j = choose|j: int| 0 <= j < d.len() && d[j] == c;
            assert(s[j] == c);
        }
    }
}

/// `c` occurs in `a + b` when it occurs in either.
proof fn lemma_occurs_add(a: Seq<Column>, b: Seq<Column>, c: Column)
    ensures
        occurs(a + b, c) == (occurs(a, c) || occurs(b, c)),
{
    if occurs(a, c) {
        let j = choose|j: int| 0 <= j < a.len() && a[j] == c;
        assert((a + b)[j] == c);
    }
    if occurs(b, c) {
        let j = choose|j: int| 0 <= j < b.len() && b[j] == c;
        assert((a + b)[a.len() + j] == c);
    }
    if occurs(a + b, c) {
        let k = choose|k: int| 0 <= k < (a + b).len() && (a + b)[k] == c;
        if k < a.len() {
            assert(a[k] == c);
        } else {
            assert(b[k - a.len()] == c);
        }
    }
}

/// An occurrence in a prefix is the first index in the whole.
proof fn lemma_first_index_prefix_add(a: Seq<Column>, b: Seq<Column>, c: Column)
    requires
        first_index(a, c) is Some,
    ensures
        first_index(a + b, c) == first_index(a, c),
    decreases b.len(),
{
    if b.len() == 0 {
        assert(a + b =~= a);
    } else {
        lemma_first_index_prefix_add(a, b.drop_last(), c);
        assert((a + b).drop_last() =~= a + b.drop_last());
    }
}

/// One of the four columns a `Ray` holds beyond position and direction.
pub open spec fn ray_field(c: Column) -> bool {
    c == Column::RadiantFlux || c == Column::LuminousFlux || c == Column::Wavelength || c
        == Column::SpectrumIndex
}

/// The flag that puts the ray field `c` in a layout.
pub open spec fn field_flag(f: KnownDataFlags, c: Column) -> bool {
    if c == Column::RadiantFlux {
        f.radiant_flux
    } else if c == Column::LuminousFlux {
        f.luminous_flux
    } else if c == Column::Wavelength {
        f.wavelength
    } else {
        f.spectrum_index
    }
}

/// A group of columns that holds none of the ray fields.
proof fn lemma_group_without(b: bool, s: Seq<Column>, c: Column)
    requires
        forall|j: int| 0 <= j < s.len() ==> !ray_field(#[trigger] s[j]),
        ray_field(c),
    ensures
        !occurs(if_set(b, s), c),
{
}

/// A one-column group holds its column when it is set.
proof fn lemma_group_single(b: bool, x: Column, c: Column)
    ensures
        occurs(if_set(b, seq![x]), c) == (b && x == c),
{
    if b && x == c {
        assert(seq![x][0] == c);
    }
}

/// Which of the four ray fields a flagged layout holds.
proof fn lemma_flagged_occurs(f: KnownDataFlags, c: Column)
    requires
        ray_field(c),
    ensures
        occurs(flagged_columns(f), c) == field_flag(f, c),
{
    let s0 = seq![Column::X, Column::Y, Column::Z, Column::Kx, Column::Ky, Column::Kz];
    let s4 = seq![Column::S1, Column::S2, Column::S3, Column::PolX, Column::PolY, Column::PolZ];
    let s5 = seq![Column::TriX, Column::TriZ];
    let p0 = if_set(true, s0);
    let p1 = if_set(f.radiant_flux, seq![Column::RadiantFlux]);
    let p2 = if_set(f.wavelength, seq![Column::Wavelength]);
    let p3 = if_set(f.luminous_flux, seq![Column::LuminousFlux]);
    let p4 = if_set(f.stokes, s4);
    let p5 = if_set(f.tristimulus, s5);
    let p6 = if_set(f.spectrum_index, seq![Column::SpectrumIndex]);
    let e = Seq::<Column>::empty();
    assert forall|j: int| 0 <= j < s0.len() implies !ray_field(#[trigger] s0[j]) by {}
    assert forall|j: int| 0 <= j < s4.len() implies !ray_field(#[trigger] s4[j]) by {}
    assert forall|j: int| 0 <= j < s5.len() implies !ray_field(#[trigger] s5[j]) by {}
    lemma_group_without(true, s0, c);
    lemma_group_without(f.stokes, s4, c);
    lemma_group_without(f.tristimulus, s5, c);
    lemma_group_single(f.radiant_flux, Column::RadiantFlux, c);
    lemma_group_single(f.wavelength, Column::Wavelength, c);
    lemma_group_single(f.luminous_flux, Column::LuminousFlux, c);
    lemma_group_single(f.spectrum_index, Column::SpectrumIndex, c);
    assert(!occurs(e, c));
    lemma_occurs_add(e, p0, c);
    lemma_occurs_add(e + p0, p1, c);
    lemma_occurs_add(e + p0 + p1, p2, c);
    lemma_occurs_add(e + p0 + p1 + p2, p3, c);
    lemma_occurs_add(e + p0 + p1 + p2 + p3, p4, c);
    lemma_occurs_add(e + p0 + p1 + p2 + p3 + p4, p5, c);
    lemma_occurs_add(e + p0 + p1 + p2 + p3 + p4 + p5, p6, c);
}

/// Where one of the four ray fields sits in a full layout: in the flagged
/// columns when its flag is set, nowhere otherwise.
proof fn lemma_columns_slot(f: KnownDataFlags, n: nat, c: Column)
    requires
        ray_field(c),
    ensures
        first_index(columns_spec(f, n), c) matches Some(i) ==> 0 <= i < flagged_columns(f).len()
            && columns_spec(f, n)[i] == c,
        (first_index(columns_spec(f, n), c) is Some) == occurs(flagged_columns(f), c),
{
    let a = flagged_columns(f);
    let b = Seq::new(n, |i: int| Column::Additional(i as usize));
    lemma_first_index_occurs(a, c);
    lemma_first_index_occurs(a + b, c);
    lemma_occurs_add(a, b, c);
    assert(!occurs(b, c));
    lemma_first_index_bound(a, c);
    if occurs(a, c) {
        lemma_first_index_prefix_add(a, b, c);
        let i = first_index(a, c)->0;
        assert((a + b)[i] == a[i]);
    }
}

/// The first six columns of a record hold position and direction.
proof fn lemma_motion_reads(f: KnownDataFlags, n: nat, ray: Ray)
    ensures
        u32_at(encode_spec(columns_spec(f, n), ray), 0) == ray.x,
        u32_at(encode_spec(columns_spec(f, n), ray), 4) == ray.y,
        u32_at(encode_spec(columns_spec(f, n), ray), 8) == ray.z,
        u32_at(encode_spec(columns_spec(f, n), ray), 12) == ray.kx,
        u32_at(encode_spec(columns_spec(f, n), ray), 16) == ray.ky,
        u32_at(encode_spec(columns_spec(f, n), ray), 20) == ray.kz,
{
    let cols = columns_spec(f, n);
    let enc = encode_spec(cols, ray);
    lemma_encode_reads(cols, ray);
    assert(flagged_columns(f).len() >= 6);
    assert(cols[0] == Column::X && cols[1] == Column::Y && cols[2] == Column::Z);
    assert(cols[3] == Column::Kx && cols[4] == Column::Ky && cols[5] == Column::Kz);
    assert(u32_at(enc, 4 * 0int) == column_value(ray, cols[0]));
    assert(u32_at(enc, 4 * 1int) == column_value(ray, cols[1]));
    assert(u32_at(enc, 4 * 2int) == column_value(ray, cols[2]));
    assert(u32_at(enc, 4 * 3int) == column_value(ray, cols[3]));
    assert(u32_at(enc, 4 * 4int) == column_value(ray, cols[4]));
    assert(u32_at(enc, 4 * 5int) == column_value(ray, cols[5]));
}

/// A ray field is in the record exactly when its flag is set, and its
/// column holds the value the encoder wrote for it.
proof fn lemma_field_reads(f: KnownDataFlags, n: nat, ray: Ray, c: Column)
    requires
        ray_field(c),
    ensures
        match first_index(columns_spec(f, n), c) {
            Some(i) => field_flag(f, c) && u32_at(
                encode_spec(columns_spec(f, n), ray),
                4 * ((i as usize) as int),
            ) == column_value(ray, c),
            None => !field_flag(f, c),
        },
{
    let cols = columns_spec(f, n);
    lemma_encode_reads(cols, ray);
    lemma_flagged_occurs(f, c);
    lemma_columns_slot(f, n, c);
    assert(flagged_columns(f).len() <= 18);
    if let Some(i) = first_index(cols, c) {
        assert(u32_at(encode_spec(cols, ray), 4 * i) == column_value(ray, cols[i]));
    }
}

/// A ray written under a flag-driven layout reads back as the same ray:
/// position, direction and every optional field the flags carry, bit for
/// bit.
pub proof fn lemma_record_round_trip(f: KnownDataFlags, n: usize, ray: Ray)
    requires
        carries(ray, f),
    ensures
        encode_spec(columns_spec(f, n as nat), ray).len() == 4 * columns_spec(f, n as nat).len(),
        decode_spec(columns_spec(f, n as nat), encode_spec(columns_spec(f, n as nat), ray)) == ray,
{
    let cols = columns_spec(f, n as nat);
    lemma_encode_reads(cols, ray);
    lemma_motion_reads(f, n as nat, ray);
    lemma_field_reads(f, n as nat, ray, Column::RadiantFlux);
    lemma_field_reads(f, n as nat, ray, Column::LuminousFlux);
    lemma_field_reads(f, n as nat, ray, Column::Wavelength);
    lemma_field_reads(f, n as nat, ray, Column::SpectrumIndex);
    if let Some(v) = ray.spectrum_index {
        lemma_index_round_trip(v);
    }
}

/// 1 when `b` is set, else 0.
pub open spec fn count_if(b: bool) -> int {
    if b {
        1
    } else {
        0
    }
}

/// The record layout the flags give (4.7.2 and the ray-record table of the
/// format): `x y z kx ky kz`, then radiant flux, wavelength, luminous flux,
/// the six Stokes columns, tristimulus X and Z and the spectrum index, each
/// group only when its flag is set, then the `n` additional items in order.
pub proof fn lemma_column_order(f: KnownDataFlags, n: nat)
    ensures
        ({
            let c = columns_spec(f, n);
            let r = count_if(f.radiant_flux);
            let w = count_if(f.wavelength);
            let l = count_if(f.luminous_flux);
            let s = 6 * count_if(f.stokes);
            let t = 2 * count_if(f.tristimulus);
            let x = count_if(f.spectrum_index);
            let base = 6 + r + w + l + s + t + x;
            &&& c.len() == base + n
            &&& c[0] == Column::X && c[1] == Column::Y && c[2] == Column::Z
            &&& c[3] == Column::Kx && c[4] == Column::Ky && c[5] == Column::Kz
            &&& f.radiant_flux ==> c[6] == Column::RadiantFlux
            &&& f.wavelength ==> c[6 + r] == Column::Wavelength
            &&& f.luminous_flux ==> c[6 + r + w] == Column::LuminousFlux
            &&& f.stokes ==> c[6 + r + w + l] == Column::S1 && c[7 + r + w + l] == Column::S2
                && c[8 + r + w + l] == Column::S3 && c[9 + r + w + l] == Column::PolX && c[10
                + r + w + l] == Column::PolY && c[11 + r + w + l] == Column::PolZ
            &&& f.tristimulus ==> c[6 + r + w + l + s] == Column::TriX && c[7 + r + w + l + s]
                == Column::TriZ
            &&& f.spectrum_index ==> c[6 + r + w + l + s + t] == Column::SpectrumIndex
            &&& forall|i: int| 0 <= i < n ==> #[trigger] c[base + i] == Column::Additional(i as usize)
        }),
{
    let c = columns_spec(f, n);
    let fl = flagged_columns(f);
    assert(fl.len() == 6 + count_if(f.radiant_flux) + count_if(f.wavelength) + count_if(
        f.luminous_flux,
    ) + 6 * count_if(f.stokes) + 2 * count_if(f.tristimulus) + count_if(f.spectrum_index));
    assert forall|i: int| 0 <= i < n implies #[trigger] c[fl.len() + i] == Column::Additional(
        i as usize,
    ) by {}
}

} // verus!
