//! Reading back what the writer wrote: the header parsed from the bytes of
//! [`crate::writer::encode_header`] is the header that was written.

use vstd::prelude::*;

use crate::error::ErrorModel;
use crate::header::{
    columns_spec, consistency_problem, flags_of_words, magic_seq, spectral_id_code,
    spectral_id_of, words_of_flags, Column, HeaderModel, SpectralId, ParseOptions, TableModel, VERSION_2013,
};
use crate::le::{
    i32_at, i32_bytes, lemma_i32_at_bytes, lemma_i32_round_trip, lemma_u32_at_bytes,
    lemma_u32_round_trip, lemma_u32_zero, lemma_u64_at_bytes, u32_at, u32_bytes, u64_at, u64_bytes,
};
use crate::parse::{
    count_problem, fixed_error, name_at, names_at, parse_spec, stored_flags, table_at, tables_at,
    text_fields, trailer_at, trailer_present,
};
use crate::text::{
    utf32_until_nul, is_ws_byte, lemma_date_round_trip, lemma_holds_utf32_embedded, lemma_skip_nul_reads,
    lemma_until_nul_reads, lemma_utf32_bytes_len, lemma_utf32_holds, no_nul, utf32_bytes, zeros,
};
use crate::ray::{decode_spec, Ray};
use crate::reader::{file_spec, whole_file_options};
use crate::record::{carries, lemma_encode_reads, lemma_record_round_trip};
use crate::writer::{
    file_bytes, records_bytes, long_text, ascii, date_field_bytes, encode_problem, file_fields_bytes, header_bytes, names_bytes,
    pairs_bytes, table_bytes, tables_bytes, text_block_bytes, text_field_bytes, trailer_bytes,
    words_bytes,
};

verus! {

// ---------------------------------------------------------------------
// Sequence helpers.

/// A part of a concatenation is found at its offset.
proof fn lemma_concat_parts(a: Seq<u8>, b: Seq<u8>)
    ensures
        (a + b).subrange(0, a.len() as int) == a,
        (a + b).subrange(a.len() as int, (a.len() + b.len()) as int) == b,
{
    assert((a + b).subrange(0, a.len() as int) =~= a);
    assert((a + b).subrange(a.len() as int, (a.len() + b.len()) as int) =~= b);
}

/// A piece of a piece.
proof fn lemma_sub_sub(x: Seq<u8>, i: int, j: int, k: int, l: int)
    requires
        0 <= i <= j <= x.len(),
        0 <= k <= l <= j - i,
    ensures
        x.subrange(i, j).subrange(k, l) == x.subrange(i + k, i + l),
{
    assert(x.subrange(i, j).subrange(k, l) =~= x.subrange(i + k, i + l));
}

/// A word read inside an embedded piece.
proof fn lemma_u32_embedded(b: Seq<u8>, off: int, piece: Seq<u8>, j: int)
    requires
        0 <= off,
        off + piece.len() <= b.len(),
        b.subrange(off, off + piece.len()) == piece,
        0 <= j,
        j + 4 <= piece.len(),
    ensures
        u32_at(b, off + j) == u32_at(piece, j),
{
    assert(b[off + j] == piece[j] && b[off + j + 1] == piece[j + 1] && b[off + j + 2] == piece[j
        + 2] && b[off + j + 3] == piece[j + 3]);
}

// ---------------------------------------------------------------------
// Lengths of what the writer writes.

proof fn lemma_file_fields_len(h: HeaderModel, n: u64)
    requires
        h.date_time.len() <= 28,
    ensures
        file_fields_bytes(h, n).len() == 88,
        date_field_bytes(h.date_time).len() == 28,
{
}

proof fn lemma_words_bytes(w: Seq<i32>, k: int)
    requires
        0 <= k < w.len(),
    ensures
        words_bytes(w).len() == 4 * w.len(),
        i32_at(words_bytes(w), 4 * k) == w[k],
    decreases w.len(),
{
    lemma_words_len(w);
    let p = w.drop_last();
    lemma_words_len(p);
    let e = words_bytes(w);
    if k < w.len() - 1 {
        lemma_words_bytes(p, k);
        let ep = words_bytes(p);
        assert(e[4 * k] == ep[4 * k] && e[4 * k + 1] == ep[4 * k + 1] && e[4 * k + 2] == ep[4 * k
            + 2] && e[4 * k + 3] == ep[4 * k + 3]);
    } else {
        lemma_i32_round_trip(w.last());
        let x = i32_bytes(w.last());
        assert(e[4 * k] == x[0] && e[4 * k + 1] == x[1] && e[4 * k + 2] == x[2] && e[4 * k + 3]
            == x[3]);
    }
}

proof fn lemma_words_len(w: Seq<i32>)
    ensures
        words_bytes(w).len() == 4 * w.len(),
    decreases w.len(),
{
    if w.len() > 0 {
        lemma_words_len(w.drop_last());
    }
}

/// Every description string fits its field.
pub open spec fn texts_fit(ts: Seq<Seq<char>>) -> bool {
    forall|k: int| 0 <= k < ts.len() ==> (#[trigger] ts[k]).len() <= 999
}

proof fn lemma_text_field_len(s: Seq<char>)
    requires
        s.len() <= 1000,
    ensures
        text_field_bytes(s).len() == 4000,
{
    lemma_utf32_bytes_len(s);
}

/// The description string `k` sits at `4000 k` in the text block.
proof fn lemma_text_block(ts: Seq<Seq<char>>, k: int)
    requires
        texts_fit(ts),
        0 <= k < ts.len(),
    ensures
        text_block_bytes(ts).len() == 4000 * ts.len(),
        text_block_bytes(ts).subrange(4000 * k, 4000 * k + 4000) == text_field_bytes(ts[k]),
    decreases ts.len(),
{
    lemma_text_block_len(ts);
    let p = ts.drop_last();
    lemma_texts_fit_drop_last(ts);
    lemma_text_block_len(p);
    lemma_text_field_len(ts.last());
    if k < ts.len() - 1 {
        lemma_text_block(p, k);
        let a = text_block_bytes(p);
        let e = text_block_bytes(ts);
        assert(e.subrange(4000 * k, 4000 * k + 4000) =~= a.subrange(4000 * k, 4000 * k + 4000));
    } else {
        lemma_concat_parts(text_block_bytes(p), text_field_bytes(ts.last()));
    }
}

proof fn lemma_texts_fit_drop_last(ts: Seq<Seq<char>>)
    requires
        texts_fit(ts),
        ts.len() > 0,
    ensures
        texts_fit(ts.drop_last()),
{
    let p = ts.drop_last();
    assert forall|k: int| 0 <= k < p.len() implies (#[trigger] p[k]).len() <= 999 by {
        assert(p[k] == ts[k]);
    }
}

proof fn lemma_text_block_len(ts: Seq<Seq<char>>)
    requires
        texts_fit(ts),
    ensures
        text_block_bytes(ts).len() == 4000 * ts.len(),
    decreases ts.len(),
{
    if ts.len() > 0 {
        let p = ts.drop_last();
        lemma_texts_fit_drop_last(ts);
        lemma_text_block_len(p);
        lemma_text_field_len(ts.last());
    }
}

// ---------------------------------------------------------------------
// Spectral tables.

proof fn lemma_pairs(w: Seq<u32>, v: Seq<u32>, n: nat, i: int)
    requires
        n <= w.len(),
        n <= v.len(),
        0 <= i < n,
    ensures
        pairs_bytes(w, v, n).len() == 8 * n,
        u32_at(pairs_bytes(w, v, n), 8 * i) == w[i],
        u32_at(pairs_bytes(w, v, n), 8 * i + 4) == v[i],
    decreases n,
{
    lemma_pairs_len(w, v, n);
    lemma_pairs_len(w, v, (n - 1) as nat);
    let e = pairs_bytes(w, v, n);
    let a = pairs_bytes(w, v, (n - 1) as nat);
    if i < n - 1 {
        lemma_pairs(w, v, (n - 1) as nat, i);
        assert(e.subrange(0, a.len() as int) =~= a);
        lemma_u32_embedded(e, 0, a, 8 * i);
        lemma_u32_embedded(e, 0, a, 8 * i + 4);
    } else {
        let x = u32_bytes(w[n - 1]);
        let y = u32_bytes(v[n - 1]);
        lemma_u32_round_trip(w[n - 1]);
        lemma_u32_round_trip(v[n - 1]);
        assert(e.subrange(8 * i, 8 * i + 4) =~= x);
        assert(e.subrange(8 * i + 4, 8 * i + 8) =~= y);
        lemma_u32_embedded(e, 8 * i, x, 0);
        lemma_u32_embedded(e, 8 * i + 4, y, 0);
    }
}

proof fn lemma_pairs_len(w: Seq<u32>, v: Seq<u32>, n: nat)
    ensures
        pairs_bytes(w, v, n).len() == 8 * n,
    decreases n,
{
    if n > 0 {
        lemma_pairs_len(w, v, (n - 1) as nat);
    }
}

/// A table fits the format's limits and its two columns agree in length.
pub open spec fn table_fits(t: TableModel) -> bool {
    t.wavelengths.len() == t.values.len() && t.wavelengths.len() <= 1_000_000
}

proof fn lemma_table_len(t: TableModel)
    ensures
        table_bytes(t).len() == 4 + 8 * t.wavelengths.len(),
{
    lemma_pairs_len(t.wavelengths, t.values, t.wavelengths.len());
}

/// A table written at `p` is read back from `p`.
proof fn lemma_table_at(b: Seq<u8>, p: int, t: TableModel)
    requires
        table_fits(t),
        0 <= p,
        p + table_bytes(t).len() <= b.len(),
        b.subrange(p, p + table_bytes(t).len()) == table_bytes(t),
    ensures
        table_at(b, p) == Ok::<(TableModel, int), ErrorModel>((t, p + table_bytes(t).len())),
{
    let tb = table_bytes(t);
    let n = t.wavelengths.len();
    lemma_table_len(t);
    lemma_i32_round_trip(n as i32);
    lemma_concat_parts(i32_bytes(n as i32), pairs_bytes(t.wavelengths, t.values, n));
    lemma_u32_embedded(b, p, tb, 0);
    lemma_u32_embedded(tb, 0, i32_bytes(n as i32), 0);
    assert(i32_at(b, p) == n);
    let pb = pairs_bytes(t.wavelengths, t.values, n);
    assert(tb.subrange(4, (4 + 8 * n) as int) == pb);
    assert forall|i: int| 0 <= i < n implies u32_at(b, p + 4 + 8 * i) == t.wavelengths[i]
        && u32_at(b, p + 8 + 8 * i) == t.values[i] by {
        lemma_pairs(t.wavelengths, t.values, n, i);
        lemma_u32_embedded(tb, 4, pb, 8 * i);
        lemma_u32_embedded(tb, 4, pb, 8 * i + 4);
        lemma_u32_embedded(b, p, tb, 4 + 8 * i);
        lemma_u32_embedded(b, p, tb, 8 + 8 * i);
    }
    let (r, q) = table_at(b, p)->Ok_0;
    assert forall|i: int| 0 <= i < n implies r.wavelengths[i] == t.wavelengths[i] by {
        assert(u32_at(b, p + 4 + 8 * i) == t.wavelengths[i]);
    }
    assert forall|i: int| 0 <= i < n implies r.values[i] == t.values[i] by {
        assert(u32_at(b, p + 8 + 8 * i) == t.values[i]);
    }
    assert(r.wavelengths =~= t.wavelengths);
    assert(r.values =~= t.values);
}

proof fn lemma_tables_prefix(ts: Seq<TableModel>, k: int)
    requires
        0 <= k <= ts.len(),
    ensures
        tables_bytes(ts.take(k)).len() <= tables_bytes(ts).len(),
        tables_bytes(ts).subrange(0, tables_bytes(ts.take(k)).len() as int) == tables_bytes(
            ts.take(k),
        ),
    decreases ts.len(),
{
    if k == ts.len() {
        assert(ts.take(k) =~= ts);
        assert(tables_bytes(ts).subrange(0, tables_bytes(ts).len() as int) =~= tables_bytes(ts));
    } else {
        let p = ts.drop_last();
        assert(p.take(k) =~= ts.take(k));
        lemma_tables_prefix(p, k);
        let a = tables_bytes(p);
        let c = tables_bytes(ts.take(k));
        assert(tables_bytes(ts).subrange(0, c.len() as int) =~= a.subrange(0, c.len() as int));
    }
}

/// Table `k` sits right after the tables before it.
proof fn lemma_tables_step(ts: Seq<TableModel>, k: int)
    requires
        0 <= k < ts.len(),
    ensures
        tables_bytes(ts.take(k + 1)) == tables_bytes(ts.take(k)) + table_bytes(ts[k]),
        tables_bytes(ts).subrange(
            tables_bytes(ts.take(k)).len() as int,
            (tables_bytes(ts.take(k)).len() + table_bytes(ts[k]).len()) as int,
        ) == table_bytes(ts[k]),
        tables_bytes(ts.take(k + 1)).len() <= tables_bytes(ts).len(),
{
    let t1 = ts.take(k + 1);
    assert(t1.drop_last() =~= ts.take(k));
    assert(t1.last() == ts[k]);
    lemma_tables_prefix(ts, k + 1);
    let a = tables_bytes(ts.take(k));
    let x = table_bytes(ts[k]);
    lemma_concat_parts(a, x);
    lemma_sub_sub(tables_bytes(ts), 0, (a.len() + x.len()) as int, a.len() as int, (a.len() + x.len()) as int);
}

/// The tables written at `p` are read back.
proof fn lemma_tables_read(b: Seq<u8>, p: int, ts: Seq<TableModel>, k: nat)
    requires
        forall|i: int| 0 <= i < ts.len() ==> table_fits(#[trigger] ts[i]),
        k <= ts.len(),
        0 <= p,
        p + tables_bytes(ts).len() <= b.len(),
        b.subrange(p, p + tables_bytes(ts).len()) == tables_bytes(ts),
    ensures
        tables_at(b, p, k) == Ok::<(Seq<TableModel>, int), ErrorModel>(
            (ts.take(k as int), p + tables_bytes(ts.take(k as int)).len()),
        ),
    decreases k,
{
    if k == 0 {
        assert(ts.take(0) =~= Seq::<TableModel>::empty());
    } else {
        let j = (k - 1) as int;
        lemma_tables_read(b, p, ts, (k - 1) as nat);
        lemma_tables_step(ts, j);
        let off = tables_bytes(ts.take(j)).len() as int;
        let x = table_bytes(ts[j]);
        lemma_sub_sub(b, p, p + tables_bytes(ts).len(), off, off + x.len());
        lemma_table_at(b, p + off, ts[j]);
        assert(ts.take(j).push(ts[j]) =~= ts.take(k as int));
    }
}

// ---------------------------------------------------------------------
// Column names.

proof fn lemma_names_prefix(ns: Seq<Seq<char>>, k: int)
    requires
        0 <= k <= ns.len(),
    ensures
        names_bytes(ns.take(k)).len() <= names_bytes(ns).len(),
        names_bytes(ns).subrange(0, names_bytes(ns.take(k)).len() as int) == names_bytes(
            ns.take(k),
        ),
    decreases ns.len(),
{
    if k == ns.len() {
        assert(ns.take(k) =~= ns);
        assert(names_bytes(ns).subrange(0, names_bytes(ns).len() as int) =~= names_bytes(ns));
    } else {
        let p = ns.drop_last();
        assert(p.take(k) =~= ns.take(k));
        lemma_names_prefix(p, k);
        let a = names_bytes(p);
        let c = names_bytes(ns.take(k));
        assert(names_bytes(ns).subrange(0, c.len() as int) =~= a.subrange(0, c.len() as int));
    }
}

/// The bytes of one column name.
pub open spec fn name_bytes(s: Seq<char>) -> Seq<u8> {
    i32_bytes(s.len() as i32) + utf32_bytes(s)
}

proof fn lemma_names_step(ns: Seq<Seq<char>>, k: int)
    requires
        0 <= k < ns.len(),
    ensures
        names_bytes(ns.take(k + 1)) == names_bytes(ns.take(k)) + name_bytes(ns[k]),
        names_bytes(ns).subrange(
            names_bytes(ns.take(k)).len() as int,
            (names_bytes(ns.take(k)).len() + name_bytes(ns[k]).len()) as int,
        ) == name_bytes(ns[k]),
{
    let t1 = ns.take(k + 1);
    assert(t1.drop_last() =~= ns.take(k));
    assert(t1.last() == ns[k]);
    let a = names_bytes(ns.take(k));
    let x = name_bytes(ns[k]);
    assert(names_bytes(t1) =~= a + x);
    lemma_names_prefix(ns, k + 1);
    lemma_concat_parts(a, x);
    lemma_sub_sub(names_bytes(ns), 0, (a.len() + x.len()) as int, a.len() as int, (a.len() + x.len()) as int);
}

/// A name fits the format's limits and holds no NUL.
pub open spec fn name_fits(s: Seq<char>) -> bool {
    s.len() <= 10_000 && no_nul(s)
}

proof fn lemma_name_at(b: Seq<u8>, p: int, s: Seq<char>)
    requires
        name_fits(s),
        0 <= p,
        p + name_bytes(s).len() <= b.len(),
        b.subrange(p, p + name_bytes(s).len()) == name_bytes(s),
    ensures
        name_bytes(s).len() == 4 + 4 * s.len(),
        name_at(b, p) == Ok::<(Seq<char>, int), ErrorModel>((s, p + 4 + 4 * s.len())),
{
    let x = name_bytes(s);
    lemma_utf32_bytes_len(s);
    lemma_i32_round_trip(s.len() as i32);
    lemma_concat_parts(i32_bytes(s.len() as i32), utf32_bytes(s));
    lemma_u32_embedded(b, p, x, 0);
    lemma_u32_embedded(x, 0, i32_bytes(s.len() as i32), 0);
    assert(i32_at(b, p) == s.len());
    lemma_sub_sub(b, p, p + x.len(), 4, (4 + 4 * s.len()) as int);
    lemma_utf32_holds(s);
    lemma_holds_utf32_embedded(b, p + 4, utf32_bytes(s), s);
    lemma_skip_nul_reads(b, p + 4, s);
}

proof fn lemma_names_read(b: Seq<u8>, p: int, ns: Seq<Seq<char>>, k: nat)
    requires
        forall|i: int| 0 <= i < ns.len() ==> name_fits(#[trigger] ns[i]),
        k <= ns.len(),
        0 <= p,
        p + names_bytes(ns).len() <= b.len(),
        b.subrange(p, p + names_bytes(ns).len()) == names_bytes(ns),
    ensures
        names_at(b, p, k) == Ok::<(Seq<Seq<char>>, int), ErrorModel>(
            (ns.take(k as int), p + names_bytes(ns.take(k as int)).len()),
        ),
    decreases k,
{
    if k == 0 {
        assert(ns.take(0) =~= Seq::<Seq<char>>::empty());
    } else {
        let j = (k - 1) as int;
        lemma_names_read(b, p, ns, (k - 1) as nat);
        lemma_names_step(ns, j);
        lemma_names_prefix(ns, j + 1);
        let off = names_bytes(ns.take(j)).len() as int;
        let x = name_bytes(ns[j]);
        lemma_sub_sub(b, p, p + names_bytes(ns).len(), off, off + x.len());
        lemma_name_at(b, p + off, ns[j]);
        assert(ns.take(j).push(ns[j]) =~= ns.take(k as int));
    }
}

// ---------------------------------------------------------------------
// The fixed part.

/// The file fields written for `h` are read back from offsets 0..88.
proof fn lemma_file_fields_read(b: Seq<u8>, h: HeaderModel, n: u64)
    requires
        h.date_time.len() <= 28,
        b.len() >= 88,
        b.subrange(0, 88) == file_fields_bytes(h, n),
    ensures
        b.subrange(0, 4) == magic_seq(),
        i32_at(b, 4) == VERSION_2013,
        i32_at(b, 8) == h.creation_method,
        u32_at(b, 12) == h.luminous_flux_bits,
        u32_at(b, 16) == h.radiant_flux_bits,
        u64_at(b, 20) == n,
        b.subrange(28, 56) == date_field_bytes(h.date_time),
        i32_at(b, 56) == h.start_position,
        i32_at(b, 60) == spectral_id_code(h.spectral_id),
        u32_at(b, 64) == h.single_wavelength_bits,
        u32_at(b, 68) == h.min_wavelength_bits,
        u32_at(b, 72) == h.max_wavelength_bits,
        i32_at(b, 76) == h.spectra.len() as i32,
        i32_at(b, 80) == h.n_additional_items as i32,
        i32_at(b, 84) == h.additional_text.len() as i32,
{
    let f = file_fields_bytes(h, n);
    lemma_file_fields_len(h, n);
    assert(b.subrange(0, 4) =~= magic_seq()) by {
        assert(f.subrange(0, 4) =~= magic_seq());
        lemma_sub_sub(b, 0, 88, 0, 4);
    }
    assert(f.subrange(4, 8) =~= i32_bytes(VERSION_2013));
    assert(f.subrange(8, 12) =~= i32_bytes(h.creation_method));
    assert(f.subrange(12, 16) =~= u32_bytes(h.luminous_flux_bits));
    assert(f.subrange(16, 20) =~= u32_bytes(h.radiant_flux_bits));
    assert(f.subrange(20, 28) =~= u64_bytes(n));
    assert(f.subrange(28, 56) =~= date_field_bytes(h.date_time));
    assert(f.subrange(56, 60) =~= i32_bytes(h.start_position));
    assert(f.subrange(60, 64) =~= i32_bytes(spectral_id_code(h.spectral_id)));
    assert(f.subrange(64, 68) =~= u32_bytes(h.single_wavelength_bits));
    assert(f.subrange(68, 72) =~= u32_bytes(h.min_wavelength_bits));
    assert(f.subrange(72, 76) =~= u32_bytes(h.max_wavelength_bits));
    assert(f.subrange(76, 80) =~= i32_bytes(h.spectra.len() as i32));
    assert(f.subrange(80, 84) =~= i32_bytes(h.n_additional_items as i32));
    assert(f.subrange(84, 88) =~= i32_bytes(h.additional_text.len() as i32));
    lemma_sub_sub(b, 0, 88, 4, 8);
    lemma_sub_sub(b, 0, 88, 8, 12);
    lemma_sub_sub(b, 0, 88, 12, 16);
    lemma_sub_sub(b, 0, 88, 16, 20);
    lemma_sub_sub(b, 0, 88, 20, 28);
    lemma_sub_sub(b, 0, 88, 28, 56);
    lemma_sub_sub(b, 0, 88, 56, 60);
    lemma_sub_sub(b, 0, 88, 60, 64);
    lemma_sub_sub(b, 0, 88, 64, 68);
    lemma_sub_sub(b, 0, 88, 68, 72);
    lemma_sub_sub(b, 0, 88, 72, 76);
    lemma_sub_sub(b, 0, 88, 76, 80);
    lemma_sub_sub(b, 0, 88, 80, 84);
    lemma_sub_sub(b, 0, 88, 84, 88);
    lemma_i32_at_bytes(b, 4, VERSION_2013);
    lemma_i32_at_bytes(b, 8, h.creation_method);
    lemma_u32_at_bytes(b, 12, h.luminous_flux_bits);
    lemma_u32_at_bytes(b, 16, h.radiant_flux_bits);
    lemma_u64_at_bytes(b, 20, n);
    lemma_i32_at_bytes(b, 56, h.start_position);
    lemma_i32_at_bytes(b, 60, spectral_id_code(h.spectral_id));
    lemma_u32_at_bytes(b, 64, h.single_wavelength_bits);
    lemma_u32_at_bytes(b, 68, h.min_wavelength_bits);
    lemma_u32_at_bytes(b, 72, h.max_wavelength_bits);
    lemma_i32_at_bytes(b, 76, h.spectra.len() as i32);
    lemma_i32_at_bytes(b, 80, h.n_additional_items as i32);
    lemma_i32_at_bytes(b, 84, h.additional_text.len() as i32);
}

/// The flags written are read back.
proof fn lemma_flags_read(b: Seq<u8>, f: crate::header::KnownDataFlags)
    requires
        b.len() >= 288,
        b.subrange(256, 288) == words_bytes(words_of_flags(f)),
    ensures
        stored_flags(b) == f,
{
    let w = words_of_flags(f);
    let wb = words_bytes(w);
    lemma_words_len(w);
    let ws = Seq::new(8, |k: int| i32_at(b, 256 + 4 * k));
    assert forall|k: int| 0 <= k < 8 implies ws[k] == w[k] by {
        lemma_words_bytes(w, k);
        lemma_u32_embedded(b, 256, wb, 4 * k);
    }
    assert(ws =~= w);
}

/// Description string `k` is read back.
proof fn lemma_text_field_read(b: Seq<u8>, ts: Seq<Seq<char>>, k: int)
    requires
        ts.len() == 9,
        texts_fit(ts),
        forall|j: int| 0 <= j < 9 ==> no_nul(#[trigger] ts[j]),
        b.len() >= 36288,
        b.subrange(288, 36288) == text_block_bytes(ts),
        0 <= k < 9,
    ensures
        utf32_until_nul(b, 288 + 4000 * k, 1000) == Ok::<Seq<char>, u32>(ts[k]),
{
    lemma_text_block(ts, k);
    let s = ts[k];
    let piece = text_field_bytes(s);
    lemma_text_field_len(s);
    lemma_sub_sub(b, 288, 36288, 4000 * k, 4000 * k + 4000);
    lemma_utf32_bytes_len(s);
    lemma_utf32_holds(s);
    lemma_concat_parts(utf32_bytes(s), zeros((4000 - 4 * s.len()) as nat));
    lemma_holds_utf32_embedded(piece, 0, utf32_bytes(s), s);
    lemma_holds_utf32_embedded(b, 288 + 4000 * k, piece, s);
    let z = (4 * s.len()) as int;
    assert(piece[z] == 0 && piece[z + 1] == 0 && piece[z + 2] == 0 && piece[z + 3] == 0);
    lemma_u32_embedded(b, 288 + 4000 * k, piece, z);
    lemma_u32_zero();
    assert(u32_at(piece, z) == 0);
    lemma_until_nul_reads(b, 288 + 4000 * k, 1000, s);
}

proof fn lemma_text_fields_read(b: Seq<u8>, ts: Seq<Seq<char>>, k: nat)
    requires
        ts.len() == 9,
        texts_fit(ts),
        forall|j: int| 0 <= j < 9 ==> no_nul(#[trigger] ts[j]),
        b.len() >= 36288,
        b.subrange(288, 36288) == text_block_bytes(ts),
        k <= 9,
    ensures
        text_fields(b, k) == Ok::<Seq<Seq<char>>, ErrorModel>(ts.take(k as int)),
    decreases k,
{
    if k == 0 {
        assert(ts.take(0) =~= Seq::<Seq<char>>::empty());
    } else {
        lemma_text_fields_read(b, ts, (k - 1) as nat);
        lemma_text_field_read(b, ts, k - 1);
        assert(ts.take(k - 1).push(ts[k - 1]) =~= ts.take(k as int));
    }
}

// ---------------------------------------------------------------------
// The whole header.

proof fn lemma_long_text_none(ts: Seq<Seq<char>>, i: int)
    requires
        0 <= i <= ts.len(),
        long_text(ts, i) is None,
    ensures
        forall|k: int| i <= k < ts.len() ==> (#[trigger] ts[k]).len() <= 999,
    decreases ts.len() - i,
{
    if i < ts.len() {
        lemma_long_text_none(ts, i + 1);
    }
}

/// A header the writer can write and the parser reads back unchanged: it
/// is writable, its text fields, names and date hold no NUL, the date has
/// no surrounding white space, every count is within the parser's limits,
/// and the derived fields (version, column layout, ray-block offset,
/// additional-text size) agree with what the bytes imply.
pub open spec fn faithful(h: HeaderModel) -> bool {
    &&& encode_problem(h) is None
    &&& h.version == VERSION_2013
    &&& no_nul(h.date_time)
    &&& h.date_time.len() > 0 ==> !is_ws_byte(h.date_time[0] as u8) && !is_ws_byte(
        h.date_time.last() as u8,
    )
    &&& h.text.len() == 9
    &&& forall|k: int| 0 <= k < 9 ==> no_nul(#[trigger] h.text[k])
    &&& h.spectra.len() <= 10_000
    &&& forall|i: int| 0 <= i < h.spectra.len() ==> table_fits(#[trigger] h.spectra[i])
    &&& h.n_additional_items <= 1000
    &&& spectral_id_of(spectral_id_code(h.spectral_id)) == h.spectral_id
    &&& h.columns == columns_spec(h.flags, h.n_additional_items as nat)
    &&& h.column_names.len() <= 1000
    &&& forall|i: int| 0 <= i < h.column_names.len() ==> name_fits(#[trigger] h.column_names[i])
    &&& no_nul(h.additional_text)
    &&& h.additional_text.len() <= 10_000_000
    &&& h.additional_text_size == h.additional_text.len()
    &&& !h.has_name_block ==> h.column_names.len() == 0 && h.additional_text.len() == 0
    &&& h.ray_start == header_bytes(h, h.n_rays).len()
}

/// The trailer written after the tables is read back.
proof fn lemma_trailer_read(
    b: Seq<u8>,
    p: int,
    h: HeaderModel,
    opts: ParseOptions,
    rest_len: int,
)
    requires
        faithful(h),
        0 <= p,
        p + trailer_bytes(h).len() + rest_len == b.len(),
        0 <= rest_len,
        b.subrange(p, p + trailer_bytes(h).len()) == trailer_bytes(h),
        opts.total_size matches Some(t) ==> t == b.len() && rest_len == h.n_rays * (
        h.columns.len() * 4),
        opts.total_size is None ==> h.has_name_block,
    ensures
        trailer_at(
            b,
            p,
            opts,
            h.n_rays,
            (h.columns.len() * 4) as int,
            h.additional_text.len() as i32,
        ) == Ok::<(bool, Seq<Seq<char>>, Seq<char>, int), ErrorModel>(
            (h.has_name_block, h.column_names, h.additional_text, p + trailer_bytes(h).len()),
        ),
{
    let r = trailer_bytes(h);
    let ns = h.column_names;
    let nb = names_bytes(ns);
    let tx = utf32_bytes(h.additional_text);
    lemma_utf32_bytes_len(h.additional_text);
    if h.has_name_block {
        let c = i32_bytes(ns.len() as i32);
        lemma_concat_parts(c + nb, tx);
        lemma_concat_parts(c, nb);
        lemma_names_prefix(ns, ns.len() as int);
        assert(ns.take(ns.len() as int) =~= ns);
        assert(r.len() == 4 + nb.len() + tx.len());
        lemma_sub_sub(b, p, p + r.len(), 0, 4);
        lemma_sub_sub(b, p, p + r.len(), 0, (4 + nb.len()) as int);
        lemma_sub_sub(b, p, p + (4 + nb.len()), 0, 4);
        lemma_sub_sub(b, p, p + (4 + nb.len()), 4, (4 + nb.len()) as int);
        lemma_sub_sub(b, p, p + r.len(), (4 + nb.len()) as int, r.len() as int);
        lemma_i32_at_bytes(b, p, ns.len() as i32);
        assert(i32_at(b, p) == ns.len());
        lemma_names_read(b, p + 4, ns, ns.len());
        let q = p + 4 + nb.len();
        lemma_utf32_holds(h.additional_text);
        lemma_holds_utf32_embedded(b, q, tx, h.additional_text);
        lemma_skip_nul_reads(b, q, h.additional_text);
        match opts.total_size {
            Some(t) => {
                assert(t - p == r.len() + rest_len);
            },
            None => {},
        }
        assert(trailer_present(b, p, opts, h.n_rays, (h.columns.len() * 4) as int)
            == Ok::<bool, ErrorModel>(true));
    } else {
        assert(r.len() == 0);
        assert(trailer_present(b, p, opts, h.n_rays, (h.columns.len() * 4) as int)
            == Ok::<bool, ErrorModel>(false));
        assert(h.column_names =~= Seq::<Seq<char>>::empty());
        assert(h.additional_text =~= Seq::<char>::empty());
    }
}

/// Where the writer puts each block of the header.
proof fn lemma_layout(h: HeaderModel, rest: Seq<u8>)
    requires
        faithful(h),
    ensures
        ({
            let b = header_bytes(h, h.n_rays) + rest;
            let sp = tables_bytes(h.spectra);
            let r = trailer_bytes(h);
            &&& texts_fit(h.text)
            &&& b.len() == 36288 + sp.len() + r.len() + rest.len()
            &&& header_bytes(h, h.n_rays).len() == 36288 + sp.len() + r.len()
            &&& b.subrange(0, 88) == file_fields_bytes(h, h.n_rays)
            &&& b.subrange(256, 288) == words_bytes(words_of_flags(h.flags))
            &&& b.subrange(288, 36288) == text_block_bytes(h.text)
            &&& b.subrange(36288, (36288 + sp.len()) as int) == sp
            &&& b.subrange((36288 + sp.len()) as int, (36288 + sp.len() + r.len()) as int) == r
        }),
{
    let n = h.n_rays;
    let ff = file_fields_bytes(h, n);
    let z = zeros(168);
    let w = words_bytes(words_of_flags(h.flags));
    let t = text_block_bytes(h.text);
    let sp = tables_bytes(h.spectra);
    let r = trailer_bytes(h);
    let hb = header_bytes(h, n);
    let b = hb + rest;
    lemma_file_fields_len(h, n);
    lemma_words_len(words_of_flags(h.flags));
    lemma_long_text_none(h.text, 0);
    assert(texts_fit(h.text));
    lemma_text_block_len(h.text);
    let a1 = ff + z;
    let a2 = a1 + w;
    let a3 = a2 + t;
    let a4 = a3 + sp;
    assert(hb == a4 + r);
    assert(a3.len() == 36288);
    lemma_concat_parts(hb, rest);
    lemma_concat_parts(a4, r);
    lemma_concat_parts(a3, sp);
    lemma_concat_parts(a2, t);
    lemma_concat_parts(a1, w);
    lemma_concat_parts(ff, z);
    lemma_sub_sub(b, 0, hb.len() as int, 0, a4.len() as int);
    lemma_sub_sub(b, 0, hb.len() as int, a4.len() as int, hb.len() as int);
    lemma_sub_sub(b, 0, a4.len() as int, 0, a3.len() as int);
    lemma_sub_sub(b, 0, a4.len() as int, a3.len() as int, a4.len() as int);
    lemma_sub_sub(b, 0, a3.len() as int, 0, a2.len() as int);
    lemma_sub_sub(b, 0, a3.len() as int, a2.len() as int, a3.len() as int);
    lemma_sub_sub(b, 0, a2.len() as int, 0, a1.len() as int);
    lemma_sub_sub(b, 0, a2.len() as int, a1.len() as int, a2.len() as int);
    lemma_sub_sub(b, 0, a1.len() as int, 0, 88);
}

/// `parse_spec` assembled from the results of its parts.
proof fn lemma_parse_parts(b: Seq<u8>, h: HeaderModel, opts: ParseOptions, p: int)
    requires
        fixed_error(b) is None,
        h.version == VERSION_2013,
        i32_at(b, 8) == h.creation_method,
        u32_at(b, 12) == h.luminous_flux_bits,
        u32_at(b, 16) == h.radiant_flux_bits,
        u64_at(b, 20) == h.n_rays,
        crate::text::date_text(b.subrange(28, 56)) == h.date_time,
        i32_at(b, 56) == h.start_position,
        spectral_id_of(i32_at(b, 60)) == h.spectral_id,
        u32_at(b, 64) == h.single_wavelength_bits,
        u32_at(b, 68) == h.min_wavelength_bits,
        u32_at(b, 72) == h.max_wavelength_bits,
        i32_at(b, 76) == h.spectra.len(),
        i32_at(b, 80) == h.n_additional_items,
        i32_at(b, 84) == h.additional_text_size,
        stored_flags(b) == h.flags,
        h.columns == columns_spec(h.flags, h.n_additional_items as nat),
        text_fields(b, 9) == Ok::<Seq<Seq<char>>, ErrorModel>(h.text),
        tables_at(b, 36288, h.spectra.len()) == Ok::<(Seq<TableModel>, int), ErrorModel>(
            (h.spectra, p),
        ),
        trailer_at(
            b,
            p,
            opts,
            h.n_rays,
            (h.columns.len() * 4) as int,
            h.additional_text_size,
        ) == Ok::<(bool, Seq<Seq<char>>, Seq<char>, int), ErrorModel>(
            (h.has_name_block, h.column_names, h.additional_text, h.ray_start as int),
        ),
        opts.strict_flags ==> consistency_problem(h) is None,
    ensures
        parse_spec(b, opts) == Ok::<HeaderModel, ErrorModel>(h),
{
    reveal(parse_spec);
}

/// Reading back a written header: parsing the bytes of `h` followed by
/// its ray block gives `h` again. When the file size is passed in the
/// options, the ray block must have the size the header promises; without
/// it, the header must carry the column-name trailer (whose count word
/// marks it). With strict flags, `h` must also satisfy the consistency
/// rules.
pub proof fn lemma_header_round_trip(h: HeaderModel, rest: Seq<u8>, opts: ParseOptions)
    requires
        faithful(h),
        opts.strict_flags ==> consistency_problem(h) is None,
        opts.total_size matches Some(t) ==> t == header_bytes(h, h.n_rays).len() + rest.len()
            && rest.len() == h.n_rays * (h.columns.len() * 4),
        opts.total_size is None ==> h.has_name_block,
    ensures
        parse_spec(header_bytes(h, h.n_rays) + rest, opts) == Ok::<HeaderModel, ErrorModel>(h),
{
    let n = h.n_rays;
    let b = header_bytes(h, n) + rest;
    let sp = tables_bytes(h.spectra);
    lemma_layout(h, rest);
    lemma_file_fields_read(b, h, n);
    assert(count_problem(i32_at(b, 76), i32_at(b, 80), i32_at(b, 84)) is None);
    assert(fixed_error(b) is None);
    lemma_flags_read(b, h.flags);
    lemma_date_round_trip(h.date_time, b.subrange(28, 56));
    lemma_text_fields_read(b, h.text, 9);
    assert(h.text.take(9) =~= h.text);
    lemma_tables_read(b, 36288, h.spectra, h.spectra.len());
    assert(h.spectra.take(h.spectra.len() as int) =~= h.spectra);
    let p = (36288 + sp.len()) as int;
    lemma_trailer_read(b, p, h, opts, rest.len() as int);
    lemma_parse_parts(b, h, opts, p);
}

/// The byte-exact header round trip: writing the header read back from a
/// written header reproduces the written bytes.
pub proof fn lemma_header_bytes_reproduced(h: HeaderModel, rest: Seq<u8>, opts: ParseOptions)
    requires
        faithful(h),
        opts.strict_flags ==> consistency_problem(h) is None,
        opts.total_size matches Some(t) ==> t == header_bytes(h, h.n_rays).len() + rest.len()
            && rest.len() == h.n_rays * (h.columns.len() * 4),
        opts.total_size is None ==> h.has_name_block,
    ensures
        parse_spec(header_bytes(h, h.n_rays) + rest, opts) is Ok,
        crate::writer::encode_spec(
            parse_spec(header_bytes(h, h.n_rays) + rest, opts)->Ok_0,
            parse_spec(header_bytes(h, h.n_rays) + rest, opts)->Ok_0.n_rays,
        ) == Ok::<Seq<u8>, ErrorModel>(header_bytes(h, h.n_rays)),
{
    lemma_header_round_trip(h, rest, opts);
}

/// A ray block is one record after another, each `4 * cols.len()` bytes.
proof fn lemma_records_layout(cols: Seq<Column>, rays: Seq<Ray>)
    ensures
        records_bytes(cols, rays).len() == rays.len() * (cols.len() * 4),
        forall|i: int|
            0 <= i < rays.len() ==> records_bytes(cols, rays).subrange(
                i * (cols.len() * 4),
                i * (cols.len() * 4) + cols.len() * 4,
            ) == crate::ray::encode_spec(cols, #[trigger] rays[i]),
    decreases rays.len(),
{
    let rs = (cols.len() * 4) as int;
    if rays.len() > 0 {
        let d = rays.drop_last();
        lemma_records_layout(cols, d);
        lemma_encode_reads(cols, rays.last());
        let r0 = records_bytes(cols, d);
        let e = crate::ray::encode_spec(cols, rays.last());
        let all = records_bytes(cols, rays);
        assert(all == r0 + e);
        assert(rays.len() * rs == d.len() * rs + rs) by (nonlinear_arith)
            requires
                rays.len() == d.len() + 1,
        ;
        assert forall|i: int| 0 <= i < rays.len() implies all.subrange(i * rs, i * rs + rs)
            == crate::ray::encode_spec(cols, #[trigger] rays[i]) by {
            if i < rays.len() - 1 {
                assert(i * rs + rs <= d.len() * rs) by (nonlinear_arith)
                    requires
                        i < d.len(),
                        rs >= 0,
                ;
                assert(0 <= i * rs) by (nonlinear_arith)
                    requires
                        0 <= i,
                        rs >= 0,
                ;
                assert(d[i] == rays[i]);
                assert(all.subrange(i * rs, i * rs + rs) =~= r0.subrange(i * rs, i * rs + rs));
            } else {
                assert(i * rs == d.len() * rs);
                assert(all.subrange(i * rs, i * rs + rs) =~= e);
            }
        }
    }
}

/// The whole-file reader accepts a header that parses from the bytes and
/// promises exactly the ray block that follows it.
proof fn lemma_file_accepted(b: Seq<u8>, h: HeaderModel, opts: ParseOptions)
    requires
        parse_spec(b, whole_file_options(opts, b.len())) == Ok::<HeaderModel, ErrorModel>(h),
        h.ray_start <= b.len(),
        h.n_rays * (h.columns.len() * 4) == b.len() - h.ray_start,
        h.n_rays <= usize::MAX,
    ensures
        file_spec(b, opts) == Ok::<HeaderModel, ErrorModel>(h),
{
}

/// Record `i` of the ray block written for `rays` decodes to ray `i`.
proof fn lemma_block_rays(h: HeaderModel, rays: Seq<Ray>, block: Seq<u8>)
    requires
        h.columns == columns_spec(h.flags, h.n_additional_items as nat),
        block == records_bytes(h.columns, rays),
        forall|i: int| 0 <= i < rays.len() ==> carries(#[trigger] rays[i], h.flags),
    ensures
        forall|i: int|
            0 <= i < rays.len() ==> decode_spec(
                h.columns,
                block.subrange(i * (h.columns.len() * 4), i * (h.columns.len() * 4) + h.columns.len() * 4),
            ) == #[trigger] rays[i],
{
    lemma_records_layout(h.columns, rays);
    assert forall|i: int| 0 <= i < rays.len() implies decode_spec(
        h.columns,
        block.subrange(i * (h.columns.len() * 4), i * (h.columns.len() * 4) + h.columns.len() * 4),
    ) == #[trigger] rays[i] by {
        lemma_record_round_trip(h.flags, h.n_additional_items, rays[i]);
    }
}

/// The bytes of a whole file: what the writer produces for a header and
/// rays, read back by the whole-file reader, gives the same header, and
/// record `i` of its ray block decodes to ray `i`, bit for bit. The header
/// must be one the writer reproduces exactly (`faithful`), announce as many
/// rays as it is written with, and carry exactly the fields its flags
/// give the rays; the file must fit in memory.
pub proof fn lemma_file_round_trip(h: HeaderModel, rays: Seq<Ray>, opts: ParseOptions)
    requires
        faithful(h),
        h.n_rays == rays.len(),
        h.ray_start + rays.len() * (h.columns.len() * 4) <= usize::MAX,
        forall|i: int| 0 <= i < rays.len() ==> carries(#[trigger] rays[i], h.flags),
        opts.strict_flags ==> consistency_problem(h) is None,
        opts.total_size is None,
    ensures
        file_bytes(h, rays) is Ok,
        file_spec(file_bytes(h, rays)->Ok_0, opts) == Ok::<HeaderModel, ErrorModel>(h),
        forall|i: int|
            0 <= i < rays.len() ==> decode_spec(
                h.columns,
                file_bytes(h, rays)->Ok_0.subrange(h.ray_start as int, file_bytes(h, rays)->Ok_0.len() as int)
                    .subrange(i * (h.columns.len() * 4), i * (h.columns.len() * 4) + h.columns.len() * 4),
            ) == #[trigger] rays[i],
{
    let head = header_bytes(h, h.n_rays);
    let recs = records_bytes(h.columns, rays);
    lemma_records_layout(h.columns, rays);
    assert(rays.len() as u64 == h.n_rays);
    assert(file_bytes(h, rays) == Ok::<Seq<u8>, ErrorModel>(head + recs));
    let b = head + recs;
    assert(h.columns.len() >= 6);
    assert(rays.len() <= rays.len() * (h.columns.len() * 4)) by (nonlinear_arith)
        requires
            h.columns.len() >= 6,
    ;
    lemma_header_round_trip(h, recs, whole_file_options(opts, b.len()));
    lemma_file_accepted(b, h, opts);
    assert(b.subrange(h.ray_start as int, b.len() as int) =~= recs);
    lemma_block_rays(h, rays, recs);
}

// ---------------------------------------------------------------------
// Where the flags and the spectral identifier sit.

/// A parsed header takes its known-data flags from the eight words at
/// offset 256, in file order (position, direction, radiant flux,
/// wavelength, luminous flux, Stokes, tristimulus, spectrum index: flag `k`
/// set exactly when the word at `256 + 4k` is non-zero), and its spectral
/// identifier from the word at offset 60 by the TM-25 numbering.
pub proof fn lemma_parse_reads_flags_and_id(b: Seq<u8>, opts: ParseOptions)
    requires
        parse_spec(b, opts) is Ok,
    ensures
        parse_spec(b, opts)->Ok_0.flags.position == (i32_at(b, 256) != 0),
        parse_spec(b, opts)->Ok_0.flags.direction == (i32_at(b, 260) != 0),
        parse_spec(b, opts)->Ok_0.flags.radiant_flux == (i32_at(b, 264) != 0),
        parse_spec(b, opts)->Ok_0.flags.wavelength == (i32_at(b, 268) != 0),
        parse_spec(b, opts)->Ok_0.flags.luminous_flux == (i32_at(b, 272) != 0),
        parse_spec(b, opts)->Ok_0.flags.stokes == (i32_at(b, 276) != 0),
        parse_spec(b, opts)->Ok_0.flags.tristimulus == (i32_at(b, 280) != 0),
        parse_spec(b, opts)->Ok_0.flags.spectrum_index == (i32_at(b, 284) != 0),
        i32_at(b, 60) == 0 ==> parse_spec(b, opts)->Ok_0.spectral_id == SpectralId::NoSpectrum,
        i32_at(b, 60) == 1 ==> parse_spec(b, opts)->Ok_0.spectral_id
            == SpectralId::SingleWavelength,
        i32_at(b, 60) == 2 ==> parse_spec(b, opts)->Ok_0.spectral_id
            == SpectralId::PerRayWavelength,
        i32_at(b, 60) == 3 ==> parse_spec(b, opts)->Ok_0.spectral_id == SpectralId::SharedTable,
        i32_at(b, 60) == 4 ==> parse_spec(b, opts)->Ok_0.spectral_id
            == SpectralId::PerRayTableIndex,
        !(0 <= i32_at(b, 60) <= 4) ==> parse_spec(b, opts)->Ok_0.spectral_id == SpectralId::Unknown(
            i32_at(b, 60),
        ),
{
    reveal(parse_spec);
    let w = Seq::new(8, |k: int| i32_at(b, 256 + 4 * k));
    assert(w[0] == i32_at(b, 256) && w[1] == i32_at(b, 260) && w[2] == i32_at(b, 264));
    assert(w[3] == i32_at(b, 268) && w[4] == i32_at(b, 272) && w[5] == i32_at(b, 276));
    assert(w[6] == i32_at(b, 280) && w[7] == i32_at(b, 284));
}

/// The header bytes hold each known-data flag as 1 or 0 in its word at
/// `256 + 4k`, in file order, and the spectral identifier's TM-25 number
/// at offset 60.
#[verifier::spinoff_prover]
pub proof fn lemma_header_bytes_flags_and_id(h: HeaderModel, n: u64)
    requires
        h.date_time.len() <= 28,
    ensures
        i32_at(header_bytes(h, n), 256) == (if h.flags.position { 1i32 } else { 0i32 }),
        i32_at(header_bytes(h, n), 260) == (if h.flags.direction { 1i32 } else { 0i32 }),
        i32_at(header_bytes(h, n), 264) == (if h.flags.radiant_flux { 1i32 } else { 0i32 }),
        i32_at(header_bytes(h, n), 268) == (if h.flags.wavelength { 1i32 } else { 0i32 }),
        i32_at(header_bytes(h, n), 272) == (if h.flags.luminous_flux { 1i32 } else { 0i32 }),
        i32_at(header_bytes(h, n), 276) == (if h.flags.stokes { 1i32 } else { 0i32 }),
        i32_at(header_bytes(h, n), 280) == (if h.flags.tristimulus { 1i32 } else { 0i32 }),
        i32_at(header_bytes(h, n), 284) == (if h.flags.spectrum_index { 1i32 } else { 0i32 }),
        h.spectral_id == SpectralId::NoSpectrum ==> i32_at(header_bytes(h, n), 60) == 0,
        h.spectral_id == SpectralId::SingleWavelength ==> i32_at(header_bytes(h, n), 60) == 1,
        h.spectral_id == SpectralId::PerRayWavelength ==> i32_at(header_bytes(h, n), 60) == 2,
        h.spectral_id == SpectralId::SharedTable ==> i32_at(header_bytes(h, n), 60) == 3,
        h.spectral_id == SpectralId::PerRayTableIndex ==> i32_at(header_bytes(h, n), 60) == 4,
        h.spectral_id matches SpectralId::Unknown(v) ==> i32_at(header_bytes(h, n), 60) == v,
{
    lemma_header_prefix(h, n);
    lemma_header_words(h, n);
    lemma_file_fields_read(header_bytes(h, n), h, n);
}

/// The fixed fields and the flag words sit at offsets 0 and 256 of the
/// header bytes.
proof fn lemma_header_prefix(h: HeaderModel, n: u64)
    requires
        h.date_time.len() <= 28,
    ensures
        header_bytes(h, n).len() >= 288,
        header_bytes(h, n).subrange(0, 88) == file_fields_bytes(h, n),
        header_bytes(h, n).subrange(256, 288) == words_bytes(words_of_flags(h.flags)),
{
    let ff = file_fields_bytes(h, n);
    let z = zeros(168);
    let wb = words_bytes(words_of_flags(h.flags));
    let rest = text_block_bytes(h.text) + tables_bytes(h.spectra) + trailer_bytes(h);
    let hb = header_bytes(h, n);
    lemma_file_fields_len(h, n);
    lemma_words_len(words_of_flags(h.flags));
    assert(hb == ff + z + wb + rest);
    assert(hb.subrange(0, 88) =~= ff);
    assert(hb.subrange(256, 288) =~= wb);
}

/// Word `k` of the flag block is read at `256 + 4k`.
#[verifier::spinoff_prover]
proof fn lemma_header_words(h: HeaderModel, n: u64)
    requires
        header_bytes(h, n).len() >= 288,
        header_bytes(h, n).subrange(256, 288) == words_bytes(words_of_flags(h.flags)),
    ensures
        i32_at(header_bytes(h, n), 256) == (if h.flags.position { 1i32 } else { 0i32 }),
        i32_at(header_bytes(h, n), 260) == (if h.flags.direction { 1i32 } else { 0i32 }),
        i32_at(header_bytes(h, n), 264) == (if h.flags.radiant_flux { 1i32 } else { 0i32 }),
        i32_at(header_bytes(h, n), 268) == (if h.flags.wavelength { 1i32 } else { 0i32 }),
        i32_at(header_bytes(h, n), 272) == (if h.flags.luminous_flux { 1i32 } else { 0i32 }),
        i32_at(header_bytes(h, n), 276) == (if h.flags.stokes { 1i32 } else { 0i32 }),
        i32_at(header_bytes(h, n), 280) == (if h.flags.tristimulus { 1i32 } else { 0i32 }),
        i32_at(header_bytes(h, n), 284) == (if h.flags.spectrum_index { 1i32 } else { 0i32 }),
{
    let hb = header_bytes(h, n);
    let w = words_of_flags(h.flags);
    let wb = words_bytes(w);
    lemma_words_len(w);
    assert forall|k: int| 0 <= k < 8 implies i32_at(hb, 256 + 4 * k) == #[trigger] w[k] by {
        lemma_words_bytes(w, k);
        lemma_u32_embedded(hb, 256, wb, 4 * k);
    }
    assert(i32_at(hb, 256 + 4 * 0int) == w[0]);
    assert(i32_at(hb, 256 + 4 * 1int) == w[1]);
    assert(i32_at(hb, 256 + 4 * 2int) == w[2]);
    assert(i32_at(hb, 256 + 4 * 3int) == w[3]);
    assert(i32_at(hb, 256 + 4 * 4int) == w[4]);
    assert(i32_at(hb, 256 + 4 * 5int) == w[5]);
    assert(i32_at(hb, 256 + 4 * 6int) == w[6]);
    assert(i32_at(hb, 256 + 4 * 7int) == w[7]);
}

} // verus!
