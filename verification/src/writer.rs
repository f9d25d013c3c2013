//! TM-25-13 writer: the bytes of a header and of the ray records.

use vstd::prelude::*;
use vstd::string::*;

use crate::error::{ErrorModel, Tm25Error};
use crate::header::{
    columns_from_flags, columns_spec, magic_seq, spectral_id_code, words_of_flags, Column, Header,
    HeaderModel, SpectralTable, TableModel, DATE_TIME_LEN, TEXT_FIELD_CHARS, VERSION_2013,
};
use crate::ray::{Ray, RayLayout};
use crate::le::{i32_bytes, put_i32, put_u32, put_u64, u32_bytes, u64_bytes};
use crate::text::{char_count, int_text, push_u64, put_utf32, utf32_bytes, zeros};

verus! {

// ---------------------------------------------------------------------
// The bytes of a header.

/// The 28-byte date field: one byte per (ASCII) character, zero padded.
pub open spec fn date_field_bytes(d: Seq<char>) -> Seq<u8> {
    d.map_values(|c: char| c as u8) + zeros((28 - d.len()) as nat)
}

/// Consecutive little-endian `i32` words.
pub open spec fn words_bytes(w: Seq<i32>) -> Seq<u8>
    decreases w.len(),
{
    if w.len() == 0 {
        Seq::empty()
    } else {
        words_bytes(w.drop_last()) + i32_bytes(w.last())
    }
}

/// One 4000-byte description string: UTF-32LE, zero padded.
pub open spec fn text_field_bytes(s: Seq<char>) -> Seq<u8> {
    utf32_bytes(s) + zeros((4000 - 4 * s.len()) as nat)
}

/// The description strings, one 4000-byte field each.
pub open spec fn text_block_bytes(ts: Seq<Seq<char>>) -> Seq<u8>
    decreases ts.len(),
{
    if ts.len() == 0 {
        Seq::empty()
    } else {
        text_block_bytes(ts.drop_last()) + text_field_bytes(ts.last())
    }
}

/// The first `n` `(wavelength, value)` pairs, interleaved.
pub open spec fn pairs_bytes(w: Seq<u32>, v: Seq<u32>, n: nat) -> Seq<u8>
    decreases n,
{
    if n == 0 {
        Seq::empty()
    } else {
        pairs_bytes(w, v, (n - 1) as nat) + u32_bytes(w[n - 1]) + u32_bytes(v[n - 1])
    }
}

/// One spectral table: point count, then the pairs.
pub open spec fn table_bytes(t: TableModel) -> Seq<u8> {
    i32_bytes(t.wavelengths.len() as i32) + pairs_bytes(t.wavelengths, t.values, t.wavelengths.len())
}

/// The spectral tables, one after the other.
pub open spec fn tables_bytes(ts: Seq<TableModel>) -> Seq<u8>
    decreases ts.len(),
{
    if ts.len() == 0 {
        Seq::empty()
    } else {
        tables_bytes(ts.drop_last()) + table_bytes(ts.last())
    }
}

/// The column names, each as its length followed by UTF-32LE code points.
pub open spec fn names_bytes(ns: Seq<Seq<char>>) -> Seq<u8>
    decreases ns.len(),
{
    if ns.len() == 0 {
        Seq::empty()
    } else {
        names_bytes(ns.drop_last()) + i32_bytes(ns.last().len() as i32) + utf32_bytes(ns.last())
    }
}

/// The optional trailer: name count, names, additional text.
pub open spec fn trailer_bytes(h: HeaderModel) -> Seq<u8> {
    if h.has_name_block {
        i32_bytes(h.column_names.len() as i32) + names_bytes(h.column_names) + utf32_bytes(
            h.additional_text,
        )
    } else {
        Seq::empty()
    }
}

/// The 88 bytes of file fields, with `n_rays` as the ray count.
pub open spec fn file_fields_bytes(h: HeaderModel, n_rays: u64) -> Seq<u8> {
    magic_seq() + i32_bytes(VERSION_2013) + i32_bytes(h.creation_method) + u32_bytes(
        h.luminous_flux_bits,
    ) + u32_bytes(h.radiant_flux_bits) + u64_bytes(n_rays) + date_field_bytes(h.date_time)
        + i32_bytes(h.start_position) + i32_bytes(spectral_id_code(h.spectral_id)) + u32_bytes(
        h.single_wavelength_bits,
    ) + u32_bytes(h.min_wavelength_bits) + u32_bytes(h.max_wavelength_bits) + i32_bytes(
        h.spectra.len() as i32,
    ) + i32_bytes(h.n_additional_items as i32) + i32_bytes(h.additional_text.len() as i32)
}

/// The whole header for `n_rays` rays.
pub open spec fn header_bytes(h: HeaderModel, n_rays: u64) -> Seq<u8> {
    file_fields_bytes(h, n_rays) + zeros(168) + words_bytes(words_of_flags(h.flags))
        + text_block_bytes(h.text) + tables_bytes(h.spectra) + trailer_bytes(h)
}

/// All characters are ASCII.
pub open spec fn ascii(s: Seq<char>) -> bool {
    forall|i: int| 0 <= i < s.len() ==> (s[i] as u32) < 128
}

/// The message for a description string that is too long.
pub open spec fn long_text_message(i: int, n: int) -> Seq<char> {
    "text field "@ + int_text(i) + " has "@ + int_text(n) + " characters, limit is 999"@
}

/// The first description string among `ts[i..]` longer than 999 characters.
pub open spec fn long_text(ts: Seq<Seq<char>>, i: int) -> Option<Seq<char>>
    decreases ts.len() - i,
{
    if i < 0 || i >= ts.len() {
        None
    } else if ts[i].len() > 999 {
        Some(long_text_message(i, ts[i].len() as int))
    } else {
        long_text(ts, i + 1)
    }
}

/// Why a header cannot be written, if it cannot.
pub open spec fn encode_problem(h: HeaderModel) -> Option<Seq<char>> {
    if !ascii(h.date_time) {
        Some("date/time must be ASCII"@)
    } else if h.date_time.len() > 28 {
        Some("date/time longer than 28 bytes"@)
    } else if long_text(h.text, 0) is Some {
        long_text(h.text, 0)
    } else if exists|i: int|
        0 <= i < h.spectra.len() && #[trigger] h.spectra[i].wavelengths.len()
            != h.spectra[i].values.len() {
        Some("spectral table wavelengths/values length mismatch"@)
    } else {
        None
    }
}

/// The bytes written for a header, or why it cannot be written.
pub open spec fn encode_spec(h: HeaderModel, n_rays: u64) -> Result<Seq<u8>, ErrorModel> {
    match encode_problem(h) {
        Some(m) => Err(ErrorModel::InvalidHeader(m)),
        None => Ok(header_bytes(h, n_rays)),
    }
}

// ---------------------------------------------------------------------
// Writer.

/// Append `n` zero bytes.
fn put_zeros(out: &mut Vec<u8>, n: usize)
    ensures
        final(out)@ == old(out)@ + zeros(n as nat),
{
    let ghost start = out@;
    let mut i: usize = 0;
    while i < n
        invariant
            i <= n,
            out@ =~= start + zeros(i as nat),
        decreases n - i,
    {
        out.push(0u8);
        i = i + 1;
    }
}

/// Append the date field.
fn put_date(out: &mut Vec<u8>, d: &str) -> (r: Result<(), Tm25Error>)
    ensures
        !ascii(d@) ==> (r matches Err(e) && e@ == ErrorModel::InvalidHeader(
            "date/time must be ASCII"@,
        )),
        ascii(d@) && d@.len() > 28 ==> (r matches Err(e) && e@ == ErrorModel::InvalidHeader(
            "date/time longer than 28 bytes"@,
        )),
        ascii(d@) && d@.len() <= 28 ==> r is Ok && final(out)@ == old(out)@ + date_field_bytes(
            d@,
        ),
{
    let ghost start = out@;
    let mut is_ascii = true;
    for c in it: d.chars()
        invariant
            it.seq() == d@,
            is_ascii == (forall|k: int| 0 <= k < it.index() ==> (d@[k] as u32) < 128),
    {
        if (c as u32) >= 128 {
            is_ascii = false;
        }
    }
    if !is_ascii {
        return Err(Tm25Error::InvalidHeader(String::from_str("date/time must be ASCII")));
    }
    let n = char_count(d);
    if n > DATE_TIME_LEN {
        return Err(Tm25Error::InvalidHeader(String::from_str("date/time longer than 28 bytes")));
    }
    for c in it: d.chars()
        invariant
            it.seq() == d@,
            ascii(d@),
            out@ =~= start + d@.take(it.index() as int).map_values(|c: char| c as u8),
    {
        out.push(c as u8);
        proof {
            assert(d@.take(it.index() + 1) =~= d@.take(it.index() as int).push(c));
        }
    }
    assert(d@.take(d@.len() as int) =~= d@);
    put_zeros(out, DATE_TIME_LEN - n);
    assert(out@ =~= start + date_field_bytes(d@));
    Ok(())
}

/// Append the eight flag words.
fn put_words(out: &mut Vec<u8>, w: &[i32; 8])
    ensures
        final(out)@ == old(out)@ + words_bytes(w@),
{
    let ghost start = out@;
    let mut i: usize = 0;
    while i < 8
        invariant
            i <= 8,
            out@ == start + words_bytes(w@.take(i as int)),
        decreases 8 - i,
    {
        put_i32(out, w[i]);
        proof {
            let t = w@.take(i + 1);
            assert(t.drop_last() =~= w@.take(i as int));
            assert(out@ =~= start + words_bytes(t));
        }
        i = i + 1;
    }
    assert(w@.take(8) =~= w@);
}

fn long_text_error(i: usize, n: usize) -> (s: String)
    ensures
        s@ == long_text_message(i as int, n as int),
{
    let mut s = String::from_str("text field ");
    push_u64(&mut s, i as u64);
    s.append(" has ");
    push_u64(&mut s, n as u64);
    s.append(" characters, limit is 999");
    s
}

/// Append the nine description strings.
fn put_text_block(out: &mut Vec<u8>, raw: &[String; 9]) -> (r: Result<(), Tm25Error>)
    ensures
        ({
            let ts = raw@.map_values(|s: String| s@);
            match long_text(ts, 0) {
                Some(m) => r matches Err(e) && e@ == ErrorModel::InvalidHeader(m),
                None => r is Ok && final(out)@ == old(out)@ + text_block_bytes(ts),
            }
        }),
{
    let ghost start = out@;
    let ghost ts = raw@.map_values(|s: String| s@);
    let mut i: usize = 0;
    while i < 9
        invariant
            i <= 9,
            ts == raw@.map_values(|s: String| s@),
            ts.len() == 9,
            long_text(ts, 0) == long_text(ts, i as int),
            out@ == start + text_block_bytes(ts.take(i as int)),
        decreases 9 - i,
    {
        let s = raw[i].as_str();
        let n = char_count(s);
        if n > TEXT_FIELD_CHARS - 1 {
            assert(ts[i as int] == raw@[i as int]@);
            return Err(Tm25Error::InvalidHeader(long_text_error(i, n)));
        }
        put_utf32(out, s);
        put_zeros(out, TEXT_FIELD_CHARS * 4 - n * 4);
        proof {
            let t = ts.take(i + 1);
            assert(t.drop_last() =~= ts.take(i as int));
            assert(t.last() == s@);
            assert(out@ =~= start + text_block_bytes(t));
        }
        i = i + 1;
    }
    assert(ts.take(9) =~= ts);
    Ok(())
}

/// Append one spectral table.
fn put_table(out: &mut Vec<u8>, t: &SpectralTable) -> (r: Result<(), Tm25Error>)
    ensures
        t.wavelengths_nm@.len() != t.values@.len() ==> (r matches Err(e) && e@
            == ErrorModel::InvalidHeader("spectral table wavelengths/values length mismatch"@)),
        t.wavelengths_nm@.len() == t.values@.len() ==> r is Ok && final(out)@ == old(out)@
            + table_bytes(t@),
{
    if t.wavelengths_nm.len() != t.values.len() {
        return Err(
            Tm25Error::InvalidHeader(
                String::from_str("spectral table wavelengths/values length mismatch"),
            ),
        );
    }
    let ghost start = out@;
    let n = t.wavelengths_nm.len();
    put_i32(out, #[verifier::truncate] (n as i32));
    let ghost head = out@;
    let mut i: usize = 0;
    while i < n
        invariant
            i <= n,
            n == t.wavelengths_nm@.len(),
            n == t.values@.len(),
            out@ == head + pairs_bytes(t.wavelengths_nm@, t.values@, i as nat),
        decreases n - i,
    {
        put_u32(out, t.wavelengths_nm[i]);
        put_u32(out, t.values[i]);
        proof {
            assert(out@ =~= head + pairs_bytes(t.wavelengths_nm@, t.values@, (i + 1) as nat));
        }
        i = i + 1;
    }
    assert(out@ =~= start + table_bytes(t@));
    Ok(())
}

/// Append the column names.
fn put_names(out: &mut Vec<u8>, names: &Vec<String>)
    ensures
        final(out)@ == old(out)@ + names_bytes(names@.map_values(|s: String| s@)),
{
    let ghost start = out@;
    let ghost ns = names@.map_values(|s: String| s@);
    let mut i: usize = 0;
    while i < names.len()
        invariant
            i <= names@.len(),
            ns == names@.map_values(|s: String| s@),
            out@ == start + names_bytes(ns.take(i as int)),
        decreases names@.len() - i,
    {
        let s = names[i].as_str();
        put_i32(out, #[verifier::truncate] (char_count(s) as i32));
        put_utf32(out, s);
        proof {
            let t = ns.take(i + 1);
            assert(t.drop_last() =~= ns.take(i as int));
            assert(t.last() == s@);
            assert(out@ =~= start + names_bytes(t));
        }
        i = i + 1;
    }
    assert(ns.take(names@.len() as int) =~= ns);
}

/// Serialise the header (everything before the ray block). `n_rays` is
/// taken from the argument, not from `header.n_rays`. Every `f32` field is
/// written with the bit pattern it holds; the column-name / additional-text
/// trailer is written when `header.has_name_block` is set.
pub fn encode_header(header: &Header, n_rays: u64) -> (r: Result<Vec<u8>, Tm25Error>)
    ensures
        match encode_spec(header@, n_rays) {
            Ok(b) => r matches Ok(v) && v@ == b,
            Err(e) => r matches Err(x) && x@ == e,
        },
{
    let ghost h = header@;
    let mut out: Vec<u8> = Vec::new();
    out.push(0x54u8);
    out.push(0x4Du8);
    out.push(0x32u8);
    out.push(0x35u8);
    assert(out@ =~= magic_seq());
    put_i32(&mut out, VERSION_2013);
    put_i32(&mut out, header.creation_method);
    put_u32(&mut out, header.luminous_flux_bits);
    put_u32(&mut out, header.radiant_flux_bits);
    put_u64(&mut out, n_rays);
    match put_date(&mut out, header.date_time.as_str()) {
        Ok(()) => {},
        Err(e) => return Err(e),
    }
    put_i32(&mut out, header.start_position);
    put_i32(&mut out, header.spectral_id.to_i32());
    put_u32(&mut out, header.single_wavelength_bits);
    put_u32(&mut out, header.min_wavelength_bits);
    put_u32(&mut out, header.max_wavelength_bits);
    put_i32(&mut out, #[verifier::truncate] (header.spectra.len() as i32));
    put_i32(&mut out, #[verifier::truncate] (header.n_additional_items as i32));
    put_i32(&mut out, #[verifier::truncate] (char_count(header.additional_text.as_str()) as i32));
    assert(out@ =~= file_fields_bytes(h, n_rays));
    let ghost fields = out@;
    put_zeros(&mut out, 168);
    put_words(&mut out, &header.flags.to_words());
    let ghost before_text = out@;
    match put_text_block(&mut out, &header.text.raw) {
        Ok(()) => {},
        Err(e) => return Err(e),
    }
    let ghost before_tables = out@;
    let mut i: usize = 0;
    while i < header.spectra.len()
        invariant
            i <= header.spectra@.len(),
            h == header@,
            ascii(h.date_time),
            h.date_time.len() <= 28,
            long_text(h.text, 0) is None,
            forall|k: int|
                0 <= k < i ==> (#[trigger] h.spectra[k]).wavelengths.len()
                    == h.spectra[k].values.len(),
            out@ == before_tables + tables_bytes(h.spectra.take(i as int)),
        decreases header.spectra@.len() - i,
    {
        match put_table(&mut out, &header.spectra[i]) {
            Ok(()) => {},
            Err(e) => {
                assert(h.spectra[i as int] == header.spectra@[i as int]@);
                assert(h.spectra[i as int].wavelengths.len() != h.spectra[i as int].values.len());
                return Err(e);
            },
        }
        proof {
            let t = h.spectra.take(i + 1);
            assert(t.drop_last() =~= h.spectra.take(i as int));
            assert(out@ =~= before_tables + tables_bytes(t));
        }
        i = i + 1;
    }
    assert(h.spectra.take(h.spectra.len() as int) =~= h.spectra);
    let ghost before_trailer = out@;
    if header.has_name_block {
        put_i32(&mut out, #[verifier::truncate] (header.column_names.len() as i32));
        put_names(&mut out, &header.column_names);
        put_utf32(&mut out, header.additional_text.as_str());
    }
    assert(out@ =~= before_trailer + trailer_bytes(h));
    assert(out@ =~= header_bytes(h, n_rays));
    Ok(out)
}

// ---------------------------------------------------------------------
// Whole files.

/// The ray block: one record per ray under the layout `cols`.
pub open spec fn records_bytes(cols: Seq<Column>, rays: Seq<Ray>) -> Seq<u8>
    decreases rays.len(),
{
    if rays.len() == 0 {
        Seq::empty()
    } else {
        records_bytes(cols, rays.drop_last()) + crate::ray::encode_spec(cols, rays.last())
    }
}

/// A whole file: the header written for `rays.len()` rays, then one record
/// per ray in the column order implied by the flags and the number of
/// additional items.
pub open spec fn file_bytes(h: HeaderModel, rays: Seq<Ray>) -> Result<Seq<u8>, ErrorModel> {
    match encode_spec(h, rays.len() as u64) {
        Err(e) => Err(e),
        Ok(b) => Ok(b + records_bytes(columns_spec(h.flags, h.n_additional_items as nat), rays)),
    }
}

/// The whole file as bytes: the header, then one record per ray in the
/// column order implied by the header flags and `n_additional_items`.
pub fn to_bytes(header: &Header, rays: &[Ray]) -> (r: Result<Vec<u8>, Tm25Error>)
    requires
        header.n_additional_items <= usize::MAX / 4 - 18,
    ensures
        match file_bytes(header@, rays@) {
            Ok(b) => r matches Ok(v) && v@ == b,
            Err(e) => r matches Err(x) && x@ == e,
        },
{
    let n = rays.len();
    let mut out = match encode_header(header, n as u64) {
        Ok(v) => v,
        Err(e) => return Err(e),
    };
    let ghost head = out@;
    let columns = columns_from_flags(&header.flags, header.n_additional_items);
    proof {
        assert(crate::header::flagged_columns(header.flags).len() <= 18);
    }
    let layout = RayLayout::from_columns(columns);
    let ghost cols = columns_spec(header.flags, header.n_additional_items as nat);
    let mut i: usize = 0;
    while i < n
        invariant
            i <= n,
            n == rays@.len(),
            layout.column_seq() == cols,
            out@ == head + records_bytes(cols, rays@.take(i as int)),
        decreases n - i,
    {
        layout.encode(&rays[i], &mut out);
        proof {
            let t = rays@.take(i + 1);
            assert(t.drop_last() =~= rays@.take(i as int));
            assert(t.last() == rays@[i as int]);
        }
        i = i + 1;
    }
    assert(rays@.take(n as int) =~= rays@);
    Ok(out)
}

} // verus!
