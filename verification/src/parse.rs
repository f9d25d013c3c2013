//! The header grammar: what a byte sequence parses to, or which error it
//! gives, and the parser that follows it.
//!
//! Layout (little-endian throughout):
//!
//! | Offset | Content |
//! |---|---|
//! | 0 | `TM25`, i32 version 2013, i32 creation method |
//! | 12 | f32 luminous flux, f32 radiant flux, u64 ray count |
//! | 28 | 28-byte ASCII date/time, i32 start-position flag |
//! | 60 | i32 spectral id, f32 single λ, f32 λ min, f32 λ max |
//! | 76 | i32 table count, i32 additional item count, i32 additional text size, reserved to 256 |
//! | 256 | 8 × i32 known-data flags |
//! | 288 | 9 × 1000 UTF-32LE description strings |
//! | 36 288 | tables (i32 N, N × (f32 λ, f32 value)), optional trailer: i32 name count, names (i32 length + UTF-32), additional text |
//! | then | ray records |
//!
//! Reads happen in file order; the first read that runs past the end of
//! the input reports how many bytes it needed, so a streaming reader can
//! grow its buffer and retry.

use vstd::prelude::*;
use vstd::string::*;

use crate::cursor::Cursor;
use crate::error::{truncated, ErrorModel, Tm25Error};
use crate::header::{
    columns_from_flags, columns_spec, consistency_problem, flags_of_words, magic_seq,
    spectral_id_of, Header, HeaderModel, KnownDataFlags, ParseOptions, SpectralId, SpectralTable,
    TableModel, TextFields, DATE_TIME_LEN, FLAGS_OFFSET, TEXT_FIELD_CHARS, VERSION_2013,
};
use crate::le::{i32_at, sat, u32_at, u64_at};
use crate::text::{
    date_text, decode_date, int_text, push_i64, utf32_skip_nul, utf32_until_nul,
};

verus! {

// ---------------------------------------------------------------------
// Messages.

/// Message for negative block counts.
pub open spec fn negative_counts_message(a: i32, b: i32, c: i32) -> Seq<char> {
    "negative counts: spectra "@ + int_text(a as int) + ", additional items "@ + int_text(b as int)
        + ", text "@ + int_text(c as int)
}

/// Message for block counts beyond the plausible limits.
pub open spec fn implausible_counts_message(a: i32, b: i32, c: i32) -> Seq<char> {
    "implausible counts: spectra "@ + int_text(a as int) + ", additional items "@ + int_text(
        b as int,
    ) + ", text "@ + int_text(c as int)
}

/// Message for a spectral table size outside `0..=1_000_000`.
pub open spec fn table_size_message(n: i32) -> Seq<char> {
    "implausible spectral table size "@ + int_text(n as int)
}

/// Message for a column-name count outside `0..=1000`.
pub open spec fn name_count_message(n: i32) -> Seq<char> {
    "implausible column name count "@ + int_text(n as int)
}

/// Message for a column-name length outside `0..=10_000`.
pub open spec fn name_length_message(n: i32) -> Seq<char> {
    "implausible column name length "@ + int_text(n as int)
}

/// Name of description string `k` in error reports.
pub open spec fn text_field_name(k: int) -> Seq<char> {
    if k == 0 {
        "name"@
    } else if k == 1 {
        "manufacturer"@
    } else if k == 2 {
        "model"@
    } else if k == 3 {
        "laboratory"@
    } else if k == 4 {
        "equipment"@
    } else if k == 5 {
        "camera"@
    } else if k == 6 {
        "operating condition"@
    } else if k == 7 {
        "additional info"@
    } else {
        "data reference"@
    }
}

// ---------------------------------------------------------------------
// Grammar.

/// Where a read inside the fixed fields 8..88 first fails on an input of
/// `len` bytes: the end of the first field that does not fit.
pub open spec fn fixed_needed(len: int) -> int {
    if len < 12 {
        12
    } else if len < 16 {
        16
    } else if len < 20 {
        20
    } else if len < 28 {
        28
    } else if len < 56 {
        56
    } else {
        4 * (len / 4) + 4
    }
}

/// Where a run of 4-byte reads starting at `start` first fails on an input
/// of `len >= start` bytes.
pub open spec fn run_needed(start: int, len: int) -> int {
    start + 4 * ((len - start) / 4) + 4
}

/// The problem with the three block counts at offsets 76, 80, 84, if any.
pub open spec fn count_problem(n_spectra: i32, n_items: i32, text_size: i32) -> Option<Seq<char>> {
    if n_spectra < 0 || n_items < 0 || text_size < 0 {
        Some(negative_counts_message(n_spectra, n_items, text_size))
    } else if n_spectra > 10_000 || n_items > 1_000 || text_size > 10_000_000 {
        Some(implausible_counts_message(n_spectra, n_items, text_size))
    } else {
        None
    }
}

/// Description strings `0..n` (each 4000 bytes from offset 288).
pub open spec fn text_fields(b: Seq<u8>, n: nat) -> Result<Seq<Seq<char>>, ErrorModel>
    decreases n,
{
    if n == 0 {
        Ok(Seq::empty())
    } else {
        match text_fields(b, (n - 1) as nat) {
            Err(e) => Err(e),
            Ok(ts) => {
                let start = 288 + 4000 * (n - 1);
                if start + 4000 > b.len() {
                    Err(truncated(start + 4000, b.len() as int))
                } else {
                    match utf32_until_nul(b, start, 1000) {
                        Ok(s) => Ok(ts.push(s)),
                        Err(cp) => Err(
                            ErrorModel::InvalidText {
                                field: text_field_name(n - 1),
                                code_point: cp,
                            },
                        ),
                    }
                }
            },
        }
    }
}

/// One spectral table at `p`: its point count, then the interleaved
/// `(wavelength, value)` pairs. Also gives the offset after it.
pub open spec fn table_at(b: Seq<u8>, p: int) -> Result<(TableModel, int), ErrorModel> {
    let len = b.len() as int;
    if p + 4 > len {
        Err(truncated(p + 4, len))
    } else {
        let n = i32_at(b, p);
        if n < 0 || n > 1_000_000 {
            Err(ErrorModel::InvalidHeader(table_size_message(n)))
        } else if p + 4 + 8 * n > len {
            Err(truncated(run_needed(p + 4, len), len))
        } else {
            Ok(
                (
                    TableModel {
                        wavelengths: Seq::new(n as nat, |i: int| u32_at(b, p + 4 + 8 * i)),
                        values: Seq::new(n as nat, |i: int| u32_at(b, p + 8 + 8 * i)),
                    },
                    p + 4 + 8 * n,
                ),
            )
        }
    }
}

/// `count` consecutive spectral tables from `p`, and the offset after them.
pub open spec fn tables_at(b: Seq<u8>, p: int, count: nat) -> Result<
    (Seq<TableModel>, int),
    ErrorModel,
>
    decreases count,
{
    if count == 0 {
        Ok((Seq::empty(), p))
    } else {
        match tables_at(b, p, (count - 1) as nat) {
            Err(e) => Err(e),
            Ok((ts, q)) => match table_at(b, q) {
                Err(e) => Err(e),
                Ok((t, r)) => Ok((ts.push(t), r)),
            },
        }
    }
}

/// One column name at `p`: its length in code points, then the code points.
pub open spec fn name_at(b: Seq<u8>, p: int) -> Result<(Seq<char>, int), ErrorModel> {
    let len = b.len() as int;
    if p + 4 > len {
        Err(truncated(p + 4, len))
    } else {
        let n = i32_at(b, p);
        if n < 0 || n > 10_000 {
            Err(ErrorModel::InvalidHeader(name_length_message(n)))
        } else if p + 4 + 4 * n > len {
            Err(truncated(p + 4 + 4 * n, len))
        } else {
            match utf32_skip_nul(b, p + 4, n as nat) {
                Ok(s) => Ok((s, p + 4 + 4 * n)),
                Err(cp) => Err(ErrorModel::InvalidText { field: "column name"@, code_point: cp }),
            }
        }
    }
}

/// `count` consecutive column names from `p`, and the offset after them.
pub open spec fn names_at(b: Seq<u8>, p: int, count: nat) -> Result<
    (Seq<Seq<char>>, int),
    ErrorModel,
>
    decreases count,
{
    if count == 0 {
        Ok((Seq::empty(), p))
    } else {
        match names_at(b, p, (count - 1) as nat) {
            Err(e) => Err(e),
            Ok((ns, q)) => match name_at(b, q) {
                Err(e) => Err(e),
                Ok((s, r)) => Ok((ns.push(s), r)),
            },
        }
    }
}

/// Whether the column-name / additional-text trailer follows the tables
/// ending at `p`. With the file size known, the trailer is absent exactly
/// when the ray block fits right at `p`. Otherwise the word at `p` decides:
/// a plausible name count (`0..=1000`) means the trailer is there.
pub open spec fn trailer_present(
    b: Seq<u8>,
    p: int,
    opts: ParseOptions,
    n_rays: u64,
    record_size: int,
) -> Result<bool, ErrorModel> {
    match opts.total_size {
        Some(t) => Ok(!(t >= p && t - p == n_rays * record_size)),
        None => if p + 4 > b.len() {
            Err(truncated(p + 4, b.len() as int))
        } else {
            Ok(0 <= i32_at(b, p) && i32_at(b, p) <= 1000)
        },
    }
}

/// What follows the tables at `p`: whether a trailer is present, the column
/// names, the additional text, and the offset of the ray block.
pub open spec fn trailer_at(
    b: Seq<u8>,
    p: int,
    opts: ParseOptions,
    n_rays: u64,
    record_size: int,
    text_size: i32,
) -> Result<(bool, Seq<Seq<char>>, Seq<char>, int), ErrorModel> {
    let len = b.len() as int;
    match trailer_present(b, p, opts, n_rays, record_size) {
        Err(e) => Err(e),
        Ok(false) => Ok((false, Seq::empty(), Seq::empty(), p)),
        Ok(true) => if p + 4 > len {
            Err(truncated(p + 4, len))
        } else {
            let nn = i32_at(b, p);
            if nn < 0 || nn > 1000 {
                Err(ErrorModel::InvalidHeader(name_count_message(nn)))
            } else {
                match names_at(b, p + 4, nn as nat) {
                    Err(e) => Err(e),
                    Ok((names, q)) => if q + 4 * text_size > len {
                        Err(truncated(q + 4 * text_size, len))
                    } else {
                        match utf32_skip_nul(b, q, text_size as nat) {
                            Ok(s) => Ok((true, names, s, q + 4 * text_size)),
                            Err(cp) => Err(
                                ErrorModel::InvalidText { field: "additional text"@, code_point: cp },
                            ),
                        }
                    },
                }
            }
        },
    }
}

/// The error the fixed part of the header (offsets 0..288) gives, if any.
pub open spec fn fixed_error(b: Seq<u8>) -> Option<ErrorModel> {
    let len = b.len() as int;
    if len < 4 {
        Some(truncated(4, len))
    } else if b.subrange(0, 4) != magic_seq() {
        Some(ErrorModel::BadMagic(b.subrange(0, 4)))
    } else if len < 8 {
        Some(truncated(8, len))
    } else if i32_at(b, 4) != VERSION_2013 {
        Some(ErrorModel::UnsupportedVersion(i32_at(b, 4)))
    } else if len < 88 {
        Some(truncated(fixed_needed(len), len))
    } else if count_problem(i32_at(b, 76), i32_at(b, 80), i32_at(b, 84)) is Some {
        Some(
            ErrorModel::InvalidHeader(
                count_problem(i32_at(b, 76), i32_at(b, 80), i32_at(b, 84))->0,
            ),
        )
    } else if len < 256 {
        Some(truncated(256, len))
    } else if len < 288 {
        Some(truncated(run_needed(256, len), len))
    } else {
        None
    }
}

/// The known-data flags stored at offset 256.
pub open spec fn stored_flags(b: Seq<u8>) -> KnownDataFlags {
    flags_of_words(Seq::new(8, |k: int| i32_at(b, 256 + 4 * k)))
}

/// The header a byte sequence starts with, or the error it gives.
#[verifier::opaque]
pub open spec fn parse_spec(b: Seq<u8>, opts: ParseOptions) -> Result<HeaderModel, ErrorModel> {
    match fixed_error(b) {
        Some(e) => Err(e),
        None => {
        let n_spectra = i32_at(b, 76);
        let n_items = i32_at(b, 80);
        let text_size = i32_at(b, 84);
        let flags = stored_flags(b);
        let columns = columns_spec(flags, n_items as nat);
        match text_fields(b, 9) {
            Err(e) => Err(e),
            Ok(text) => match tables_at(b, 36288, n_spectra as nat) {
                Err(e) => Err(e),
                Ok((spectra, p)) => match trailer_at(
                    b,
                    p,
                    opts,
                    u64_at(b, 20),
                    (columns.len() * 4) as int,
                    text_size,
                ) {
                    Err(e) => Err(e),
                    Ok((has_name_block, column_names, additional_text, ray_start)) => {
                        let h = HeaderModel {
                            version: VERSION_2013,
                            creation_method: i32_at(b, 8),
                            luminous_flux_bits: u32_at(b, 12),
                            radiant_flux_bits: u32_at(b, 16),
                            n_rays: u64_at(b, 20),
                            date_time: date_text(b.subrange(28, 56)),
                            start_position: i32_at(b, 56),
                            spectral_id: spectral_id_of(i32_at(b, 60)),
                            single_wavelength_bits: u32_at(b, 64),
                            min_wavelength_bits: u32_at(b, 68),
                            max_wavelength_bits: u32_at(b, 72),
                            n_additional_items: n_items as usize,
                            additional_text_size: text_size,
                            flags,
                            text,
                            spectra,
                            has_name_block,
                            column_names,
                            additional_text,
                            columns,
                            ray_start: ray_start as usize,
                        };
                        if opts.strict_flags && consistency_problem(h) is Some {
                            Err(ErrorModel::InvalidHeader(consistency_problem(h)->0))
                        } else {
                            Ok(h)
                        }
                    },
                },
            },
        }
        },
    }
}

/// An error among the first `j` description strings is the error of all
/// nine.
proof fn lemma_text_fields_error(b: Seq<u8>, j: nat, m: nat)
    requires
        j <= m,
        text_fields(b, j) is Err,
    ensures
        text_fields(b, m) == text_fields(b, j),
    decreases m - j,
{
    if m > j {
        lemma_text_fields_error(b, j, (m - 1) as nat);
    }
}

/// An error among the first `j` tables is the error of all of them.
proof fn lemma_tables_error(b: Seq<u8>, p: int, j: nat, m: nat)
    requires
        j <= m,
        tables_at(b, p, j) is Err,
    ensures
        tables_at(b, p, m) == tables_at(b, p, j),
    decreases m - j,
{
    if m > j {
        lemma_tables_error(b, p, j, (m - 1) as nat);
    }
}

/// An error among the first `j` names is the error of all of them.
proof fn lemma_names_error(b: Seq<u8>, p: int, j: nat, m: nat)
    requires
        j <= m,
        names_at(b, p, j) is Err,
    ensures
        names_at(b, p, m) == names_at(b, p, j),
    decreases m - j,
{
    if m > j {
        lemma_names_error(b, p, j, (m - 1) as nat);
    }
}

// ---------------------------------------------------------------------
// Parser.

fn text_field_label(k: usize) -> (s: &'static str)
    ensures
        s@ == text_field_name(k as int),
{
    if k == 0 {
        "name"
    } else if k == 1 {
        "manufacturer"
    } else if k == 2 {
        "model"
    } else if k == 3 {
        "laboratory"
    } else if k == 4 {
        "equipment"
    } else if k == 5 {
        "camera"
    } else if k == 6 {
        "operating condition"
    } else if k == 7 {
        "additional info"
    } else {
        "data reference"
    }
}

fn message_with_number(prefix: &str, n: i32) -> (s: String)
    ensures
        s@ == prefix@ + int_text(n as int),
{
    let mut s = String::from_str(prefix);
    push_i64(&mut s, n as i64);
    s
}

fn counts_message(what: &str, a: i32, b: i32, c: i32) -> (s: String)
    ensures
        s@ == what@ + int_text(a as int) + ", additional items "@ + int_text(b as int)
            + ", text "@ + int_text(c as int),
{
    let mut s = String::from_str(what);
    push_i64(&mut s, a as i64);
    s.append(", additional items ");
    push_i64(&mut s, b as i64);
    s.append(", text ");
    push_i64(&mut s, c as i64);
    s
}

/// Parse one spectral table at the cursor.
fn read_table(r: &mut Cursor) -> (res: Result<SpectralTable, Tm25Error>)
    requires
        old(r).wf(),
    ensures
        final(r).wf(),
        final(r).bytes@ == old(r).bytes@,
        match table_at(old(r).bytes@, old(r).pos as int) {
            Ok((t, q)) => res matches Ok(x) && x@ == t && final(r).pos == q,
            Err(e) => res matches Err(x) && x@ == e,
        },
{
    let ghost b = r.bytes@;
    let ghost p = r.pos as int;
    let n = match r.i32() {
        Ok(v) => v,
        Err(e) => return Err(e),
    };
    if !(0 <= n && n <= 1_000_000) {
        return Err(
            Tm25Error::InvalidHeader(message_with_number("implausible spectral table size ", n)),
        );
    }
    let mut t = SpectralTable {
        wavelengths_nm: Vec::with_capacity(n as usize),
        values: Vec::with_capacity(n as usize),
    };
    let mut i: i32 = 0;
    while i < n
        invariant
            r.wf(),
            r.bytes@ == b,
            b == old(r).bytes@,
            p == old(r).pos,
            0 <= i <= n <= 1_000_000,
            n == i32_at(b, p),
            p + 4 <= b.len(),
            r.pos == p + 4 + 8 * i,
            p + 4 + 8 * i <= b.len(),
            t.wavelengths_nm@ =~= Seq::new(i as nat, |k: int| u32_at(b, p + 4 + 8 * k)),
            t.values@ =~= Seq::new(i as nat, |k: int| u32_at(b, p + 8 + 8 * k)),
        decreases n - i,
    {
        let w = match r.f32_bits() {
            Ok(v) => v,
            Err(e) => {
                assert(p + 4 + 8 * n > b.len());
                assert(run_needed(p + 4, b.len() as int) == p + 4 + 8 * i + 4) by {
                    assert((b.len() - (p + 4)) / 4 == 2 * i) by (nonlinear_arith)
                        requires
                            b.len() - (p + 4) >= 8 * i,
                            b.len() - (p + 4) < 8 * i + 4,
                    ;
                }
                return Err(e);
            },
        };
        let v = match r.f32_bits() {
            Ok(v) => v,
            Err(e) => {
                assert(run_needed(p + 4, b.len() as int) == p + 4 + 8 * i + 8) by {
                    assert((b.len() - (p + 4)) / 4 == 2 * i + 1) by (nonlinear_arith)
                        requires
                            b.len() - (p + 4) >= 8 * i + 4,
                            b.len() - (p + 4) < 8 * i + 8,
                    ;
                }
                return Err(e);
            },
        };
        t.wavelengths_nm.push(w);
        t.values.push(v);
        i = i + 1;
    }
    Ok(t)
}

/// Parse one column name at the cursor.
fn read_name(r: &mut Cursor) -> (res: Result<String, Tm25Error>)
    requires
        old(r).wf(),
    ensures
        final(r).wf(),
        final(r).bytes@ == old(r).bytes@,
        match name_at(old(r).bytes@, old(r).pos as int) {
            Ok((s, q)) => res matches Ok(x) && x@ == s && final(r).pos == q,
            Err(e) => res matches Err(x) && x@ == e,
        },
{
    let len = match r.i32() {
        Ok(v) => v,
        Err(e) => return Err(e),
    };
    if !(0 <= len && len <= 10_000) {
        return Err(
            Tm25Error::InvalidHeader(message_with_number("implausible column name length ", len)),
        );
    }
    r.utf32_exact(len as usize, "column name")
}

/// The file fields of offsets 8..88 and the flags block.
struct FixedFields {
    creation_method: i32,
    luminous_flux_bits: u32,
    radiant_flux_bits: u32,
    n_rays: u64,
    date_time: String,
    start_position: i32,
    spectral_code: i32,
    single_wavelength_bits: u32,
    min_wavelength_bits: u32,
    max_wavelength_bits: u32,
    n_spectra: i32,
    n_items: i32,
    text_size: i32,
}

/// Read offsets 0..88: magic, version and the file fields, then check the
/// block counts.
fn read_file_fields(r: &mut Cursor) -> (res: Result<FixedFields, Tm25Error>)
    requires
        old(r).wf(),
        old(r).pos == 0,
    ensures
        final(r).wf(),
        final(r).bytes@ == old(r).bytes@,
        ({
            let b = old(r).bytes@;
            let len = b.len() as int;
            let early = if len < 4 {
                Some(truncated(4, len))
            } else if b.subrange(0, 4) != magic_seq() {
                Some(ErrorModel::BadMagic(b.subrange(0, 4)))
            } else if len < 8 {
                Some(truncated(8, len))
            } else if i32_at(b, 4) != VERSION_2013 {
                Some(ErrorModel::UnsupportedVersion(i32_at(b, 4)))
            } else if len < 88 {
                Some(truncated(fixed_needed(len), len))
            } else if count_problem(i32_at(b, 76), i32_at(b, 80), i32_at(b, 84)) is Some {
                Some(
                    ErrorModel::InvalidHeader(
                        count_problem(i32_at(b, 76), i32_at(b, 80), i32_at(b, 84))->0,
                    ),
                )
            } else {
                None
            };
            match early {
                Some(e) => res matches Err(x) && x@ == e,
                None => res matches Ok(f) && final(r).pos == 88 && f.creation_method == i32_at(b, 8)
                    && f.luminous_flux_bits == u32_at(b, 12) && f.radiant_flux_bits == u32_at(b, 16)
                    && f.n_rays == u64_at(b, 20) && f.date_time@ == date_text(b.subrange(28, 56))
                    && f.start_position == i32_at(b, 56) && f.spectral_code == i32_at(b, 60)
                    && f.single_wavelength_bits == u32_at(b, 64) && f.min_wavelength_bits
                    == u32_at(b, 68) && f.max_wavelength_bits == u32_at(b, 72) && f.n_spectra
                    == i32_at(b, 76) && f.n_items == i32_at(b, 80) && f.text_size == i32_at(b, 84),
            }
        }),
{
    let ghost b = r.bytes@;
    let magic = match r.bytes4() {
        Ok(m) => m,
        Err(e) => return Err(e),
    };
    if !(magic[0] == 0x54 && magic[1] == 0x4D && magic[2] == 0x32 && magic[3] == 0x35) {
        proof {
            if b.subrange(0, 4) == magic_seq() {
                assert(magic@[0] == 0x54 && magic@[1] == 0x4D);
            }
        }
        return Err(Tm25Error::BadMagic(magic));
    }
    assert(b.subrange(0, 4) =~= magic_seq());
    let version = match r.i32() {
        Ok(v) => v,
        Err(e) => return Err(e),
    };
    if version != VERSION_2013 {
        return Err(Tm25Error::UnsupportedVersion(version));
    }
    let creation_method = match r.i32() {
        Ok(v) => v,
        Err(e) => return Err(e),
    };
    let luminous_flux_bits = match r.f32_bits() {
        Ok(v) => v,
        Err(e) => return Err(e),
    };
    let radiant_flux_bits = match r.f32_bits() {
        Ok(v) => v,
        Err(e) => return Err(e),
    };
    let n_rays = match r.u64() {
        Ok(v) => v,
        Err(e) => return Err(e),
    };
    let date_raw = match r.take(DATE_TIME_LEN) {
        Ok(v) => v,
        Err(e) => return Err(e),
    };
    let date_time = decode_date(date_raw);
    let start_position = match r.i32() {
        Ok(v) => v,
        Err(e) => return Err(e),
    };
    let spectral_code = match r.i32() {
        Ok(v) => v,
        Err(e) => return Err(e),
    };
    let single_wavelength_bits = match r.f32_bits() {
        Ok(v) => v,
        Err(e) => return Err(e),
    };
    let min_wavelength_bits = match r.f32_bits() {
        Ok(v) => v,
        Err(e) => return Err(e),
    };
    let max_wavelength_bits = match r.f32_bits() {
        Ok(v) => v,
        Err(e) => return Err(e),
    };
    let n_spectra = match r.i32() {
        Ok(v) => v,
        Err(e) => return Err(e),
    };
    let n_items = match r.i32() {
        Ok(v) => v,
        Err(e) => return Err(e),
    };
    let text_size = match r.i32() {
        Ok(v) => v,
        Err(e) => return Err(e),
    };
    if n_spectra < 0 || n_items < 0 || text_size < 0 {
        return Err(
            Tm25Error::InvalidHeader(
                counts_message("negative counts: spectra ", n_spectra, n_items, text_size),
            ),
        );
    }
    if n_spectra > 10_000 || n_items > 1_000 || text_size > 10_000_000 {
        return Err(
            Tm25Error::InvalidHeader(
                counts_message("implausible counts: spectra ", n_spectra, n_items, text_size),
            ),
        );
    }
    Ok(
        FixedFields {
            creation_method,
            luminous_flux_bits,
            radiant_flux_bits,
            n_rays,
            date_time,
            start_position,
            spectral_code,
            single_wavelength_bits,
            min_wavelength_bits,
            max_wavelength_bits,
            n_spectra,
            n_items,
            text_size,
        },
    )
}

/// Read the known-data flags block at offset 256.
fn read_flags(r: &mut Cursor) -> (res: Result<KnownDataFlags, Tm25Error>)
    requires
        old(r).wf(),
        old(r).bytes@.len() >= 88,
    ensures
        final(r).wf(),
        final(r).bytes@ == old(r).bytes@,
        ({
            let b = old(r).bytes@;
            let len = b.len() as int;
            if len < 256 {
                res matches Err(x) && x@ == truncated(256, len)
            } else if len < 288 {
                res matches Err(x) && x@ == truncated(run_needed(256, len), len)
            } else {
                res matches Ok(f) && f == stored_flags(b) && final(r).pos == 288
            }
        }),
{
    let ghost b = r.bytes@;
    match r.seek(FLAGS_OFFSET) {
        Ok(()) => {},
        Err(e) => return Err(e),
    }
    let mut words = [0i32;8];
    let mut k: usize = 0;
    while k < 8
        invariant
            r.wf(),
            r.bytes@ == b,
            b == old(r).bytes@,
            b.len() >= 256,
            k <= 8,
            r.pos == 256 + 4 * k,
            forall|j: int| 0 <= j < k ==> words@[j] == i32_at(b, 256 + 4 * j),
        decreases 8 - k,
    {
        let w = match r.i32() {
            Ok(v) => v,
            Err(e) => {
                assert(run_needed(256, b.len() as int) == 256 + 4 * k + 4);
                return Err(e);
            },
        };
        words[k] = w;
        k = k + 1;
    }
    assert(words@ =~= Seq::new(8, |j: int| i32_at(b, 256 + 4 * j)));
    Ok(KnownDataFlags::from_words(&words))
}

/// Read the nine description strings at offset 288.
fn read_text_fields(r: &mut Cursor) -> (res: Result<TextFields, Tm25Error>)
    requires
        old(r).wf(),
        old(r).pos == 288,
    ensures
        final(r).wf(),
        final(r).bytes@ == old(r).bytes@,
        match text_fields(old(r).bytes@, 9) {
            Ok(ts) => res matches Ok(t) && t.raw@.map_values(|s: String| s@) == ts && final(r).pos
                == 36288,
            Err(e) => res matches Err(x) && x@ == e,
        },
{
    let ghost b = r.bytes@;
    let mut text = TextFields::default();
    let ghost mut text_seq: Seq<Seq<char>> = Seq::empty();
    let mut k: usize = 0;
    while k < 9
        invariant
            r.wf(),
            r.bytes@ == b,
            b == old(r).bytes@,
            k <= 9,
            r.pos == 288 + 4000 * k,
            text_fields(b, k as nat) == Ok::<Seq<Seq<char>>, ErrorModel>(text_seq),
            text_seq.len() == k,
            forall|j: int| 0 <= j < k ==> (#[trigger] text.raw@[j])@ == text_seq[j],
        decreases 9 - k,
    {
        let s = match r.utf32_fixed(TEXT_FIELD_CHARS, text_field_label(k)) {
            Ok(s) => s,
            Err(e) => {
                proof {
                    lemma_text_fields_error(b, (k + 1) as nat, 9);
                }
                return Err(e);
            },
        };
        proof {
            text_seq = text_seq.push(s@);
        }
        text.raw[k] = s;
        k = k + 1;
    }
    assert(text.raw@.map_values(|s: String| s@) =~= text_seq);
    Ok(text)
}

/// Read `n` spectral tables at the cursor.
fn read_tables(r: &mut Cursor, n: i32) -> (res: Result<Vec<SpectralTable>, Tm25Error>)
    requires
        old(r).wf(),
        n >= 0,
    ensures
        final(r).wf(),
        final(r).bytes@ == old(r).bytes@,
        match tables_at(old(r).bytes@, old(r).pos as int, n as nat) {
            Ok((ts, q)) => res matches Ok(v) && v@.map_values(|t: SpectralTable| t@) == ts
                && final(r).pos == q,
            Err(e) => res matches Err(x) && x@ == e,
        },
{
    let ghost b = r.bytes@;
    let ghost p = r.pos as int;
    let mut spectra: Vec<SpectralTable> = Vec::new();
    let mut k: i32 = 0;
    assert(spectra@.map_values(|t: SpectralTable| t@) =~= Seq::<TableModel>::empty());
    while k < n
        invariant
            r.wf(),
            r.bytes@ == b,
            b == old(r).bytes@,
            p == old(r).pos,
            0 <= k <= n,
            tables_at(b, p, k as nat) matches Ok((ts, q)) && ts == spectra@.map_values(
                |t: SpectralTable| t@,
            ) && q == r.pos,
        decreases n - k,
    {
        let t = match read_table(r) {
            Ok(t) => t,
            Err(e) => {
                proof {
                    lemma_tables_error(b, p, (k + 1) as nat, n as nat);
                }
                return Err(e);
            },
        };
        let ghost before = spectra@.map_values(|t: SpectralTable| t@);
        spectra.push(t);
        assert(spectra@.map_values(|t: SpectralTable| t@) =~= before.push(t@));
        k = k + 1;
    }
    Ok(spectra)
}

/// Read the column names and the additional text when the trailer is
/// present.
fn read_trailer(
    r: &mut Cursor,
    opts: &ParseOptions,
    n_rays: u64,
    record_size: usize,
    text_size: i32,
) -> (res: Result<(bool, Vec<String>, String), Tm25Error>)
    requires
        old(r).wf(),
        0 <= text_size <= 10_000_000,
    ensures
        final(r).wf(),
        final(r).bytes@ == old(r).bytes@,
        match trailer_at(
            old(r).bytes@,
            old(r).pos as int,
            *opts,
            n_rays,
            record_size as int,
            text_size,
        ) {
            Ok((present, names, text, q)) => res matches Ok((x, v, t)) && x == present
                && v@.map_values(|s: String| s@) == names && t@ == text && final(r).pos == q,
            Err(e) => res matches Err(x) && x@ == e,
        },
{
    let ghost b = r.bytes@;
    let ghost p = r.pos as int;
    let present = match opts.total_size {
        Some(total) => {
            let fits = total >= r.pos as u64 && match n_rays.checked_mul(record_size as u64) {
                Some(size) => total - r.pos as u64 == size,
                None => false,
            };
            !fits
        },
        None => {
            let save = r.pos;
            let v = match r.i32() {
                Ok(v) => v,
                Err(e) => return Err(e),
            };
            r.pos = save;
            0 <= v && v <= 1000
        },
    };
    let mut column_names: Vec<String> = Vec::new();
    if !present {
        return Ok((false, column_names, String::new()));
    }
    let n_names = match r.i32() {
        Ok(v) => v,
        Err(e) => return Err(e),
    };
    if !(0 <= n_names && n_names <= 1000) {
        return Err(
            Tm25Error::InvalidHeader(message_with_number("implausible column name count ", n_names)),
        );
    }
    let mut k: i32 = 0;
    assert(column_names@.map_values(|s: String| s@) =~= Seq::<Seq<char>>::empty());
    while k < n_names
        invariant
            r.wf(),
            r.bytes@ == b,
            b == old(r).bytes@,
            p == old(r).pos,
            p + 4 <= b.len(),
            n_names == i32_at(b, p),
            n_names <= 1000,
            trailer_present(b, p, *opts, n_rays, record_size as int) == Ok::<bool, ErrorModel>(true),
            0 <= k <= n_names,
            names_at(b, p + 4, k as nat) matches Ok((ns, q)) && ns == column_names@.map_values(
                |s: String| s@,
            ) && q == r.pos,
        decreases n_names - k,
    {
        let ghost before_pos = r.pos as int;
        let s = match read_name(r) {
            Ok(s) => s,
            Err(e) => {
                proof {
                    let (ns, q) = names_at(b, p + 4, k as nat)->Ok_0;
                    assert(q == before_pos);
                    assert(names_at(b, p + 4, (k + 1) as nat) == Err::<(Seq<Seq<char>>, int), ErrorModel>(e@));
                    lemma_names_error(b, p + 4, (k + 1) as nat, n_names as nat);
                }
                return Err(e);
            },
        };
        let ghost before = column_names@.map_values(|s: String| s@);
        column_names.push(s);
        assert(column_names@.map_values(|s: String| s@) =~= before.push(s@));
        k = k + 1;
    }
    let additional_text = match r.utf32_exact(text_size as usize, "additional text") {
        Ok(s) => s,
        Err(e) => return Err(e),
    };
    Ok((true, column_names, additional_text))
}

impl Header {
    /// Parse the header from the start of a file. Returns
    /// [`Tm25Error::Truncated`] with the number of bytes needed when the
    /// slice ends inside the header, so a streaming reader can grow its
    /// buffer and retry.
    pub fn parse(bytes: &[u8], opts: &ParseOptions) -> (res: Result<Header, Tm25Error>)
        ensures
            match parse_spec(bytes@, *opts) {
                Ok(h) => res matches Ok(x) && x@ == h,
                Err(e) => res matches Err(x) && x@ == e,
            },
            res matches Ok(x) ==> x.ray_start <= bytes@.len(),
            res matches Err(Tm25Error::Truncated { needed, have }) ==> have == bytes@.len() && (
            needed > bytes@.len() || needed == usize::MAX),
    {
        let len = bytes.len();
        proof {
            crate::prefix::lemma_parse_truncation(bytes@, *opts);
            reveal(parse_spec);
        }
        let ghost b = bytes@;
        let mut r = Cursor::new(bytes);
        let fixed = match read_file_fields(&mut r) {
            Ok(f) => f,
            Err(e) => return Err(e),
        };
        let flags = match read_flags(&mut r) {
            Ok(f) => f,
            Err(e) => return Err(e),
        };
        let text = match read_text_fields(&mut r) {
            Ok(t) => t,
            Err(e) => return Err(e),
        };
        let spectra = match read_tables(&mut r, fixed.n_spectra) {
            Ok(t) => t,
            Err(e) => return Err(e),
        };
        let columns = columns_from_flags(&flags, fixed.n_items as usize);
        let (has_name_block, column_names, additional_text) = match read_trailer(
            &mut r,
            opts,
            fixed.n_rays,
            columns.len() * 4,
            fixed.text_size,
        ) {
            Ok(t) => t,
            Err(e) => return Err(e),
        };
        let header = Header {
            version: VERSION_2013,
            creation_method: fixed.creation_method,
            luminous_flux_bits: fixed.luminous_flux_bits,
            radiant_flux_bits: fixed.radiant_flux_bits,
            n_rays: fixed.n_rays,
            date_time: fixed.date_time,
            start_position: fixed.start_position,
            spectral_id: SpectralId::from_i32(fixed.spectral_code),
            single_wavelength_bits: fixed.single_wavelength_bits,
            min_wavelength_bits: fixed.min_wavelength_bits,
            max_wavelength_bits: fixed.max_wavelength_bits,
            n_additional_items: fixed.n_items as usize,
            additional_text_size: fixed.text_size,
            flags,
            text,
            spectra,
            has_name_block,
            column_names,
            additional_text,
            columns,
            ray_start: r.pos,
        };
        if opts.strict_flags {
            match header.validate() {
                Ok(()) => {},
                Err(e) => return Err(e),
            }
        }
        Ok(header)
    }
}

} // verus!
