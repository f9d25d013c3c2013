//! A header depends only on the bytes it reads: any byte string that agrees
//! with a parsed one up to the end of what the parser read gives the same
//! header. A streaming reader that parses the header from a prefix of a
//! file therefore gets the header the whole file gives.

use vstd::prelude::*;

use crate::error::ErrorModel;
use crate::header::{HeaderModel, ParseOptions};
use crate::le::{i32_at, u32_at, u64_at};
use crate::parse::{
    fixed_error, name_at, names_at, parse_spec, stored_flags, table_at, tables_at, text_fields,
    trailer_at, trailer_present,
};
use crate::text::{utf32_skip_nul, utf32_until_nul};

verus! {

/// `b` and `c` both hold at least `q` bytes and agree on the first `q`.
pub open spec fn agree(b: Seq<u8>, c: Seq<u8>, q: int) -> bool {
    &&& 0 <= q <= b.len()
    &&& q <= c.len()
    &&& forall|i: int| 0 <= i < q ==> #[trigger] b[i] == c[i]
}

proof fn lemma_u32_agree(b: Seq<u8>, c: Seq<u8>, q: int, p: int)
    requires
        agree(b, c, q),
        0 <= p,
        p + 4 <= q,
    ensures
        u32_at(b, p) == u32_at(c, p),
        i32_at(b, p) == i32_at(c, p),
{
    assert(b[p] == c[p]);
    assert(b[p + 1] == c[p + 1]);
    assert(b[p + 2] == c[p + 2]);
    assert(b[p + 3] == c[p + 3]);
}

proof fn lemma_until_nul_agree(b: Seq<u8>, c: Seq<u8>, q: int, p: int, n: nat)
    requires
        agree(b, c, q),
        0 <= p,
        p + 4 * n <= q,
    ensures
        utf32_until_nul(b, p, n) == utf32_until_nul(c, p, n),
    decreases n,
{
    if n > 0 {
        lemma_u32_agree(b, c, q, p);
        lemma_until_nul_agree(b, c, q, p + 4, (n - 1) as nat);
    }
}

proof fn lemma_skip_nul_agree(b: Seq<u8>, c: Seq<u8>, q: int, p: int, n: nat)
    requires
        agree(b, c, q),
        0 <= p,
        p + 4 * n <= q,
    ensures
        utf32_skip_nul(b, p, n) == utf32_skip_nul(c, p, n),
    decreases n,
{
    if n > 0 {
        lemma_u32_agree(b, c, q, p);
        lemma_skip_nul_agree(b, c, q, p + 4, (n - 1) as nat);
    }
}

proof fn lemma_text_fields_agree(b: Seq<u8>, c: Seq<u8>, q: int, n: nat)
    requires
        agree(b, c, q),
        288 + 4000 * n <= q,
    ensures
        text_fields(b, n) == text_fields(c, n),
    decreases n,
{
    if n > 0 {
        lemma_text_fields_agree(b, c, q, (n - 1) as nat);
        lemma_until_nul_agree(b, c, q, 288 + 4000 * (n - 1), 1000);
    }
}

proof fn lemma_table_agree(b: Seq<u8>, c: Seq<u8>, q: int, p: int)
    requires
        agree(b, c, q),
        0 <= p,
        table_at(b, p) matches Ok((t, r)) && r <= q,
    ensures
        table_at(c, p) == table_at(b, p),
        table_at(b, p) matches Ok((t, r)) && p + 4 <= r,
{
    lemma_u32_agree(b, c, q, p);
    let n = i32_at(b, p);
    let wb = Seq::new(n as nat, |i: int| u32_at(b, p + 4 + 8 * i));
    let wc = Seq::new(n as nat, |i: int| u32_at(c, p + 4 + 8 * i));
    let vb = Seq::new(n as nat, |i: int| u32_at(b, p + 8 + 8 * i));
    let vc = Seq::new(n as nat, |i: int| u32_at(c, p + 8 + 8 * i));
    if table_at(b, p) is Ok {
        assert forall|i: int| 0 <= i < n implies #[trigger] wb[i] == wc[i] && vb[i] == vc[i] by {
            lemma_u32_agree(b, c, q, p + 4 + 8 * i);
            lemma_u32_agree(b, c, q, p + 8 + 8 * i);
        }
        assert(wb =~= wc);
        assert(vb =~= vc);
    }
}

proof fn lemma_tables_agree(b: Seq<u8>, c: Seq<u8>, q: int, p: int, count: nat)
    requires
        agree(b, c, q),
        0 <= p,
        tables_at(b, p, count) matches Ok((ts, r)) && r <= q,
    ensures
        tables_at(c, p, count) == tables_at(b, p, count),
        tables_at(b, p, count) matches Ok((ts, r)) && p <= r,
    decreases count,
{
    if count > 0 {
        let (ts0, q0) = tables_at(b, p, (count - 1) as nat)->Ok_0;
        lemma_table_agree_end(b, q0);
        lemma_tables_agree(b, c, q, p, (count - 1) as nat);
        lemma_table_agree(b, c, q, q0);
    }
}

/// A table read at `p` ends after its count word.
proof fn lemma_table_agree_end(b: Seq<u8>, p: int)
    ensures
        table_at(b, p) matches Ok((t, r)) ==> p + 4 <= r,
{
}

proof fn lemma_name_agree(b: Seq<u8>, c: Seq<u8>, q: int, p: int)
    requires
        agree(b, c, q),
        0 <= p,
        name_at(b, p) matches Ok((s, r)) && r <= q,
    ensures
        name_at(c, p) == name_at(b, p),
        name_at(b, p) matches Ok((s, r)) && p + 4 <= r,
{
    lemma_u32_agree(b, c, q, p);
    let n = i32_at(b, p);
    lemma_skip_nul_agree(b, c, q, p + 4, n as nat);
}

proof fn lemma_names_agree(b: Seq<u8>, c: Seq<u8>, q: int, p: int, count: nat)
    requires
        agree(b, c, q),
        0 <= p,
        names_at(b, p, count) matches Ok((ns, r)) && r <= q,
    ensures
        names_at(c, p, count) == names_at(b, p, count),
        names_at(b, p, count) matches Ok((ns, r)) && p <= r,
    decreases count,
{
    if count > 0 {
        let (ns0, q0) = names_at(b, p, (count - 1) as nat)->Ok_0;
        lemma_names_agree(b, c, q, p, (count - 1) as nat);
        lemma_name_agree(b, c, q, q0);
    }
}

/// The tables read from `p` end inside the bytes, after `p`.
proof fn lemma_tables_end(b: Seq<u8>, p: int, count: nat)
    requires
        p <= b.len(),
    ensures
        tables_at(b, p, count) matches Ok((ts, r)) ==> p <= r <= b.len(),
    decreases count,
{
    if count > 0 {
        lemma_tables_end(b, p, (count - 1) as nat);
    }
}

/// The names read from `p` end inside the bytes, after `p`.
proof fn lemma_names_end(b: Seq<u8>, p: int, count: nat)
    requires
        p <= b.len(),
    ensures
        names_at(b, p, count) matches Ok((ns, r)) ==> p <= r <= b.len(),
    decreases count,
{
    if count > 0 {
        lemma_names_end(b, p, (count - 1) as nat);
    }
}

/// What follows the tables ends inside the bytes, after `p`; without a
/// known file size, the word at `p` was read.
proof fn lemma_trailer_end(
    b: Seq<u8>,
    p: int,
    opts: ParseOptions,
    n_rays: u64,
    record_size: int,
    text_size: i32,
)
    requires
        0 <= p <= b.len(),
        text_size >= 0,
    ensures
        trailer_at(b, p, opts, n_rays, record_size, text_size) matches Ok((has, ns, s, r)) ==> p
            <= r <= b.len() && (has ==> p + 4 <= r) && (opts.total_size is None ==> p + 4
            <= b.len()),
{
    if trailer_at(b, p, opts, n_rays, record_size, text_size) is Ok && trailer_present(
        b,
        p,
        opts,
        n_rays,
        record_size,
    ) == Ok::<bool, crate::error::ErrorModel>(true) {
        lemma_names_end(b, p + 4, i32_at(b, p) as nat);
    }
}

proof fn lemma_trailer_agree(
    b: Seq<u8>,
    c: Seq<u8>,
    q: int,
    p: int,
    opts: ParseOptions,
    n_rays: u64,
    record_size: int,
    text_size: i32,
)
    requires
        agree(b, c, q),
        0 <= p,
        text_size >= 0,
        trailer_at(b, p, opts, n_rays, record_size, text_size) matches Ok((has, ns, s, r)) && r
            <= q && (has ==> p + 4 <= r),
        opts.total_size is None ==> p + 4 <= q,
    ensures
        trailer_at(c, p, opts, n_rays, record_size, text_size) == trailer_at(
            b,
            p,
            opts,
            n_rays,
            record_size,
            text_size,
        ),
{
    if opts.total_size is None {
        lemma_u32_agree(b, c, q, p);
    }
    assert(trailer_present(c, p, opts, n_rays, record_size) == trailer_present(
        b,
        p,
        opts,
        n_rays,
        record_size,
    ));
    if trailer_present(b, p, opts, n_rays, record_size) == Ok::<bool, crate::error::ErrorModel>(
        true,
    ) {
        lemma_u32_agree(b, c, q, p);
        let nn = i32_at(b, p);
        let (ns, q0) = names_at(b, p + 4, nn as nat)->Ok_0;
        lemma_names_agree(b, c, q, p + 4, nn as nat);
        lemma_skip_nul_agree(b, c, q, q0, text_size as nat);
    }
}

/// The fixed part of the header reads the same from agreeing byte strings.
proof fn lemma_fixed_agree(b: Seq<u8>, c: Seq<u8>, q: int)
    requires
        agree(b, c, q),
        288 <= q,
    ensures
        fixed_error(c) == fixed_error(b),
        stored_flags(c) == stored_flags(b),
        b.subrange(28, 56) == c.subrange(28, 56),
        i32_at(b, 8) == i32_at(c, 8),
        u32_at(b, 12) == u32_at(c, 12),
        u32_at(b, 16) == u32_at(c, 16),
        u64_at(b, 20) == u64_at(c, 20),
        i32_at(b, 56) == i32_at(c, 56),
        i32_at(b, 60) == i32_at(c, 60),
        u32_at(b, 64) == u32_at(c, 64),
        u32_at(b, 68) == u32_at(c, 68),
        u32_at(b, 72) == u32_at(c, 72),
        i32_at(b, 76) == i32_at(c, 76),
        i32_at(b, 80) == i32_at(c, 80),
        i32_at(b, 84) == i32_at(c, 84),
{
    assert(b.subrange(0, 4) =~= c.subrange(0, 4));
    assert(b.subrange(28, 56) =~= c.subrange(28, 56));
    lemma_u32_agree(b, c, q, 4);
    lemma_u32_agree(b, c, q, 8);
    lemma_u32_agree(b, c, q, 12);
    lemma_u32_agree(b, c, q, 16);
    lemma_u32_agree(b, c, q, 20);
    lemma_u32_agree(b, c, q, 24);
    lemma_u32_agree(b, c, q, 56);
    lemma_u32_agree(b, c, q, 60);
    lemma_u32_agree(b, c, q, 64);
    lemma_u32_agree(b, c, q, 68);
    lemma_u32_agree(b, c, q, 72);
    lemma_u32_agree(b, c, q, 76);
    lemma_u32_agree(b, c, q, 80);
    lemma_u32_agree(b, c, q, 84);
    let fb = Seq::new(8, |k: int| i32_at(b, 256 + 4 * k));
    let fc = Seq::new(8, |k: int| i32_at(c, 256 + 4 * k));
    assert forall|k: int| 0 <= k < 8 implies #[trigger] fb[k] == fc[k] by {
        lemma_u32_agree(b, c, q, 256 + 4 * k);
    }
    assert(fb =~= fc);
}

/// How far a parse that gave `h` read: to the ray block, and one word
/// further when, without a known file size, that word told that no
/// column-name trailer is there.
pub open spec fn read_end(h: HeaderModel, opts: ParseOptions) -> int {
    if opts.total_size is None && !h.has_name_block {
        h.ray_start + 4
    } else {
        h.ray_start as int
    }
}

/// A parse reads inside the bytes it was given, past the fixed header.
pub proof fn lemma_read_end_within(b: Seq<u8>, opts: ParseOptions)
    requires
        parse_spec(b, opts) is Ok,
        b.len() <= usize::MAX,
    ensures
        36288 <= read_end(parse_spec(b, opts)->Ok_0, opts) <= b.len(),
{
    reveal(parse_spec);
    let h = parse_spec(b, opts)->Ok_0;
    let n_spectra = i32_at(b, 76);
    let text_size = i32_at(b, 84);
    assert(fixed_error(b) is None);
    assert(text_fields(b, 9) is Ok);
    assert(36288 <= b.len());
    lemma_tables_end(b, 36288, n_spectra as nat);
    let p = tables_at(b, 36288, n_spectra as nat)->Ok_0.1;
    let n_items = i32_at(b, 80);
    let rs = (crate::header::columns_spec(stored_flags(b), n_items as nat).len() * 4) as int;
    lemma_trailer_end(b, p, opts, u64_at(b, 20), rs, text_size);
    let t = trailer_at(b, p, opts, u64_at(b, 20), rs, text_size)->Ok_0;
    assert(h.ray_start == t.3);
    assert(h.has_name_block == t.0);
}

/// The header depends only on the bytes the parse read: a byte string that
/// agrees with `b` up to `read_end` parses to the same header.
pub proof fn lemma_parse_reads_only(b: Seq<u8>, c: Seq<u8>, opts: ParseOptions)
    requires
        parse_spec(b, opts) is Ok,
        b.len() <= usize::MAX,
        read_end(parse_spec(b, opts)->Ok_0, opts) <= c.len(),
        c.subrange(0, read_end(parse_spec(b, opts)->Ok_0, opts)) == b.subrange(
            0,
            read_end(parse_spec(b, opts)->Ok_0, opts),
        ),
    ensures
        parse_spec(c, opts) == parse_spec(b, opts),
{
    lemma_read_end_within(b, opts);
    reveal(parse_spec);
    let h = parse_spec(b, opts)->Ok_0;
    let q = read_end(h, opts);
    assert forall|i: int| 0 <= i < q implies #[trigger] b[i] == c[i] by {
        assert(b.subrange(0, q)[i] == c.subrange(0, q)[i]);
    }
    assert(agree(b, c, q));
    let n_spectra = i32_at(b, 76);
    let text_size = i32_at(b, 84);
    let n_items = i32_at(b, 80);
    let rs = (crate::header::columns_spec(stored_flags(b), n_items as nat).len() * 4) as int;
    assert(fixed_error(b) is None);
    lemma_fixed_agree(b, c, q);
    lemma_text_fields_agree(b, c, q, 9);
    lemma_tables_end(b, 36288, n_spectra as nat);
    let p = tables_at(b, 36288, n_spectra as nat)->Ok_0.1;
    lemma_trailer_end(b, p, opts, u64_at(b, 20), rs, text_size);
    let t = trailer_at(b, p, opts, u64_at(b, 20), rs, text_size)->Ok_0;
    assert(h.ray_start == t.3);
    assert(h.has_name_block == t.0);
    lemma_tables_agree(b, c, q, 36288, n_spectra as nat);
    lemma_trailer_agree(b, c, q, p, opts, u64_at(b, 20), rs, text_size);
}

/// A header parsed from the start of a byte string is the header of the
/// whole string: a streaming reader that parses the header from a prefix
/// gets what a parse of the whole file (with the same options) gives.
pub proof fn lemma_parse_extends(prefix: Seq<u8>, whole: Seq<u8>, opts: ParseOptions)
    requires
        parse_spec(prefix, opts) is Ok,
        prefix.len() <= usize::MAX,
        prefix.len() <= whole.len(),
        whole.subrange(0, prefix.len() as int) == prefix,
    ensures
        parse_spec(whole, opts) == parse_spec(prefix, opts),
{
    lemma_read_end_within(prefix, opts);
    let q = read_end(parse_spec(prefix, opts)->Ok_0, opts);
    assert(whole.subrange(0, q) =~= prefix.subrange(0, q));
    lemma_parse_reads_only(prefix, whole, opts);
}

// ---------------------------------------------------------------------
// Shorter prefixes.

/// The result is a truncation past `k` bytes, reported for an input of `k`
/// bytes.
pub open spec fn cut<T>(r: Result<T, ErrorModel>, k: int) -> bool {
    r matches Err(ErrorModel::Truncated { needed, have }) && needed > k && have == k
}

proof fn lemma_fixed_cut(b: Seq<u8>, c: Seq<u8>, k: int)
    requires
        agree(b, c, k),
        c.len() == k,
        k < 288,
        288 <= b.len(),
        fixed_error(b) is None,
    ensures
        fixed_error(c) matches Some(e) && (e matches ErrorModel::Truncated { needed, have }
            && needed > k && have == k),
{
    if k >= 4 {
        assert(b.subrange(0, 4) =~= c.subrange(0, 4));
    }
    if k >= 8 {
        lemma_u32_agree(b, c, k, 4);
    }
    if k >= 88 {
        lemma_u32_agree(b, c, k, 76);
        lemma_u32_agree(b, c, k, 80);
        lemma_u32_agree(b, c, k, 84);
    }
}

proof fn lemma_text_fields_cut(b: Seq<u8>, c: Seq<u8>, k: int, n: nat)
    requires
        agree(b, c, k),
        c.len() == k,
        288 <= k < usize::MAX,
        text_fields(b, n) is Ok,
    ensures
        288 + 4000 * n <= k ==> text_fields(c, n) == text_fields(b, n),
        288 + 4000 * n > k ==> cut(text_fields(c, n), k),
    decreases n,
{
    if n > 0 {
        lemma_text_fields_cut(b, c, k, (n - 1) as nat);
        let start = 288 + 4000 * (n - 1);
        if start + 4000 <= k {
            lemma_until_nul_agree(b, c, k, start, 1000);
        }
    }
}

proof fn lemma_table_cut(b: Seq<u8>, c: Seq<u8>, k: int, p: int)
    requires
        agree(b, c, k),
        c.len() == k,
        0 <= p <= k < usize::MAX,
        table_at(b, p) matches Ok((t, r)) && r > k,
    ensures
        cut(table_at(c, p), k),
{
    if p + 4 <= k {
        lemma_u32_agree(b, c, k, p);
    }
}

proof fn lemma_tables_cut(b: Seq<u8>, c: Seq<u8>, k: int, p: int, count: nat)
    requires
        agree(b, c, k),
        c.len() == k,
        0 <= p <= k < usize::MAX,
        tables_at(b, p, count) is Ok,
    ensures
        tables_at(b, p, count)->Ok_0.1 <= k ==> tables_at(c, p, count) == tables_at(b, p, count),
        tables_at(b, p, count)->Ok_0.1 > k ==> cut(tables_at(c, p, count), k),
    decreases count,
{
    if count > 0 {
        let (ts0, q0) = tables_at(b, p, (count - 1) as nat)->Ok_0;
        lemma_tables_cut(b, c, k, p, (count - 1) as nat);
        lemma_tables_end(b, p, (count - 1) as nat);
        lemma_table_agree_end(b, q0);
        if q0 <= k {
            let r = table_at(b, q0)->Ok_0.1;
            if r <= k {
                lemma_table_agree(b, c, k, q0);
            } else {
                lemma_table_cut(b, c, k, q0);
            }
        }
    }
}

proof fn lemma_name_cut(b: Seq<u8>, c: Seq<u8>, k: int, p: int)
    requires
        agree(b, c, k),
        c.len() == k,
        0 <= p <= k < usize::MAX,
        name_at(b, p) matches Ok((s, r)) && r > k,
    ensures
        cut(name_at(c, p), k),
{
    if p + 4 <= k {
        lemma_u32_agree(b, c, k, p);
    }
}

proof fn lemma_names_cut(b: Seq<u8>, c: Seq<u8>, k: int, p: int, count: nat)
    requires
        agree(b, c, k),
        c.len() == k,
        0 <= p <= k < usize::MAX,
        names_at(b, p, count) is Ok,
    ensures
        names_at(b, p, count)->Ok_0.1 <= k ==> names_at(c, p, count) == names_at(b, p, count),
        names_at(b, p, count)->Ok_0.1 > k ==> cut(names_at(c, p, count), k),
    decreases count,
{
    if count > 0 {
        let (ns0, q0) = names_at(b, p, (count - 1) as nat)->Ok_0;
        lemma_names_cut(b, c, k, p, (count - 1) as nat);
        lemma_names_end_from(b, p, (count - 1) as nat);
        if q0 <= k {
            let r = name_at(b, q0)->Ok_0.1;
            if r <= k {
                lemma_name_agree(b, c, k, q0);
            } else {
                lemma_name_cut(b, c, k, q0);
            }
        }
    }
}

/// Names read from `p` end after `p`.
proof fn lemma_names_end_from(b: Seq<u8>, p: int, count: nat)
    ensures
        names_at(b, p, count) matches Ok((ns, r)) ==> p <= r,
    decreases count,
{
    if count > 0 {
        lemma_names_end_from(b, p, (count - 1) as nat);
    }
}

proof fn lemma_trailer_cut(
    b: Seq<u8>,
    c: Seq<u8>,
    k: int,
    p: int,
    opts: ParseOptions,
    n_rays: u64,
    record_size: int,
    text_size: i32,
)
    requires
        agree(b, c, k),
        c.len() == k,
        0 <= p <= k < usize::MAX,
        text_size >= 0,
        trailer_at(b, p, opts, n_rays, record_size, text_size) matches Ok((present, ns, s, r)) && (
        present ==> p + 4 <= r) && k < (if opts.total_size is None && !present {
            r + 4
        } else {
            r
        }),
    ensures
        cut(trailer_at(c, p, opts, n_rays, record_size, text_size), k),
{
    if p + 4 <= k {
        lemma_u32_agree(b, c, k, p);
    }
    if trailer_present(b, p, opts, n_rays, record_size) == Ok::<bool, ErrorModel>(true) && p + 4
        <= k {
        let nn = i32_at(b, p);
        lemma_names_cut(b, c, k, p + 4, nn as nat);
    }
}

/// Every prefix of a parsed byte string shorter than what the parse read
/// is reported as truncated: the error names a length past the prefix and
/// the prefix's own length. A streaming reader that grows its buffer until
/// the header parses therefore never takes a shorter prefix for the header.
pub proof fn lemma_parse_cut(b: Seq<u8>, k: int, opts: ParseOptions)
    requires
        parse_spec(b, opts) is Ok,
        b.len() <= usize::MAX,
        0 <= k < read_end(parse_spec(b, opts)->Ok_0, opts),
    ensures
        cut(parse_spec(b.subrange(0, k), opts), k),
{
    lemma_read_end_within(b, opts);
    reveal(parse_spec);
    let h = parse_spec(b, opts)->Ok_0;
    let c = b.subrange(0, k);
    assert(agree(b, c, k));
    let n_spectra = i32_at(b, 76);
    let text_size = i32_at(b, 84);
    let n_items = i32_at(b, 80);
    let rs = (crate::header::columns_spec(stored_flags(b), n_items as nat).len() * 4) as int;
    assert(fixed_error(b) is None);
    assert(text_fields(b, 9) is Ok);
    if k < 288 {
        lemma_fixed_cut(b, c, k);
    } else {
        lemma_fixed_agree(b, c, k);
        lemma_text_fields_cut(b, c, k, 9);
        if k >= 36288 {
            lemma_tables_end(b, 36288, n_spectra as nat);
            lemma_tables_cut(b, c, k, 36288, n_spectra as nat);
            let p = tables_at(b, 36288, n_spectra as nat)->Ok_0.1;
            lemma_trailer_end(b, p, opts, u64_at(b, 20), rs, text_size);
            let t = trailer_at(b, p, opts, u64_at(b, 20), rs, text_size)->Ok_0;
            assert(h.ray_start == t.3);
            assert(h.has_name_block == t.0);
            if p <= k {
                lemma_trailer_cut(b, c, k, p, opts, u64_at(b, 20), rs, text_size);
            }
        }
    }
}

// ---------------------------------------------------------------------
// What a truncation reports.

/// A truncation error reports the input's own length and asks for more
/// than that (or for `usize::MAX`, where the offset saturates).
pub open spec fn reports_truncation<T>(r: Result<T, ErrorModel>, len: int) -> bool {
    r matches Err(ErrorModel::Truncated { needed, have }) ==> have == len && (needed > len
        || needed == usize::MAX)
}

proof fn lemma_text_fields_truncation(b: Seq<u8>, n: nat)
    requires
        b.len() <= usize::MAX,
    ensures
        reports_truncation(text_fields(b, n), b.len() as int),
    decreases n,
{
    if n > 0 {
        lemma_text_fields_truncation(b, (n - 1) as nat);
    }
}

proof fn lemma_tables_truncation(b: Seq<u8>, p: int, count: nat)
    requires
        b.len() <= usize::MAX,
    ensures
        reports_truncation(tables_at(b, p, count), b.len() as int),
    decreases count,
{
    if count > 0 {
        lemma_tables_truncation(b, p, (count - 1) as nat);
        if tables_at(b, p, (count - 1) as nat) is Ok {
            let q0 = tables_at(b, p, (count - 1) as nat)->Ok_0.1;
            assert(reports_truncation(table_at(b, q0), b.len() as int));
        }
    }
}

proof fn lemma_names_truncation(b: Seq<u8>, p: int, count: nat)
    requires
        b.len() <= usize::MAX,
    ensures
        reports_truncation(names_at(b, p, count), b.len() as int),
    decreases count,
{
    if count > 0 {
        lemma_names_truncation(b, p, (count - 1) as nat);
        if names_at(b, p, (count - 1) as nat) is Ok {
            let q0 = names_at(b, p, (count - 1) as nat)->Ok_0.1;
            assert(reports_truncation(name_at(b, q0), b.len() as int));
        }
    }
}

proof fn lemma_trailer_truncation(
    b: Seq<u8>,
    p: int,
    opts: ParseOptions,
    n_rays: u64,
    record_size: int,
    text_size: i32,
)
    requires
        b.len() <= usize::MAX,
    ensures
        reports_truncation(
            trailer_at(b, p, opts, n_rays, record_size, text_size),
            b.len() as int,
        ),
{
    if trailer_present(b, p, opts, n_rays, record_size) == Ok::<bool, ErrorModel>(true) && p + 4
        <= b.len() {
        lemma_names_truncation(b, p + 4, i32_at(b, p) as nat);
    }
}

/// Every truncation the parser reports is for the input's own length and
/// asks for more bytes than the input holds (or for `usize::MAX`, where
/// the offset saturates): growing the input to what it asks for always
/// makes progress.
pub proof fn lemma_parse_truncation(b: Seq<u8>, opts: ParseOptions)
    requires
        b.len() <= usize::MAX,
    ensures
        reports_truncation(parse_spec(b, opts), b.len() as int),
{
    reveal(parse_spec);
    if fixed_error(b) is None {
        let n_spectra = i32_at(b, 76);
        let text_size = i32_at(b, 84);
        let n_items = i32_at(b, 80);
        let rs = (crate::header::columns_spec(stored_flags(b), n_items as nat).len() * 4) as int;
        lemma_text_fields_truncation(b, 9);
        lemma_tables_truncation(b, 36288, n_spectra as nat);
        if tables_at(b, 36288, n_spectra as nat) is Ok {
            let p = tables_at(b, 36288, n_spectra as nat)->Ok_0.1;
            lemma_trailer_truncation(b, p, opts, u64_at(b, 20), rs, text_size);
        }
    }
}

/// The header phase of a streaming reader over a stream `s` whose header
/// parses: a buffer holding the first `k` bytes of `s` gives exactly the
/// header of `s` once it reaches what the parse reads, and before that a
/// truncation that asks for more than `k` bytes. Whatever sizes the
/// stream arrives in, the reader ends with the header of the whole stream.
pub proof fn lemma_header_phase(s: Seq<u8>, k: int, opts: ParseOptions)
    requires
        parse_spec(s, opts) is Ok,
        s.len() <= usize::MAX,
        0 <= k <= s.len(),
    ensures
        k >= read_end(parse_spec(s, opts)->Ok_0, opts) ==> parse_spec(s.subrange(0, k), opts)
            == parse_spec(s, opts),
        k < read_end(parse_spec(s, opts)->Ok_0, opts) ==> cut(parse_spec(s.subrange(0, k), opts), k),
{
    let q = read_end(parse_spec(s, opts)->Ok_0, opts);
    lemma_read_end_within(s, opts);
    if k >= q {
        let c = s.subrange(0, k);
        assert(c.subrange(0, q) =~= s.subrange(0, q));
        lemma_parse_reads_only(s, c, opts);
    } else {
        lemma_parse_cut(s, k, opts);
    }
}

} // verus!
