//! Text: UTF-32LE decoding and encoding, the ASCII date field, and the
//! decimal numbers that appear in error messages.

use vstd::prelude::*;

use crate::le::{lemma_u32_round_trip, put_u32, u32_at, u32_bytes};
use vstd::string::*;

verus! {

/// `String::push` appends one character.
pub assume_specification[ String::push ](s: &mut String, ch: char)
    ensures
        final(s)@ == old(s)@.push(ch),
;

/// A Unicode scalar value: a code point that is not a surrogate.
pub open spec fn is_scalar(cp: u32) -> bool {
    cp < 0xD800 || (0xE000 <= cp && cp <= 0x10FFFF)
}

/// `char::from_u32` accepts exactly the Unicode scalar values.
pub assume_specification[ char::from_u32 ](i: u32) -> (r: Option<char>)
    ensures
        is_scalar(i) ==> r == Some(i as char),
        !is_scalar(i) ==> r is None,
;

/// Prefix `acc` to a decoding result.
pub open spec fn prefixed(acc: Seq<char>, r: Result<Seq<char>, u32>) -> Result<Seq<char>, u32> {
    match r {
        Ok(s) => Ok(acc + s),
        Err(c) => Err(c),
    }
}

/// Decode at most `n` UTF-32LE code points starting at `pos`, stopping at
/// the first NUL. `Err(cp)` names the first code point that is not a scalar
/// value.
pub open spec fn utf32_until_nul(b: Seq<u8>, pos: int, n: nat) -> Result<Seq<char>, u32>
    decreases n,
{
    if n == 0 {
        Ok(Seq::empty())
    } else {
        let cp = u32_at(b, pos);
        if cp == 0 {
            Ok(Seq::empty())
        } else if !is_scalar(cp) {
            Err(cp)
        } else {
            prefixed(seq![cp as char], utf32_until_nul(b, pos + 4, (n - 1) as nat))
        }
    }
}

/// Decode exactly `n` UTF-32LE code points starting at `pos`, leaving NULs
/// out of the result. `Err(cp)` names the first code point that is not a
/// scalar value.
pub open spec fn utf32_skip_nul(b: Seq<u8>, pos: int, n: nat) -> Result<Seq<char>, u32>
    decreases n,
{
    if n == 0 {
        Ok(Seq::empty())
    } else {
        let cp = u32_at(b, pos);
        if cp == 0 {
            utf32_skip_nul(b, pos + 4, (n - 1) as nat)
        } else if !is_scalar(cp) {
            Err(cp)
        } else {
            prefixed(seq![cp as char], utf32_skip_nul(b, pos + 4, (n - 1) as nat))
        }
    }
}

/// The UTF-32LE bytes of a character sequence.
pub open spec fn utf32_bytes(s: Seq<char>) -> Seq<u8>
    decreases s.len(),
{
    if s.len() == 0 {
        Seq::empty()
    } else {
        utf32_bytes(s.drop_last()) + u32_bytes(s.last() as u32)
    }
}

/// `n` zero bytes.
pub open spec fn zeros(n: nat) -> Seq<u8> {
    Seq::new(n, |i: int| 0u8)
}

/// Append the UTF-32LE bytes of every character of `s`.
pub fn put_utf32(out: &mut Vec<u8>, s: &str)
    ensures
        final(out)@ == old(out)@ + utf32_bytes(s@),
{
    let ghost start = out@;
    for c in it: s.chars()
        invariant
            it.seq() == s@,
            out@ == start + utf32_bytes(s@.take(it.index() as int)),
    {
        let ghost i = it.index();
        put_u32(out, c as u32);
        proof {
            let t = s@.take(i + 1);
            assert(t.drop_last() =~= s@.take(i as int));
            assert(t.last() == c);
            assert(out@ =~= start + utf32_bytes(t));
        }
    }
    proof {
        assert(s@.take(s@.len() as int) =~= s@);
    }
}

/// Number of characters of `s`.
pub fn char_count(s: &str) -> (n: usize)
    ensures
        n == s@.len(),
{
    s.unicode_len()
}

/// True when `s` holds the NUL character.
pub open spec fn has_nul(s: Seq<char>) -> bool {
    exists|i: int| 0 <= i < s.len() && s[i] == '\0'
}

// ---------------------------------------------------------------------
// The date field: ASCII bytes, NUL terminated, surrounding white space
// removed.

/// The white-space characters among the 256 code points a byte can name
/// (`char::is_whitespace` restricted to U+0000..=U+00FF).
pub open spec fn is_ws_byte(b: u8) -> bool {
    (9 <= b && b <= 13) || b == 32 || b == 0x85 || b == 0xA0
}

/// Length of the part of `s` before the first NUL.
pub open spec fn until_nul_len(s: Seq<u8>) -> nat
    decreases s.len(),
{
    if s.len() == 0 || s[0] == 0 {
        0
    } else {
        1 + until_nul_len(s.drop_first())
    }
}

/// Number of leading white-space bytes of `s`.
pub open spec fn leading_ws(s: Seq<u8>) -> nat
    decreases s.len(),
{
    if s.len() == 0 || !is_ws_byte(s[0]) {
        0
    } else {
        1 + leading_ws(s.drop_first())
    }
}

/// Number of trailing white-space bytes of `s`.
pub open spec fn trailing_ws(s: Seq<u8>) -> nat
    decreases s.len(),
{
    if s.len() == 0 || !is_ws_byte(s.last()) {
        0
    } else {
        1 + trailing_ws(s.drop_last())
    }
}

/// The bytes before the first NUL, with leading and trailing white space
/// removed.
pub open spec fn date_bytes(raw: Seq<u8>) -> Seq<u8> {
    let p = raw.take(until_nul_len(raw) as int);
    let lead = leading_ws(p);
    let rest = p.skip(lead as int);
    rest.take(rest.len() - trailing_ws(rest))
}

/// The date text decoded from the raw field: each byte is one character.
pub open spec fn date_text(raw: Seq<u8>) -> Seq<char> {
    date_bytes(raw).map_values(|b: u8| b as char)
}

proof fn lemma_until_nul_len(s: Seq<u8>, i: int)
    requires
        0 <= i <= s.len(),
        forall|k: int| 0 <= k < i ==> s[k] != 0,
        i == s.len() || s[i] == 0,
    ensures
        until_nul_len(s) == i,
    decreases s.len(),
{
    if s.len() > 0 && s[0] != 0 {
        assert(i > 0);
        lemma_until_nul_len(s.drop_first(), i - 1);
    }
}

proof fn lemma_leading_ws(s: Seq<u8>, i: int)
    requires
        0 <= i <= s.len(),
        forall|k: int| 0 <= k < i ==> is_ws_byte(s[k]),
        i == s.len() || !is_ws_byte(s[i]),
    ensures
        leading_ws(s) == i,
    decreases s.len(),
{
    if s.len() > 0 && is_ws_byte(s[0]) {
        assert(i > 0);
        lemma_leading_ws(s.drop_first(), i - 1);
    }
}

proof fn lemma_trailing_ws(s: Seq<u8>, i: int)
    requires
        0 <= i <= s.len(),
        forall|k: int| i <= k < s.len() ==> is_ws_byte(s[k]),
        i == 0 || !is_ws_byte(s[i - 1]),
    ensures
        trailing_ws(s) == s.len() - i,
    decreases s.len(),
{
    if s.len() > 0 && is_ws_byte(s.last()) {
        assert(i < s.len());
        lemma_trailing_ws(s.drop_last(), i);
    }
}

fn is_ws(b: u8) -> (r: bool)
    ensures
        r == is_ws_byte(b),
{
    (9 <= b && b <= 13) || b == 32 || b == 0x85 || b == 0xA0
}

/// Decode the date field: the bytes before the first NUL, one character per
/// byte, with white space trimmed from both ends.
pub fn decode_date(raw: &[u8]) -> (s: String)
    ensures
        s@ == date_text(raw@),
{
    let n = raw.len();
    let mut end: usize = 0;
    while end < n && raw[end] != 0
        invariant
            n == raw@.len(),
            end <= n,
            forall|k: int| 0 <= k < end ==> raw@[k] != 0,
        decreases n - end,
    {
        end = end + 1;
    }
    proof {
        lemma_until_nul_len(raw@, end as int);
    }
    let ghost p = raw@.take(end as int);
    let mut lo: usize = 0;
    while lo < end && is_ws(raw[lo])
        invariant
            end <= n,
            n == raw@.len(),
            lo <= end,
            p == raw@.take(end as int),
            forall|k: int| 0 <= k < lo ==> is_ws_byte(p[k]),
        decreases end - lo,
    {
        lo = lo + 1;
    }
    proof {
        lemma_leading_ws(p, lo as int);
    }
    let ghost rest = p.skip(lo as int);
    let mut hi: usize = end;
    while hi > lo && is_ws(raw[hi - 1])
        invariant
            end <= n,
            n == raw@.len(),
            lo <= hi <= end,
            p == raw@.take(end as int),
            rest == p.skip(lo as int),
            forall|k: int| hi - lo <= k < rest.len() ==> is_ws_byte(rest[k]),
        decreases hi - lo,
    {
        hi = hi - 1;
    }
    proof {
        lemma_trailing_ws(rest, hi - lo);
    }
    let mut s = String::new();
    let mut i: usize = lo;
    while i < hi
        invariant
            lo <= i <= hi <= end <= n,
            n == raw@.len(),
            s@ =~= raw@.subrange(lo as int, i as int).map_values(|b: u8| b as char),
        decreases hi - i,
    {
        s.push(raw[i] as char);
        i = i + 1;
    }
    proof {
        assert(date_bytes(raw@) =~= raw@.subrange(lo as int, hi as int));
    }
    s
}

// ---------------------------------------------------------------------
// Decimal numbers in messages.

/// The decimal digit character for `d` in `0..10`.
pub open spec fn digit_char(d: int) -> char {
    (('0' as int) + d) as char
}

/// Decimal representation of a natural number, most significant digit first.
pub open spec fn nat_text(n: nat) -> Seq<char>
    decreases n,
{
    if n < 10 {
        seq![digit_char(n as int)]
    } else {
        nat_text(n / 10).push(digit_char((n % 10) as int))
    }
}

/// Decimal representation of an integer, with a leading `-` when negative.
pub open spec fn int_text(v: int) -> Seq<char> {
    if v < 0 {
        seq!['-'] + nat_text((-v) as nat)
    } else {
        nat_text(v as nat)
    }
}

/// Append the decimal representation of `v`.
pub fn push_u64(s: &mut String, v: u64)
    ensures
        final(s)@ == old(s)@ + nat_text(v as nat),
    decreases v,
{
    if v >= 10 {
        push_u64(s, v / 10);
    }
    let d = (v % 10) as u32;
    let c = char::from_u32(48 + d);
    match c {
        Some(c) => {
            s.push(c);
        },
        None => {},
    }
    proof {
        assert(is_scalar((48 + d) as u32));
        if v >= 10 {
            assert(nat_text(v as nat) == nat_text((v / 10) as nat).push(digit_char((v % 10) as int)));
        }
    }
}

/// Append the decimal representation of `v`.
pub fn push_i64(s: &mut String, v: i64)
    ensures
        final(s)@ == old(s)@ + int_text(v as int),
{
    if v < 0 {
        s.push('-');
        let m: u64 = if v == i64::MIN {
            0x8000_0000_0000_0000u64
        } else {
            (-v) as u64
        };
        push_u64(s, m);
    } else {
        push_u64(s, v as u64);
    }
}

/// Append a literal.
pub fn push_str(s: &mut String, t: &str)
    ensures
        final(s)@ == old(s)@ + t@,
{
    s.append(t);
}

// ---------------------------------------------------------------------
// Decoding what was encoded.

/// Facts about the code point of a character.
pub proof fn lemma_char(c: char)
    ensures
        is_scalar(c as u32),
        (c as u32) as char == c,
        c != '\0' <==> (c as u32) != 0,
        (c as u32) < 128 ==> (c as u8) as char == c && (c as u8) as u32 == c as u32,
{
}

/// No character of `s` is NUL.
pub open spec fn no_nul(s: Seq<char>) -> bool {
    forall|i: int| 0 <= i < s.len() ==> s[i] != '\0'
}

/// `b` holds the code points of `s` from `pos` on.
pub open spec fn holds_utf32(b: Seq<u8>, pos: int, s: Seq<char>) -> bool {
    &&& 0 <= pos
    &&& pos + 4 * s.len() <= b.len()
    &&& forall|i: int| 0 <= i < s.len() ==> #[trigger] u32_at(b, pos + 4 * i) == s[i] as u32
}

pub proof fn lemma_utf32_bytes_len(s: Seq<char>)
    ensures
        utf32_bytes(s).len() == 4 * s.len(),
    decreases s.len(),
{
    if s.len() > 0 {
        lemma_utf32_bytes_len(s.drop_last());
    }
}

/// The code point at index `i` of the encoding of `s` is `s[i]`.
pub proof fn lemma_utf32_bytes_at(s: Seq<char>, i: int)
    requires
        0 <= i < s.len(),
    ensures
        utf32_bytes(s).len() == 4 * s.len(),
        u32_at(utf32_bytes(s), 4 * i) == s[i] as u32,
    decreases s.len(),
{
    lemma_utf32_bytes_len(s);
    let p = s.drop_last();
    lemma_utf32_bytes_len(p);
    let e = utf32_bytes(s);
    if i < s.len() - 1 {
        lemma_utf32_bytes_at(p, i);
        let ep = utf32_bytes(p);
        assert(e[4 * i] == ep[4 * i] && e[4 * i + 1] == ep[4 * i + 1] && e[4 * i + 2] == ep[4 * i
            + 2] && e[4 * i + 3] == ep[4 * i + 3]);
    } else {
        let x = u32_bytes(s.last() as u32);
        lemma_u32_round_trip(s.last() as u32);
        assert(e[4 * i] == x[0] && e[4 * i + 1] == x[1] && e[4 * i + 2] == x[2] && e[4 * i + 3]
            == x[3]);
    }
}

/// Reading the code points of a NUL-free string stops where it ends (at the
/// field width or at a NUL word).
pub proof fn lemma_until_nul_reads(b: Seq<u8>, pos: int, n: nat, s: Seq<char>)
    requires
        holds_utf32(b, pos, s),
        no_nul(s),
        s.len() <= n,
        s.len() < n ==> pos + 4 * s.len() + 4 <= b.len() && u32_at(b, pos + 4 * s.len()) == 0,
    ensures
        utf32_until_nul(b, pos, n) == Ok::<Seq<char>, u32>(s),
    decreases s.len(),
{
    if s.len() == 0 {
        assert(s =~= Seq::<char>::empty());
    } else {
        let c = s[0];
        assert(u32_at(b, pos + 4 * 0) == c as u32);
        lemma_char(c);
        assert(c != '\0');
        let t = s.drop_first();
        assert forall|i: int| 0 <= i < t.len() implies #[trigger] u32_at(b, (pos + 4) + 4 * i)
            == t[i] as u32 by {
            assert(u32_at(b, pos + 4 * (i + 1)) == s[i + 1] as u32);
            assert(pos + 4 * (i + 1) == (pos + 4) + 4 * i);
        }
        assert(u32_at(b, (pos + 4) + 4 * t.len()) == u32_at(b, pos + 4 * s.len()));
        lemma_until_nul_reads(b, pos + 4, (n - 1) as nat, t);
        assert(seq![(c as u32) as char] + t =~= s);
    }
}

/// Reading exactly the code points of a NUL-free string gives it back.
pub proof fn lemma_skip_nul_reads(b: Seq<u8>, pos: int, s: Seq<char>)
    requires
        holds_utf32(b, pos, s),
        no_nul(s),
    ensures
        utf32_skip_nul(b, pos, s.len()) == Ok::<Seq<char>, u32>(s),
    decreases s.len(),
{
    if s.len() == 0 {
        assert(s =~= Seq::<char>::empty());
    } else {
        let c = s[0];
        assert(u32_at(b, pos + 4 * 0) == c as u32);
        lemma_char(c);
        assert(c != '\0');
        let t = s.drop_first();
        assert forall|i: int| 0 <= i < t.len() implies #[trigger] u32_at(b, (pos + 4) + 4 * i)
            == t[i] as u32 by {
            assert(u32_at(b, pos + 4 * (i + 1)) == s[i + 1] as u32);
            assert(pos + 4 * (i + 1) == (pos + 4) + 4 * i);
        }
        lemma_skip_nul_reads(b, pos + 4, t);
        assert(seq![(c as u32) as char] + t =~= s);
    }
}

/// A byte sequence holding `piece` at `off` holds the code points that
/// `piece` holds.
pub proof fn lemma_holds_utf32_embedded(b: Seq<u8>, off: int, piece: Seq<u8>, s: Seq<char>)
    requires
        0 <= off,
        off + piece.len() <= b.len(),
        b.subrange(off, off + piece.len()) == piece,
        holds_utf32(piece, 0, s),
    ensures
        holds_utf32(b, off, s),
{
    assert forall|i: int| 0 <= i < s.len() implies #[trigger] u32_at(b, off + 4 * i) == s[i]
        as u32 by {
        assert(u32_at(piece, 0 + 4 * i) == s[i] as u32);
        let j = 4 * i;
        assert(b[off + j] == piece[j] && b[off + j + 1] == piece[j + 1] && b[off + j + 2]
            == piece[j + 2] && b[off + j + 3] == piece[j + 3]);
    }
}

/// The encoding of `s` holds `s`.
pub proof fn lemma_utf32_holds(s: Seq<char>)
    ensures
        holds_utf32(utf32_bytes(s), 0, s),
{
    lemma_utf32_bytes_len(s);
    assert forall|i: int| 0 <= i < s.len() implies #[trigger] u32_at(utf32_bytes(s), 0 + 4 * i)
        == s[i] as u32 by {
        lemma_utf32_bytes_at(s, i);
    }
}

/// Decoding the date field written for a NUL-free ASCII date without
/// surrounding white space gives the date back.
pub proof fn lemma_date_round_trip(d: Seq<char>, raw: Seq<u8>)
    requires
        d.len() <= 28,
        no_nul(d),
        forall|i: int| 0 <= i < d.len() ==> (d[i] as u32) < 128,
        d.len() > 0 ==> !is_ws_byte(d[0] as u8) && !is_ws_byte(d.last() as u8),
        raw == d.map_values(|c: char| c as u8) + zeros((28 - d.len()) as nat),
    ensures
        date_text(raw) == d,
{
    let m = d.map_values(|c: char| c as u8);
    let n = d.len() as int;
    assert forall|k: int| 0 <= k < n implies raw[k] != 0 by {
        assert(raw[k] == d[k] as u8);
        assert(d[k] != '\0');
        lemma_char(d[k]);
    }
    lemma_until_nul_len(raw, n);
    let p = raw.take(n);
    assert(p =~= m);
    if n == 0 {
        lemma_leading_ws(p, 0);
        assert(date_bytes(raw) =~= Seq::<u8>::empty());
        assert(date_text(raw) =~= d);
    } else {
        lemma_leading_ws(p, 0);
        let rest = p.skip(0);
        assert(rest =~= p);
        lemma_trailing_ws(rest, n);
        assert(date_bytes(raw) =~= m);
        assert forall|k: int| 0 <= k < n implies date_text(raw)[k] == d[k] by {
            lemma_char(d[k]);
        }
        assert(date_text(raw) =~= d);
    }
}

} // verus!
