//! Reading whole files from memory, and the decisions of a streaming
//! reader: when the header is complete, how many bytes the next chunk of
//! rays needs, and what the delivered rays are.

use vstd::prelude::*;
use vstd::string::*;

use crate::error::{ErrorModel, Tm25Error};
use crate::header::{columns_spec, flagged_columns, Column, Header, HeaderModel, ParseOptions};
use crate::parse::parse_spec;
use crate::ray::{decode_spec, Ray, RayLayout, RayView};

verus! {

/// Bytes a streaming reader asks for before its first attempt at the
/// header: the fixed header and the first word after it.
pub const FIRST_HEADER_READ: usize = 36292;

/// A parsed header lays its records out from the flags and at most 1000
/// additional items.
pub proof fn lemma_parsed_columns(b: Seq<u8>, opts: ParseOptions)
    requires
        parse_spec(b, opts) is Ok,
    ensures
        parse_spec(b, opts)->Ok_0.columns == columns_spec(
            parse_spec(b, opts)->Ok_0.flags,
            parse_spec(b, opts)->Ok_0.n_additional_items as nat,
        ),
        6 <= parse_spec(b, opts)->Ok_0.columns.len() <= 1018,
{
    reveal(parse_spec);
    let h = parse_spec(b, opts)->Ok_0;
    assert(6 <= flagged_columns(h.flags).len() <= 18);
}

/// The options a whole-file parse uses: the slice is the whole file, so
/// its length is the total size unless the caller gave one.
pub open spec fn whole_file_options(opts: ParseOptions, len: nat) -> ParseOptions {
    ParseOptions {
        strict_flags: opts.strict_flags,
        total_size: match opts.total_size {
            Some(t) => Some(t),
            None => Some(len as u64),
        },
    }
}

/// A ray block size as reported in an error: saturated at `u64::MAX`.
pub open spec fn reported_size(v: int) -> u64 {
    if v > u64::MAX {
        u64::MAX
    } else {
        v as u64
    }
}

/// The header of a whole file held in `b`, or the error it gives: the
/// header must parse and the bytes after it must be exactly the ray block
/// it promises.
pub open spec fn file_spec(b: Seq<u8>, opts: ParseOptions) -> Result<HeaderModel, ErrorModel> {
    match parse_spec(b, whole_file_options(opts, b.len())) {
        Err(e) => Err(e),
        Ok(h) => {
            let expected = h.n_rays * (h.columns.len() * 4);
            let actual = b.len() - h.ray_start;
            if expected != actual {
                Err(
                    ErrorModel::SizeMismatch {
                        ray_start: h.ray_start,
                        expected: reported_size(expected),
                        actual: actual as u64,
                    },
                )
            } else if h.n_rays > usize::MAX {
                Err(ErrorModel::InvalidHeader("ray count exceeds address space"@))
            } else {
                Ok(h)
            }
        },
    }
}

/// A whole file is accepted only when the bytes after its header are
/// exactly the ray block the header promises (`n_rays` records of four
/// bytes per column): a file with a byte too many or too few is a size
/// mismatch, reporting where the ray block starts and how long it is.
pub proof fn lemma_file_size(b: Seq<u8>, opts: ParseOptions)
    ensures
        file_spec(b, opts) matches Ok(h) ==> h.ray_start <= b.len() && b.len() == h.ray_start
            + h.n_rays * (h.columns.len() * 4),
        parse_spec(b, whole_file_options(opts, b.len())) matches Ok(h) ==> (b.len() != h.ray_start
            + h.n_rays * (h.columns.len() * 4) ==> (file_spec(b, opts) matches Err(
            ErrorModel::SizeMismatch { ray_start, expected, actual },
        ) && ray_start == h.ray_start && actual == (b.len() - h.ray_start) as u64)),
{
}

/// A whole file in memory: header plus a zero-copy ray view.
#[derive(Clone, Debug)]
pub struct Tm25File<'a> {
    pub header: Header,
    pub rays: RayView<'a>,
}

impl<'a> Tm25File<'a> {
    /// Parse with default (strict) options. The slice must hold the whole
    /// file: the ray block size is checked against the header.
    pub fn parse(bytes: &'a [u8]) -> (r: Result<Self, Tm25Error>)
        ensures
            match file_spec(bytes@, ParseOptions { strict_flags: true, total_size: None }) {
                Ok(h) => r matches Ok(f) && f.header@ == h && f.rays.columns_spec() == h.columns
                    && f.rays.record_size_spec() == h.columns.len() * 4 && f.rays.data_spec()
                    == bytes@.subrange(h.ray_start as int, bytes@.len() as int)
                    && f.rays.len_spec() == h.n_rays,
                Err(e) => r matches Err(x) && x@ == e,
            },
    {
        Self::parse_with(bytes, &ParseOptions::default())
    }

    /// Parse with the given options; `total_size` defaults to the slice's
    /// length.
    pub fn parse_with(bytes: &'a [u8], opts: &ParseOptions) -> (r: Result<Self, Tm25Error>)
        ensures
            r matches Ok(f) ==> bytes@.len() == f.header.ray_start + f.header.n_rays * (
            f.header.columns@.len() * 4),
            match file_spec(bytes@, *opts) {
                Ok(h) => r matches Ok(f) && f.header@ == h && f.rays.columns_spec() == h.columns
                    && f.rays.record_size_spec() == h.columns.len() * 4 && f.rays.data_spec()
                    == bytes@.subrange(h.ray_start as int, bytes@.len() as int)
                    && f.rays.len_spec() == h.n_rays,
                Err(e) => r matches Err(x) && x@ == e,
            },
    {
        let mut o = *opts;
        if o.total_size.is_none() {
            o.total_size = Some(bytes.len() as u64);
        }
        assert(o == whole_file_options(*opts, bytes@.len()));
        let header = match Header::parse(bytes, &o) {
            Ok(h) => h,
            Err(e) => return Err(e),
        };
        proof {
            lemma_parsed_columns(bytes@, o);
        }
        let rs = header.record_size() as u64;
        let actual = (bytes.len() - header.ray_start) as u64;
        let expected = match header.n_rays.checked_mul(rs) {
            Some(v) => v,
            None => {
                return Err(
                    Tm25Error::SizeMismatch { ray_start: header.ray_start, expected: u64::MAX, actual },
                );
            },
        };
        if expected != actual {
            return Err(Tm25Error::SizeMismatch { ray_start: header.ray_start, expected, actual });
        }
        if header.n_rays > usize::MAX as u64 {
            return Err(
                Tm25Error::InvalidHeader(String::from_str("ray count exceeds address space")),
            );
        }
        let n = header.n_rays as usize;
        let layout = RayLayout::from_header(&header);
        let data = &bytes[header.ray_start..bytes.len()];
        assert(data@ == bytes@.subrange(header.ray_start as int, bytes@.len() as int));
        assert(n * layout.size() == expected);
        let rays = RayView::new(layout, data, n);
        Ok(Tm25File { header, rays })
    }
}

// ---------------------------------------------------------------------
// Streaming.

/// What a streaming reader does after an attempt at the header.
#[derive(Debug)]
pub enum HeaderStep {
    /// The header is complete.
    Parsed(Header),
    /// The buffer ends inside the header: read up to this many bytes and
    /// try again.
    NeedMore(usize),
    /// The header is invalid.
    Failed(Tm25Error),
}

/// Decide the header phase of a streaming reader. `needed` is how many bytes
/// the last step asked for, `buf` holds what the source has given so far,
/// and `ended` tells whether the source has run dry. A buffer short of
/// `needed` asks again, or is truncated when the source has ended. A full
/// one is parsed: a truncation past its end asks for more; any other error
/// is final.
pub fn header_step(buf: &[u8], needed: usize, ended: bool, opts: &ParseOptions) -> (r: HeaderStep)
    ensures
        buf@.len() < needed && ended ==> (r matches HeaderStep::Failed(x) && x@ == (
        ErrorModel::Truncated { needed, have: buf@.len() as usize })),
        buf@.len() < needed && !ended ==> r == HeaderStep::NeedMore(needed),
        buf@.len() >= needed ==> match parse_spec(buf@, *opts) {
            Ok(h) => r matches HeaderStep::Parsed(x) && x@ == h && x.ray_start <= buf@.len()
                && 6 <= x.columns@.len() <= 1018,
            Err(e) => match e {
                ErrorModel::Truncated { needed, .. } => if needed > buf@.len() {
                    r == HeaderStep::NeedMore(needed)
                } else {
                    r matches HeaderStep::Failed(x) && x@ == e
                },
                _ => r matches HeaderStep::Failed(x) && x@ == e,
            },
        },
{
    if buf.len() < needed {
        if ended {
            return HeaderStep::Failed(Tm25Error::Truncated { needed, have: buf.len() });
        } else {
            return HeaderStep::NeedMore(needed);
        }
    }
    match Header::parse(buf, opts) {
        Ok(h) => {
            proof {
                lemma_parsed_columns(buf@, *opts);
            }
            HeaderStep::Parsed(h)
        },
        Err(Tm25Error::Truncated { needed, have }) if needed > buf.len() => HeaderStep::NeedMore(
            needed,
        ),
        Err(e) => HeaderStep::Failed(e),
    }
}

/// The decisions of a streaming reader once the header is parsed: it holds
/// the bytes of the ray block received but not yet decoded, and delivers
/// rays in order.
pub struct StreamDecoder {
    header: Header,
    layout: RayLayout,
    remaining: u64,
    delivered: u64,
    buf: Vec<u8>,
    /// Every byte of the ray block received so far.
    fed: Ghost<Seq<u8>>,
    /// Every ray delivered so far, in order.
    rays: Ghost<Seq<Ray>>,
}

impl StreamDecoder {
    /// The buffer holds the received bytes not yet decoded, and the layout
    /// is the header's.
    pub closed spec fn wf(&self) -> bool {
        &&& self.layout.wf()
        &&& self.layout.column_seq() == self.header.columns@
        &&& 24 <= self.layout.size()
        &&& self.delivered + self.remaining == self.header.n_rays
        &&& self.delivered * self.layout.size() <= self.fed@.len()
        &&& self.buf@ == self.fed@.subrange(
            self.delivered * self.layout.size(),
            self.fed@.len() as int,
        )
        &&& self.rays@.len() == self.delivered
        &&& forall|k: int|
            0 <= k < self.delivered ==> #[trigger] self.rays@[k] == decode_spec(
                self.header.columns@,
                self.fed@.subrange(
                    k * self.layout.size(),
                    k * self.layout.size() + self.layout.size(),
                ),
            )
    }

    /// The header.
    pub closed spec fn header_spec(&self) -> HeaderModel {
        self.header@
    }

    /// Bytes per record.
    pub closed spec fn record_size_spec(&self) -> usize {
        self.layout.size()
    }

    /// Every byte of the ray block received so far.
    pub closed spec fn fed_spec(&self) -> Seq<u8> {
        self.fed@
    }

    /// Rays delivered so far.
    pub closed spec fn delivered_spec(&self) -> nat {
        self.delivered as nat
    }

    /// Rays still to deliver.
    pub closed spec fn remaining_spec(&self) -> nat {
        self.remaining as nat
    }

    /// Bytes received and not yet decoded.
    pub open spec fn buffered_spec(&self) -> int {
        self.fed_spec().len() - self.delivered_spec() * self.record_size_spec()
    }

    /// Every ray delivered so far, in order.
    pub closed spec fn delivered_rays(&self) -> Seq<Ray> {
        self.rays@
    }

    /// Record `i` of the ray block.
    pub open spec fn record(&self, i: int) -> Seq<u8> {
        let rs = self.record_size_spec() as int;
        self.fed_spec().subrange(i * rs, i * rs + rs)
    }

    /// Rays in the next chunk of at most `max`.
    pub open spec fn chunk_spec(&self, max: usize) -> nat {
        if self.remaining_spec() < max {
            self.remaining_spec()
        } else {
            max as nat
        }
    }

    /// Start after the header: `buf` holds everything read so far, and the
    /// bytes past the header already belong to the ray block.
    pub fn new(header: Header, buf: Vec<u8>) -> (r: Self)
        requires
            header.ray_start <= buf@.len(),
            6 <= header.columns@.len() <= 1018,
        ensures
            r.header_spec() == header@,
            r.record_size_spec() == header.columns@.len() * 4,
            r.fed_spec() == buf@.subrange(header.ray_start as int, buf@.len() as int),
            r.delivered_spec() == 0,
            r.remaining_spec() == header.n_rays,
            r.wf(),
    {
        let mut buf = buf;
        let leftover = buf.split_off(header.ray_start);
        let layout = RayLayout::from_header(&header);
        let remaining = header.n_rays;
        let ghost fed = leftover@;
        assert(leftover@ == fed.subrange(0, fed.len() as int));
        StreamDecoder {
            header,
            layout,
            remaining,
            delivered: 0,
            buf: leftover,
            fed: Ghost(fed),
            rays: Ghost(Seq::empty()),
        }
    }

    pub fn header(&self) -> (r: &Header)
        ensures
            r@ == self.header_spec(),
    {
        &self.header
    }

    pub fn layout(&self) -> (r: &RayLayout)
        requires
            self.wf(),
        ensures
            r.wf(),
            r.column_seq() == self.header_spec().columns,
            r.size() == self.record_size_spec(),
    {
        &self.layout
    }

    /// Rays not yet delivered.
    pub fn remaining(&self) -> (r: u64)
        ensures
            r == self.remaining_spec(),
    {
        self.remaining
    }

    /// Bytes received and not yet decoded.
    pub fn buffered(&self) -> (r: usize)
        requires
            self.wf(),
        ensures
            r == self.buffered_spec(),
    {
        self.buf.len()
    }

    /// Bytes the buffer must hold before [`StreamDecoder::take_chunk`] can
    /// deliver a chunk of at most `max` rays.
    pub fn want_bytes(&self, max: usize) -> (r: usize)
        requires
            self.wf(),
            self.chunk_spec(max) * self.record_size_spec() <= usize::MAX,
        ensures
            r == self.chunk_spec(max) * self.record_size_spec(),
    {
        let n = if self.remaining < max as u64 {
            self.remaining as usize
        } else {
            max
        };
        n * self.layout.record_size()
    }

    /// Append bytes read from the source.
    pub fn feed(&mut self, bytes: &[u8])
        requires
            old(self).wf(),
        ensures
            final(self).wf(),
            final(self).fed_spec() == old(self).fed_spec() + bytes@,
            final(self).header_spec() == old(self).header_spec(),
            final(self).record_size_spec() == old(self).record_size_spec(),
            final(self).delivered_spec() == old(self).delivered_spec(),
            final(self).remaining_spec() == old(self).remaining_spec(),
            final(self).delivered_rays() == old(self).delivered_rays(),
    {
        let ghost start = self.fed@;
        let ghost from = self.delivered * self.layout.size();
        let ghost before = *self;
        let mut i: usize = 0;
        while i < bytes.len()
            invariant
                i <= bytes@.len(),
                0 <= from <= start.len(),
                self.buf@ == (start + bytes@.take(i as int)).subrange(from, start.len() + i),
                self.header == before.header,
                self.layout == before.layout,
                self.delivered == before.delivered,
                self.remaining == before.remaining,
                self.fed == before.fed,
                self.rays == before.rays,
                before.wf(),
                start == before.fed@,
                from == before.delivered * before.layout.size(),
            decreases bytes@.len() - i,
        {
            self.buf.push(bytes[i]);
            proof {
                assert((start + bytes@.take(i + 1)).subrange(from, start.len() + i + 1) =~= (start
                    + bytes@.take(i as int)).subrange(from, start.len() + i).push(bytes@[i as int]));
            }
            i = i + 1;
        }
        proof {
            assert(bytes@.take(bytes@.len() as int) =~= bytes@);
        }
        proof {
            let rs = self.layout.size() as int;
            assert forall|k: int| 0 <= k < self.delivered implies #[trigger] self.rays@[k]
                == decode_spec(self.header.columns@, (start + bytes@).subrange(k * rs, k * rs + rs)) by {
                assert(k * rs + rs <= self.delivered * rs) by (nonlinear_arith)
                    requires
                        k < self.delivered,
                        rs >= 0,
                ;
                assert(0 <= k * rs) by (nonlinear_arith)
                    requires
                        0 <= k,
                        rs >= 0,
                ;
                assert((start + bytes@).subrange(k * rs, k * rs + rs) =~= start.subrange(
                    k * rs,
                    k * rs + rs,
                ));
            }
        }
        self.fed = Ghost(start + bytes@);
    }

    /// Decode the next chunk of at most `max` rays from the buffer, which
    /// must hold all of its bytes. Rays come in file order: ray `k` of the
    /// chunk is record `delivered + k` of the ray block.
    pub fn take_chunk(&mut self, max: usize) -> (r: Vec<Ray>)
        requires
            old(self).wf(),
            old(self).chunk_spec(max) * old(self).record_size_spec() <= old(self).buffered_spec(),
        ensures
            final(self).wf(),
            r@.len() == old(self).chunk_spec(max),
            forall|k: int|
                0 <= k < r@.len() ==> #[trigger] r@[k] == decode_spec(
                    old(self).header_spec().columns,
                    old(self).record(old(self).delivered_spec() + k),
                ),
            final(self).delivered_spec() == old(self).delivered_spec() + old(self).chunk_spec(max),
            final(self).remaining_spec() == old(self).remaining_spec() - old(self).chunk_spec(max),
            final(self).fed_spec() == old(self).fed_spec(),
            final(self).header_spec() == old(self).header_spec(),
            final(self).record_size_spec() == old(self).record_size_spec(),
            final(self).delivered_rays() == old(self).delivered_rays() + r@,
    {
        let ghost fed = self.fed@;
        let ghost d0 = self.delivered as int;
        let rs = self.layout.record_size();
        let n = if self.remaining < max as u64 {
            self.remaining as usize
        } else {
            max
        };
        assert(n == self.chunk_spec(max));
        assert(self.buf@.len() == self.buffered_spec());
        assert(rs == self.record_size_spec());
        let bl = self.buf.len();
        assert(n * rs <= self.buf@.len()) by {
            assert(n * rs == self.chunk_spec(max) * self.record_size_spec());
        }
        let want = n * rs;
        let mut out: Vec<Ray> = Vec::new();
        let mut k: usize = 0;
        while k < n
            invariant
                k <= n,
                n * rs == want,
                want <= self.buf@.len(),
                rs == self.layout.size(),
                24 <= rs,
                self.layout.wf(),
                self.layout.column_seq() == self.header.columns@,
                self.buf@ == fed.subrange(d0 * rs, fed.len() as int),
                0 <= d0 * rs,
                d0 * rs + self.buf@.len() == fed.len(),
                out@.len() == k,
                forall|j: int|
                    0 <= j < k ==> #[trigger] out@[j] == decode_spec(
                        self.header.columns@,
                        fed.subrange((d0 + j) * rs, (d0 + j) * rs + rs),
                    ),
            decreases n - k,
        {
            proof {
                assert((k + 1) * rs <= n * rs) by (nonlinear_arith)
                    requires
                        k < n,
                ;
                assert((k + 1) * rs == k * rs + rs) by (nonlinear_arith);
                assert((d0 + k) * rs == d0 * rs + k * rs) by (nonlinear_arith);
            }
            let s = k * rs;
            let rec = &self.buf[s..s + rs];
            proof {
                assert(rec@ =~= fed.subrange((d0 + k) * rs, (d0 + k) * rs + rs));
            }
            out.push(self.layout.decode(rec));
            k = k + 1;
        }
        let rest = self.buf.split_off(want);
        proof {
            assert((d0 + n) * rs == d0 * rs + n * rs) by (nonlinear_arith);
            assert(rest@ =~= fed.subrange((d0 + n) * rs, fed.len() as int));
        }
        self.buf = rest;
        self.remaining = self.remaining - n as u64;
        self.delivered = self.delivered + n as u64;
        self.rays = Ghost(self.rays@ + out@);
        out
    }

    /// The error for a source that ends while the buffer holds fewer bytes
    /// than the next chunk needs: the rays delivered so far and the whole
    /// records still buffered are all the stream had.
    pub fn eof_error(&self) -> (e: Tm25Error)
        requires
            self.wf(),
            self.buffered_spec() < self.remaining_spec() * self.record_size_spec(),
        ensures
            e@ == (ErrorModel::RayCountMismatch {
                expected: self.header_spec().n_rays,
                actual: (self.delivered_spec() + self.buffered_spec() / (
                self.record_size_spec() as int)) as u64,
            }),
    {
        let rs = self.layout.record_size();
        let complete = self.buf.len() / rs;
        proof {
            assert(complete < self.remaining) by (nonlinear_arith)
                requires
                    complete == (self.buf@.len() as int) / (rs as int),
                    self.buf@.len() < self.remaining * rs,
                    rs > 0,
            ;
        }
        Tm25Error::RayCountMismatch {
            expected: self.header.n_rays,
            actual: self.delivered + complete as u64,
        }
    }
}

/// Every ray a decoder has delivered, over all its chunks and in order, is
/// the record at the same index of the bytes fed to it.
pub proof fn lemma_delivered_rays(d: &StreamDecoder)
    requires
        d.wf(),
    ensures
        d.delivered_rays().len() == d.delivered_spec(),
        forall|k: int|
            0 <= k < d.delivered_spec() ==> #[trigger] d.delivered_rays()[k] == decode_spec(
                d.header_spec().columns,
                d.record(k),
            ),
{
}

/// A decoder fed the ray block of a file, with the same layout as the
/// file's view, delivers the rays of that view: ray `k` of all its chunks
/// together is record `k` of the view.
pub proof fn lemma_stream_matches_view(d: &StreamDecoder, view: &RayView<'_>)
    requires
        d.wf(),
        view.columns_spec() == d.header_spec().columns,
        view.record_size_spec() == d.record_size_spec(),
        d.delivered_spec() * d.record_size_spec() <= view.data_spec().len(),
        d.fed_spec().subrange(0, d.delivered_spec() * d.record_size_spec())
            == view.data_spec().subrange(0, d.delivered_spec() * d.record_size_spec()),
    ensures
        forall|k: int|
            0 <= k < d.delivered_spec() ==> #[trigger] d.delivered_rays()[k] == decode_spec(
                view.columns_spec(),
                view.record(k),
            ),
{
    lemma_delivered_rays(d);
    let rs = d.record_size_spec() as int;
    let n = d.delivered_spec() * rs;
    assert forall|k: int| 0 <= k < d.delivered_spec() implies #[trigger] d.delivered_rays()[k]
        == decode_spec(view.columns_spec(), view.record(k)) by {
        assert(k * rs + rs <= n) by (nonlinear_arith)
            requires
                k < d.delivered_spec(),
                rs >= 0,
                n == d.delivered_spec() * rs,
        ;
        assert(0 <= k * rs) by (nonlinear_arith)
            requires
                0 <= k,
                rs >= 0,
        ;
        assert(d.fed_spec().subrange(k * rs, k * rs + rs) =~= d.fed_spec().subrange(0, n).subrange(
            k * rs,
            k * rs + rs,
        ));
        assert(view.data_spec().subrange(k * rs, k * rs + rs) =~= view.data_spec().subrange(
            0,
            n,
        ).subrange(k * rs, k * rs + rs));
    }
}

} // verus!
