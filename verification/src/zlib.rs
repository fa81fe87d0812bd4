//! zlib-stream decompressor for the Discord gateway.
//!
//! With `compress=zlib-stream` the gateway sends ONE zlib stream for the
//! whole connection (the dictionary carries across messages), and every
//! message ends with the sync-flush marker `00 00 FF FF`. Bytes are
//! buffered until the buffer ends with the marker; then everything
//! buffered is inflated with the persistent context, and the output is
//! exactly one complete JSON payload.
use vstd::prelude::*;
use flate2::{Decompress, DecompressError, FlushDecompress, Status};

verus! {

#[verifier::external_type_specification]
#[verifier::external_body]
pub struct ExDecompress(flate2::Decompress);

#[verifier::external_type_specification]
#[verifier::external_body]
pub struct ExDecompressError(flate2::DecompressError);

/// Inputs larger than this without a message boundary are dropped
/// (Discord never legitimately sends 16 MiB in one message).
pub const MAX_BUF: usize = 16777216;
/// Size of the inflate output window.
pub const SCRATCH_LEN: usize = 65536;

/// What one inflate call reported.
#[derive(Debug, Clone, Copy, PartialEq, Eq, Structural)]
pub enum InflateStatus {
    /// `Status::Ok`: progress was made.
    Progressed,
    /// `Status::BufError`: more input or output room is needed.
    Blocked,
    /// `Status::StreamEnd`: the stream finished.
    StreamEnd,
}

#[derive(Debug)]
pub enum ZlibError {
    /// The buffer outgrew `max_buf` without a message boundary; it was dropped.
    Overflow { max_buf: usize },
    /// The stream is corrupt; the decoder was reset.
    Decode { buffered: usize, source: DecompressError },
}

/// The zlib sync-flush marker.
pub open spec fn zlib_suffix(buf: Seq<u8>) -> bool {
    buf.len() >= 4 && buf[buf.len() - 4] == 0x00 && buf[buf.len() - 3] == 0x00
        && buf[buf.len() - 2] == 0xFF && buf[buf.len() - 1] == 0xFF
}

/// `true` when `buf` ends with the sync-flush marker `00 00 FF FF`.
pub fn has_zlib_suffix(buf: &[u8]) -> (r: bool)
    ensures
        r == zlib_suffix(buf@),
{
    let n = buf.len();
    n >= 4 && buf[n - 4] == 0x00 && buf[n - 3] == 0x00 && buf[n - 2] == 0xFF && buf[n - 1] == 0xFF
}

/// Every byte an inflate context has taken in since it was made, in order.
pub uninterp spec fn inflater_consumed(d: Decompress) -> Seq<u8>;

/// Every byte an inflate context has written out since it was made, in order.
pub uninterp spec fn inflater_emitted(d: Decompress) -> Seq<u8>;

/// The decompression of `input` read as a zlib stream: the bytes it
/// decodes to, as far as `input` determines them.
pub uninterp spec fn zlib_inflate(input: Seq<u8>) -> Seq<u8>;

/// Whether a zlib decoder reports an error on `input`: a bad header or
/// block, a bad code, a distance too far back, a wrong checksum, or a
/// preset dictionary it does not have.
pub uninterp spec fn zlib_rejects(input: Seq<u8>) -> bool;

/// Whether `input` ends exactly at a sync flush of its zlib stream: after
/// the empty stored block that a `Z_SYNC_FLUSH` writes, with every earlier
/// block complete.
pub uninterp spec fn zlib_flushed(input: Seq<u8>) -> bool;

/// `flate2::Decompress::new(true)`: a fresh inflate context that expects
/// a zlib header. Claimed: it has taken in and written nothing.
#[verifier::external_body]
fn new_inflater() -> (d: Decompress)
    ensures
        inflater_consumed(d) == Seq::<u8>::empty(),
        inflater_emitted(d) == Seq::<u8>::empty(),
{
    Decompress::new(true)
}

/// `Decompress::total_in`: the number of bytes taken in so far.
#[verifier::external_body]
fn inflater_total_in(d: &Decompress) -> (r: u64)
    ensures
        r == inflater_consumed(*d).len(),
{
    d.total_in()
}

/// `Decompress::total_out`: the number of bytes written out so far.
#[verifier::external_body]
fn inflater_total_out(d: &Decompress) -> (r: u64)
    ensures
        r == inflater_emitted(*d).len(),
{
    d.total_out()
}

/// `Decompress::decompress` with `FlushDecompress::None`, writing into the
/// scratch window; flate2's default backend is miniz_oxide's stream inflate.
/// Claimed when it succeeds: it took in a prefix of `input`; what it wrote
/// is at the front of the window and no longer than the window; everything
/// it has written since it was made is a prefix of `zlib_inflate` of
/// everything it has taken in, and all of it once the stream has ended or
/// once it has taken in all of `input`, up to a sync flush, and stopped
/// with room left in the window; given some input and some room it took
/// in or wrote at least one byte, or the stream ended. Of the decoding
/// itself: more input never changes what earlier input decoded to, and
/// nothing follows the end of a stream. It fails only on input the decoder
/// rejects. Nothing is claimed of the context after an error.
#[verifier::external_body]
fn inflate(d: &mut Decompress, input: &[u8], scratch: &mut Vec<u8>) -> (r: Result<InflateStatus, DecompressError>)
    ensures
        final(scratch)@.len() == old(scratch)@.len(),
        r is Err ==> zlib_rejects(inflater_consumed(*old(d)) + input@),
        r is Ok ==> exists|c: int|
            #![trigger input@.take(c)]
            0 <= c <= input@.len() && inflater_consumed(*final(d)) == inflater_consumed(*old(d)) + input@.take(c),
        r is Ok ==> inflater_emitted(*old(d)).len() <= inflater_emitted(*final(d)).len()
            <= inflater_emitted(*old(d)).len() + old(scratch)@.len(),
        r is Ok ==> inflater_emitted(*final(d)) == inflater_emitted(*old(d)) + final(scratch)@.take(
            inflater_emitted(*final(d)).len() - inflater_emitted(*old(d)).len(),
        ),
        r is Ok ==> inflater_emitted(*final(d)).is_prefix_of(zlib_inflate(inflater_consumed(*final(d)))),
        r is Ok ==> forall|more: Seq<u8>|
            zlib_inflate(inflater_consumed(*final(d))).is_prefix_of(
                #[trigger] zlib_inflate(inflater_consumed(*final(d)) + more),
            ),
        r == Ok::<InflateStatus, DecompressError>(InflateStatus::StreamEnd) ==> inflater_emitted(*final(d))
            == zlib_inflate(inflater_consumed(*final(d))),
        r == Ok::<InflateStatus, DecompressError>(InflateStatus::StreamEnd) ==> forall|more: Seq<u8>|
            #[trigger] zlib_inflate(inflater_consumed(*final(d)) + more) == zlib_inflate(inflater_consumed(*final(d))),
        r is Ok && inflater_consumed(*final(d)) == inflater_consumed(*old(d)) + input@
            && inflater_emitted(*final(d)).len() < inflater_emitted(*old(d)).len() + old(scratch)@.len()
            && zlib_flushed(inflater_consumed(*final(d))) ==> inflater_emitted(*final(d)) == zlib_inflate(
            inflater_consumed(*final(d)),
        ),
        r is Ok && r != Ok::<InflateStatus, DecompressError>(InflateStatus::StreamEnd) && input@.len() > 0
            && old(scratch)@.len() > 0 ==> inflater_consumed(*final(d)).len() > inflater_consumed(*old(d)).len()
            || inflater_emitted(*final(d)).len() > inflater_emitted(*old(d)).len(),
{
    match d.decompress(input, scratch.as_mut_slice(), FlushDecompress::None) {
        Ok(Status::Ok) => Ok(InflateStatus::Progressed),
        Ok(Status::BufError) => Ok(InflateStatus::Blocked),
        Ok(Status::StreamEnd) => Ok(InflateStatus::StreamEnd),
        Err(e) => Err(e),
    }
}

/// Stateful zlib-stream decoder with a persistent inflate context.
pub struct GatewayZlib {
    buf: Vec<u8>,
    decomp: Decompress,
    max_buf: usize,
}

impl GatewayZlib {
    /// The bytes waiting for a message boundary.
    pub closed spec fn buffered(&self) -> Seq<u8> {
        self.buf@
    }

    pub closed spec fn max_buf(&self) -> usize {
        self.max_buf
    }

    /// Every byte of the stream the inflate context has taken in.
    pub closed spec fn fed(&self) -> Seq<u8> {
        inflater_consumed(self.decomp)
    }

    /// Every byte the inflate context has written out.
    pub closed spec fn emitted(&self) -> Seq<u8> {
        inflater_emitted(self.decomp)
    }

    pub fn new() -> (z: Self)
        ensures
            z.buffered() == Seq::<u8>::empty(),
            z.max_buf() == MAX_BUF,
            z.fed() == Seq::<u8>::empty(),
            z.emitted() == Seq::<u8>::empty(),
    {
        GatewayZlib { buf: Vec::new(), decomp: new_inflater(), max_buf: MAX_BUF }
    }

    /// Reset for a fresh connection: empty buffer, fresh inflate context.
    pub fn reset(&mut self)
        ensures
            final(self).buffered() == Seq::<u8>::empty(),
            final(self).max_buf() == old(self).max_buf(),
            final(self).fed() == Seq::<u8>::empty(),
            final(self).emitted() == Seq::<u8>::empty(),
    {
        self.buf.clear();
        self.decomp = new_inflater();
    }

    /// Appends `bytes`; once the buffer ends with the sync-flush marker,
    /// inflates everything buffered with the persistent context and
    /// returns the payload. Without a marker: `None`, or an overflow
    /// error (buffer dropped) past `max_buf`.
    ///
    /// With the marker, the push fails only on a stream the decoder
    /// rejects (the decoder is then reset). Otherwise the payload `p`
    /// continues what earlier payloads gave: `emitted() + p` is a prefix of
    /// `zlib_inflate` of what the context held before and the buffered
    /// bytes, and all of it when those end at a sync flush. Either all
    /// buffered bytes were taken in, or the zlib stream ended and `p`
    /// completes it; the context then goes on from there, or is fresh when
    /// the stream ended.
    pub fn push_bytes(&mut self, bytes: &[u8]) -> (r: Result<Option<Vec<u8>>, ZlibError>)
        requires
            old(self).max_buf() == MAX_BUF,
            old(self).buffered().len() <= MAX_BUF,
        ensures
            final(self).max_buf() == MAX_BUF,
            final(self).buffered().len() <= MAX_BUF,
            ({
                let joined = old(self).buffered() + bytes@;
                let all = old(self).fed() + joined;
                &&& !zlib_suffix(joined) && joined.len() > MAX_BUF ==>
                    (r matches Err(ZlibError::Overflow { max_buf }) && max_buf == MAX_BUF)
                        && final(self).buffered() == Seq::<u8>::empty()
                &&& !zlib_suffix(joined) && joined.len() <= MAX_BUF ==>
                    (r matches Ok(None)) && final(self).buffered() == joined
                &&& !zlib_suffix(joined) ==> final(self).fed() == old(self).fed()
                    && final(self).emitted() == old(self).emitted()
                &&& zlib_suffix(joined) ==> final(self).buffered() == Seq::<u8>::empty()
                &&& zlib_suffix(joined) && r is Err ==> (r matches Err(ZlibError::Decode { .. }))
                    && zlib_rejects(all)
                    && final(self).fed() == Seq::<u8>::empty()
                    && final(self).emitted() == Seq::<u8>::empty()
                &&& zlib_suffix(joined) && !zlib_rejects(all) ==> (r matches Ok(Some(_)))
                &&& r matches Ok(Some(p)) ==> (zlib_suffix(joined) && zlib_flushed(all)
                    ==> old(self).emitted() + p@ == zlib_inflate(all))
                &&& r matches Ok(Some(p)) ==> exists|q: int|
                    #![trigger joined.take(q)]
                    0 <= q <= joined.len()
                    && (old(self).emitted() + p@).is_prefix_of(zlib_inflate(old(self).fed() + joined.take(q)))
                    && (q == joined.len() || old(self).emitted() + p@ == zlib_inflate(old(self).fed() + joined.take(q)))
                    && ((final(self).fed() == old(self).fed() + joined.take(q)
                        && final(self).emitted() == old(self).emitted() + p@)
                        || (final(self).fed() == Seq::<u8>::empty() && final(self).emitted() == Seq::<u8>::empty()))
            }),
    {
        let ghost joined = self.buf@ + bytes@;
        for i in 0..bytes.len()
            invariant
                self.max_buf == MAX_BUF,
                self.buf@ == old(self).buf@ + bytes@.take(i as int),
                self.decomp == old(self).decomp,
        {
            self.buf.push(bytes[i]);
            assert(self.buf@ =~= old(self).buf@ + bytes@.take(i + 1));
        }
        assert(bytes@.take(bytes@.len() as int) =~= bytes@);
        if !has_zlib_suffix(self.buf.as_slice()) {
            if self.buf.len() > self.max_buf {
                self.buf.clear();
                return Err(ZlibError::Overflow { max_buf: self.max_buf });
            }
            return Ok(None);
        }
        let ghost fed0 = inflater_consumed(self.decomp);
        let ghost emitted0 = inflater_emitted(self.decomp);
        let ghost all = fed0 + joined;
        let n = self.buf.len();
        let mut out: Vec<u8> = Vec::new();
        let mut pos: usize = 0;
        let mut scratch: Vec<u8> = vec![0u8; SCRATCH_LEN];
        // The window was filled by the last call: more output may be pending.
        let mut window_full = false;
        let ghost mut started = false;
        assert(joined.take(n as int) =~= joined);
        while pos < n || window_full
            invariant_except_break
                inflater_consumed(self.decomp) == fed0 + joined.take(pos as int),
                inflater_emitted(self.decomp) == emitted0 + out@,
                started ==> inflater_emitted(self.decomp).is_prefix_of(zlib_inflate(inflater_consumed(self.decomp))),
                started ==> zlib_inflate(inflater_consumed(self.decomp)).is_prefix_of(zlib_inflate(all)),
                !started ==> pos == 0 && !window_full,
                started && !window_full && pos == n && zlib_flushed(all)
                    ==> inflater_emitted(self.decomp) == zlib_inflate(all),
            invariant
                n == self.buf@.len(),
                self.buf@ == joined,
                joined == old(self).buf@ + bytes@,
                all == fed0 + joined,
                fed0 == old(self).fed(),
                emitted0 == old(self).emitted(),
                joined.take(n as int) == joined,
                zlib_suffix(joined),
                n <= MAX_BUF + bytes@.len(),
                pos <= n,
                scratch@.len() == SCRATCH_LEN,
                self.max_buf == MAX_BUF,
            ensures
                zlib_flushed(all) ==> emitted0 + out@ == zlib_inflate(all),
                exists|q: int|
                    #![trigger joined.take(q)]
                    0 <= q <= joined.len()
                    && (emitted0 + out@).is_prefix_of(zlib_inflate(fed0 + joined.take(q)))
                    && (q == joined.len() || emitted0 + out@ == zlib_inflate(fed0 + joined.take(q)))
                    && ((inflater_consumed(self.decomp) == fed0 + joined.take(q)
                        && inflater_emitted(self.decomp) == emitted0 + out@)
                        || (inflater_consumed(self.decomp) == Seq::<u8>::empty()
                            && inflater_emitted(self.decomp) == Seq::<u8>::empty())),
            decreases
                (if started { 0int } else { 1int }),
                n - pos,
                zlib_inflate(all).len() - out@.len(),
        {
            let old_in = inflater_total_in(&self.decomp);
            let old_out = inflater_total_out(&self.decomp);
            let ghost before_in = inflater_consumed(self.decomp);
            let ghost before_out = inflater_emitted(self.decomp);
            let input = &self.buf.as_slice()[pos..n];
            assert(input@ =~= joined.subrange(pos as int, n as int));
            assert(before_in + input@ =~= all);
            let status = match inflate(&mut self.decomp, input, &mut scratch) {
                Ok(s) => s,
                Err(e) => {
                    let buffered = self.buf.len();
                    self.reset();
                    return Err(ZlibError::Decode { buffered, source: e });
                }
            };
            let new_in = inflater_total_in(&self.decomp);
            let new_out = inflater_total_out(&self.decomp);
            let consumed = (new_in - old_in) as usize;
            let produced = (new_out - old_out) as usize;
            proof {
                let c = choose|c: int|
                    #![trigger input@.take(c)]
                    0 <= c <= input@.len() && inflater_consumed(self.decomp) == before_in + input@.take(c);
                assert(c == consumed);
                assert(joined.take(pos as int) + input@.take(c) =~= joined.take(pos + c));
                assert(inflater_consumed(self.decomp) =~= fed0 + joined.take(pos + c));
                assert(inflater_emitted(self.decomp).len() == before_out.len() + produced);
                let rest = input@.skip(c);
                assert(inflater_consumed(self.decomp) + rest =~= all);
                assert(zlib_inflate(inflater_consumed(self.decomp)).is_prefix_of(
                    zlib_inflate(inflater_consumed(self.decomp) + rest)));
                if c == input@.len() {
                    assert(input@.take(c) =~= input@);
                }
                started = true;
            }
            let ghost out_before = out@;
            for k in 0..produced
                invariant
                    produced <= scratch@.len(),
                    out@ == out_before + scratch@.take(k as int),
            {
                out.push(scratch[k]);
                assert(out@ =~= out_before + scratch@.take(k + 1));
            }
            proof {
                assert(scratch@.take(produced as int).len() == produced);
            }
            pos = pos + consumed;
            window_full = produced == SCRATCH_LEN;
            if consumed == 0 && produced == 0 {
                // No progress: all input is in and nothing is pending, or
                // the stream ended.
                proof {
                    if pos < n {
                        assert(status == InflateStatus::StreamEnd);
                    }
                    if status == InflateStatus::StreamEnd {
                        let rest = joined.skip(pos as int);
                        assert(inflater_consumed(self.decomp) + rest =~= all);
                        assert(zlib_inflate(inflater_consumed(self.decomp) + rest)
                            == zlib_inflate(inflater_consumed(self.decomp)));
                    }
                }
                assert(emitted0 + out@ == zlib_inflate(fed0 + joined.take(pos as int)) || pos == n);
                break;
            }
            if status == InflateStatus::StreamEnd {
                // The stream really finished; what is left is the marker,
                // not data for a new stream.
                proof {
                    let rest = joined.skip(pos as int);
                    assert(inflater_consumed(self.decomp) + rest =~= all);
                    assert(zlib_inflate(inflater_consumed(self.decomp) + rest)
                        == zlib_inflate(inflater_consumed(self.decomp)));
                }
                assert(emitted0 + out@ == zlib_inflate(fed0 + joined.take(pos as int)));
                self.decomp = new_inflater();
                break;
            }
        }
        self.buf.clear();
        Ok(Some(out))
    }
}

} // verus!
