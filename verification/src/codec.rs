//! Length-delimited framing: every frame is a big-endian length prefix of a
//! configurable width followed by that many payload bytes.

use vstd::prelude::*;
use vstd::slice::{slice_subrange, slice_to_vec};

verus! {

/// `256` to the power `width`.
pub open spec fn pow256(width: nat) -> nat
    decreases width,
{
    if width == 0 {
        1
    } else {
        256 * pow256((width - 1) as nat)
    }
}

/// The big-endian representation of `n` in exactly `width` bytes (the low
/// `width` bytes of `n` when it does not fit).
pub open spec fn be_bytes(n: nat, width: nat) -> Seq<u8>
    decreases width,
{
    if width == 0 {
        Seq::empty()
    } else {
        be_bytes(n / 256, (width - 1) as nat).push((n % 256) as u8)
    }
}

/// The number that the bytes `s` write in big-endian order.
pub open spec fn be_value(s: Seq<u8>) -> nat
    decreases s.len(),
{
    if s.len() == 0 {
        0
    } else {
        be_value(s.drop_last()) * 256 + s.last() as nat
    }
}

/// The powers of 256 that a length prefix can need.
pub proof fn lemma_pow256_values()
    ensures
        pow256(0) == 1,
        pow256(1) == 0x100,
        pow256(2) == 0x1_0000,
        pow256(3) == 0x100_0000,
        pow256(4) == 0x1_0000_0000,
        pow256(5) == 0x100_0000_0000,
        pow256(6) == 0x1_0000_0000_0000,
        pow256(7) == 0x100_0000_0000_0000,
        pow256(8) == 0x1_0000_0000_0000_0000,
{
    reveal_with_fuel(pow256, 10);
}

/// A number written in `width` bytes takes `width` bytes.
pub proof fn lemma_be_bytes_len(n: nat, width: nat)
    ensures
        be_bytes(n, width).len() == width,
    decreases width,
{
    if width > 0 {
        lemma_be_bytes_len(n / 256, (width - 1) as nat);
    }
}

/// Reading back the `width`-byte representation of a number that fits
/// gives the number.
pub proof fn lemma_be_roundtrip(n: nat, width: nat)
    requires
        n < pow256(width),
    ensures
        be_value(be_bytes(n, width)) == n,
    decreases width,
{
    if width > 0 {
        let rest = be_bytes(n / 256, (width - 1) as nat);
        lemma_be_roundtrip(n / 256, (width - 1) as nat);
        assert(be_bytes(n, width).drop_last() == rest);
        assert(be_bytes(n, width).last() == (n % 256) as u8);
    }
}

/// Why a frame was refused.
#[derive(Debug, Clone, Copy, PartialEq, Eq, Structural)]
pub enum FrameError {
    /// The length of the frame is above the codec's limit, or cannot be
    /// written in the width of its length prefix.
    FrameTooLong,
}

/// What the front of a buffer holds.
#[derive(Debug, PartialEq, Eq)]
pub enum Decoded {
    /// No complete frame yet: more bytes are needed.
    Incomplete,
    /// One complete frame, and the number of buffer bytes that it took.
    Frame { payload: Vec<u8>, consumed: usize },
}

/// The specification-level counterpart of [`Decoded`].
pub enum DecodedView {
    Incomplete,
    Frame { payload: Seq<u8>, consumed: int },
}

impl View for Decoded {
    type V = DecodedView;

    open spec fn view(&self) -> DecodedView {
        match *self {
            Decoded::Incomplete => DecodedView::Incomplete,
            Decoded::Frame { payload, consumed } => DecodedView::Frame {
                payload: payload@,
                consumed: consumed as int,
            },
        }
    }
}

/// A length-delimited frame codec.
#[derive(Debug, Clone, Copy, PartialEq, Eq, Structural)]
pub struct LengthDelimitedCodec {
    /// Width of the length prefix in bytes, between 1 and 8.
    pub length_field_len: usize,
    /// Largest payload length that is accepted.
    pub max_frame_len: usize,
}

/// Width of the length prefix unless configured otherwise.
pub const DEFAULT_LENGTH_FIELD_LEN: usize = 4;

/// Payload limit unless configured otherwise: 8 MiB.
pub const DEFAULT_MAX_FRAME_LEN: usize = 8388608;

impl LengthDelimitedCodec {
    /// The prefix width is one that a `u64` length can be read from.
    pub open spec fn wf(self) -> bool {
        1 <= self.length_field_len <= 8
    }

    /// Whether a payload of `len` bytes may be framed by this codec.
    pub open spec fn accepts(self, len: nat) -> bool {
        len <= self.max_frame_len && len < pow256(self.length_field_len as nat)
    }

    /// The frame that carries `payload`.
    pub open spec fn spec_encode(self, payload: Seq<u8>) -> Seq<u8> {
        be_bytes(payload.len(), self.length_field_len as nat) + payload
    }

    /// What the decoder makes of the front of `buf`.
    pub open spec fn spec_decode(self, buf: Seq<u8>) -> Result<DecodedView, FrameError> {
        let width = self.length_field_len as int;
        if buf.len() < width {
            Ok(DecodedView::Incomplete)
        } else {
            let len = be_value(buf.take(width));
            if len > self.max_frame_len {
                Err(FrameError::FrameTooLong)
            } else if buf.len() < width + len {
                Ok(DecodedView::Incomplete)
            } else {
                Ok(DecodedView::Frame {
                    payload: buf.subrange(width, width + len),
                    consumed: width + len,
                })
            }
        }
    }

    /// A codec with a 4-byte length prefix and the default payload limit.
    pub fn new() -> (codec: Self)
        ensures
            codec.wf(),
            codec.length_field_len == DEFAULT_LENGTH_FIELD_LEN,
            codec.max_frame_len == DEFAULT_MAX_FRAME_LEN,
    {
        LengthDelimitedCodec {
            length_field_len: DEFAULT_LENGTH_FIELD_LEN,
            max_frame_len: DEFAULT_MAX_FRAME_LEN,
        }
    }

    /// The same codec with payload limit `max_frame_len`.
    pub fn max_frame_length(self, max_frame_len: usize) -> (codec: Self)
        ensures
            codec.length_field_len == self.length_field_len,
            codec.max_frame_len == max_frame_len,
    {
        LengthDelimitedCodec { length_field_len: self.length_field_len, max_frame_len }
    }

    /// The same codec with a length prefix of `width` bytes. The width must
    /// be between 1 and 8; there is no codec for any other.
    pub fn length_field_length(self, width: usize) -> (codec: Option<Self>)
        ensures
            codec == if 1 <= width <= 8 {
                Some(LengthDelimitedCodec { length_field_len: width, max_frame_len: self.max_frame_len })
            } else {
                None
            },
    {
        if 1 <= width && width <= 8 {
            Some(LengthDelimitedCodec { length_field_len: width, max_frame_len: self.max_frame_len })
        } else {
            None
        }
    }

    /// Whether a payload of `len` bytes may be framed by this codec.
    pub fn can_frame(&self, len: usize) -> (ok: bool)
        requires
            self.wf(),
        ensures
            ok == self.accepts(len as nat),
    {
        proof {
            lemma_pow256_values();
        }
        if len > self.max_frame_len {
            return false;
        }
        if self.length_field_len == 8 {
            return true;
        }
        let mut limit: u64 = 1;
        let mut i: usize = 0;
        while i < self.length_field_len
            invariant
                i <= self.length_field_len < 8,
                limit == pow256(i as nat),
            decreases self.length_field_len - i,
        {
            proof {
                lemma_pow256_values();
                reveal_with_fuel(pow256, 2);
            }
            limit = limit * 256;
            i += 1;
        }
        (len as u64) < limit
    }

    /// Appends to `dst` the frame that carries `payload`. A payload that the
    /// codec does not accept is refused and `dst` is left as it was.
    pub fn encode(&self, payload: &[u8], dst: &mut Vec<u8>) -> (r: Result<(), FrameError>)
        requires
            self.wf(),
        ensures
            r is Ok <==> self.accepts(payload@.len()),
            r is Ok ==> final(dst)@ == old(dst)@ + self.spec_encode(payload@),
            r is Err ==> r == Err::<(), FrameError>(FrameError::FrameTooLong) && final(dst)@ == old(
                dst,
            )@,
    {
        if !self.can_frame(payload.len()) {
            return Err(FrameError::FrameTooLong);
        }
        push_be(dst, payload.len() as u64, self.length_field_len);
        let mut i: usize = 0;
        while i < payload.len()
            invariant
                i <= payload.len(),
                dst@ == old(dst)@ + be_bytes(payload@.len(), self.length_field_len as nat)
                    + payload@.take(i as int),
            decreases payload.len() - i,
        {
            dst.push(payload[i]);
            i += 1;
            assert(payload@.take(i as int) == payload@.take(i as int - 1).push(
                payload@[i as int - 1],
            ));
        }
        assert(payload@.take(payload.len() as int) == payload@);
        Ok(())
    }

    /// Looks for one frame at the front of `buf`.
    pub fn decode(&self, buf: &[u8]) -> (r: Result<Decoded, FrameError>)
        requires
            self.wf(),
        ensures
            match r {
                Ok(d) => self.spec_decode(buf@) == Ok::<DecodedView, FrameError>(d@),
                Err(e) => self.spec_decode(buf@) == Err::<DecodedView, FrameError>(e),
            },
    {
        let width = self.length_field_len;
        if buf.len() < width {
            return Ok(Decoded::Incomplete);
        }
        let len = read_be(buf, 0, width);
        assert(buf@.subrange(0, width as int) == buf@.take(width as int));
        if len > self.max_frame_len as u64 {
            return Err(FrameError::FrameTooLong);
        }
        let len = len as usize;
        if buf.len() - width < len {
            return Ok(Decoded::Incomplete);
        }
        let mut payload: Vec<u8> = Vec::new();
        let mut i: usize = 0;
        while i < len
            invariant
                i <= len,
                width + len <= buf.len(),
                payload@ == buf@.subrange(width as int, width + i),
            decreases len - i,
        {
            payload.push(buf[width + i]);
            i += 1;
            assert(buf@.subrange(width as int, width + i) == buf@.subrange(
                width as int,
                width + i - 1,
            ).push(buf@[width + i - 1]));
        }
        Ok(Decoded::Frame { payload, consumed: width + len })
    }
}

/// Appends the `width`-byte big-endian representation of `n` to `dst`.
pub fn push_be(dst: &mut Vec<u8>, n: u64, width: usize)
    ensures
        final(dst)@ == old(dst)@ + be_bytes(n as nat, width as nat),
    decreases width,
{
    if width > 0 {
        push_be(dst, n / 256, width - 1);
        dst.push((n % 256) as u8);
        assert(old(dst)@ + be_bytes(n as nat, width as nat) == (old(dst)@ + be_bytes(
            (n / 256) as nat,
            (width - 1) as nat,
        )).push((n % 256) as u8));
    } else {
        assert(old(dst)@ + be_bytes(n as nat, 0) == old(dst)@);
    }
}

/// Reads the big-endian number written in the `width` bytes of `buf` that
/// start at `start`.
pub fn read_be(buf: &[u8], start: usize, width: usize) -> (n: u64)
    requires
        width <= 8,
        start + width <= buf@.len(),
    ensures
        n == be_value(buf@.subrange(start as int, start + width)),
{
    let mut n: u64 = 0;
    let mut i: usize = 0;
    let total = buf.len();
    while i < width
        invariant
            i <= width <= 8,
            start + width <= buf@.len(),
            buf@.len() == total,
            n == be_value(buf@.subrange(start as int, start + i)),
            n < pow256(i as nat),
        decreases width - i,
    {
        proof {
            lemma_pow256_values();
            reveal_with_fuel(pow256, 2);
            assert(buf@.subrange(start as int, start + i + 1).drop_last() == buf@.subrange(
                start as int,
                start + i,
            ));
        }
        n = n * 256 + buf[start + i] as u64;
        i += 1;
    }
    n
}

/// A frame that the codec accepts is read back whole from the front of
/// whatever it was written before, at every length from zero up to the
/// limit.
pub proof fn lemma_decode_encoded(codec: LengthDelimitedCodec, payload: Seq<u8>, rest: Seq<u8>)
    requires
        codec.wf(),
        codec.accepts(payload.len()),
    ensures
        codec.spec_decode(codec.spec_encode(payload) + rest) == Ok::<DecodedView, FrameError>(
            DecodedView::Frame {
                payload,
                consumed: codec.length_field_len + payload.len(),
            },
        ),
{
    let width = codec.length_field_len as int;
    let buf = codec.spec_encode(payload) + rest;
    lemma_be_bytes_len(payload.len(), width as nat);
    lemma_be_roundtrip(payload.len(), width as nat);
    assert(buf.take(width) == be_bytes(payload.len(), width as nat));
    assert(buf.subrange(width, width + payload.len()) == payload);
}

/// A length prefix above the limit is refused, whatever follows it.
pub proof fn lemma_decode_too_long(codec: LengthDelimitedCodec, len: nat, rest: Seq<u8>)
    requires
        codec.wf(),
        len < pow256(codec.length_field_len as nat),
        len > codec.max_frame_len,
    ensures
        codec.spec_decode(be_bytes(len, codec.length_field_len as nat) + rest) == Err::<
            DecodedView,
            FrameError,
        >(FrameError::FrameTooLong),
{
    let width = codec.length_field_len as int;
    let buf = be_bytes(len, width as nat) + rest;
    lemma_be_bytes_len(len, width as nat);
    lemma_be_roundtrip(len, width as nat);
    assert(buf.take(width) == be_bytes(len, width as nat));
}

/// A frame that has not arrived whole is not delivered.
pub proof fn lemma_decode_partial(codec: LengthDelimitedCodec, payload: Seq<u8>, cut: int)
    requires
        codec.wf(),
        codec.accepts(payload.len()),
        0 <= cut < codec.spec_encode(payload).len(),
    ensures
        codec.spec_decode(codec.spec_encode(payload).take(cut)) == Ok::<DecodedView, FrameError>(
            DecodedView::Incomplete,
        ),
{
    let width = codec.length_field_len as int;
    let whole = codec.spec_encode(payload);
    lemma_be_bytes_len(payload.len(), width as nat);
    lemma_be_roundtrip(payload.len(), width as nat);
    if cut >= width {
        assert(whole.take(cut).take(width) == be_bytes(payload.len(), width as nat));
    }
}

impl LengthDelimitedCodec {
    /// The frames of `payloads`, one after the other.
    pub open spec fn spec_encode_all(self, payloads: Seq<Seq<u8>>) -> Seq<u8>
        decreases payloads.len(),
    {
        if payloads.len() == 0 {
            Seq::empty()
        } else {
            self.spec_encode(payloads[0]) + self.spec_encode_all(payloads.drop_first())
        }
    }

    /// The payloads of the complete frames at the front of `buf`, in the
    /// order of their frames, up to the first incomplete or refused one.
    pub open spec fn spec_frames(self, buf: Seq<u8>) -> Seq<Seq<u8>>
        decreases buf.len(),
    {
        if !self.wf() {
            Seq::empty()
        } else {
            match self.spec_decode(buf) {
                Ok(DecodedView::Frame { payload, consumed }) => seq![payload] + self.spec_frames(
                    buf.skip(consumed),
                ),
                _ => Seq::empty(),
            }
        }
    }

    /// What is left of `buf` behind its complete frames.
    pub open spec fn spec_rest(self, buf: Seq<u8>) -> Seq<u8>
        decreases buf.len(),
    {
        if !self.wf() {
            buf
        } else {
            match self.spec_decode(buf) {
                Ok(DecodedView::Frame { payload, consumed }) => self.spec_rest(buf.skip(consumed)),
                _ => buf,
            }
        }
    }

    /// Whether the codec accepts every one of `payloads`.
    pub open spec fn accepts_all(self, payloads: Seq<Seq<u8>>) -> bool {
        forall|i: int| 0 <= i < payloads.len() ==> self.accepts((#[trigger] payloads[i]).len())
    }
}

/// Frames come out as they went in: decoding the frames of a sequence of
/// accepted payloads delivers exactly those payloads, each once, in the
/// order in which they were written, and leaves nothing behind.
pub proof fn lemma_frames_in_order(codec: LengthDelimitedCodec, payloads: Seq<Seq<u8>>)
    requires
        codec.wf(),
        codec.accepts_all(payloads),
    ensures
        codec.spec_frames(codec.spec_encode_all(payloads)) == payloads,
        codec.spec_rest(codec.spec_encode_all(payloads)) == Seq::<u8>::empty(),
    decreases payloads.len(),
{
    if payloads.len() == 0 {
        assert(codec.spec_frames(Seq::<u8>::empty()) == Seq::<Seq<u8>>::empty());
    } else {
        let first = payloads[0];
        let others = payloads.drop_first();
        assert(codec.accepts_all(others)) by {
            assert forall|i: int| 0 <= i < others.len() implies codec.accepts(
                (#[trigger] others[i]).len(),
            ) by {
                assert(others[i] == payloads[i + 1]);
            }
        }
        lemma_frames_in_order(codec, others);
        let tail = codec.spec_encode_all(others);
        let buf = codec.spec_encode(first) + tail;
        lemma_decode_encoded(codec, first, tail);
        lemma_be_bytes_len(first.len(), codec.length_field_len as nat);
        assert(buf.skip(codec.length_field_len + first.len()) == tail);
        assert(seq![first] + others == payloads);
    }
}

/// A decoder that buffers what has arrived and hands out whole frames.
#[derive(Debug, PartialEq, Eq)]
pub struct FrameReader {
    pub codec: LengthDelimitedCodec,
    /// What has arrived and has not been handed out yet.
    pub buffer: Vec<u8>,
}

/// The payloads that a vector of frames holds.
pub open spec fn payloads_view(frames: Seq<Vec<u8>>) -> Seq<Seq<u8>> {
    frames.map_values(|f: Vec<u8>| f@)
}

impl FrameReader {
    /// A reader with nothing buffered.
    pub fn new(codec: LengthDelimitedCodec) -> (reader: FrameReader)
        ensures
            reader.codec == codec,
            reader.buffer@ == Seq::<u8>::empty(),
    {
        FrameReader { codec, buffer: Vec::new() }
    }

    /// Takes in bytes that have arrived.
    pub fn feed(&mut self, bytes: &[u8])
        ensures
            final(self).codec == old(self).codec,
            final(self).buffer@ == old(self).buffer@ + bytes@,
    {
        crate::octets::append(&mut self.buffer, bytes);
    }

    /// Hands out the next frame, if it has arrived whole. A refused frame
    /// is reported and stays in the buffer: the stream is to be torn down.
    pub fn next_frame(&mut self) -> (r: Result<Option<Vec<u8>>, FrameError>)
        requires
            old(self).codec.wf(),
        ensures
            final(self).codec == old(self).codec,
            match old(self).codec.spec_decode(old(self).buffer@) {
                Ok(DecodedView::Incomplete) => r == Ok::<Option<Vec<u8>>, FrameError>(None)
                    && final(self).buffer@ == old(self).buffer@,
                Ok(DecodedView::Frame { payload, consumed }) => {
                    &&& r matches Ok(Some(p))
                    &&& p@ == payload
                    &&& final(self).buffer@ == old(self).buffer@.skip(consumed)
                },
                Err(e) => r == Err::<Option<Vec<u8>>, FrameError>(e) && final(self).buffer@ == old(
                    self,
                ).buffer@,
            },
    {
        match self.codec.decode(self.buffer.as_slice()) {
            Err(e) => Err(e),
            Ok(Decoded::Incomplete) => Ok(None),
            Ok(Decoded::Frame { payload, consumed }) => {
                let rest = slice_to_vec(
                    slice_subrange(self.buffer.as_slice(), consumed, self.buffer.len()),
                );
                assert(rest@ == self.buffer@.skip(consumed as int));
                self.buffer = rest;
                Ok(Some(payload))
            },
        }
    }

    /// Hands out every frame that has arrived whole, in order of arrival.
    pub fn drain(&mut self) -> (frames: Vec<Vec<u8>>)
        requires
            old(self).codec.wf(),
        ensures
            final(self).codec == old(self).codec,
            payloads_view(frames@) == old(self).codec.spec_frames(old(self).buffer@),
            final(self).buffer@ == old(self).codec.spec_rest(old(self).buffer@),
    {
        let mut frames: Vec<Vec<u8>> = Vec::new();
        let mut pos: usize = 0;
        let ghost all = self.buffer@;
        let ghost codec = self.codec;
        assert(all.skip(0) == all);
        assert(payloads_view(frames@) + codec.spec_frames(all) == codec.spec_frames(all));
        loop
            invariant_except_break
                self.codec == codec,
                codec.wf(),
                self.buffer@ == all,
                pos <= all.len(),
                codec.spec_frames(all) == payloads_view(frames@) + codec.spec_frames(
                    all.skip(pos as int),
                ),
                codec.spec_rest(all) == codec.spec_rest(all.skip(pos as int)),
            ensures
                self.codec == codec,
                self.buffer@ == all,
                pos <= all.len(),
                codec.spec_frames(all) == payloads_view(frames@),
                codec.spec_rest(all) == all.skip(pos as int),
            decreases all.len() - pos,
        {
            let tail = slice_subrange(self.buffer.as_slice(), pos, self.buffer.len());
            assert(tail@ == all.skip(pos as int));
            match self.codec.decode(tail) {
                Ok(Decoded::Frame { payload, consumed }) => {
                    proof {
                        let ghost before = payloads_view(frames@);
                        let ghost after = payloads_view(frames@.push(payload));
                        assert(after == before.push(payload@));
                        assert(all.skip(pos as int).skip(consumed as int) == all.skip(
                            pos + consumed,
                        ));
                        assert(before + (seq![payload@] + codec.spec_frames(
                            all.skip(pos + consumed),
                        )) == after + codec.spec_frames(all.skip(pos + consumed)));
                    }
                    frames.push(payload);
                    pos = pos + consumed;
                },
                _ => {
                    assert(codec.spec_frames(all.skip(pos as int)) == Seq::<Seq<u8>>::empty());
                    assert(payloads_view(frames@) + Seq::<Seq<u8>>::empty() == payloads_view(
                        frames@,
                    ));
                    break ;
                },
            }
        }
        let rest = slice_to_vec(slice_subrange(self.buffer.as_slice(), pos, self.buffer.len()));
        self.buffer = rest;
        frames
    }
}

/// A whole frame at the front of a buffer stays what it is when more
/// bytes follow.
pub proof fn lemma_decode_stable(codec: LengthDelimitedCodec, buf: Seq<u8>, more: Seq<u8>)
    requires
        codec.wf(),
        codec.spec_decode(buf) matches Ok(DecodedView::Frame { .. }),
    ensures
        codec.spec_decode(buf + more) == codec.spec_decode(buf),
{
    let width = codec.length_field_len as int;
    assert((buf + more).take(width) == buf.take(width));
    let len = be_value(buf.take(width));
    assert((buf + more).subrange(width, width + len) == buf.subrange(width, width + len));
}

/// Bytes that arrive later change nothing in what was delivered before:
/// the frames of `buf + more` are the frames of `buf`, then the frames of
/// what `buf` left behind followed by `more`.
pub proof fn lemma_frames_append(codec: LengthDelimitedCodec, buf: Seq<u8>, more: Seq<u8>)
    requires
        codec.wf(),
    ensures
        codec.spec_frames(buf + more) == codec.spec_frames(buf) + codec.spec_frames(
            codec.spec_rest(buf) + more,
        ),
        codec.spec_rest(buf + more) == codec.spec_rest(codec.spec_rest(buf) + more),
    decreases buf.len(),
{
    match codec.spec_decode(buf) {
        Ok(DecodedView::Frame { payload, consumed }) => {
            lemma_decode_stable(codec, buf, more);
            assert((buf + more).skip(consumed) == buf.skip(consumed) + more);
            lemma_frames_append(codec, buf.skip(consumed), more);
            let tail = codec.spec_frames(buf.skip(consumed));
            let late = codec.spec_frames(codec.spec_rest(buf) + more);
            assert(seq![payload] + (tail + late) == (seq![payload] + tail) + late);
        },
        _ => {
            assert(Seq::<Seq<u8>>::empty() + codec.spec_frames(buf + more) == codec.spec_frames(
                buf + more,
            ));
        },
    }
}

/// However far the frames of accepted payloads have arrived, what is left
/// behind the whole frames is the beginning of a frame, never a refused
/// one.
pub proof fn lemma_prefix_leaves_incomplete(
    codec: LengthDelimitedCodec,
    payloads: Seq<Seq<u8>>,
    cut: int,
)
    requires
        codec.wf(),
        codec.accepts_all(payloads),
        0 <= cut <= codec.spec_encode_all(payloads).len(),
    ensures
        codec.spec_decode(codec.spec_rest(codec.spec_encode_all(payloads).take(cut))) == Ok::<
            DecodedView,
            FrameError,
        >(DecodedView::Incomplete),
    decreases payloads.len(),
{
    let wire = codec.spec_encode_all(payloads);
    if payloads.len() == 0 {
        assert(wire.take(cut) == Seq::<u8>::empty());
    } else {
        let first = payloads[0];
        let others = payloads.drop_first();
        let frame = codec.spec_encode(first);
        let tail = codec.spec_encode_all(others);
        lemma_be_bytes_len(first.len(), codec.length_field_len as nat);
        if cut < frame.len() {
            assert(wire.take(cut) == frame.take(cut));
            lemma_decode_partial(codec, first, cut);
        } else {
            assert(codec.accepts_all(others)) by {
                assert forall|i: int| 0 <= i < others.len() implies codec.accepts(
                    (#[trigger] others[i]).len(),
                ) by {
                    assert(others[i] == payloads[i + 1]);
                }
            }
            let late = tail.take(cut - frame.len());
            assert(wire.take(cut) == frame + late);
            lemma_decode_encoded(codec, first, late);
            assert((frame + late).skip(frame.len() as int) == late);
            lemma_prefix_leaves_incomplete(codec, others, cut - frame.len());
        }
    }
}

} // verus!
