//! Writing a SER file in one pass: header, frames, then the timestamp trailer.
use vstd::prelude::*;
use crate::bytes::{
    append_bytes, le_bytes_u32, le_bytes_u64, le_u64, lemma_le_u32_round_trip, lemma_le_u64_round_trip,
    u64_le_bytes,
};
use crate::error::SerError;
use crate::file::{declared_data_bytes, frame_of, layout_error, trailer_of};
use crate::header::{
    code_of_bayer, code_of_endianness, encode_header, field, header_bytes, lemma_layout,
    text_slot, SerHeader, HEADER_SIZE,
};

verus! {

/// The trailer bytes for `ts`: each timestamp little-endian, in order.
pub open spec fn timestamps_bytes(ts: Seq<u64>) -> Seq<u8>
    decreases ts.len(),
{
    if ts.len() == 0 {
        Seq::empty()
    } else {
        timestamps_bytes(ts.drop_last()) + le_bytes_u64(ts.last())
    }
}

/// Frames laid end to end, in order.
pub open spec fn frames_bytes(frames: Seq<Seq<u8>>) -> Seq<u8>
    decreases frames.len(),
{
    if frames.len() == 0 {
        Seq::empty()
    } else {
        frames_bytes(frames.drop_last()) + frames.last()
    }
}

proof fn lemma_subrange_left(a: Seq<u8>, c: Seq<u8>, lo: int, hi: int)
    requires
        0 <= lo <= hi <= a.len(),
    ensures
        (a + c).subrange(lo, hi) == a.subrange(lo, hi),
{
    assert((a + c).subrange(lo, hi) =~= a.subrange(lo, hi));
}

proof fn lemma_subrange_right(a: Seq<u8>, c: Seq<u8>, lo: int, hi: int)
    requires
        a.len() <= lo <= hi <= a.len() + c.len(),
    ensures
        (a + c).subrange(lo, hi) == c.subrange(lo - a.len(), hi - a.len()),
{
    assert((a + c).subrange(lo, hi) =~= c.subrange(lo - a.len(), hi - a.len()));
}

/// Frame `i` of equally sized frames sits at `i * size`.
proof fn lemma_frames_bytes(frames: Seq<Seq<u8>>, size: int)
    requires
        size >= 0,
        forall|i: int| 0 <= i < frames.len() ==> #[trigger] frames[i].len() == size,
    ensures
        frames_bytes(frames).len() == frames.len() * size,
        forall|i: int|
            0 <= i < frames.len() ==> frames_bytes(frames).subrange(i * size, (i + 1) * size)
                == #[trigger] frames[i],
    decreases frames.len(),
{
    if frames.len() > 0 {
        let n = frames.len() as int;
        let init = frames.drop_last();
        lemma_frames_bytes(init, size);
        assert(n * size == (n - 1) * size + size) by (nonlinear_arith);
        assert forall|i: int| 0 <= i < n implies frames_bytes(frames).subrange(
            i * size,
            (i + 1) * size,
        ) == #[trigger] frames[i] by {
            if i < n - 1 {
                assert((i + 1) * size <= (n - 1) * size) by (nonlinear_arith)
                    requires
                        i + 1 <= n - 1,
                        size >= 0,
                ;
                assert(i * size <= (i + 1) * size) by (nonlinear_arith)
                    requires
                        size >= 0,
                ;
                assert(0 <= i * size) by (nonlinear_arith)
                    requires
                        size >= 0,
                        i >= 0,
                ;
                assert(init[i] == frames[i]);
                lemma_subrange_left(frames_bytes(init), frames.last(), i * size, (i + 1) * size);
            } else {
                assert(i * size == (n - 1) * size);
                lemma_subrange_right(frames_bytes(init), frames.last(), i * size, (i + 1) * size);
                assert(frames.last().subrange(0, size) =~= frames.last());
            }
        }
    }
}

/// Timestamp `i` sits in the eight bytes at `8 * i`.
proof fn lemma_timestamps_bytes(ts: Seq<u64>)
    ensures
        timestamps_bytes(ts).len() == 8 * ts.len(),
        forall|i: int|
            0 <= i < ts.len() ==> field(timestamps_bytes(ts), 8 * i, 8) == le_bytes_u64(
                #[trigger] ts[i],
            ),
    decreases ts.len(),
{
    if ts.len() > 0 {
        let n = ts.len() as int;
        let init = ts.drop_last();
        lemma_timestamps_bytes(init);
        assert forall|i: int| 0 <= i < n implies field(timestamps_bytes(ts), 8 * i, 8)
            == le_bytes_u64(#[trigger] ts[i]) by {
            if i < n - 1 {
                assert(init[i] == ts[i]);
                lemma_subrange_left(timestamps_bytes(init), le_bytes_u64(ts.last()), 8 * i, 8 * i + 8);
            } else {
                lemma_subrange_right(timestamps_bytes(init), le_bytes_u64(ts.last()), 8 * i, 8 * i + 8);
                assert(le_bytes_u64(ts.last()).subrange(0, 8) =~= le_bytes_u64(ts.last()));
            }
        }
    }
}

/// What a session writes reads back: the header of `h`, then one frame of
/// the frame size for each declared frame, then one timestamp per frame,
/// make a file whose layout is sound, whose frames are those frames in
/// order, and whose trailer holds those timestamps.
#[verifier::rlimit(50)]
pub proof fn lemma_written_file_reads_back(h: SerHeader, frames: Seq<Seq<u8>>, ts: Seq<u64>)
    requires
        h.frame_count <= u32::MAX,
        frames.len() == h.frame_count,
        forall|i: int| 0 <= i < frames.len() ==> #[trigger] frames[i].len() == h.frame_size_spec(),
        ts.len() == h.frame_count,
    ensures
        ({
            let b = header_bytes(h) + frames_bytes(frames) + timestamps_bytes(ts);
            &&& layout_error(b) is None
            &&& trailer_of(b) == ts
            &&& forall|i: int|
                0 <= i < frames.len() ==> frame_of(b, h.frame_size_spec(), i) == #[trigger] frames[i]
        }),
{
    let hb = header_bytes(h);
    let fb = frames_bytes(frames);
    let tb = timestamps_bytes(ts);
    let b = hb + fb + tb;
    let size = h.frame_size_spec();
    let n = h.frame_count as int;
    lemma_layout(
        crate::header::signature(),
        le_bytes_u32(0),
        le_bytes_u32(code_of_bayer(h.bayer)),
        le_bytes_u32(code_of_endianness(h.endianness)),
        le_bytes_u32(h.image_width),
        le_bytes_u32(h.image_height),
        le_bytes_u32(h.pixel_depth_per_plane),
        le_bytes_u32(h.frame_count as u32),
        text_slot(h.observer@),
        text_slot(h.instrument@),
        text_slot(h.telescope@),
        le_bytes_u64(h.date_time),
        le_bytes_u64(h.date_time_utc),
    );
    assert(size >= 0) by (nonlinear_arith)
        requires
            size == crate::header::bytes_per_pixel_of(h.pixel_depth_per_plane) * h.image_width
                * h.image_height,
            crate::header::bytes_per_pixel_of(h.pixel_depth_per_plane) >= 1,
    ;
    lemma_frames_bytes(frames, size);
    lemma_timestamps_bytes(ts);
    lemma_le_u32_round_trip(h.image_width);
    lemma_le_u32_round_trip(h.image_height);
    lemma_le_u32_round_trip(h.pixel_depth_per_plane);
    lemma_le_u32_round_trip(h.frame_count as u32);
    lemma_subrange_left(hb + fb, tb, 0, 14);
    lemma_subrange_left(hb, fb, 0, 14);
    lemma_subrange_left(hb + fb, tb, 26, 42);
    lemma_subrange_left(hb, fb, 26, 42);
    assert(field(b, 26, 4) =~= field(hb, 26, 4));
    assert(field(b, 30, 4) =~= field(hb, 30, 4));
    assert(field(b, 34, 4) =~= field(hb, 34, 4));
    assert(field(b, 38, 4) =~= field(hb, 38, 4));
    assert(declared_data_bytes(b) == size * n);
    assert(size * n == n * size) by (nonlinear_arith);
    assert forall|i: int| 0 <= i < frames.len() implies frame_of(b, size, i) == #[trigger] frames[i] by {
        assert((i + 1) * size <= n * size) by (nonlinear_arith)
            requires
                i + 1 <= n,
                size >= 0,
        ;
        assert(0 <= i * size <= (i + 1) * size) by (nonlinear_arith)
            requires
                size >= 0,
                i >= 0,
        ;
        assert((i + 1) * size == i * size + size) by (nonlinear_arith);
        lemma_subrange_left(hb + fb, tb, HEADER_SIZE + i * size, HEADER_SIZE + (i + 1) * size);
        lemma_subrange_right(hb, fb, HEADER_SIZE + i * size, HEADER_SIZE + (i + 1) * size);
    }
    let start = HEADER_SIZE + n * size;
    assert forall|i: int| 0 <= i < n implies le_u64(field(b, start + 8 * i, 8)) == ts[i] by {
        lemma_subrange_right(hb + fb, tb, start + 8 * i, start + 8 * i + 8);
        lemma_le_u64_round_trip(ts[i]);
    }
    assert(trailer_of(b) =~= ts);
}

/// A writing session for one SER file. Encoded bytes collect in an output
/// buffer that the caller drains to its sink with `take_output`.
pub struct SerWriter<'a> {
    header: &'a SerHeader,
    out: Vec<u8>,
}

impl<'a> SerWriter<'a> {
    /// The header the session writes against.
    pub closed spec fn header(&self) -> SerHeader {
        *self.header
    }

    /// Bytes written and not yet taken.
    pub closed spec fn pending(&self) -> Seq<u8> {
        self.out@
    }

    /// Starts a session by encoding the header; fails when its frame count
    /// does not fit the header.
    pub fn new(header: &'a SerHeader) -> (r: Result<Self, SerError>)
        ensures
            header.frame_count <= u32::MAX ==> (r matches Ok(w) && w.header() == *header
                && w.pending() == header_bytes(*header)),
            header.frame_count > u32::MAX ==> (r matches Err(e) && e
                == SerError::FrameCountTooLarge),
    {
        match encode_header(header) {
            Ok(out) => Ok(SerWriter { header, out }),
            Err(e) => Err(e),
        }
    }

    /// Writes one frame, which must be exactly one frame size long; a frame
    /// of another length writes nothing.
    pub fn write_frame(&mut self, frame: &[u8]) -> (r: Result<(), SerError>)
        ensures
            final(self).header() == old(self).header(),
            frame@.len() == old(self).header().frame_size_spec() ==> (r is Ok
                && final(self).pending() == old(self).pending() + frame@),
            frame@.len() != old(self).header().frame_size_spec() ==> (r == Err::<(), SerError>(
                SerError::SizeMismatch,
            ) && final(self).pending() == old(self).pending()),
    {
        if self.header.frame_size_u128() == frame.len() as u128 {
            append_bytes(&mut self.out, frame);
            Ok(())
        } else {
            Err(SerError::SizeMismatch)
        }
    }

    /// Writes the timestamp trailer, one little-endian `u64` per entry.
    pub fn write_timestamps(&mut self, timestamps: &[u64])
        ensures
            final(self).header() == old(self).header(),
            final(self).pending() == old(self).pending() + timestamps_bytes(timestamps@),
    {
        let mut i: usize = 0;
        while i < timestamps.len()
            invariant
                i <= timestamps@.len(),
                self.header == old(self).header,
                self.out@ == old(self).out@ + timestamps_bytes(timestamps@.subrange(0, i as int)),
            decreases timestamps@.len() - i,
        {
            let mut b = u64_le_bytes(timestamps[i]);
            self.out.append(&mut b);
            i = i + 1;
            assert(timestamps@.subrange(0, i as int).drop_last() =~= timestamps@.subrange(
                0,
                i - 1,
            ));
        }
        assert(timestamps@.subrange(0, timestamps@.len() as int) =~= timestamps@);
    }

    /// Hands over the bytes written since the last call, for the sink.
    pub fn take_output(&mut self) -> (r: Vec<u8>)
        ensures
            r@ == old(self).pending(),
            final(self).pending() == Seq::<u8>::empty(),
            final(self).header() == old(self).header(),
    {
        let mut r: Vec<u8> = Vec::new();
        r.append(&mut self.out);
        r
    }
}

} // verus!
