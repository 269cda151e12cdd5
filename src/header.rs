//! The fixed 178-byte SER header and its codec.
use vstd::prelude::*;
use vstd::slice::slice_subrange;
use vstd::utf8::{decode_utf8, encode_utf8, encode_utf8_decode_utf8, encode_utf8_valid_utf8};
use crate::bytes::{
    append_bytes, append_fixed_width, lemma_le_u32_round_trip, lemma_le_u64_round_trip,
    parse_string, read_u32_le, read_u64_le, u32_le_bytes, u64_le_bytes, fixed_width, le_bytes_u32, le_bytes_u64, le_u32, le_u64, text_of};
use crate::error::SerError;

verus! {

/// Length of the header, in bytes.
pub const HEADER_SIZE: usize = 178;

/// Width of each of the three text slots, in bytes.
pub const TEXT_WIDTH: usize = 40;

/// `LUCAM-RECORDER` in ASCII: the first fourteen bytes of every header.
pub open spec fn signature() -> Seq<u8> {
    seq![76u8, 85, 67, 65, 77, 45, 82, 69, 67, 79, 82, 68, 69, 82]
}

/// Colour-filter layout of the sensor.
#[derive(Debug, Clone, Copy, PartialEq, Eq, Structural)]
pub enum Bayer {
    Mono,
    RGGB,
    GRBG,
    GBRG,
    BGGR,
    CYYM,
    YCMY,
    YMCY,
    MYYC,
    RGB,
    BGR,
    /// A code outside the table, kept as it was read.
    Unknown(u32),
}

/// Byte order of 16-bit pixel samples; it describes the frames and changes nothing here.
#[derive(Debug, Clone, Copy, PartialEq, Eq, Structural)]
pub enum Endianness {
    LittleEndian,
    BigEndian,
}

/// The layout that a header code stands for.
pub open spec fn bayer_of_code(c: u32) -> Bayer {
    if c == 0 {
        Bayer::Mono
    } else if c == 8 {
        Bayer::RGGB
    } else if c == 9 {
        Bayer::GRBG
    } else if c == 10 {
        Bayer::GBRG
    } else if c == 11 {
        Bayer::BGGR
    } else if c == 16 {
        Bayer::CYYM
    } else if c == 17 {
        Bayer::YCMY
    } else if c == 18 {
        Bayer::YMCY
    } else if c == 19 {
        Bayer::MYYC
    } else if c == 100 {
        Bayer::RGB
    } else if c == 101 {
        Bayer::BGR
    } else {
        Bayer::Unknown(c)
    }
}

/// The header code of a layout.
pub open spec fn code_of_bayer(b: Bayer) -> u32 {
    match b {
        Bayer::Mono => 0,
        Bayer::RGGB => 8,
        Bayer::GRBG => 9,
        Bayer::GBRG => 10,
        Bayer::BGGR => 11,
        Bayer::CYYM => 16,
        Bayer::YCMY => 17,
        Bayer::YMCY => 18,
        Bayer::MYYC => 19,
        Bayer::RGB => 100,
        Bayer::BGR => 101,
        Bayer::Unknown(c) => c,
    }
}

/// A layout that the header can carry unchanged: anything but an unknown
/// code that the table already names.
pub open spec fn bayer_encodable(b: Bayer) -> bool {
    match b {
        Bayer::Unknown(c) => bayer_of_code(c) == b,
        _ => true,
    }
}

pub open spec fn endianness_of_code(c: u32) -> Endianness {
    if c == 0 {
        Endianness::LittleEndian
    } else {
        Endianness::BigEndian
    }
}

pub open spec fn code_of_endianness(e: Endianness) -> u32 {
    match e {
        Endianness::LittleEndian => 0,
        Endianness::BigEndian => 1,
    }
}

impl Bayer {
    /// The layout for a header code; unknown codes are kept.
    pub fn from_code(c: u32) -> (r: Bayer)
        ensures
            r == bayer_of_code(c),
    {
        match c {
            0 => Bayer::Mono,
            8 => Bayer::RGGB,
            9 => Bayer::GRBG,
            10 => Bayer::GBRG,
            11 => Bayer::BGGR,
            16 => Bayer::CYYM,
            17 => Bayer::YCMY,
            18 => Bayer::YMCY,
            19 => Bayer::MYYC,
            100 => Bayer::RGB,
            101 => Bayer::BGR,
            _ => Bayer::Unknown(c),
        }
    }

    /// The header code for this layout.
    pub fn code(&self) -> (r: u32)
        ensures
            r == code_of_bayer(*self),
    {
        match self {
            Bayer::Mono => 0,
            Bayer::RGGB => 8,
            Bayer::GRBG => 9,
            Bayer::GBRG => 10,
            Bayer::BGGR => 11,
            Bayer::CYYM => 16,
            Bayer::YCMY => 17,
            Bayer::YMCY => 18,
            Bayer::MYYC => 19,
            Bayer::RGB => 100,
            Bayer::BGR => 101,
            Bayer::Unknown(c) => *c,
        }
    }
}

impl Endianness {
    /// Zero is little-endian, anything else big-endian.
    pub fn from_code(c: u32) -> (r: Endianness)
        ensures
            r == endianness_of_code(c),
    {
        if c == 0 {
            Endianness::LittleEndian
        } else {
            Endianness::BigEndian
        }
    }

    pub fn code(&self) -> (r: u32)
        ensures
            r == code_of_endianness(*self),
    {
        match self {
            Endianness::LittleEndian => 0,
            Endianness::BigEndian => 1,
        }
    }
}

/// Every code survives decoding to a layout and encoding back.
pub proof fn lemma_bayer_code_round_trip(c: u32)
    ensures
        code_of_bayer(bayer_of_code(c)) == c,
{
}

/// Header of a SER file.
#[derive(Debug)]
pub struct SerHeader {
    /// Image height, in pixels
    pub image_height: u32,
    /// Image width, in pixels
    pub image_width: u32,
    /// Number of frames
    pub frame_count: usize,
    /// Pixel depth per plane, in bits
    pub pixel_depth_per_plane: u32,
    /// Byte order of 16-bit image data
    pub endianness: Endianness,
    /// Bayer encoding
    pub bayer: Bayer,
    /// Name of observer
    pub observer: String,
    /// Name of telescope
    pub telescope: String,
    /// Name of instrument
    pub instrument: String,
    /// File timestamp
    pub date_time: u64,
    /// File timestamp in UTC
    pub date_time_utc: u64,
}

/// Bytes per pixel for a depth: two above eight bits, else one.
pub open spec fn bytes_per_pixel_of(depth: u32) -> int {
    if depth > 8 {
        2
    } else {
        1
    }
}

/// Bytes in one frame of the given geometry.
pub open spec fn frame_size_of(depth: u32, width: u32, height: u32) -> int {
    bytes_per_pixel_of(depth) * width * height
}

impl SerHeader {
    pub open spec fn frame_size_spec(&self) -> int {
        frame_size_of(self.pixel_depth_per_plane, self.image_width, self.image_height)
    }

    pub open spec fn data_bytes_spec(&self) -> int {
        self.frame_size_spec() * self.frame_count
    }

    /// Total number of image bytes in the file
    pub fn image_data_bytes(&self) -> (r: usize)
        requires
            self.data_bytes_spec() <= usize::MAX,
        ensures
            r == self.data_bytes_spec(),
    {
        let fs = self.frame_size_u128();
        proof {
            assert(0 <= self.frame_size_spec() * self.frame_count) by (nonlinear_arith)
                requires
                    self.frame_size_spec() >= 0,
            ;
            if self.frame_count > 0 {
                assert(self.frame_size_spec() <= self.frame_size_spec() * self.frame_count)
                    by (nonlinear_arith)
                    requires
                        self.frame_size_spec() >= 0,
                        self.frame_count > 0,
                ;
            }
        }
        if self.frame_count == 0 {
            0
        } else {
            fs as usize * self.frame_count
        }
    }

    /// Number of bytes per image frame
    pub fn image_frame_size(&self) -> (r: usize)
        requires
            self.frame_size_spec() <= usize::MAX,
        ensures
            r == self.frame_size_spec(),
    {
        self.frame_size_u128() as usize
    }

    /// Number of bytes per pixel (either 1 or 2)
    pub fn bytes_per_pixel(&self) -> (r: usize)
        ensures
            r == bytes_per_pixel_of(self.pixel_depth_per_plane),
            r == 2 <==> self.pixel_depth_per_plane > 8,
            r == 1 <==> self.pixel_depth_per_plane <= 8,
    {
        if self.pixel_depth_per_plane > 8 {
            2
        } else {
            1
        }
    }

    /// The frame size, computed where it cannot overflow.
    pub(crate) fn frame_size_u128(&self) -> (r: u128)
        ensures
            r == self.frame_size_spec(),
            r <= 2 * 0xffff_ffffu128 * 0xffff_ffffu128,
    {
        let bpp = self.bytes_per_pixel() as u128;
        let w = self.image_width as u128;
        let h = self.image_height as u128;
        proof {
            assert(bpp * w <= 2 * 0xffff_ffffu128) by (nonlinear_arith)
                requires
                    bpp <= 2,
                    w <= 0xffff_ffffu128,
            ;
            assert(bpp * w * h <= 2 * 0xffff_ffffu128 * 0xffff_ffffu128) by (nonlinear_arith)
                requires
                    bpp * w <= 2 * 0xffff_ffffu128,
                    h <= 0xffff_ffffu128,
                    bpp * w >= 0,
            ;
        }
        bpp * w * h
    }
}

/// The `len` bytes of `b` from `off`.
pub open spec fn field(b: Seq<u8>, off: int, len: int) -> Seq<u8> {
    b.subrange(off, off + len)
}

/// Whether the header bytes start with the signature.
pub open spec fn has_signature(b: Seq<u8>) -> bool {
    b.subrange(0, 14) == signature()
}

/// `h` is what the 178 header bytes `b` say, field by field.
pub open spec fn decodes_to(h: SerHeader, b: Seq<u8>) -> bool {
    &&& h.bayer == bayer_of_code(le_u32(field(b, 18, 4)))
    &&& h.endianness == endianness_of_code(le_u32(field(b, 22, 4)))
    &&& h.image_width == le_u32(field(b, 26, 4))
    &&& h.image_height == le_u32(field(b, 30, 4))
    &&& h.pixel_depth_per_plane == le_u32(field(b, 34, 4))
    &&& h.frame_count == le_u32(field(b, 38, 4))
    &&& h.observer@ == text_of(field(b, 42, 40))
    &&& h.instrument@ == text_of(field(b, 82, 40))
    &&& h.telescope@ == text_of(field(b, 122, 40))
    &&& h.date_time == le_u64(field(b, 162, 8))
    &&& h.date_time_utc == le_u64(field(b, 170, 8))
}

/// A text field as stored: its UTF-8 bytes cut or zero-padded to the slot.
pub open spec fn text_slot(s: Seq<char>) -> Seq<u8> {
    fixed_width(encode_utf8(s), TEXT_WIDTH as nat)
}

/// The 178 bytes that encode `h` (its frame count taken as 32 bits).
pub open spec fn header_bytes(h: SerHeader) -> Seq<u8> {
    signature() + le_bytes_u32(0) + le_bytes_u32(code_of_bayer(h.bayer)) + le_bytes_u32(
        code_of_endianness(h.endianness),
    ) + le_bytes_u32(h.image_width) + le_bytes_u32(h.image_height) + le_bytes_u32(
        h.pixel_depth_per_plane,
    ) + le_bytes_u32(h.frame_count as u32) + text_slot(h.observer@) + text_slot(h.instrument@)
        + text_slot(h.telescope@) + le_bytes_u64(h.date_time) + le_bytes_u64(h.date_time_utc)
}

/// The signature bytes.
fn signature_bytes() -> (r: [u8; 14])
    ensures
        r@ == signature(),
{
    let r: [u8; 14] = [76u8, 85, 67, 65, 77, 45, 82, 69, 67, 79, 82, 68, 69, 82];
    assert(r@ =~= signature());
    r
}

/// Decodes the header held by the first 178 bytes of `b`; fails only on a
/// wrong signature.
pub fn decode_header(b: &[u8]) -> (r: Result<SerHeader, SerError>)
    requires
        b@.len() >= HEADER_SIZE,
    ensures
        match r {
            Ok(h) => has_signature(b@) && decodes_to(h, b@),
            Err(e) => !has_signature(b@) && e == SerError::BadSignature,
        },
{
    let sig = signature_bytes();
    let mut i: usize = 0;
    while i < 14
        invariant
            i <= 14,
            b@.len() >= HEADER_SIZE,
            sig@ == signature(),
            forall|k: int| 0 <= k < i ==> b@[k] == signature()[k],
        decreases 14 - i,
    {
        if b[i] != sig[i] {
            assert(b@.subrange(0, 14)[i as int] != signature()[i as int]);
            return Err(SerError::BadSignature);
        }
        i = i + 1;
    }
    assert(b@.subrange(0, 14) =~= signature());
    let bayer = Bayer::from_code(read_u32_le(slice_subrange(b, 18, 22)));
    let endianness = Endianness::from_code(read_u32_le(slice_subrange(b, 22, 26)));
    let image_width = read_u32_le(slice_subrange(b, 26, 30));
    let image_height = read_u32_le(slice_subrange(b, 30, 34));
    let pixel_depth_per_plane = read_u32_le(slice_subrange(b, 34, 38));
    let frame_count = read_u32_le(slice_subrange(b, 38, 42)) as usize;
    let observer = parse_string(slice_subrange(b, 42, 82));
    let instrument = parse_string(slice_subrange(b, 82, 122));
    let telescope = parse_string(slice_subrange(b, 122, 162));
    let date_time = read_u64_le(slice_subrange(b, 162, 170));
    let date_time_utc = read_u64_le(slice_subrange(b, 170, 178));
    Ok(
        SerHeader {
            image_height,
            image_width,
            frame_count,
            pixel_depth_per_plane,
            endianness,
            bayer,
            observer,
            telescope,
            instrument,
            date_time,
            date_time_utc,
        },
    )
}

/// Encodes `h` as 178 header bytes. Text fields are cut or zero-padded to
/// their 40-byte slots; a frame count beyond 32 bits cannot be stored.
pub fn encode_header(h: &SerHeader) -> (r: Result<Vec<u8>, SerError>)
    ensures
        h.frame_count <= u32::MAX ==> (r matches Ok(v) && v@ == header_bytes(*h)),
        h.frame_count > u32::MAX ==> r == Err::<Vec<u8>, SerError>(SerError::FrameCountTooLarge),
{
    if h.frame_count > u32::MAX as usize {
        return Err(SerError::FrameCountTooLarge);
    }
    let sig = signature_bytes();
    let mut out: Vec<u8> = Vec::new();
    append_bytes(&mut out, &sig);
    let mut f = u32_le_bytes(0);
    out.append(&mut f);
    let mut f = u32_le_bytes(h.bayer.code());
    out.append(&mut f);
    let mut f = u32_le_bytes(h.endianness.code());
    out.append(&mut f);
    let mut f = u32_le_bytes(h.image_width);
    out.append(&mut f);
    let mut f = u32_le_bytes(h.image_height);
    out.append(&mut f);
    let mut f = u32_le_bytes(h.pixel_depth_per_plane);
    out.append(&mut f);
    let mut f = u32_le_bytes(h.frame_count as u32);
    out.append(&mut f);
    append_fixed_width(&mut out, h.observer.as_str().as_bytes(), TEXT_WIDTH);
    append_fixed_width(&mut out, h.instrument.as_str().as_bytes(), TEXT_WIDTH);
    append_fixed_width(&mut out, h.telescope.as_str().as_bytes(), TEXT_WIDTH);
    let mut f = u64_le_bytes(h.date_time);
    out.append(&mut f);
    let mut f = u64_le_bytes(h.date_time_utc);
    out.append(&mut f);
    assert(out@ =~= header_bytes(*h));
    Ok(out)
}

proof fn lemma_whole(q: Seq<u8>)
    ensures
        q.subrange(0, q.len() as int) == q,
{
    assert(q.subrange(0, q.len() as int) =~= q);
}

/// The piece `x` sits in `q` right after `p`, where `q` starts with `p + x`.
proof fn lemma_piece(p: Seq<u8>, x: Seq<u8>, q: Seq<u8>)
    requires
        p.len() + x.len() <= q.len(),
        q.subrange(0, (p.len() + x.len()) as int) == p + x,
    ensures
        q.subrange(p.len() as int, (p.len() + x.len()) as int) == x,
        q.subrange(0, p.len() as int) == p,
{
    let l = (p.len() + x.len()) as int;
    assert forall|i: int| 0 <= i < x.len() implies q[p.len() + i] == x[i] by {
        let k = p.len() + i;
        assert(q.subrange(0, l)[k] == q[k]);
        assert((p + x)[k] == x[i]);
    }
    assert forall|i: int| 0 <= i < p.len() implies q[i] == p[i] by {
        assert(q.subrange(0, l)[i] == q[i]);
        assert((p + x)[i] == p[i]);
    }
    assert(q.subrange(p.len() as int, (p.len() + x.len()) as int) =~= x);
    assert(q.subrange(0, p.len() as int) =~= p);
}

/// Where each piece of a header lies once the pieces are laid end to end.
pub(crate) proof fn lemma_layout(
    x0: Seq<u8>,
    x1: Seq<u8>,
    x2: Seq<u8>,
    x3: Seq<u8>,
    x4: Seq<u8>,
    x5: Seq<u8>,
    x6: Seq<u8>,
    x7: Seq<u8>,
    x8: Seq<u8>,
    x9: Seq<u8>,
    x10: Seq<u8>,
    x11: Seq<u8>,
    x12: Seq<u8>,
)
    requires
        x0.len() == 14,
        x1.len() == 4,
        x2.len() == 4,
        x3.len() == 4,
        x4.len() == 4,
        x5.len() == 4,
        x6.len() == 4,
        x7.len() == 4,
        x8.len() == 40,
        x9.len() == 40,
        x10.len() == 40,
        x11.len() == 8,
        x12.len() == 8,
    ensures
        ({
            let b = x0 + x1 + x2 + x3 + x4 + x5 + x6 + x7 + x8 + x9 + x10 + x11 + x12;
            &&& b.len() == HEADER_SIZE
            &&& b.subrange(0, 14) == x0
            &&& field(b, 18, 4) == x2
            &&& field(b, 22, 4) == x3
            &&& field(b, 26, 4) == x4
            &&& field(b, 30, 4) == x5
            &&& field(b, 34, 4) == x6
            &&& field(b, 38, 4) == x7
            &&& field(b, 42, 40) == x8
            &&& field(b, 82, 40) == x9
            &&& field(b, 122, 40) == x10
            &&& field(b, 162, 8) == x11
            &&& field(b, 170, 8) == x12
        }),
{
    let p1 = x0 + x1;
    let p2 = p1 + x2;
    let p3 = p2 + x3;
    let p4 = p3 + x4;
    let p5 = p4 + x5;
    let p6 = p5 + x6;
    let p7 = p6 + x7;
    let p8 = p7 + x8;
    let p9 = p8 + x9;
    let p10 = p9 + x10;
    let p11 = p10 + x11;
    let b = p11 + x12;
    lemma_whole(b);
    lemma_piece(p11, x12, b);
    lemma_piece(p10, x11, b);
    lemma_piece(p9, x10, b);
    lemma_piece(p8, x9, b);
    lemma_piece(p7, x8, b);
    lemma_piece(p6, x7, b);
    lemma_piece(p5, x6, b);
    lemma_piece(p4, x5, b);
    lemma_piece(p3, x4, b);
    lemma_piece(p2, x3, b);
    lemma_piece(p1, x2, b);
    lemma_piece(x0, x1, b);
}

/// A text that fills its slot exactly comes back from the slot unchanged.
proof fn lemma_text_slot_round_trip(s: Seq<char>)
    requires
        encode_utf8(s).len() == TEXT_WIDTH,
    ensures
        text_of(text_slot(s)) == s,
{
    assert(text_slot(s) =~= encode_utf8(s));
    encode_utf8_valid_utf8(s);
    encode_utf8_decode_utf8(s);
}

/// Encoding a header and decoding the bytes gives back every numeric field,
/// the layout and the byte order, and each text that fills its 40-byte slot
/// exactly. The frame count must fit in 32 bits, and an unknown layout code
/// must not be one that the table names.
#[verifier::rlimit(50)]
pub proof fn lemma_header_round_trip(h: SerHeader, d: SerHeader)
    requires
        h.frame_count <= u32::MAX,
        bayer_encodable(h.bayer),
        decodes_to(d, header_bytes(h)),
    ensures
        header_bytes(h).len() == HEADER_SIZE,
        has_signature(header_bytes(h)),
        d.image_width == h.image_width,
        d.image_height == h.image_height,
        d.pixel_depth_per_plane == h.pixel_depth_per_plane,
        d.frame_count == h.frame_count,
        d.bayer == h.bayer,
        d.endianness == h.endianness,
        d.date_time == h.date_time,
        d.date_time_utc == h.date_time_utc,
        encode_utf8(h.observer@).len() == TEXT_WIDTH ==> d.observer@ == h.observer@,
        encode_utf8(h.instrument@).len() == TEXT_WIDTH ==> d.instrument@ == h.instrument@,
        encode_utf8(h.telescope@).len() == TEXT_WIDTH ==> d.telescope@ == h.telescope@,
{
    let b = header_bytes(h);
    lemma_layout(
        signature(),
        le_bytes_u32(0),
        le_bytes_u32(code_of_bayer(h.bayer)),
        le_bytes_u32(code_of_endianness(h.endianness)),
        le_bytes_u32(h.image_width),
        le_bytes_u32(h.image_height),
        le_bytes_u32(h.pixel_depth_per_plane),
        le_bytes_u32(h.frame_count as u32),
        text_slot(h.observer@),
        text_slot(h.instrument@),
        text_slot(h.telescope@),
        le_bytes_u64(h.date_time),
        le_bytes_u64(h.date_time_utc),
    );
    lemma_le_u32_round_trip(code_of_bayer(h.bayer));
    lemma_le_u32_round_trip(code_of_endianness(h.endianness));
    lemma_le_u32_round_trip(h.image_width);
    lemma_le_u32_round_trip(h.image_height);
    lemma_le_u32_round_trip(h.pixel_depth_per_plane);
    lemma_le_u32_round_trip(h.frame_count as u32);
    lemma_le_u64_round_trip(h.date_time);
    lemma_le_u64_round_trip(h.date_time_utc);
    if encode_utf8(h.observer@).len() == TEXT_WIDTH {
        lemma_text_slot_round_trip(h.observer@);
    }
    if encode_utf8(h.instrument@).len() == TEXT_WIDTH {
        lemma_text_slot_round_trip(h.instrument@);
    }
    if encode_utf8(h.telescope@).len() == TEXT_WIDTH {
        lemma_text_slot_round_trip(h.telescope@);
    }
}

} // verus!
