//! A SER file seen as bytes: its layout, and frame access over a read-only mapping.
use memmap::Mmap;
use vstd::prelude::*;
use vstd::slice::slice_subrange;
use crate::bytes::{le_u32, le_u64, read_u64_le};
use crate::error::SerError;
use crate::header::{
    decode_header, decodes_to, field, frame_size_of, has_signature, SerHeader, HEADER_SIZE,
};

verus! {

#[verifier::external_type_specification]
#[verifier::external_body]
pub struct ExMmap(Mmap);

/// The bytes that a read-only mapping holds.
pub uninterp spec fn mapped_bytes(m: Mmap) -> Seq<u8>;

/// Relies on `memmap::Mmap`'s `Deref<Target = [u8]>`: a view of the bytes of
/// the mapping, which are fixed for its lifetime while the mapped file is
/// left alone (the condition under which such a mapping may be made).
#[verifier::external_body]
fn mapped(m: &Mmap) -> (r: &[u8])
    ensures
        r@ == mapped_bytes(*m),
{
    &m[..]
}

/// Image bytes that the header at the start of `b` declares.
pub open spec fn declared_data_bytes(b: Seq<u8>) -> int {
    frame_size_of(le_u32(field(b, 34, 4)), le_u32(field(b, 26, 4)), le_u32(field(b, 30, 4)))
        * le_u32(field(b, 38, 4))
}

/// Why the file bytes `b` cannot be opened, if they cannot.
pub open spec fn layout_error(b: Seq<u8>) -> Option<SerError> {
    if b.len() < HEADER_SIZE {
        Some(SerError::FileTooShort)
    } else if !has_signature(b) {
        Some(SerError::BadSignature)
    } else if b.len() < HEADER_SIZE + declared_data_bytes(b) {
        Some(SerError::InsufficientData)
    } else {
        None
    }
}

/// The `count` little-endian `u64`s from `start`, or none when `b` is too short for them all.
pub open spec fn timestamps_at(b: Seq<u8>, start: int, count: int) -> Seq<u64> {
    if b.len() >= start + 8 * count {
        Seq::new(count as nat, |i: int| le_u64(field(b, start + 8 * i, 8)))
    } else {
        Seq::empty()
    }
}

/// The per-frame timestamps of the trailer after the image data.
pub open spec fn trailer_of(b: Seq<u8>) -> Seq<u64> {
    timestamps_at(b, HEADER_SIZE + declared_data_bytes(b), le_u32(field(b, 38, 4)) as int)
}

/// The bytes of frame `i`, each frame being `size` bytes long.
pub open spec fn frame_of(b: Seq<u8>, size: int, i: int) -> Seq<u8> {
    b.subrange(HEADER_SIZE + i * size, HEADER_SIZE + (i + 1) * size)
}

/// Checks the layout of a whole file and decodes its header and timestamp trailer.
pub fn parse_ser(b: &[u8]) -> (r: Result<(SerHeader, Vec<u64>), SerError>)
    ensures
        match r {
            Ok((h, ts)) => layout_error(b@) is None && decodes_to(h, b@) && ts@ == trailer_of(b@),
            Err(e) => layout_error(b@) == Some(e),
        },
{
    if b.len() < HEADER_SIZE {
        return Err(SerError::FileTooShort);
    }
    let header = match decode_header(b) {
        Ok(h) => h,
        Err(e) => {
            return Err(e);
        },
    };
    let fs = header.frame_size_u128();
    let fc = header.frame_count as u128;
    assert(fs * fc <= 2 * 0xffff_ffffu128 * 0xffff_ffffu128 * 0xffff_ffffu128) by (nonlinear_arith)
        requires
            fs <= 2 * 0xffff_ffffu128 * 0xffff_ffffu128,
            fc <= 0xffff_ffffu128,
    ;
    let data = fs * fc;
    assert(data == declared_data_bytes(b@));
    let len = b.len();
    if (len as u128) < HEADER_SIZE as u128 + data {
        return Err(SerError::InsufficientData);
    }
    let data_end: usize = HEADER_SIZE + data as usize;
    let mut timestamps: Vec<u64> = Vec::new();
    if (len - data_end) as u128 >= 8 * fc {
        let count = header.frame_count;
        let mut i: usize = 0;
        while i < count
            invariant
                i <= count,
                count == fc,
                len == b@.len(),
                data_end + 8 * fc <= len,
                timestamps@ =~= Seq::new(
                    i as nat,
                    |k: int| le_u64(field(b@, data_end + 8 * k, 8)),
                ),
            decreases count - i,
        {
            let off = data_end + 8 * i;
            timestamps.push(read_u64_le(slice_subrange(b, off, off + 8)));
            i = i + 1;
        }
    }
    Ok((header, timestamps))
}

/// An open SER file: a read-only mapping of its bytes, the decoded header,
/// and the timestamps of the trailer.
pub struct SerFile {
    /// Memory-mapped file, read-only for the life of the handle
    pub mmap: Mmap,
    /// SER header
    pub header: SerHeader,
    /// Timestamp in UTC of each frame; empty when the file has no full trailer
    pub timestamps: Vec<u64>,
}

impl SerFile {
    /// The bytes of the file.
    pub open spec fn bytes(&self) -> Seq<u8> {
        mapped_bytes(self.mmap)
    }

    /// The header and timestamps are those of the bytes, whose layout is sound.
    pub open spec fn wf(&self) -> bool {
        &&& layout_error(self.bytes()) is None
        &&& decodes_to(self.header, self.bytes())
        &&& self.timestamps@ == trailer_of(self.bytes())
    }

    /// Opens a SER file held in a read-only mapping, checking its layout.
    pub fn from_mmap(mmap: Mmap) -> (r: Result<SerFile, SerError>)
        ensures
            match r {
                Ok(f) => f.bytes() == mapped_bytes(mmap) && f.wf(),
                Err(e) => layout_error(mapped_bytes(mmap)) == Some(e),
            },
    {
        let parsed = parse_ser(mapped(&mmap));
        match parsed {
            Ok((header, timestamps)) => Ok(SerFile { mmap, header, timestamps }),
            Err(e) => Err(e),
        }
    }

    /// Read the frame at the given index: a view into the mapping.
    pub fn read_frame(&self, i: usize) -> (r: Result<&[u8], SerError>)
        ensures
            r is Ok <==> i < self.header.frame_count && HEADER_SIZE + (i + 1)
                * self.header.frame_size_spec() <= self.bytes().len(),
            r matches Ok(f) ==> f@ == frame_of(self.bytes(), self.header.frame_size_spec(), i as int),
            r matches Err(e) ==> e == SerError::InvalidFrameIndex,
            self.wf() ==> (r is Ok <==> i < self.header.frame_count),
    {
        let b = mapped(&self.mmap);
        let len = b.len();
        let fs = self.header.frame_size_u128();
        proof {
            if self.wf() && i < self.header.frame_count {
                let n = self.header.frame_count as int;
                assert((i + 1) * fs <= n * fs) by (nonlinear_arith)
                    requires
                        i + 1 <= n,
                        fs >= 0,
                ;
                assert(declared_data_bytes(self.bytes()) == fs * n);
                assert(HEADER_SIZE + (i + 1) * fs <= b@.len());
            }
        }
        if i >= self.header.frame_count {
            return Err(SerError::InvalidFrameIndex);
        }
        let end = match (i as u128 + 1).checked_mul(fs) {
            Some(e) => e,
            None => {
                assert((i + 1) * self.header.frame_size_spec() > len + HEADER_SIZE);
                return Err(SerError::InvalidFrameIndex);
            },
        };
        if len < HEADER_SIZE || end > (len - HEADER_SIZE) as u128 {
            return Err(SerError::InvalidFrameIndex);
        }
        assert(end - fs == i * fs) by (nonlinear_arith)
            requires
                end == (i + 1) * fs,
        ;
        let start = HEADER_SIZE + (end - fs) as usize;
        Ok(slice_subrange(b, start, HEADER_SIZE + end as usize))
    }
}

} // verus!
