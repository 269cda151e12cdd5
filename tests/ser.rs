use memmap::{Mmap, MmapMut};
use ser_io::bytes::parse_string;
use ser_io::file::parse_ser;
use ser_io::header::{decode_header, encode_header};
use ser_io::{Bayer, Endianness, SerError, SerFile, SerHeader, SerWriter, HEADER_SIZE};

fn mapping(bytes: &[u8]) -> Mmap {
    let mut m = MmapMut::map_anon(bytes.len()).unwrap();
    m.copy_from_slice(bytes);
    m.make_read_only().unwrap()
}

fn sample_header() -> SerHeader {
    SerHeader {
        image_height: 2,
        image_width: 2,
        frame_count: 1,
        pixel_depth_per_plane: 8,
        endianness: Endianness::LittleEndian,
        bayer: Bayer::Mono,
        observer: String::new(),
        telescope: String::new(),
        instrument: String::new(),
        date_time: 0,
        date_time_utc: 0,
    }
}

/// A raw header with the given geometry, built byte by byte.
fn raw_header(bayer: u32, endian: u32, w: u32, h: u32, depth: u32, frames: u32) -> Vec<u8> {
    let mut b = b"LUCAM-RECORDER".to_vec();
    for v in [0u32, bayer, endian, w, h, depth, frames] {
        b.extend_from_slice(&v.to_le_bytes());
    }
    b.extend_from_slice(&[0u8; 120]);
    b.extend_from_slice(&7u64.to_le_bytes());
    b.extend_from_slice(&9u64.to_le_bytes());
    assert_eq!(b.len(), HEADER_SIZE);
    b
}

#[test]
fn bytes_per_pixel_follows_depth() {
    let mut h = sample_header();
    for (depth, bpp) in [(0u32, 1usize), (1, 1), (8, 1), (9, 2), (12, 2), (16, 2), (u32::MAX, 2)] {
        h.pixel_depth_per_plane = depth;
        assert_eq!(h.bytes_per_pixel(), bpp);
    }
}

#[test]
fn frame_and_data_sizes() {
    let mut h = sample_header();
    h.image_width = 640;
    h.image_height = 480;
    h.pixel_depth_per_plane = 16;
    h.frame_count = 3;
    assert_eq!(h.image_frame_size(), 614_400);
    assert_eq!(h.image_data_bytes(), 1_843_200);
    h.frame_count = 0;
    assert_eq!(h.image_data_bytes(), 0);
}

#[test]
fn bayer_rggb_code() {
    assert_eq!(Bayer::from_code(8), Bayer::RGGB);
    assert_eq!(Bayer::RGGB.code(), 8);
}

#[test]
fn bayer_unknown_code_kept() {
    assert_eq!(Bayer::from_code(255), Bayer::Unknown(255));
    assert_eq!(Bayer::from_code(255).code(), 255);
}

#[test]
fn bayer_table() {
    let table = [
        (0u32, Bayer::Mono),
        (8, Bayer::RGGB),
        (9, Bayer::GRBG),
        (10, Bayer::GBRG),
        (11, Bayer::BGGR),
        (16, Bayer::CYYM),
        (17, Bayer::YCMY),
        (18, Bayer::YMCY),
        (19, Bayer::MYYC),
        (100, Bayer::RGB),
        (101, Bayer::BGR),
    ];
    for (c, b) in table {
        assert_eq!(Bayer::from_code(c), b);
        assert_eq!(b.code(), c);
    }
}

#[test]
fn endianness_codes() {
    assert_eq!(Endianness::from_code(0), Endianness::LittleEndian);
    assert_eq!(Endianness::from_code(1), Endianness::BigEndian);
    assert_eq!(Endianness::from_code(7), Endianness::BigEndian);
    assert_eq!(Endianness::BigEndian.code(), 1);
    assert_eq!(Endianness::LittleEndian.code(), 0);
}

#[test]
fn decode_reads_fields() {
    let b = raw_header(9, 1, 0x0102_0304, 480, 12, 5);
    let h = decode_header(&b).unwrap();
    assert_eq!(h.bayer, Bayer::GRBG);
    assert_eq!(h.endianness, Endianness::BigEndian);
    assert_eq!(h.image_width, 0x0102_0304);
    assert_eq!(h.image_height, 480);
    assert_eq!(h.pixel_depth_per_plane, 12);
    assert_eq!(h.frame_count, 5);
    assert_eq!(h.date_time, 7);
    assert_eq!(h.date_time_utc, 9);
    assert_eq!(h.observer, "\0".repeat(40));
}

#[test]
fn decode_rejects_signature() {
    let mut b = raw_header(0, 0, 1, 1, 8, 0);
    b[13] = b'X';
    assert_eq!(decode_header(&b).unwrap_err(), SerError::BadSignature);
}

#[test]
fn encode_layout() {
    let mut h = sample_header();
    h.image_width = 0x0102_0304;
    h.bayer = Bayer::BGR;
    h.endianness = Endianness::BigEndian;
    h.date_time_utc = 0x1122_3344_5566_7788;
    h.observer = "ab".to_string();
    let b = encode_header(&h).unwrap();
    assert_eq!(b.len(), HEADER_SIZE);
    assert_eq!(&b[0..14], b"LUCAM-RECORDER");
    assert_eq!(&b[14..18], &[0, 0, 0, 0]);
    assert_eq!(&b[18..22], &[101, 0, 0, 0]);
    assert_eq!(&b[22..26], &[1, 0, 0, 0]);
    assert_eq!(&b[26..30], &[4, 3, 2, 1]);
    assert_eq!(&b[42..45], &[b'a', b'b', 0]);
    assert_eq!(&b[170..178], &[0x88, 0x77, 0x66, 0x55, 0x44, 0x33, 0x22, 0x11]);
}

#[test]
fn encode_cuts_long_text() {
    let mut h = sample_header();
    h.telescope = "t".repeat(50);
    let b = encode_header(&h).unwrap();
    assert_eq!(b.len(), HEADER_SIZE);
    let d = decode_header(&b).unwrap();
    assert_eq!(d.telescope, "t".repeat(40));
    assert_eq!(d.date_time, h.date_time);
}

#[test]
fn encode_rejects_huge_frame_count() {
    let mut h = sample_header();
    h.frame_count = u32::MAX as usize + 1;
    assert_eq!(encode_header(&h).unwrap_err(), SerError::FrameCountTooLarge);
    assert!(SerWriter::new(&h).is_err());
}

#[test]
fn header_round_trip() {
    let h = SerHeader {
        image_height: 1080,
        image_width: 1920,
        frame_count: 42,
        pixel_depth_per_plane: 16,
        endianness: Endianness::BigEndian,
        bayer: Bayer::Unknown(255),
        observer: "o".repeat(40),
        telescope: "é".repeat(20),
        instrument: "instrument-0123456789-0123456789-0123456".to_string(),
        date_time: u64::MAX,
        date_time_utc: 638_000_000_000_000_000,
    };
    let d = decode_header(&encode_header(&h).unwrap()).unwrap();
    assert_eq!(d.image_height, h.image_height);
    assert_eq!(d.image_width, h.image_width);
    assert_eq!(d.frame_count, h.frame_count);
    assert_eq!(d.pixel_depth_per_plane, h.pixel_depth_per_plane);
    assert_eq!(d.endianness, h.endianness);
    assert_eq!(d.bayer, h.bayer);
    assert_eq!(d.observer, h.observer);
    assert_eq!(d.telescope, h.telescope);
    assert_eq!(d.instrument, h.instrument);
    assert_eq!(d.date_time, h.date_time);
    assert_eq!(d.date_time_utc, h.date_time_utc);
}

#[test]
fn parse_string_cases() {
    assert_eq!(parse_string(b"abc"), "abc");
    assert_eq!(parse_string(&[0xff, 0x41]), "");
    assert_eq!(parse_string(b""), "");
}

#[test]
fn open_too_short() {
    for n in [0usize, 1, 14, 177] {
        let bytes = vec![b'L'; n];
        assert_eq!(parse_ser(&bytes).unwrap_err(), SerError::FileTooShort);
    }
    let mut prefix = raw_header(0, 0, 2, 2, 8, 0);
    prefix.truncate(177);
    let e = SerFile::from_mmap(mapping(&prefix)).err().unwrap();
    assert_eq!(e, SerError::FileTooShort);
    assert!(e.is_structural());
}

#[test]
fn open_bad_signature() {
    let mut b = raw_header(0, 0, 2, 2, 8, 0);
    b[0] = b'l';
    let e = SerFile::from_mmap(mapping(&b)).err().unwrap();
    assert_eq!(e, SerError::BadSignature);
    assert!(e.is_structural());
}

#[test]
fn open_insufficient_data() {
    let mut b = raw_header(0, 0, 2, 2, 16, 3);
    b.extend_from_slice(&[0u8; 23]);
    let e = SerFile::from_mmap(mapping(&b)).err().unwrap();
    assert_eq!(e, SerError::InsufficientData);
    assert!(e.is_structural());
    let huge = raw_header(0, 0, u32::MAX, u32::MAX, 16, u32::MAX);
    assert_eq!(parse_ser(&huge).unwrap_err(), SerError::InsufficientData);
}

#[test]
fn trailer_absent_or_short() {
    let mut b = raw_header(0, 0, 1, 1, 8, 2);
    b.extend_from_slice(&[5, 6]);
    let (_, ts) = parse_ser(&b).unwrap();
    assert!(ts.is_empty());
    b.extend_from_slice(&[1u8; 15]);
    let (_, ts) = parse_ser(&b).unwrap();
    assert!(ts.is_empty());
}

#[test]
fn trailer_present() {
    let mut b = raw_header(0, 0, 1, 1, 8, 2);
    b.extend_from_slice(&[5, 6]);
    b.extend_from_slice(&0x0102_0304_0506_0708u64.to_le_bytes());
    b.extend_from_slice(&99u64.to_le_bytes());
    b.push(0);
    let f = SerFile::from_mmap(mapping(&b)).ok().unwrap();
    assert_eq!(f.timestamps, vec![0x0102_0304_0506_0708, 99]);
}

#[test]
fn read_frames_by_index() {
    let mut b = raw_header(0, 0, 3, 1, 10, 2);
    b.extend_from_slice(&[1, 2, 3, 4, 5, 6, 7, 8, 9, 10, 11, 12]);
    let f = SerFile::from_mmap(mapping(&b)).ok().unwrap();
    assert_eq!(f.header.image_frame_size(), 6);
    assert_eq!(f.read_frame(0).unwrap(), &[1, 2, 3, 4, 5, 6]);
    assert_eq!(f.read_frame(1).unwrap(), &[7, 8, 9, 10, 11, 12]);
    assert_eq!(f.read_frame(2).unwrap_err(), SerError::InvalidFrameIndex);
    assert_eq!(f.read_frame(usize::MAX).unwrap_err(), SerError::InvalidFrameIndex);
}

#[test]
fn end_to_end_mono_frame() {
    let mut b = raw_header(0, 0, 2, 2, 8, 1);
    b.extend_from_slice(&[10, 20, 30, 40]);
    let f = SerFile::from_mmap(mapping(&b)).ok().unwrap();
    assert_eq!(f.header.image_frame_size(), 4);
    assert_eq!(f.header.bayer, Bayer::Mono);
    assert_eq!(f.read_frame(0).unwrap(), &[10, 20, 30, 40]);
    assert!(f.timestamps.is_empty());
}

#[test]
fn write_frame_size_mismatch() {
    let h = sample_header();
    let mut w = SerWriter::new(&h).unwrap();
    let before = w.take_output();
    assert_eq!(before.len(), HEADER_SIZE);
    assert_eq!(w.write_frame(&[1, 2, 3]).unwrap_err(), SerError::SizeMismatch);
    assert_eq!(w.write_frame(&[1, 2, 3, 4, 5]).unwrap_err(), SerError::SizeMismatch);
    assert!(w.take_output().is_empty());
    assert!(w.write_frame(&[1, 2, 3, 4]).is_ok());
    assert_eq!(w.take_output(), vec![1, 2, 3, 4]);
}

#[test]
fn write_then_read_back() {
    let mut h = sample_header();
    h.frame_count = 2;
    h.observer = "someone".to_string();
    let mut w = SerWriter::new(&h).unwrap();
    w.write_frame(&[1, 2, 3, 4]).unwrap();
    w.write_frame(&[5, 6, 7, 8]).unwrap();
    w.write_timestamps(&[1, 0x0a0b_0c0d_0e0f_1011]);
    let bytes = w.take_output();
    assert_eq!(bytes.len(), HEADER_SIZE + 8 + 16);
    assert_eq!(&bytes[HEADER_SIZE + 16..], &[0x11, 0x10, 0x0f, 0x0e, 0x0d, 0x0c, 0x0b, 0x0a]);
    let f = SerFile::from_mmap(mapping(&bytes)).ok().unwrap();
    assert_eq!(f.read_frame(1).unwrap(), &[5, 6, 7, 8]);
    assert_eq!(f.timestamps, vec![1, 0x0a0b_0c0d_0e0f_1011]);
    assert!(f.header.observer.starts_with("someone"));
    assert_eq!(f.header.observer.len(), 40);
}

#[test]
fn structural_kinds() {
    assert!(!SerError::InvalidFrameIndex.is_structural());
    assert!(!SerError::SizeMismatch.is_structural());
    assert!(!SerError::FrameCountTooLarge.is_structural());
}
