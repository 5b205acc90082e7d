use pgs::wire::{SegmentHeader, Wire};
use pgs::{decode_display_sets, decode_segment, DecodeError, Header, Segment, SubtitleDecoder};

fn segment(kind: u8, pts: u32, payload: &[u8]) -> Vec<u8> {
    let mut v = vec![0x50, 0x47];
    v.extend(pts.to_be_bytes());
    v.extend(3u32.to_be_bytes());
    v.push(kind);
    v.extend((payload.len() as u16).to_be_bytes());
    v.extend_from_slice(payload);
    v
}

fn pcs(state: u8, object: Option<u16>) -> Vec<u8> {
    let mut v = vec![0, 16, 0, 9, 0x10, 0, 1, state, 0x80, 0];
    match object {
        None => v.push(0),
        Some(id) => {
            v.push(1);
            v.extend(id.to_be_bytes());
            v.extend([0, 0, 0, 0, 0, 0]);
        }
    }
    v
}

#[test]
fn header_fields_read_big_endian() {
    let bytes = segment(0x80, 0x01020304, &[9, 9]);
    let (h, end) = SegmentHeader::read(&bytes, 0).unwrap();
    assert_eq!(end, 13);
    assert_eq!(h.magic_number, 0x5047);
    assert_eq!(h.pts, 0x01020304);
    assert_eq!(h.dts, 3);
    assert_eq!(h.segment_type, 0x80);
    assert_eq!(h.segment_size, 2);
    assert_eq!(Header::from(h), Header { pts: 0x01020304, dts: 3 });
    assert_eq!(SegmentHeader::read(&bytes[..12], 0), Err(DecodeError::UnexpectedEof));
}

#[test]
fn segments_decode_from_any_offset() {
    let mut bytes = segment(0x80, 1, &[]);
    bytes.extend(segment(0x80, 2, &[7]));
    let (first, p) = decode_segment(&bytes, 0).unwrap();
    let (second, q) = decode_segment(&bytes, p).unwrap();
    assert_eq!(p, 13);
    assert_eq!(q, bytes.len());
    assert!(matches!(first, Segment::END(e) if e.header.pts == 1));
    assert!(matches!(second, Segment::END(e) if e.header.pts == 2));
    assert_eq!(decode_segment(&bytes, q).map(|r| r.1), Err(DecodeError::UnexpectedEof));
}

#[test]
fn decoder_steps_through_display_sets() {
    let mut bytes = segment(0x16, 0, &pcs(0x80, Some(4)));
    bytes.extend(segment(0x14, 0, &[0, 0, 1, 255, 128, 128, 255]));
    bytes.extend(segment(0x15, 0, &[0, 4, 0, 0xC0, 0, 0, 5, 0, 1, 0, 1, 1]));
    bytes.extend(segment(0x80, 0, &[]));
    bytes.extend(segment(0x16, 180_000, &pcs(0x40, None)));
    bytes.extend(segment(0x80, 180_000, &[]));
    let sets = decode_display_sets(&bytes).unwrap();
    assert_eq!(sets.len(), 2);
    assert!(sets[0].pcs.palette_update);

    let decoder = SubtitleDecoder::new();
    let decoder = decoder.process_display_set(&sets[0]).unwrap();
    assert_eq!(decoder.subtitles().len(), 1);
    assert_eq!(decoder.subtitles()[0].range.end, pgs::Duration::max_value());
    let decoder = decoder.process_display_set(&sets[1]).unwrap();
    let subs = decoder.into_subtitles();
    assert_eq!(subs.len(), 1);
    assert_eq!(subs[0].range.end, pgs::Duration { secs: 2, nanos: 0 });
    assert_eq!(subs[0].bitmap.pixels, vec![255, 255, 255, 255]);
}

#[test]
fn decoder_wants_an_epoch_start_first() {
    let mut bytes = segment(0x16, 0, &pcs(0x40, None));
    bytes.extend(segment(0x80, 0, &[]));
    let sets = decode_display_sets(&bytes).unwrap();
    assert_eq!(
        SubtitleDecoder::new().process_display_set(&sets[0]).map(|d| d.into_subtitles().len()),
        Err(DecodeError::MissingEpochStart)
    );
}
