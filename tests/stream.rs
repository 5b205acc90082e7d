use pgs::timeline::clock_to_duration;
use pgs::{
    decode_display_set, decode_display_sets, decode_segment, subtitles_extract, CompositionObjectCropping,
    CompositionState, DecodeError, Duration, LastInSequenceFlag, Segment,
};

const PDS: u8 = 0x14;
const ODS: u8 = 0x15;
const PCS: u8 = 0x16;
const WDS: u8 = 0x17;
const END: u8 = 0x80;

const EPOCH_START: u8 = 0x80;
const NORMAL: u8 = 0x00;

fn segment(kind: u8, pts: u32, payload: &[u8]) -> Vec<u8> {
    let mut v = vec![0x50, 0x47];
    v.extend(pts.to_be_bytes());
    v.extend(0u32.to_be_bytes());
    v.push(kind);
    v.extend((payload.len() as u16).to_be_bytes());
    v.extend_from_slice(payload);
    v
}

/// `objects` holds (object id, cropping as x, y, width, height).
fn pcs(state: u8, palette_id: u8, objects: &[(u16, Option<(u16, u16, u16, u16)>)]) -> Vec<u8> {
    let mut v = Vec::new();
    v.extend(1920u16.to_be_bytes());
    v.extend(1080u16.to_be_bytes());
    v.push(0x10);
    v.extend(7u16.to_be_bytes());
    v.push(state);
    v.push(0x00);
    v.push(palette_id);
    v.push(objects.len() as u8);
    for (id, crop) in objects {
        v.extend(id.to_be_bytes());
        v.push(0);
        match crop {
            None => {
                v.push(0x00);
                v.extend(100u16.to_be_bytes());
                v.extend(200u16.to_be_bytes());
            }
            Some((x, y, w, h)) => {
                v.push(0x40);
                v.extend(100u16.to_be_bytes());
                v.extend(200u16.to_be_bytes());
                v.extend(x.to_be_bytes());
                v.extend(y.to_be_bytes());
                v.extend(w.to_be_bytes());
                v.extend(h.to_be_bytes());
            }
        }
    }
    v
}

fn pds(palette_id: u8, entries: &[[u8; 5]]) -> Vec<u8> {
    let mut v = vec![palette_id, 0];
    for e in entries {
        v.extend_from_slice(e);
    }
    v
}

fn ods(id: u16, flag: u8, width: u16, height: u16, data: &[u8]) -> Vec<u8> {
    let mut v = Vec::new();
    v.extend(id.to_be_bytes());
    v.push(0);
    v.push(flag);
    let len = (data.len() + 4) as u32;
    v.extend(&len.to_be_bytes()[1..]);
    v.extend(width.to_be_bytes());
    v.extend(height.to_be_bytes());
    v.extend_from_slice(data);
    v
}

fn white_palette() -> Vec<u8> {
    pds(0, &[[1, 255, 128, 128, 255]])
}

fn secs(s: u64) -> Duration {
    Duration { secs: s, nanos: 0 }
}

#[test]
fn clock_ticks_become_durations() {
    assert_eq!(clock_to_duration(0), secs(0));
    assert_eq!(clock_to_duration(90_000 * 5), secs(5));
    assert_eq!(clock_to_duration(90_001), Duration { secs: 1, nanos: 11_111 });
    assert_eq!(clock_to_duration(45_000), Duration { secs: 0, nanos: 499_995_000 });
    assert_eq!(
        clock_to_duration(u32::MAX),
        Duration { secs: 47_721, nanos: (u32::MAX % 90_000) * 11_111 }
    );
}

#[test]
fn pcs_segment_decodes_with_cropping() {
    let bytes = segment(PCS, 900, &pcs(EPOCH_START, 3, &[(1, None), (2, Some((1, 2, 3, 4)))]));
    let (seg, end) = decode_segment(&bytes, 0).unwrap();
    assert_eq!(end, bytes.len());
    match seg {
        Segment::PCS(p) => {
            assert_eq!(p.header.pts, 900);
            assert_eq!(p.header.dts, 0);
            assert_eq!(p.width, 1920);
            assert_eq!(p.height, 1080);
            assert_eq!(p.composition_number, 7);
            assert_eq!(p.composition_state, CompositionState::EpochStart);
            assert!(!p.palette_update);
            assert_eq!(p.palette_id, 3);
            assert_eq!(p.composition_objects.len(), 2);
            assert_eq!(p.composition_objects[0].object_id, 1);
            assert_eq!(p.composition_objects[0].horizontal_position, 100);
            assert_eq!(p.composition_objects[0].vertical_position, 200);
            assert_eq!(p.composition_objects[0].cropping, None);
            assert_eq!(
                p.composition_objects[1].cropping,
                Some(CompositionObjectCropping { horizontal_position: 1, vertical_position: 2, width: 3, height: 4 })
            );
        }
        _ => panic!("expected a composition segment"),
    }
}

#[test]
fn wds_segment_decodes() {
    let payload = [2, 1, 0, 10, 0, 20, 0, 30, 0, 40, 2, 0, 1, 0, 2, 0, 3, 0, 4];
    let bytes = segment(WDS, 0, &payload);
    match decode_segment(&bytes, 0).unwrap().0 {
        Segment::WDS(w) => {
            assert_eq!(w.windows.len(), 2);
            assert_eq!(w.windows[0].window_id, 1);
            assert_eq!(w.windows[0].horizontal_position, 10);
            assert_eq!(w.windows[0].vertical_position, 20);
            assert_eq!(w.windows[0].width, 30);
            assert_eq!(w.windows[0].height, 40);
            assert_eq!(w.windows[1].window_id, 2);
            assert_eq!(w.windows[1].height, 4);
        }
        _ => panic!("expected a window segment"),
    }
}

#[test]
fn pds_segment_fills_listed_entries_only() {
    let bytes = segment(PDS, 0, &pds(4, &[[7, 1, 2, 3, 4], [9, 5, 6, 7, 8], [7, 9, 9, 9, 9]]));
    match decode_segment(&bytes, 0).unwrap().0 {
        Segment::PDS(p) => {
            assert_eq!(p.palette_id, 4);
            assert_eq!(p.entries[7].entry_id, 7);
            assert_eq!(p.entries[7].luminance, 9);
            assert_eq!(p.entries[9].transparency, 8);
            assert_eq!(p.entries[0].entry_id, 0);
            assert_eq!(p.entries[0].luminance, 0);
            assert_eq!(p.entries[8].transparency, 0);
        }
        _ => panic!("expected a palette segment"),
    }
}

#[test]
fn pds_with_partial_entry_is_truncated() {
    let bytes = segment(PDS, 0, &[0, 0, 1, 2, 3]);
    assert_eq!(decode_segment(&bytes, 0).map(|r| r.1), Err(DecodeError::UnexpectedEof));
}

#[test]
fn ods_segment_decodes_flags_and_data() {
    for (flag, expected) in [
        (0x80, LastInSequenceFlag::First),
        (0x40, LastInSequenceFlag::Last),
        (0xC0, LastInSequenceFlag::FirstAndLast),
    ] {
        let bytes = segment(ODS, 0, &ods(5, flag, 2, 1, &[1, 2]));
        match decode_segment(&bytes, 0).unwrap().0 {
            Segment::ODS(o) => {
                assert_eq!(o.object_id, 5);
                assert_eq!(o.last_in_sequence, expected);
                assert_eq!(o.width, 2);
                assert_eq!(o.height, 1);
                assert_eq!(o.data, vec![1, 2]);
            }
            _ => panic!("expected an object segment"),
        }
    }
}

#[test]
fn end_segment_decodes() {
    let bytes = segment(END, 77, &[]);
    match decode_segment(&bytes, 0).unwrap() {
        (Segment::END(e), 13) => assert_eq!(e.header.pts, 77),
        _ => panic!("expected an end segment"),
    }
}

#[test]
fn segment_errors() {
    let mut bad_magic = segment(END, 0, &[]);
    bad_magic[0] = b'X';
    assert_eq!(decode_segment(&bad_magic, 0).map(|r| r.1), Err(DecodeError::InvalidMagic));
    let bad_type = segment(0x42, 0, &[]);
    assert_eq!(decode_segment(&bad_type, 0).map(|r| r.1), Err(DecodeError::InvalidSegmentType));
    let bad_state = segment(PCS, 0, &pcs(0x20, 0, &[]));
    assert_eq!(decode_segment(&bad_state, 0).map(|r| r.1), Err(DecodeError::InvalidCompositionState));
    let mut bad_update = pcs(NORMAL, 0, &[]);
    bad_update[8] = 0x01;
    assert_eq!(
        decode_segment(&segment(PCS, 0, &bad_update), 0).map(|r| r.1),
        Err(DecodeError::InvalidPaletteUpdateFlag)
    );
    let mut bad_crop = pcs(NORMAL, 0, &[(1, None)]);
    bad_crop[14] = 0x20;
    assert_eq!(
        decode_segment(&segment(PCS, 0, &bad_crop), 0).map(|r| r.1),
        Err(DecodeError::InvalidCroppedFlag)
    );
    let bad_flag = segment(ODS, 0, &ods(1, 0x10, 1, 1, &[1]));
    assert_eq!(decode_segment(&bad_flag, 0).map(|r| r.1), Err(DecodeError::InvalidLastInSequenceFlag));
    let mut short = segment(END, 0, &[1, 2, 3]);
    short.pop();
    assert_eq!(decode_segment(&short, 0).map(|r| r.1), Err(DecodeError::UnexpectedEof));
    assert_eq!(decode_segment(&short[..12], 0).map(|r| r.1), Err(DecodeError::UnexpectedEof));
}

#[test]
fn display_set_groups_segments() {
    let mut bytes = segment(PCS, 0, &pcs(EPOCH_START, 0, &[(1, None)]));
    bytes.extend(segment(WDS, 0, &[1, 0, 0, 0, 0, 0, 0, 0, 1, 0, 1]));
    bytes.extend(segment(PDS, 0, &white_palette()));
    bytes.extend(segment(ODS, 0, &ods(1, 0xC0, 1, 1, &[1])));
    bytes.extend(segment(END, 0, &[]));
    let (ds, end) = decode_display_set(&bytes, 0).unwrap();
    assert_eq!(end, bytes.len());
    assert_eq!(ds.wds.len(), 1);
    assert_eq!(ds.pds.len(), 1);
    assert_eq!(ds.ods.len(), 1);
    assert_eq!(ds.pcs.composition_objects.len(), 1);
}

#[test]
fn display_set_order_errors() {
    let bytes = segment(END, 0, &[]);
    assert_eq!(decode_display_set(&bytes, 0).map(|r| r.1), Err(DecodeError::ExpectedPcs));
    let mut twice = segment(PCS, 0, &pcs(NORMAL, 0, &[]));
    twice.extend(segment(PCS, 0, &pcs(NORMAL, 0, &[])));
    twice.extend(segment(END, 0, &[]));
    assert_eq!(decode_display_set(&twice, 0).map(|r| r.1), Err(DecodeError::UnexpectedPcs));
}

#[test]
fn display_sets_stop_at_clean_end_only() {
    let mut bytes = segment(PCS, 0, &pcs(EPOCH_START, 0, &[]));
    bytes.extend(segment(END, 0, &[]));
    bytes.extend(segment(PCS, 9, &pcs(NORMAL, 0, &[])));
    bytes.extend(segment(END, 9, &[]));
    let sets = decode_display_sets(&bytes).unwrap();
    assert_eq!(sets.len(), 2);
    assert_eq!(sets[1].pcs.header.pts, 9);
    assert_eq!(decode_display_sets(&[]).map(|s| s.len()), Ok(0));
    let cut = &bytes[..bytes.len() - 13];
    assert_eq!(decode_display_sets(cut).map(|s| s.len()), Err(DecodeError::UnexpectedEof));
}

/// Three display sets at 0 s, 5 s and 10 s: the first opens X, the second opens Y
/// and closes X, the third opens nothing and closes Y.
fn three_sets() -> Vec<u8> {
    let mut bytes = segment(PCS, 0, &pcs(EPOCH_START, 0, &[(1, None)]));
    bytes.extend(segment(PDS, 0, &white_palette()));
    bytes.extend(segment(ODS, 0, &ods(1, 0xC0, 1, 1, &[1])));
    bytes.extend(segment(END, 0, &[]));
    bytes.extend(segment(PCS, 5 * 90_000, &pcs(NORMAL, 0, &[(2, None)])));
    bytes.extend(segment(ODS, 5 * 90_000, &ods(2, 0xC0, 2, 1, &[0x00, 0x02])));
    bytes.extend(segment(END, 5 * 90_000, &[]));
    bytes.extend(segment(PCS, 10 * 90_000, &pcs(NORMAL, 0, &[])));
    bytes.extend(segment(END, 10 * 90_000, &[]));
    bytes
}

#[test]
fn timeline_closes_each_set_at_the_next() {
    let subs = subtitles_extract(&three_sets()).unwrap();
    assert_eq!(subs.len(), 2);
    assert_eq!(subs[0].range.begin, secs(0));
    assert_eq!(subs[0].range.end, secs(5));
    assert_eq!(subs[0].bitmap.pixels, vec![255, 255, 255, 255]);
    assert_eq!(subs[1].range.begin, secs(5));
    assert_eq!(subs[1].range.end, secs(10));
    assert_eq!(subs[1].bitmap.width, 2);
    assert_eq!(subs[1].bitmap.pixels, vec![0; 8]);
}

#[test]
fn last_subtitle_stays_open() {
    let mut bytes = three_sets();
    bytes.truncate(bytes.len() - (13 + 11) - 13);
    let subs = subtitles_extract(&bytes).unwrap();
    assert_eq!(subs.len(), 2);
    assert_eq!(subs[1].range.end, Duration::max_value());
}

#[test]
fn first_set_must_start_an_epoch() {
    let mut bytes = segment(PCS, 0, &pcs(NORMAL, 0, &[]));
    bytes.extend(segment(PDS, 0, &white_palette()));
    bytes.extend(segment(END, 0, &[]));
    assert_eq!(subtitles_extract(&bytes).map(|s| s.len()), Err(DecodeError::MissingEpochStart));
    assert_eq!(subtitles_extract(&[]).map(|s| s.len()), Ok(0));
}

#[test]
fn unknown_palette_is_an_error() {
    let mut bytes = segment(PCS, 0, &pcs(EPOCH_START, 3, &[]));
    bytes.extend(segment(PDS, 0, &white_palette()));
    bytes.extend(segment(END, 0, &[]));
    assert_eq!(subtitles_extract(&bytes).map(|s| s.len()), Err(DecodeError::UnknownPalette));
}

#[test]
fn epoch_start_forgets_earlier_objects() {
    let mut bytes = segment(PCS, 0, &pcs(EPOCH_START, 0, &[(1, None)]));
    bytes.extend(segment(PDS, 0, &white_palette()));
    bytes.extend(segment(ODS, 0, &ods(1, 0xC0, 1, 1, &[1])));
    bytes.extend(segment(END, 0, &[]));
    // a normal set still shows object 1
    bytes.extend(segment(PCS, 90_000, &pcs(NORMAL, 0, &[(1, None)])));
    bytes.extend(segment(END, 90_000, &[]));
    // after an epoch start, object 1 is unknown and skipped
    bytes.extend(segment(PCS, 180_000, &pcs(EPOCH_START, 0, &[(1, None)])));
    bytes.extend(segment(PDS, 180_000, &white_palette()));
    bytes.extend(segment(END, 180_000, &[]));
    let subs = subtitles_extract(&bytes).unwrap();
    assert_eq!(subs.len(), 2);
    assert_eq!(subs[1].range.begin, secs(1));
    assert_eq!(subs[1].range.end, secs(2));
}

#[test]
fn epoch_start_forgets_earlier_palettes() {
    let mut bytes = segment(PCS, 0, &pcs(EPOCH_START, 0, &[]));
    bytes.extend(segment(PDS, 0, &white_palette()));
    bytes.extend(segment(END, 0, &[]));
    bytes.extend(segment(PCS, 90_000, &pcs(EPOCH_START, 0, &[])));
    bytes.extend(segment(END, 90_000, &[]));
    assert_eq!(subtitles_extract(&bytes).map(|s| s.len()), Err(DecodeError::UnknownPalette));
}

fn fragments(first: &[u8], last: &[u8]) -> Vec<u8> {
    let mut bytes = segment(PCS, 0, &pcs(EPOCH_START, 0, &[(1, None)]));
    bytes.extend(segment(PDS, 0, &white_palette()));
    bytes.extend(segment(ODS, 0, &ods(1, 0x80, 3, 1, first)));
    bytes.extend(segment(ODS, 0, &ods(1, 0x40, 3, 1, last)));
    bytes.extend(segment(END, 0, &[]));
    bytes
}

#[test]
fn fragments_join_before_decoding() {
    let split = subtitles_extract(&fragments(&[1, 0], &[1, 1])).unwrap();
    let mut whole = segment(PCS, 0, &pcs(EPOCH_START, 0, &[(1, None)]));
    whole.extend(segment(PDS, 0, &white_palette()));
    whole.extend(segment(ODS, 0, &ods(1, 0xC0, 3, 1, &[1, 0, 1, 1])));
    whole.extend(segment(END, 0, &[]));
    let joined = subtitles_extract(&whole).unwrap();
    assert_eq!(split.len(), 1);
    assert_eq!(joined.len(), 1);
    assert_eq!(split[0].bitmap.pixels, joined[0].bitmap.pixels);
    assert_eq!(
        split[0].bitmap.pixels,
        vec![255, 255, 255, 255, 0, 0, 0, 0, 255, 255, 255, 255]
    );
}

#[test]
fn first_fragment_alone_is_not_shown() {
    let mut bytes = segment(PCS, 0, &pcs(EPOCH_START, 0, &[(1, None)]));
    bytes.extend(segment(PDS, 0, &white_palette()));
    bytes.extend(segment(ODS, 0, &ods(1, 0x80, 1, 1, &[1])));
    bytes.extend(segment(END, 0, &[]));
    assert_eq!(subtitles_extract(&bytes).map(|s| s.len()), Ok(0));
}

#[test]
fn last_fragment_after_finished_object_is_rejected() {
    let mut bytes = segment(PCS, 0, &pcs(EPOCH_START, 0, &[]));
    bytes.extend(segment(PDS, 0, &white_palette()));
    bytes.extend(segment(ODS, 0, &ods(1, 0xC0, 1, 1, &[1])));
    bytes.extend(segment(ODS, 0, &ods(1, 0x40, 1, 1, &[1])));
    bytes.extend(segment(END, 0, &[]));
    assert_eq!(subtitles_extract(&bytes).map(|s| s.len()), Err(DecodeError::ObjectAlreadyFinished));
}

#[test]
fn cropped_composition_shows_part_of_the_object() {
    let mut bytes = segment(PCS, 0, &pcs(EPOCH_START, 0, &[(1, Some((1, 0, 1, 1)))]));
    bytes.extend(segment(PDS, 0, &white_palette()));
    // a 2x1 object: a transparent pixel, then a white one
    bytes.extend(segment(ODS, 0, &ods(1, 0xC0, 2, 1, &[0x00, 0x01, 0x01])));
    bytes.extend(segment(END, 0, &[]));
    let subs = subtitles_extract(&bytes).unwrap();
    assert_eq!(subs.len(), 1);
    assert_eq!(subs[0].bitmap.width, 1);
    assert_eq!(subs[0].bitmap.height, 1);
    assert_eq!(subs[0].bitmap.pixels, vec![255, 255, 255, 255]);
}

#[test]
fn cropping_outside_the_object_is_an_error() {
    let mut bytes = segment(PCS, 0, &pcs(EPOCH_START, 0, &[(1, Some((1, 0, 2, 1)))]));
    bytes.extend(segment(PDS, 0, &white_palette()));
    bytes.extend(segment(ODS, 0, &ods(1, 0xC0, 2, 1, &[0x00, 0x01, 0x01])));
    bytes.extend(segment(END, 0, &[]));
    assert_eq!(subtitles_extract(&bytes).map(|s| s.len()), Err(DecodeError::InvalidCropping));
}

#[test]
fn rle_errors_reach_the_caller() {
    let mut bytes = segment(PCS, 0, &pcs(EPOCH_START, 0, &[]));
    bytes.extend(segment(PDS, 0, &white_palette()));
    bytes.extend(segment(ODS, 0, &ods(1, 0xC0, 2, 2, &[1])));
    bytes.extend(segment(END, 0, &[]));
    assert_eq!(subtitles_extract(&bytes).map(|s| s.len()), Err(DecodeError::RleLengthMismatch));
}
