use pgs::image::viewer_page;
use pgs::srt::{srt_duration_display, subtitles_to_srt, TextSubtitle};
use pgs::{Bitmap, Duration, TimeRange};

fn d(secs: u64, millis: u32) -> Duration {
    Duration { secs, nanos: millis * 1_000_000 }
}

fn sub(begin: Duration, end: Duration, text: &str) -> TextSubtitle {
    TextSubtitle { range: TimeRange::new(begin, end), text: text.to_string() }
}

#[test]
fn srt_timestamps_are_zero_padded() {
    assert_eq!(srt_duration_display(d(0, 0)), "00:00:00,000");
    assert_eq!(srt_duration_display(d(3 * 3600 + 25 * 60 + 7, 42)), "03:25:07,042");
    assert_eq!(srt_duration_display(Duration { secs: 61, nanos: 999_999_999 }), "00:01:01,999");
    assert_eq!(srt_duration_display(d(100 * 3600, 5)), "100:00:00,005");
}

#[test]
fn srt_blocks_follow_the_timeline() {
    let subs = vec![sub(d(0, 0), d(5, 0), "Hello\n"), sub(d(5, 0), d(10, 0), " World \n")];
    assert_eq!(
        subtitles_to_srt(&subs),
        "1\n00:00:00,000 --> 00:00:05,000\nHello\n\n2\n00:00:05,000 --> 00:00:10,000\nWorld\n\n"
    );
}

#[test]
fn srt_overlapping_subtitles_share_a_block() {
    let subs = vec![sub(d(1, 0), d(4, 0), "A"), sub(d(2, 0), d(3, 0), "B")];
    assert_eq!(
        subtitles_to_srt(&subs),
        "1\n00:00:01,000 --> 00:00:02,000\nA\n\n2\n00:00:02,000 --> 00:00:03,000\nA\nB\n\n3\n00:00:03,000 --> 00:00:04,000\nA\n\n"
    );
}

#[test]
fn srt_skips_blank_text_and_empty_input() {
    assert_eq!(subtitles_to_srt(&vec![]), "");
    assert_eq!(subtitles_to_srt(&vec![sub(d(1, 0), d(2, 0), "  \n")]), "");
}

#[test]
fn srt_open_end_runs_to_the_largest_time() {
    let subs = vec![sub(d(1, 0), Duration::max_value(), "Last")];
    let out = subtitles_to_srt(&subs);
    assert!(out.starts_with("1\n00:00:01,000 --> "));
    assert!(out.ends_with(",999\nLast\n\n"));
}

#[test]
fn viewer_pages_stay_in_range() {
    assert_eq!(viewer_page(0, 3, true, false), 0);
    assert_eq!(viewer_page(2, 3, true, false), 1);
    assert_eq!(viewer_page(1, 3, false, true), 2);
    assert_eq!(viewer_page(2, 3, false, true), 2);
    assert_eq!(viewer_page(1, 3, false, false), 1);
}

#[test]
fn viewer_both_keys_go_back_then_forward() {
    assert_eq!(viewer_page(1, 3, true, true), 1);
    assert_eq!(viewer_page(0, 3, true, true), 1);
    assert_eq!(viewer_page(2, 3, true, true), 2);
    assert_eq!(viewer_page(0, 1, true, true), 0);
}

#[test]
fn srt_trims_unicode_white_space() {
    let subs = vec![sub(d(1, 0), d(2, 0), "\u{3000}Hi\u{00A0}\t")];
    assert_eq!(subtitles_to_srt(&subs), "1\n00:00:01,000 --> 00:00:02,000\nHi\n\n");
    assert_eq!(subtitles_to_srt(&vec![sub(d(1, 0), d(2, 0), "\u{2028}\u{85} ")]), "");
}

#[test]
fn srt_block_numbers_count_up() {
    let subs: Vec<TextSubtitle> = (0..12u64).map(|i| sub(d(2 * i, 0), d(2 * i + 1, 0), "x")).collect();
    let out = subtitles_to_srt(&subs);
    assert!(out.contains("\n\n10\n00:00:18,000 --> 00:00:19,000\nx\n\n"));
    assert!(out.ends_with("12\n00:00:22,000 --> 00:00:23,000\nx\n\n"));
}

#[test]
fn frame_words_drop_alpha() {
    let bm = Bitmap { width: 2, height: 1, pixels: vec![1, 2, 3, 4, 0xFF, 0x80, 0x00, 0x10] };
    assert_eq!(bm.to_0rgb(), vec![0x010203, 0xFF8000]);
}
