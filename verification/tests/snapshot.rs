use m3u8_progress::aggregate::DownloadProgress;
use m3u8_progress::progress::{parse_progress_line, ProgressInfo};
use m3u8_progress::track::StreamType;

fn record(current: i32, total: i32, eta: &str) -> ProgressInfo {
    ProgressInfo {
        current,
        total,
        percentage: "50".to_string(),
        downloaded: "1MB".to_string(),
        total_size: String::new(),
        speed: "2MBps".to_string(),
        eta: eta.to_string(),
    }
}

fn same(a: &ProgressInfo, b: &ProgressInfo) -> bool {
    a.current == b.current
        && a.total == b.total
        && a.percentage == b.percentage
        && a.downloaded == b.downloaded
        && a.total_size == b.total_size
        && a.speed == b.speed
        && a.eta == b.eta
}

#[test]
fn default_snapshot_is_empty() {
    let snapshot = DownloadProgress::default();
    for kind in [StreamType::Video, StreamType::Audio, StreamType::Subtitle] {
        let slot = snapshot.slot(kind);
        assert_eq!(slot.current, 0);
        assert_eq!(slot.total, 0);
        assert_eq!(slot.percentage, "0");
        assert_eq!(slot.percentage.parse::<f32>().unwrap(), 0.0);
        assert_eq!(slot.downloaded, "");
        assert_eq!(slot.total_size, "");
        assert_eq!(slot.speed, "");
        assert_eq!(slot.eta, "");
    }
}

#[test]
fn video_then_audio_fill_their_own_slots() {
    let video = record(1, 10, "00:00:09");
    let audio = record(2, 20, "00:00:18");
    let mut snapshot = DownloadProgress::default();
    snapshot.apply(StreamType::Video, video.clone());
    snapshot.apply(StreamType::Audio, audio.clone());
    assert!(same(snapshot.slot(StreamType::Video), &video));
    assert!(same(snapshot.slot(StreamType::Audio), &audio));
    assert!(same(snapshot.slot(StreamType::Subtitle), &ProgressInfo::default()));
}

#[test]
fn order_across_tracks_does_not_matter() {
    let video = record(1, 10, "00:00:09");
    let audio = record(2, 20, "00:00:18");
    let subtitle = record(3, 3, "00:00:00");
    let mut one = DownloadProgress::default();
    one.apply(StreamType::Video, video.clone());
    one.apply(StreamType::Audio, audio.clone());
    one.apply(StreamType::Subtitle, subtitle.clone());
    let mut other = DownloadProgress::default();
    other.apply(StreamType::Subtitle, subtitle.clone());
    other.apply(StreamType::Audio, audio.clone());
    other.apply(StreamType::Video, video.clone());
    for kind in [StreamType::Video, StreamType::Audio, StreamType::Subtitle] {
        assert!(same(one.slot(kind), other.slot(kind)));
    }
}

#[test]
fn later_update_replaces_earlier_one() {
    let mut snapshot = DownloadProgress::default();
    snapshot.apply(StreamType::Audio, record(1, 10, "00:00:09"));
    snapshot.apply(StreamType::Audio, record(2, 10, "00:00:08"));
    assert_eq!(snapshot.slot(StreamType::Audio).current, 2);
    assert_eq!(snapshot.slot(StreamType::Audio).eta, "00:00:08");
    assert_eq!(snapshot.slot(StreamType::Video).current, 0);
}

#[test]
fn current_is_a_copy() {
    let mut snapshot = DownloadProgress::default();
    snapshot.apply(StreamType::Video, record(1, 10, "00:00:09"));
    let copy = snapshot.current();
    snapshot.apply(StreamType::Video, record(2, 10, "00:00:08"));
    assert_eq!(copy.video_progress.current, 1);
    assert_eq!(snapshot.video_progress.current, 2);
    assert!(same(&copy.audio_progress, &snapshot.audio_progress));
}

#[test]
fn parsed_record_lands_in_its_slot() {
    let (kind, info) = parse_progress_line("Aud - 3/4 75% 1KB 2KBps 00:00:01").unwrap();
    let mut snapshot = DownloadProgress::default();
    snapshot.apply(kind, info);
    assert_eq!(snapshot.audio_progress.current, 3);
    assert_eq!(snapshot.audio_progress.total, 4);
    assert_eq!(snapshot.video_progress.total, 0);
}
