use m3u8_progress::streams::{parse_stream_info, parse_stream_line, StreamEntry};

#[test]
fn listing_is_read_by_kind() {
    let output = "\
12:00:00.000 INFO : N_m3u8DL-RE (Beta version)\r
12:00:00.100 INFO : Loading URL: https://example.org/a.m3u8\r
12:00:01.000 INFO : Vid 1920x1080 | 7968 Kbps | 60 | avc1.64002a\r
12:00:01.001 INFO : Vid 960x540 | 2168 Kbps | 30 | avc1.4d401f | extra\r
12:00:01.002 INFO : Aud aud2 | English | en | 6CH\r
12:00:01.003 INFO : Sub sub1 | en | English\r
\r
12:00:01.004 INFO : Sub sub2 | fr\r
";
    let info = parse_stream_info(output);
    assert_eq!(info.video_streams.len(), 2);
    assert_eq!(info.video_streams[0].resolution, "1920x1080");
    assert_eq!(info.video_streams[0].bitrate, "7968");
    assert_eq!(info.video_streams[0].fps, "60");
    assert_eq!(info.video_streams[0].codec, "avc1.64002a");
    assert_eq!(info.video_streams[1].resolution, "960x540");
    assert_eq!(info.video_streams[1].bitrate, "2168");
    assert_eq!(info.video_streams[1].codec, "avc1.4d401f");
    assert_eq!(info.audio_streams.len(), 1);
    assert_eq!(info.audio_streams[0].id, "aud2");
    assert_eq!(info.audio_streams[0].name, "English");
    assert_eq!(info.audio_streams[0].language, "en");
    assert_eq!(info.audio_streams[0].channels, "6CH");
    assert_eq!(info.subtitle_streams.len(), 1);
    assert_eq!(info.subtitle_streams[0].id, "sub1");
    assert_eq!(info.subtitle_streams[0].language, "en");
    assert_eq!(info.subtitle_streams[0].name, "English");
}

#[test]
fn empty_output_lists_nothing() {
    for output in ["", "\n", "\r\n\r\n", "nothing here", "INFO : Vid"] {
        let info = parse_stream_info(output);
        assert!(info.video_streams.is_empty());
        assert!(info.audio_streams.is_empty());
        assert!(info.subtitle_streams.is_empty());
    }
}

#[test]
fn tag_twice_is_no_stream() {
    assert!(parse_stream_line("INFO : Vid a | b | c | d INFO : Vid e | f | g | h").is_none());
    assert!(parse_stream_line("INFO : Aud a | b | c").is_none());
    assert!(parse_stream_line("INFO : Sub a | b").is_none());
    assert!(parse_stream_line("info : vid a | b | c | d").is_none());
}

#[test]
fn first_tag_decides() {
    match parse_stream_line("x INFO : Aud a | INFO : Vid b | c | d | e") {
        Some(StreamEntry::Video(v)) => {
            assert_eq!(v.resolution, "b");
            assert_eq!(v.bitrate, "c");
            assert_eq!(v.fps, "d");
            assert_eq!(v.codec, "e");
        }
        other => panic!("{:?}", other),
    }
    match parse_stream_line("INFO : Sub  s |  INFO : Aud | n") {
        Some(StreamEntry::Audio(_)) => panic!("too few fields for audio"),
        None => {}
        other => panic!("{:?}", other),
    }
}

#[test]
fn bitrate_loses_every_unit() {
    match parse_stream_line("INFO : Vid r |  Kbps 12 Kbps 34Kbps  | f | c") {
        Some(StreamEntry::Video(v)) => assert_eq!(v.bitrate, "12  34"),
        other => panic!("{:?}", other),
    }
    match parse_stream_line("INFO : Vid r | KbKbpsps | f | c") {
        Some(StreamEntry::Video(v)) => assert_eq!(v.bitrate, "Kbps"),
        other => panic!("{:?}", other),
    }
}

fn reference(output: &str) -> (Vec<[String; 4]>, Vec<[String; 4]>, Vec<[String; 3]>) {
    let mut video = Vec::new();
    let mut audio = Vec::new();
    let mut subtitle = Vec::new();
    for line in output.lines() {
        let line = line.trim();
        if line.is_empty() {
            continue;
        }
        if line.contains("INFO : Vid") {
            let parts: Vec<&str> = line.split("INFO : Vid").collect();
            if parts.len() == 2 {
                let f: Vec<&str> = parts[1].split('|').map(|s| s.trim()).collect();
                if f.len() >= 4 {
                    let bitrate = f[1].replace("Kbps", "").trim().to_string();
                    video.push([f[0].to_string(), bitrate, f[2].to_string(), f[3].to_string()]);
                }
            }
        } else if line.contains("INFO : Aud") {
            let parts: Vec<&str> = line.split("INFO : Aud").collect();
            if parts.len() == 2 {
                let f: Vec<&str> = parts[1].split('|').map(|s| s.trim()).collect();
                if f.len() >= 4 {
                    audio.push([f[0].to_string(), f[1].to_string(), f[2].to_string(), f[3].to_string()]);
                }
            }
        } else if line.contains("INFO : Sub") {
            let parts: Vec<&str> = line.split("INFO : Sub").collect();
            if parts.len() == 2 {
                let f: Vec<&str> = parts[1].split('|').map(|s| s.trim()).collect();
                if f.len() >= 3 {
                    subtitle.push([f[0].to_string(), f[1].to_string(), f[2].to_string()]);
                }
            }
        }
    }
    (video, audio, subtitle)
}

#[test]
fn agrees_with_line_by_line_reading() {
    let pieces = [
        "INFO : Vid", "INFO : Aud", "INFO : Sub", " | ", "|", "a", "Kbps", " ", "\n", "\r\n", "\r",
        "12", "INFO : ", "Vid", "\t", "\u{a0}",
    ];
    let mut state: u64 = 0x9e37_79b9_7f4a_7c15;
    let mut next = move || {
        state ^= state << 13;
        state ^= state >> 7;
        state ^= state << 17;
        state
    };
    for _ in 0..3000 {
        let mut output = String::new();
        let len = next() % 40;
        for _ in 0..len {
            output.push_str(pieces[(next() % pieces.len() as u64) as usize]);
        }
        let info = parse_stream_info(&output);
        let (video, audio, subtitle) = reference(&output);
        let got_video: Vec<[String; 4]> = info
            .video_streams
            .into_iter()
            .map(|v| [v.resolution, v.bitrate, v.fps, v.codec])
            .collect();
        let got_audio: Vec<[String; 4]> = info
            .audio_streams
            .into_iter()
            .map(|a| [a.id, a.name, a.language, a.channels])
            .collect();
        let got_subtitle: Vec<[String; 3]> =
            info.subtitle_streams.into_iter().map(|s| [s.id, s.language, s.name]).collect();
        assert_eq!(got_video, video, "{:?}", output);
        assert_eq!(got_audio, audio, "{:?}", output);
        assert_eq!(got_subtitle, subtitle, "{:?}", output);
    }
}
