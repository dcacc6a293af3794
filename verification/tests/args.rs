use m3u8_progress::args::{
    audio_filter, build_download_args, build_listing_args, subtitle_filter, video_filter,
    DownloadOptions, Header, Settings, StreamOption,
};

fn no_settings() -> Settings {
    Settings {
        download_location: None,
        tmp_dir: None,
        thread_count: None,
        download_retry_count: None,
        sub_format: None,
        log_level: None,
    }
}

fn option(description: &str) -> Option<StreamOption> {
    Some(StreamOption { description: description.to_string() })
}

fn strings(items: &[&str]) -> Vec<String> {
    items.iter().map(|s| s.to_string()).collect()
}

#[test]
fn video_filter_brackets_the_bandwidth() {
    assert_eq!(
        video_filter("1920x1080 | 7968 | 60 | avc1.64002a").as_deref(),
        Some("res=1920x1080:bwMin=7967:bwMax=7969:frame=60:codecs=avc1.64002a")
    );
    assert_eq!(
        video_filter("r | nope | f | c | more").as_deref(),
        Some("res=r:bwMin=-1:bwMax=1:frame=f:codecs=c")
    );
    assert_eq!(
        video_filter("r | -5 | f | c").as_deref(),
        Some("res=r:bwMin=-6:bwMax=-4:frame=f:codecs=c")
    );
    assert_eq!(
        video_filter("r | +0 | f | c").as_deref(),
        Some("res=r:bwMin=-1:bwMax=1:frame=f:codecs=c")
    );
    assert_eq!(
        video_filter("r | 2147483647 | f | c").as_deref(),
        Some("res=r:bwMin=2147483646:bwMax=2147483648:frame=f:codecs=c")
    );
    assert_eq!(
        video_filter("r | -2147483648 | f | c").as_deref(),
        Some("res=r:bwMin=-2147483649:bwMax=-2147483647:frame=f:codecs=c")
    );
    assert_eq!(
        video_filter("r | 2147483648 | f | c").as_deref(),
        Some("res=r:bwMin=-1:bwMax=1:frame=f:codecs=c")
    );
    assert_eq!(
        video_filter(" |  |  | ").as_deref(),
        Some("res=:bwMin=-1:bwMax=1:frame=:codecs=")
    );
    assert_eq!(video_filter("1920x1080 | 7968 | 60"), None);
    assert_eq!(video_filter("1920x1080|7968|60|avc1"), None);
    assert_eq!(video_filter(""), None);
}

#[test]
fn audio_and_subtitle_filters() {
    assert_eq!(
        audio_filter("aud2 | English | en | 6CH").as_deref(),
        Some("id=aud2:name=English:lang=en:ch=6CH")
    );
    assert_eq!(audio_filter("aud2 | English | en"), None);
    assert_eq!(
        subtitle_filter("sub1 | English | en").as_deref(),
        Some("id=sub1:name=English:lang=en")
    );
    assert_eq!(
        subtitle_filter("sub1 | English | en | x | y").as_deref(),
        Some("id=sub1:name=English:lang=en")
    );
    assert_eq!(subtitle_filter("sub1 | English"), None);
    assert_eq!(subtitle_filter("a |  | b | c").as_deref(), Some("id=a:name=:lang=b"));
    assert_eq!(subtitle_filter("a | | b | c").as_deref(), Some("id=a:name=| b:lang=c"));
}

#[test]
fn download_args_with_everything() {
    let options = DownloadOptions {
        url: "https://example.org/a.m3u8".to_string(),
        save_name: "film".to_string(),
        headers: vec![
            Header { key: "Referer".to_string(), value: "https://example.org".to_string() },
            Header { key: "X".to_string(), value: "".to_string() },
        ],
        video_quality: option("1920x1080 | 7968 | 60 | avc1.64002a"),
        audio_stream: option("aud2 | English | en | 6CH"),
        subtitles: option("sub1 | English | en"),
        auto_merge: true,
        audio_only: false,
    };
    let settings = Settings {
        download_location: Some("/data".to_string()),
        tmp_dir: Some("/data/tmp".to_string()),
        thread_count: Some("4".to_string()),
        download_retry_count: Some("9".to_string()),
        sub_format: Some("VTT".to_string()),
        log_level: Some("DEBUG".to_string()),
    };
    assert_eq!(
        build_download_args(&options, &settings, "/home/u/Downloads/m3u8", "/home/u/Downloads/m3u8/Temp"),
        strings(&[
            "https://example.org/a.m3u8",
            "--save-name",
            "film",
            "--header",
            "Referer: https://example.org",
            "--header",
            "X: ",
            "-sv",
            "res=1920x1080:bwMin=7967:bwMax=7969:frame=60:codecs=avc1.64002a",
            "-sa",
            "id=aud2:name=English:lang=en:ch=6CH",
            "-ss",
            "id=sub1:name=English:lang=en",
            "-M",
            "format=mkv:muxer=ffmpeg:bin_path=auto:skip_sub=false:keep=true",
            "--save-dir",
            "/data",
            "--tmp-dir",
            "/data/tmp",
            "--thread-count",
            "4",
            "--download-retry-count",
            "9",
            "--sub-format",
            "VTT",
            "--log-level",
            "DEBUG",
            "--force-ansi-console",
        ])
    );
}

#[test]
fn download_args_with_defaults() {
    let options = DownloadOptions {
        url: "u".to_string(),
        save_name: "n".to_string(),
        headers: vec![],
        video_quality: option("too | short"),
        audio_stream: None,
        subtitles: None,
        auto_merge: false,
        audio_only: true,
    };
    assert_eq!(
        build_download_args(&options, &no_settings(), "D/m3u8", "D/m3u8/Temp"),
        strings(&[
            "u",
            "--save-name",
            "n",
            "--save-dir",
            "D/m3u8",
            "--tmp-dir",
            "D/m3u8/Temp",
            "--thread-count",
            "16",
            "--download-retry-count",
            "3",
            "--sub-format",
            "SRT",
            "--log-level",
            "INFO",
            "--force-ansi-console",
        ])
    );
}

#[test]
fn audio_only_merge_skips_subtitles() {
    let options = DownloadOptions {
        url: "u".to_string(),
        save_name: "n".to_string(),
        headers: vec![],
        video_quality: None,
        audio_stream: None,
        subtitles: None,
        auto_merge: true,
        audio_only: true,
    };
    let args = build_download_args(&options, &no_settings(), "a", "b");
    assert_eq!(args[3], "-M");
    assert_eq!(args[4], "format=mkv:muxer=ffmpeg:bin_path=auto:skip_sub=true:keep=true");
    assert_eq!(args.len(), 18);
}

#[test]
fn listing_args_name_the_headers() {
    assert_eq!(
        build_listing_args("u", &vec![Header { key: "K".to_string(), value: "V".to_string() }]),
        strings(&["u", "-H", "K: V", "--write-meta-json", "false", "--del-after-done"])
    );
    assert_eq!(
        build_listing_args("u", &vec![]),
        strings(&["u", "--write-meta-json", "false", "--del-after-done"])
    );
}
