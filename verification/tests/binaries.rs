use m3u8_progress::binaries::{downloader, get_platform_binary_name, missing_binaries, muxer};

#[test]
fn windows_names_get_the_suffix_once() {
    assert_eq!(get_platform_binary_name("ffmpeg", true), "ffmpeg.exe");
    assert_eq!(get_platform_binary_name("ffmpeg.exe", true), "ffmpeg.exe");
    assert_eq!(get_platform_binary_name("N_m3u8DL-RE", true), "N_m3u8DL-RE.exe");
    assert_eq!(get_platform_binary_name("ffmpeg.EXE", true), "ffmpeg.EXE.exe");
    assert_eq!(get_platform_binary_name(".exe", true), ".exe");
    assert_eq!(get_platform_binary_name("exe", true), "exe.exe");
    assert_eq!(get_platform_binary_name("", true), ".exe");
}

#[test]
fn other_platforms_keep_the_name() {
    assert_eq!(get_platform_binary_name("ffmpeg", false), "ffmpeg");
    assert_eq!(get_platform_binary_name("ffmpeg.exe", false), "ffmpeg.exe");
    assert_eq!(get_platform_binary_name("", false), "");
}

#[test]
fn missing_programs_are_named_in_order() {
    assert_eq!(downloader(), "N_m3u8DL-RE");
    assert_eq!(muxer(), "ffmpeg");
    assert_eq!(missing_binaries(true, true), Vec::<String>::new());
    assert_eq!(missing_binaries(false, true), vec!["N_m3u8DL-RE".to_string()]);
    assert_eq!(missing_binaries(true, false), vec!["ffmpeg".to_string()]);
    assert_eq!(
        missing_binaries(false, false),
        vec!["N_m3u8DL-RE".to_string(), "ffmpeg".to_string()]
    );
}
