use m3u8_progress::progress::{parse_progress_line, ParseError, ProgressInfo};
use m3u8_progress::track::{classify, StreamType};

fn parsed(line: &str) -> (StreamType, ProgressInfo) {
    match parse_progress_line(line) {
        Ok(pair) => pair,
        Err(e) => panic!("{:?} for {:?}", e, line),
    }
}

#[test]
fn video_line_is_read_in_full() {
    let line = "Vid 960x540 | 2168 Kbps | 60 ------------------------------ 36/101 35.64% 56.60MB/163.34MB 5.12MBps 00:00:27";
    assert_eq!(classify(line), Some(StreamType::Video));
    let (kind, info) = parsed(line);
    assert_eq!(kind, StreamType::Video);
    assert_eq!(info.current, 36);
    assert_eq!(info.total, 101);
    assert_eq!(info.percentage, "35.64");
    assert_eq!(info.percentage.parse::<f32>().unwrap(), 35.64_f32);
    assert_eq!(info.downloaded, "56.60MB/163.34MB");
    assert_eq!(info.total_size, "");
    assert_eq!(info.speed, "5.12MBps");
    assert_eq!(info.eta, "00:00:27");
}

#[test]
fn subtitle_line_with_placeholders() {
    let line = "Sub --------- 1/1 100.00% - - 00:00:00";
    assert_eq!(classify(line), Some(StreamType::Subtitle));
    let (kind, info) = parsed(line);
    assert_eq!(kind, StreamType::Subtitle);
    assert_eq!(info.current, 1);
    assert_eq!(info.total, 1);
    assert_eq!(info.percentage, "100.00");
    assert_eq!(info.downloaded, "-");
    assert_eq!(info.speed, "-");
    assert_eq!(info.eta, "00:00:00");
    assert_eq!(info.total_size, "");
}

#[test]
fn audio_line_with_blank_clock() {
    let (kind, info) = parsed("Aud aud2 | English | en | 6CH ---- 0/57 0% 12.5KB 300KBps --:--:--");
    assert_eq!(kind, StreamType::Audio);
    assert_eq!(info.current, 0);
    assert_eq!(info.total, 57);
    assert_eq!(info.percentage, "0");
    assert_eq!(info.downloaded, "12.5KB");
    assert_eq!(info.speed, "300KBps");
    assert_eq!(info.eta, "--:--:--");
}

#[test]
fn classifier_prefers_video_then_audio() {
    assert_eq!(classify("sub aud vid"), Some(StreamType::Video));
    assert_eq!(classify("sub AUD"), Some(StreamType::Audio));
    assert_eq!(classify("xxSuBxx"), Some(StreamType::Subtitle));
    assert_eq!(classify("David"), Some(StreamType::Video));
    assert_eq!(classify(""), None);
    assert_eq!(classify("vi d au d su b"), None);
    assert_eq!(classify("progress 10%"), None);
}

#[test]
fn lines_that_are_no_progress_lines() {
    for line in [
        "",
        "Vid",
        "Vid 960x540 | 2168 Kbps | 60 ------------------------------ 36/101 35.64%",
        "Vid ---- 36/101 35.64% 56.60MB 5.12MBps 00:00",
        "---- 36/101 35.64% 56.60MB 5.12MBps 00:00:27",
        "Vid\n ---- 36/101 35.64% 56.60MB 5.12MBps 00:00:27",
        "Vid ---- 36/101 35.64 56.60MB 5.12MBps 00:00:27",
        "Vid ---- 36-101 35.64% 56.60MB 5.12MBps 00:00:27",
        "Vid ---- 36/101 35.64% 56.60GB 5.12MBps 00:00:27",
        "Vid ---- 36/101 35.64% 56.60MB/1.2GB 5.12MBps 00:00:27",
        "Vid ---- 36/101 35.64% 56.60MB/1.2 5.12MBps 00:00:27",
        "Vid ---- 36/101 35.64% 56.60MB/KB 5.12MBps 00:00:27",
        "Vid ---- 36/101 35.64% 56.60MB/1KB/2KB 5.12MBps 00:00:27",
        "Vid ---- 36/101 .5% 56.60MB 5.12MBps 00:00:27",
        "\u{0}\u{1}\u{fffd}\u{7f}",
        "INFO : Vid 1920x1080 | 7968 Kbps | 60 | avc1.64002a",
    ] {
        assert_eq!(parse_progress_line(line).err(), Some(ParseError::NoMatch), "{:?}", line);
    }
}

#[test]
fn counters_that_do_not_fit() {
    assert_eq!(
        parse_progress_line("Vid - 2147483648/1 1% - - 00:00:00").err(),
        Some(ParseError::InvalidCurrent)
    );
    assert_eq!(
        parse_progress_line("Vid - 1/99999999999 1% - - 00:00:00").err(),
        Some(ParseError::InvalidTotal)
    );
    assert_eq!(
        parse_progress_line("Vid - 99999999999/99999999999 1% - - 00:00:00").err(),
        Some(ParseError::InvalidCurrent)
    );
    let (_, info) = parsed("Vid - 2147483647/0002147483647 1% - - 00:00:00");
    assert_eq!(info.current, i32::MAX);
    assert_eq!(info.total, i32::MAX);
}

#[test]
fn wide_gaps_move_the_placeholders() {
    let (_, info) = parsed("Sub - 1/1 5%   -   -   00:00:00");
    assert_eq!(info.downloaded, "-   -");
    assert_eq!(info.speed, "");
    let (_, info) = parsed("Sub - 1/1 5%   5.0MBps 00:00:01");
    assert_eq!(info.downloaded, "");
    assert_eq!(info.speed, "5.0MBps");
    let (_, info) = parsed("Sub - 1/1 5%     00:00:27");
    assert_eq!(info.downloaded, "");
    assert_eq!(info.speed, "");
    assert_eq!(info.eta, "00:00:27");
}

#[test]
fn first_reading_wins() {
    let (kind, info) =
        parsed("sub - 1/2 50% - - 00:00:01 vid -- 3/4 75% 1KB 2KBps 00:00:02 trailing");
    assert_eq!(kind, StreamType::Video);
    assert_eq!(info.current, 1);
    assert_eq!(info.total, 2);
    assert_eq!(info.eta, "00:00:01");
}

fn line_pattern() -> regex::Regex {
    regex::Regex::new(
        r"(?i)(?:Vid|Aud|Sub).*?[-]+\s+(\d+)/(\d+)\s+(\d+\.?\d*)%\s+((?:[\d\.]+(?:KB|MB)(?:/[\d\.]+(?:KB|MB))?)|[-\s]+)\s+((?:[\d\.]+(?:KB|MB)ps)|[-\s]+)\s+(\d+:\d+:\d+|--:--:--)",
    )
    .unwrap()
}

fn agrees_with_pattern(re: &regex::Regex, line: &str) {
    let ours = parse_progress_line(line);
    match re.captures(line) {
        None => assert_eq!(ours.err(), Some(ParseError::NoMatch), "{:?}", line),
        Some(caps) => {
            let current = caps[1].parse::<i32>();
            let total = caps[2].parse::<i32>();
            if current.is_err() {
                assert_eq!(ours.err(), Some(ParseError::InvalidCurrent), "{:?}", line);
            } else if total.is_err() {
                assert_eq!(ours.err(), Some(ParseError::InvalidTotal), "{:?}", line);
            } else {
                let (_, info) = ours.unwrap_or_else(|e| panic!("{:?} for {:?}", e, line));
                assert_eq!(info.current, current.unwrap(), "{:?}", line);
                assert_eq!(info.total, total.unwrap(), "{:?}", line);
                assert_eq!(info.percentage, &caps[3], "{:?}", line);
                assert_eq!(
                    info.percentage.parse::<f32>().unwrap(),
                    caps[3].parse::<f32>().unwrap()
                );
                assert_eq!(info.downloaded, caps[4].trim(), "{:?}", line);
                assert_eq!(info.speed, caps[5].trim(), "{:?}", line);
                assert_eq!(info.eta, caps[6].trim(), "{:?}", line);
            }
        }
    }
}

#[test]
fn agrees_with_the_pattern_on_written_lines() {
    let re = line_pattern();
    for line in [
        "Vid 960x540 | 2168 Kbps | 60 ------------------------------ 36/101 35.64% 56.60MB/163.34MB 5.12MBps 00:00:27",
        "Sub --------- 1/1 100.00% - - 00:00:00",
        "Aud x - 1/2 3.% 1.2.3kb/4mb 7mbPS 1:2:3456 tail",
        "Aud x - 1/2 3.% 1.2.3kb/4kb 7mbPS 1:2:3",
        "Aud x - 1/2 3.% 1.2.3kb /4mb 7mbPS 1:2:3",
        "vid-\t1/2\t3%\t-\t-\t--:--:--",
        "vid- 1/2 3% -- -- --:--:--",
        "vid- 1/2 3% - - - - --:--:--",
        "vid- 1/2 3% - --:--:--",
        "vid- 1/2 3% - - --:--:-",
        "vid- 1/2 3%  -  -  --:--:--",
        "vid- 1/2 3%   --:--:--",
        "vid- 1/2 3%     --:--:--",
        "vid- 1/2 3%      --:--:--",
        "vid- 1/2 3% ----- --:--:--",
        "vid- 1/2 3% - - - --:--:--",
        "vid- 1/2 3% -- --:--:--",
        "vid- 1/2 3% --- - --:--:--",
        "vid- 1/2 3% 1KB - 0:0:0",
        "vid- 1/2 3% - 1KBps 0:0:0",
        "vid- 1/2 3%  1KB  1KBps  0:0:0",
        "vid- 1/2 3%   1KB   0:0:0",
        "vid- 1/2 3%   1KBps   0:0:0",
        "vid- 1/2 3% 1KB/2MB   0:0:0",
        "vid- 1/2 3% 1KB/2MB - - 0:0:0",
        "vid- 1/2 3% 1KB/ 1KBps 0:0:0",
        "vid- 1/2 3% ...MB ..KBps 0:0:0",
        "vid- 1/2 3% MB KBps 0:0:0",
        "vid -- - 1/2 3% - - 0:0:0",
        "vid 1/2 - 3/4 5% - - 0:0:0",
        "vid - 1/2 3% - - 0:0:0 - 5/6 7% - - 1:1:1",
        "vi - 1/2 3% - - 0:0:0 aud - 5/6 7% - - 1:1:1",
        "aud\n - 1/2 3% - - 0:0:0 sub - 5/6 7% - - 1:1:1",
        "aud\r - 1/2 3% - - 0:0:0",
        "sub - 1/2 3% - - 0:0:0\n",
        "sub -\u{a0}1/2\u{2003}3%\u{3000}-\u{2028}-\u{85}0:0:0",
        "sub - 1/2 3% \u{a0} \u{a0} 0:0:0",
        "sub - 1/2 3% -\u{200b}- 0:0:0",
        "sub - 007/0008 0009.5000% 1MB 1MBps 00:00:00",
        "sub - 2147483647/2147483648 1% - - 0:0:0",
        "sub - 2147483648/1 1% - - 0:0:0",
        "sub - 1/2 1% - - 0:0:",
        "sub - 1/2 1% - - 0::0",
        "sub - 1/2 1% - - :0:0",
        "sub - 1/2 1%- - 0:0:0",
        "sub - 1/2 1 % - - 0:0:0",
        "sub - 1 /2 1% - - 0:0:0",
        "sub - 1/ 2 1% - - 0:0:0",
        "sub -1/2 1% - - 0:0:0",
        "sub- 1/2 1% - - 0:0:0",
        "sub - 1/2 1% - - 0:0:0",
        "su - 1/2 1% - - 0:0:0",
        "SUB - 1/2 1% 5mB 5Kbps 0:0:0",
        "SUB - 1/2 1% 5mB 5Kbs 0:0:0",
        "SUB - 1/2 1.2.3% 5mB 5Kbps 0:0:0",
        "SUB - 1/2 1..% 5mB 5Kbps 0:0:0",
        "",
        "-",
        "vid",
        "vid -",
        "vid - ",
        "vid - 1",
    ] {
        agrees_with_pattern(&re, line);
    }
}

#[test]
fn agrees_with_the_pattern_on_generated_lines() {
    let re = line_pattern();
    let mut state: u64 = 0x2545_f491_4f6c_dd1d;
    let mut next = move || {
        state ^= state << 13;
        state ^= state >> 7;
        state ^= state << 17;
        state
    };
    let heads = [
        "vid - 1/1 1%", "aud -- 12/34 5.6%", "sub- 1/1 1% ", "VID\t-\t1/1\t1.%", "x vid y - 1/2 3%",
        "vid - 1/1 1% - - 0:0:0 aud - 2/2 2%", "vid - - 1/1 1%", "vid -\u{a0}1/1 1%",
    ];
    let middles = [
        "", " ", "  ", " - ", " -- ", "- -", " 1KB ", " 1MB/2MB ", " 1KBps ", " 1.5MBps", "-", "   ",
        " - - ", "1KB", " 1KB/", " --:--:--", " 1:1:1", "\t", "\u{a0}", " 1kb/2mb", " .mb", " 1KB/2KB",
        " 1MBps/2MB", "1:1:1", " 1KBPS", "\u{2003}-", " 1KBp", "/", "%", "\n", "\r",
    ];
    let tails = ["1:2:3", "--:--:--", " 1:2:3", " --:--:--", "", "-", " 1:2", " --:--:-", " 1:2:3x", " 1:2:34 5"];
    for _ in 0..30_000 {
        let mut line = String::new();
        line.push_str(heads[(next() % heads.len() as u64) as usize]);
        let pieces = next() % 6;
        for _ in 0..pieces {
            line.push_str(middles[(next() % middles.len() as u64) as usize]);
        }
        line.push_str(tails[(next() % tails.len() as u64) as usize]);
        agrees_with_pattern(&re, &line);
    }
    let alphabet = [
        '-', ' ', '1', '/', '%', '.', ':', 'K', 'B', 'p', 's', 'M', 'v', 'i', 'd', '\n', '-', ' ', '1',
        '\t', 'b', 'S', 'u',
    ];
    for _ in 0..30_000 {
        let mut line = String::from("vid");
        let len = next() % 28;
        for _ in 0..len {
            line.push(alphabet[(next() % alphabet.len() as u64) as usize]);
        }
        agrees_with_pattern(&re, &line);
    }
    let tokens = [
        "vid", "aud", "Sub", "-", "--", " ", "  ", "1", "23", "/", "%", ".", ":", "KB", "mb", "ps", "\n",
        "x", "1/2", "3%", "4:5:6", "--:--:--", "7KB", "8MBps",
    ];
    for _ in 0..30_000 {
        let mut line = String::new();
        let len = next() % 16;
        for _ in 0..len {
            line.push_str(tokens[(next() % tokens.len() as u64) as usize]);
        }
        agrees_with_pattern(&re, &line);
    }
}

#[test]
fn errors_say_what_went_wrong() {
    assert_eq!(
        ParseError::NoMatch.message("some line"),
        "Failed to match progress pattern in line: some line"
    );
    assert_eq!(
        ParseError::InvalidCurrent.message("x"),
        format!("Failed to parse current: {}", "2147483648".parse::<i32>().unwrap_err())
    );
    assert_eq!(
        ParseError::InvalidTotal.message("x"),
        format!("Failed to parse total: {}", "2147483648".parse::<i32>().unwrap_err())
    );
}

#[test]
fn written_lines_are_read_back() {
    let prefixes = [
        "Vid 960x540 | 2168 Kbps | 60 ", "aud", "xx SUB yy", "Sub -\t", "Vid 50% of 1/2 ",
        "Vid 1/1 1% 1KB 1KBps 0:0:0 ",
    ];
    let bars = ["-", "------------------------------"];
    let counters = [("0", "0"), ("36", "101"), ("007", "2147483647")];
    let percents = ["0", "35.64", "100.00", "7.", "12.5"];
    let sizes = [
        "-", "56.60MB/163.34MB", "1.5KB", "12kb/3.4mb", "..MB", "1KB/2KB", "500.00KB/900.00KB",
        "1mb/2Kb",
    ];
    let speeds = ["-", "5.12MBps", "300KBps", "1kbPS"];
    let etas = ["00:00:27", "--:--:--", "1:2:3", "100:00:00"];
    for prefix in prefixes {
        for bar in bars {
            for (current, total) in counters {
                for percent in percents {
                    for size in sizes {
                        for speed in speeds {
                            for eta in etas {
                                let line = format!(
                                    "{}{} {}/{} {}% {} {} {}",
                                    prefix, bar, current, total, percent, size, speed, eta
                                );
                                let (_, info) = parsed(&line);
                                assert_eq!(info.current, current.parse::<i32>().unwrap());
                                assert_eq!(info.total, total.parse::<i32>().unwrap());
                                assert_eq!(info.percentage, percent, "{:?}", line);
                                assert_eq!(info.downloaded, size, "{:?}", line);
                                assert_eq!(info.speed, speed, "{:?}", line);
                                assert_eq!(info.eta, eta, "{:?}", line);
                                assert_eq!(info.total_size, "");
                            }
                        }
                    }
                }
            }
        }
    }
}

#[test]
fn long_stretches_are_read_in_one_pass() {
    let blanks = " ".repeat(20_000);
    let dashes = "-".repeat(20_000);
    let mixed = " -".repeat(10_000);
    let digits = "1".repeat(20_000);
    for filler in [&blanks, &dashes, &mixed, &digits] {
        let line = format!("vid - 1/1 1%{}x", filler);
        assert_eq!(parse_progress_line(&line).err(), Some(ParseError::NoMatch));
        let line = format!("vid {} 1/1 1% {} x", dashes, filler);
        assert_eq!(parse_progress_line(&line).err(), Some(ParseError::NoMatch));
    }
    let line = format!("vid - 1/1 1%{}0:0:0", blanks);
    let (_, info) = parsed(&line);
    assert_eq!(info.downloaded, "");
    assert_eq!(info.speed, "");
    assert_eq!(info.eta, "0:0:0");
    let line = format!("vid - 1/1 1% {} 0:0:0", mixed);
    let (_, info) = parsed(&line);
    assert_eq!(info.eta, "0:0:0");
    let line = format!("{}vid{} 1/1 1% - - 0:0:0", dashes, dashes);
    let (_, info) = parsed(&line);
    assert_eq!(info.current, 1);
}

#[test]
fn shortest_progress_line() {
    let (kind, info) = parsed("sub- 1/2 3% - - 4:5:6");
    assert_eq!(kind, StreamType::Subtitle);
    assert_eq!((info.current, info.total), (1, 2));
    assert_eq!(info.eta, "4:5:6");
    assert_eq!("sub- 1/2 3% - - 4:5:6".chars().count(), 21);
    assert_eq!(parse_progress_line("sub- 1/2 3% - - 4:5:").err(), Some(ParseError::NoMatch));
}

#[test]
fn letters_and_digits_of_the_grammar_are_ascii() {
    for line in [
        "\u{17f}ub - 1/2 3% - - 4:5:6",
        "sub - \u{661}/2 3% - - 4:5:6",
        "sub - 1/2 3% 1\u{212a}B - 4:5:6",
        "sub - 1/2 3% - 1KBp\u{17f} 4:5:6",
        "sub - 1/2 3% - - \u{664}:5:6",
    ] {
        assert_eq!(parse_progress_line(line).err(), Some(ParseError::NoMatch), "{:?}", line);
    }
    assert_eq!(classify("\u{17f}ub"), None);
    assert_eq!(classify("V\u{130}d"), None);
}

#[test]
fn classifier_agrees_with_lower_casing() {
    let alphabet = [
        'v', 'V', 'i', 'I', 'd', 'D', 'a', 'A', 'u', 'U', 's', 'S', 'b', 'B', ' ', '-', '\u{130}',
        '\u{131}', '\u{17f}', '\u{212a}', '\u{3a3}', 'x',
    ];
    let mut state: u64 = 0x1234_5678_9abc_def1;
    let mut next = move || {
        state ^= state << 13;
        state ^= state >> 7;
        state ^= state << 17;
        state
    };
    for _ in 0..20_000 {
        let mut line = String::new();
        let len = next() % 8;
        for _ in 0..len {
            line.push(alphabet[(next() % alphabet.len() as u64) as usize]);
        }
        let lower = line.to_lowercase();
        let want = if lower.contains("vid") {
            Some(StreamType::Video)
        } else if lower.contains("aud") {
            Some(StreamType::Audio)
        } else if lower.contains("sub") {
            Some(StreamType::Subtitle)
        } else {
            None
        };
        assert_eq!(classify(&line), want, "{:?}", line);
    }
}

#[test]
fn both_byte_counts_of_a_size_have_their_own_unit() {
    let (kind, info) = parsed("Vid ---- 1/2 50.00% 500.00KB/900.00KB 1.00MBps 00:00:01");
    assert_eq!(kind, StreamType::Video);
    assert_eq!(info.current, 1);
    assert_eq!(info.total, 2);
    assert_eq!(info.percentage, "50.00");
    assert_eq!(info.percentage.parse::<f32>().unwrap(), 50.0);
    assert_eq!(info.downloaded, "500.00KB/900.00KB");
    assert_eq!(info.total_size, "");
    assert_eq!(info.speed, "1.00MBps");
    assert_eq!(info.eta, "00:00:01");
    let (_, info) = parsed("Vid x ---- 1/2 50% 1KB/2KB 1KBps 00:00:01");
    assert_eq!(info.downloaded, "1KB/2KB");
    assert_eq!(info.speed, "1KBps");
    let (_, info) = parsed("Vid ---- 36/101 35.64% 56.60MB/1.2KB 5.12MBps 00:00:27");
    assert_eq!(info.downloaded, "56.60MB/1.2KB");
    let (_, info) = parsed("Vid ---- 36/101 35.64% 1kb/2mB 5.12MBps 00:00:27");
    assert_eq!(info.downloaded, "1kb/2mB");
}

#[test]
fn a_description_may_hold_a_percent_sign() {
    let (kind, info) = parsed("Aud 50% louder ---- 3/4 75% 1KB 2KBps 00:00:09");
    assert_eq!(kind, StreamType::Audio);
    assert_eq!((info.current, info.total), (3, 4));
    assert_eq!(info.percentage, "75");
    assert_eq!(info.eta, "00:00:09");
}
