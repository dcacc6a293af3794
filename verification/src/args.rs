//! The argument lists that the downloader is started with.

use vstd::prelude::*;
use vstd::string::{StrSliceExecFns, StringExecFns};
use crate::decimal::{append_int, i32_value, int_text, parse_i32};
use crate::matcher::Span;
use crate::split::{ranges_of, split, split_ranges, split_spans};
use crate::text::{chars_of, texts_of};

verus! {

/// A header of the requests that the downloader makes, as plain values.
pub struct HeaderText {
    pub key: Seq<char>,
    pub value: Seq<char>,
}

/// A header of the requests that the downloader makes.
#[derive(Debug)]
pub struct Header {
    pub key: String,
    pub value: String,
}

impl View for Header {
    type V = HeaderText;

    open spec fn view(&self) -> HeaderText {
        HeaderText { key: self.key@, value: self.value@ }
    }
}

/// A stream that the user picked, by the description under which it was
/// offered: its fields with ` | ` between them.
#[derive(Debug)]
pub struct StreamOption {
    pub description: String,
}

/// What is asked of a download, as plain values.
pub struct Request {
    pub url: Seq<char>,
    pub save_name: Seq<char>,
    pub headers: Seq<HeaderText>,
    pub video_quality: Option<Seq<char>>,
    pub audio_stream: Option<Seq<char>>,
    pub subtitles: Option<Seq<char>>,
    pub auto_merge: bool,
    pub audio_only: bool,
}

/// What is asked of a download.
#[derive(Debug)]
pub struct DownloadOptions {
    pub url: String,
    pub save_name: String,
    pub headers: Vec<Header>,
    pub video_quality: Option<StreamOption>,
    pub audio_stream: Option<StreamOption>,
    pub subtitles: Option<StreamOption>,
    pub auto_merge: bool,
    pub audio_only: bool,
}

/// The description of a picked stream, if one was picked.
pub open spec fn description_of(option: Option<StreamOption>) -> Option<Seq<char>> {
    match option {
        Some(o) => Some(o.description@),
        None => None,
    }
}

/// The headers of a vector, as plain values.
pub open spec fn headers_of(headers: Seq<Header>) -> Seq<HeaderText> {
    Seq::new(headers.len(), |i: int| headers[i]@)
}

impl View for DownloadOptions {
    type V = Request;

    open spec fn view(&self) -> Request {
        Request {
            url: self.url@,
            save_name: self.save_name@,
            headers: headers_of(self.headers@),
            video_quality: description_of(self.video_quality),
            audio_stream: description_of(self.audio_stream),
            subtitles: description_of(self.subtitles),
            auto_merge: self.auto_merge,
            audio_only: self.audio_only,
        }
    }
}

/// The settings that a download reads, as plain values.
pub struct Preferences {
    pub download_location: Option<Seq<char>>,
    pub tmp_dir: Option<Seq<char>>,
    pub thread_count: Option<Seq<char>>,
    pub download_retry_count: Option<Seq<char>>,
    pub sub_format: Option<Seq<char>>,
    pub log_level: Option<Seq<char>>,
}

/// The settings that a download reads. One that is not set takes its default.
#[derive(Debug)]
pub struct Settings {
    /// The directory that the download is saved in.
    pub download_location: Option<String>,
    /// The directory for the parts of a download that is under way.
    pub tmp_dir: Option<String>,
    /// How many threads fetch segments; 16 when not set.
    pub thread_count: Option<String>,
    /// How often a segment is tried again; 3 when not set.
    pub download_retry_count: Option<String>,
    /// The format that subtitles are written in; `SRT` when not set.
    pub sub_format: Option<String>,
    /// How much the downloader logs; `INFO` when not set.
    pub log_level: Option<String>,
}

/// The text of a string that may not be there.
pub open spec fn text_of_option(o: Option<String>) -> Option<Seq<char>> {
    match o {
        Some(s) => Some(s@),
        None => None,
    }
}

impl View for Settings {
    type V = Preferences;

    open spec fn view(&self) -> Preferences {
        Preferences {
            download_location: text_of_option(self.download_location),
            tmp_dir: text_of_option(self.tmp_dir),
            thread_count: text_of_option(self.thread_count),
            download_retry_count: text_of_option(self.download_retry_count),
            sub_format: text_of_option(self.sub_format),
            log_level: text_of_option(self.log_level),
        }
    }
}

/// The argument that hands one header to the downloader.
pub open spec fn header_line(h: HeaderText) -> Seq<char> {
    h.key + ": "@ + h.value
}

/// For each header, in order, `flag` and the header.
pub open spec fn header_args(flag: Seq<char>, headers: Seq<HeaderText>) -> Seq<Seq<char>>
    decreases headers.len(),
{
    if headers.len() == 0 {
        Seq::empty()
    } else {
        header_args(flag, headers.drop_last()) + seq![flag, header_line(headers.last())]
    }
}

/// The bandwidth that a description of a video stream names: its second
/// field read as an `i32`, and 0 where that is no such number.
pub open spec fn bandwidth_of(field: Seq<char>) -> int {
    match i32_value(field) {
        Some(v) => v,
        None => 0,
    }
}

/// The filter that picks a video stream: resolution, a bandwidth within one
/// of the given one, frame rate and codecs. `None` for a description of fewer
/// than four fields.
pub open spec fn video_selector(description: Seq<char>) -> Option<Seq<char>> {
    let parts = split(description, " | "@);
    if parts.len() >= 4 {
        let bandwidth = bandwidth_of(parts[1]);
        Some(
            "res="@ + parts[0] + ":bwMin="@ + int_text(bandwidth - 1) + ":bwMax="@ + int_text(
                bandwidth + 1,
            ) + ":frame="@ + parts[2] + ":codecs="@ + parts[3],
        )
    } else {
        None
    }
}

/// The filter that picks an audio stream: id, name, language and channels.
/// `None` for a description of fewer than four fields.
pub open spec fn audio_selector(description: Seq<char>) -> Option<Seq<char>> {
    let parts = split(description, " | "@);
    if parts.len() >= 4 {
        Some("id="@ + parts[0] + ":name="@ + parts[1] + ":lang="@ + parts[2] + ":ch="@ + parts[3])
    } else {
        None
    }
}

/// The filter that picks a subtitle stream: id, name and language. `None`
/// for a description of fewer than three fields.
pub open spec fn subtitle_selector(description: Seq<char>) -> Option<Seq<char>> {
    let parts = split(description, " | "@);
    if parts.len() >= 3 {
        Some("id="@ + parts[0] + ":name="@ + parts[1] + ":lang="@ + parts[2])
    } else {
        None
    }
}

/// `flag` and the filter, where a stream was picked and its description gave
/// a filter; nothing otherwise.
pub open spec fn selector_args(flag: Seq<char>, selector: Option<Seq<char>>) -> Seq<Seq<char>> {
    match selector {
        Some(text) => seq![flag, text],
        None => Seq::empty(),
    }
}

/// The filter of a picked stream, if one was picked.
pub open spec fn picked(
    description: Option<Seq<char>>,
    selector: spec_fn(Seq<char>) -> Option<Seq<char>>,
) -> Option<Seq<char>> {
    match description {
        Some(d) => selector(d),
        None => None,
    }
}

/// The arguments that ask for the tracks to be merged into one file.
pub open spec fn mux_args(auto_merge: bool, audio_only: bool) -> Seq<Seq<char>> {
    if auto_merge {
        seq![
            "-M"@,
            "format=mkv:muxer=ffmpeg:bin_path=auto:skip_sub="@ + (if audio_only {
                "true"@
            } else {
                "false"@
            }) + ":keep=true"@,
        ]
    } else {
        Seq::empty()
    }
}

/// A setting, or its default where it is not set.
pub open spec fn or_default(setting: Option<Seq<char>>, default: Seq<char>) -> Seq<char> {
    match setting {
        Some(text) => text,
        None => default,
    }
}

/// The arguments that hand the settings to the downloader.
pub open spec fn settings_args(
    settings: Preferences,
    default_save_dir: Seq<char>,
    default_tmp_dir: Seq<char>,
) -> Seq<Seq<char>> {
    seq![
        "--save-dir"@,
        or_default(settings.download_location, default_save_dir),
        "--tmp-dir"@,
        or_default(settings.tmp_dir, default_tmp_dir),
        "--thread-count"@,
        or_default(settings.thread_count, "16"@),
        "--download-retry-count"@,
        or_default(settings.download_retry_count, "3"@),
        "--sub-format"@,
        or_default(settings.sub_format, "SRT"@),
        "--log-level"@,
        or_default(settings.log_level, "INFO"@),
        "--force-ansi-console"@,
    ]
}

/// The arguments of a download.
pub open spec fn download_args(
    request: Request,
    settings: Preferences,
    default_save_dir: Seq<char>,
    default_tmp_dir: Seq<char>,
) -> Seq<Seq<char>> {
    seq![request.url, "--save-name"@, request.save_name] + header_args(
        "--header"@,
        request.headers,
    ) + selector_args("-sv"@, picked(request.video_quality, |d| video_selector(d)))
        + selector_args("-sa"@, picked(request.audio_stream, |d| audio_selector(d)))
        + selector_args("-ss"@, picked(request.subtitles, |d| subtitle_selector(d))) + mux_args(
        request.auto_merge,
        request.audio_only,
    ) + settings_args(settings, default_save_dir, default_tmp_dir)
}

/// The arguments of a run that only lists the streams behind `url`.
pub open spec fn listing_args(url: Seq<char>, headers: Seq<HeaderText>) -> Seq<Seq<char>> {
    seq![url] + header_args("-H"@, headers) + seq![
        "--write-meta-json"@,
        "false"@,
        "--del-after-done"@,
    ]
}

/// Appends, for each header, `flag` and the header.
fn push_headers(out: &mut Vec<String>, flag: &str, headers: &Vec<Header>)
    ensures
        texts_of(final(out)@) == texts_of(old(out)@) + header_args(flag@, headers_of(headers@)),
{
    let ghost all = headers_of(headers@);
    let ghost start = texts_of(out@);
    let n = headers.len();
    let mut i: usize = 0;
    assert(all.take(0) =~= Seq::<HeaderText>::empty());
    assert(texts_of(out@) =~= start + header_args(flag@, all.take(0)));
    while i < n
        invariant
            i <= n == headers.len(),
            all == headers_of(headers@),
            texts_of(out@) == start + header_args(flag@, all.take(i as int)),
        decreases n - i,
    {
        let h = &headers[i];
        let mut line = h.key.clone();
        line.append(": ");
        line.append(h.value.as_str());
        let ghost before = texts_of(out@);
        out.push(flag.to_owned());
        out.push(line);
        proof {
            let done = all.take(i as int);
            let next = all.take(i + 1);
            assert(next.drop_last() =~= done);
            assert(next.last() == headers[i as int]@);
            assert(line@ =~= header_line(next.last()));
            assert(texts_of(out@) =~= before + seq![flag@, line@]);
            assert(start + (header_args(flag@, done) + seq![flag@, line@]) =~= (start
                + header_args(flag@, done)) + seq![flag@, line@]);
        }
        i = i + 1;
    }
    assert(all.take(n as int) =~= all);
}

/// The text of `text` in `span`.
fn piece<'a>(text: &'a str, span: Span) -> (r: &'a str)
    requires
        span.lo <= span.hi <= text@.len(),
    ensures
        r@ == text@.subrange(span.lo as int, span.hi as int),
{
    text.substring_char(span.lo, span.hi)
}

/// The fields of a description: where the pieces between ` | ` lie.
fn fields_of(s: &Vec<char>) -> (r: Vec<Span>)
    ensures
        ranges_of(r@) == split_ranges(s@, " | "@, 0),
        r.len() >= 1,
        forall|i: int| 0 <= i < r.len() ==> #[trigger] r[i].lo <= r[i].hi <= s.len(),
{
    let sep = chars_of(" | ");
    split_spans(s, &sep)
}

/// The filter that picks the video stream of a description.
pub fn video_filter(description: &str) -> (r: Option<String>)
    ensures
        text_of_option(r) == video_selector(description@),
{
    let s = chars_of(description);
    let spans = fields_of(&s);
    if spans.len() < 4 {
        return None;
    }
    let ghost parts = split(description@, " | "@);
    assert(parts.len() == spans.len());
    assert(parts[0] == description@.subrange(spans[0].lo as int, spans[0].hi as int));
    assert(parts[1] == description@.subrange(spans[1].lo as int, spans[1].hi as int));
    assert(parts[2] == description@.subrange(spans[2].lo as int, spans[2].hi as int));
    assert(parts[3] == description@.subrange(spans[3].lo as int, spans[3].hi as int));
    let bandwidth: i64 = match parse_i32(&s, spans[1].lo, spans[1].hi) {
        Some(v) => v as i64,
        None => 0,
    };
    assert(bandwidth == bandwidth_of(parts[1]));
    let mut out = "res=".to_owned();
    out.append(piece(description, spans[0]));
    out.append(":bwMin=");
    append_int(&mut out, bandwidth - 1);
    out.append(":bwMax=");
    append_int(&mut out, bandwidth + 1);
    out.append(":frame=");
    out.append(piece(description, spans[2]));
    out.append(":codecs=");
    out.append(piece(description, spans[3]));
    Some(out)
}

/// The filter that picks the audio stream of a description.
pub fn audio_filter(description: &str) -> (r: Option<String>)
    ensures
        text_of_option(r) == audio_selector(description@),
{
    let s = chars_of(description);
    let spans = fields_of(&s);
    if spans.len() < 4 {
        return None;
    }
    let ghost parts = split(description@, " | "@);
    assert(parts.len() == spans.len());
    assert(parts[0] == description@.subrange(spans[0].lo as int, spans[0].hi as int));
    assert(parts[1] == description@.subrange(spans[1].lo as int, spans[1].hi as int));
    assert(parts[2] == description@.subrange(spans[2].lo as int, spans[2].hi as int));
    assert(parts[3] == description@.subrange(spans[3].lo as int, spans[3].hi as int));
    let mut out = "id=".to_owned();
    out.append(piece(description, spans[0]));
    out.append(":name=");
    out.append(piece(description, spans[1]));
    out.append(":lang=");
    out.append(piece(description, spans[2]));
    out.append(":ch=");
    out.append(piece(description, spans[3]));
    Some(out)
}

/// The filter that picks the subtitle stream of a description.
pub fn subtitle_filter(description: &str) -> (r: Option<String>)
    ensures
        text_of_option(r) == subtitle_selector(description@),
{
    let s = chars_of(description);
    let spans = fields_of(&s);
    if spans.len() < 3 {
        return None;
    }
    let ghost parts = split(description@, " | "@);
    assert(parts.len() == spans.len());
    assert(parts[0] == description@.subrange(spans[0].lo as int, spans[0].hi as int));
    assert(parts[1] == description@.subrange(spans[1].lo as int, spans[1].hi as int));
    assert(parts[2] == description@.subrange(spans[2].lo as int, spans[2].hi as int));
    let mut out = "id=".to_owned();
    out.append(piece(description, spans[0]));
    out.append(":name=");
    out.append(piece(description, spans[1]));
    out.append(":lang=");
    out.append(piece(description, spans[2]));
    Some(out)
}

/// Appends `flag` and the filter, if there is one.
fn push_selector(out: &mut Vec<String>, flag: &str, selector: Option<String>)
    ensures
        texts_of(final(out)@) == texts_of(old(out)@) + selector_args(
            flag@,
            text_of_option(selector),
        ),
{
    let ghost before = texts_of(out@);
    match selector {
        Some(text) => {
            out.push(flag.to_owned());
            out.push(text);
            assert(texts_of(out@) =~= before + seq![flag@, text@]);
        },
        None => {
            assert(texts_of(out@) =~= before + Seq::<Seq<char>>::empty());
        },
    }
}

/// A setting, or its default where it is not set.
fn setting_or(setting: &Option<String>, default: &str) -> (r: String)
    ensures
        r@ == or_default(text_of_option(*setting), default@),
{
    match setting {
        Some(text) => text.clone(),
        None => default.to_owned(),
    }
}

/// Appends the arguments that hand the settings to the downloader.
fn push_settings(
    out: &mut Vec<String>,
    settings: &Settings,
    default_save_dir: &str,
    default_tmp_dir: &str,
)
    ensures
        texts_of(final(out)@) == texts_of(old(out)@) + settings_args(
            settings@,
            default_save_dir@,
            default_tmp_dir@,
        ),
{
    let ghost before = texts_of(out@);
    out.push("--save-dir".to_owned());
    out.push(setting_or(&settings.download_location, default_save_dir));
    out.push("--tmp-dir".to_owned());
    out.push(setting_or(&settings.tmp_dir, default_tmp_dir));
    out.push("--thread-count".to_owned());
    out.push(setting_or(&settings.thread_count, "16"));
    out.push("--download-retry-count".to_owned());
    out.push(setting_or(&settings.download_retry_count, "3"));
    out.push("--sub-format".to_owned());
    out.push(setting_or(&settings.sub_format, "SRT"));
    out.push("--log-level".to_owned());
    out.push(setting_or(&settings.log_level, "INFO"));
    out.push("--force-ansi-console".to_owned());
    assert(texts_of(out@) =~= before + settings_args(
        settings@,
        default_save_dir@,
        default_tmp_dir@,
    ));
}

/// Appends the arguments that ask for the tracks to be merged.
fn push_mux(out: &mut Vec<String>, auto_merge: bool, audio_only: bool)
    ensures
        texts_of(final(out)@) == texts_of(old(out)@) + mux_args(auto_merge, audio_only),
{
    let ghost before = texts_of(out@);
    if auto_merge {
        let mut text = "format=mkv:muxer=ffmpeg:bin_path=auto:skip_sub=".to_owned();
        if audio_only {
            text.append("true");
        } else {
            text.append("false");
        }
        text.append(":keep=true");
        out.push("-M".to_owned());
        out.push(text);
        assert(texts_of(out@) =~= before + mux_args(auto_merge, audio_only));
    } else {
        assert(texts_of(out@) =~= before + Seq::<Seq<char>>::empty());
    }
}

/// The arguments that the downloader is started with for a download.
/// `default_save_dir` and `default_tmp_dir` are used where the settings name
/// no directory.
pub fn build_download_args(
    options: &DownloadOptions,
    settings: &Settings,
    default_save_dir: &str,
    default_tmp_dir: &str,
) -> (r: Vec<String>)
    ensures
        texts_of(r@) == download_args(options@, settings@, default_save_dir@, default_tmp_dir@),
{
    let mut out: Vec<String> = Vec::new();
    out.push(options.url.clone());
    out.push("--save-name".to_owned());
    out.push(options.save_name.clone());
    assert(texts_of(out@) =~= seq![options@.url, "--save-name"@, options@.save_name]);
    push_headers(&mut out, "--header", &options.headers);
    let video = match &options.video_quality {
        Some(o) => video_filter(o.description.as_str()),
        None => None,
    };
    push_selector(&mut out, "-sv", video);
    let audio = match &options.audio_stream {
        Some(o) => audio_filter(o.description.as_str()),
        None => None,
    };
    push_selector(&mut out, "-sa", audio);
    let subtitles = match &options.subtitles {
        Some(o) => subtitle_filter(o.description.as_str()),
        None => None,
    };
    push_selector(&mut out, "-ss", subtitles);
    push_mux(&mut out, options.auto_merge, options.audio_only);
    push_settings(&mut out, settings, default_save_dir, default_tmp_dir);
    out
}

/// The arguments that the downloader is started with to list the streams
/// behind `url`.
pub fn build_listing_args(url: &str, headers: &Vec<Header>) -> (r: Vec<String>)
    ensures
        texts_of(r@) == listing_args(url@, headers_of(headers@)),
{
    let mut out: Vec<String> = Vec::new();
    out.push(url.to_owned());
    assert(texts_of(out@) =~= seq![url@]);
    push_headers(&mut out, "-H", headers);
    let ghost before = texts_of(out@);
    out.push("--write-meta-json".to_owned());
    out.push("false".to_owned());
    out.push("--del-after-done".to_owned());
    assert(texts_of(out@) =~= before + seq![
        "--write-meta-json"@,
        "false"@,
        "--del-after-done"@,
    ]);
    out
}

} // verus!
