//! The streams that the downloader lists for a playlist, read from what it
//! prints.
//!
//! Each stream is one line of the listing: a tag (`INFO : Vid`, `INFO : Aud`
//! or `INFO : Sub`) and, behind it, the fields of the stream with `|` between
//! them.

use vstd::prelude::*;
use crate::split::{occurs, remove_all, split, split_text, without};
use crate::text::{texts_of, trim_text, trimmed};

verus! {

/// A video stream, as plain values.
pub struct VideoText {
    pub resolution: Seq<char>,
    pub bitrate: Seq<char>,
    pub fps: Seq<char>,
    pub codec: Seq<char>,
}

/// A video stream of the listing.
#[derive(Debug)]
pub struct VideoStream {
    pub resolution: String,
    /// The bit rate in kilobits per second, without its unit.
    pub bitrate: String,
    pub fps: String,
    pub codec: String,
}

impl View for VideoStream {
    type V = VideoText;

    open spec fn view(&self) -> VideoText {
        VideoText {
            resolution: self.resolution@,
            bitrate: self.bitrate@,
            fps: self.fps@,
            codec: self.codec@,
        }
    }
}

/// An audio stream, as plain values.
pub struct AudioText {
    pub id: Seq<char>,
    pub name: Seq<char>,
    pub language: Seq<char>,
    pub channels: Seq<char>,
}

/// An audio stream of the listing.
#[derive(Debug)]
pub struct AudioStream {
    pub id: String,
    pub name: String,
    pub language: String,
    pub channels: String,
}

impl View for AudioStream {
    type V = AudioText;

    open spec fn view(&self) -> AudioText {
        AudioText {
            id: self.id@,
            name: self.name@,
            language: self.language@,
            channels: self.channels@,
        }
    }
}

/// A subtitle stream, as plain values.
pub struct SubtitleText {
    pub id: Seq<char>,
    pub name: Seq<char>,
    pub language: Seq<char>,
}

/// A subtitle stream of the listing.
#[derive(Debug)]
pub struct SubtitleStream {
    pub id: String,
    pub name: String,
    pub language: String,
}

impl View for SubtitleStream {
    type V = SubtitleText;

    open spec fn view(&self) -> SubtitleText {
        SubtitleText { id: self.id@, name: self.name@, language: self.language@ }
    }
}

/// What one line of the listing says, as plain values.
pub enum Entry {
    Video(VideoText),
    Audio(AudioText),
    Subtitle(SubtitleText),
}

/// What one line of the listing says.
#[derive(Debug)]
pub enum StreamEntry {
    Video(VideoStream),
    Audio(AudioStream),
    Subtitle(SubtitleStream),
}

impl View for StreamEntry {
    type V = Entry;

    open spec fn view(&self) -> Entry {
        match self {
            StreamEntry::Video(v) => Entry::Video(v@),
            StreamEntry::Audio(a) => Entry::Audio(a@),
            StreamEntry::Subtitle(s) => Entry::Subtitle(s@),
        }
    }
}

/// The streams of a listing, as plain values.
pub struct Listing {
    pub video: Seq<VideoText>,
    pub audio: Seq<AudioText>,
    pub subtitle: Seq<SubtitleText>,
}

/// The streams of a listing, each kind in the order of the lines.
#[derive(Debug)]
pub struct StreamInfo {
    pub video_streams: Vec<VideoStream>,
    pub audio_streams: Vec<AudioStream>,
    pub subtitle_streams: Vec<SubtitleStream>,
}

impl View for StreamInfo {
    type V = Listing;

    open spec fn view(&self) -> Listing {
        Listing {
            video: Seq::new(self.video_streams@.len(), |i: int| self.video_streams@[i]@),
            audio: Seq::new(self.audio_streams@.len(), |i: int| self.audio_streams@[i]@),
            subtitle: Seq::new(self.subtitle_streams@.len(), |i: int| self.subtitle_streams@[i]@),
        }
    }
}

/// Each of the texts without the white space at its ends.
pub open spec fn all_trimmed(texts: Seq<Seq<char>>) -> Seq<Seq<char>> {
    Seq::new(texts.len(), |i: int| trimmed(texts[i]))
}

/// The fields behind `tag` in a line in which `tag` stands exactly once: the
/// pieces between the bars of what follows the tag, each trimmed. `None` where
/// `tag` stands more than once or not at all.
pub open spec fn fields_behind(line: Seq<char>, tag: Seq<char>) -> Option<Seq<Seq<char>>> {
    let parts = split(line, tag);
    if parts.len() == 2 {
        Some(all_trimmed(split(parts[1], "|"@)))
    } else {
        None
    }
}

/// The video stream that the fields give: resolution, bit rate with `Kbps`
/// taken out, frame rate and codec. `None` for fewer than four fields.
pub open spec fn video_of(fields: Option<Seq<Seq<char>>>) -> Option<Entry> {
    match fields {
        Some(f) => if f.len() >= 4 {
            Some(
                Entry::Video(
                    VideoText {
                        resolution: f[0],
                        bitrate: trimmed(without(f[1], "Kbps"@)),
                        fps: f[2],
                        codec: f[3],
                    },
                ),
            )
        } else {
            None
        },
        None => None,
    }
}

/// The audio stream that the fields give: id, name, language and channels.
/// `None` for fewer than four fields.
pub open spec fn audio_of(fields: Option<Seq<Seq<char>>>) -> Option<Entry> {
    match fields {
        Some(f) => if f.len() >= 4 {
            Some(Entry::Audio(AudioText { id: f[0], name: f[1], language: f[2], channels: f[3] }))
        } else {
            None
        },
        None => None,
    }
}

/// The subtitle stream that the fields give: id, language and name, in this
/// order. `None` for fewer than three fields.
pub open spec fn subtitle_of(fields: Option<Seq<Seq<char>>>) -> Option<Entry> {
    match fields {
        Some(f) => if f.len() >= 3 {
            Some(Entry::Subtitle(SubtitleText { id: f[0], language: f[1], name: f[2] }))
        } else {
            None
        },
        None => None,
    }
}

/// What a line of the listing says. The first of the three tags that stands
/// in the line decides of which kind the stream is.
pub open spec fn entry_of(line: Seq<char>) -> Option<Entry> {
    if occurs(line, "INFO : Vid"@) {
        video_of(fields_behind(line, "INFO : Vid"@))
    } else if occurs(line, "INFO : Aud"@) {
        audio_of(fields_behind(line, "INFO : Aud"@))
    } else if occurs(line, "INFO : Sub"@) {
        subtitle_of(fields_behind(line, "INFO : Sub"@))
    } else {
        None
    }
}

impl Listing {
    /// The listing with no stream in it.
    pub open spec fn empty() -> Listing {
        Listing { video: Seq::empty(), audio: Seq::empty(), subtitle: Seq::empty() }
    }

    /// The listing with one entry more, if there is one.
    pub open spec fn with(self, entry: Option<Entry>) -> Listing {
        match entry {
            Some(Entry::Video(v)) => Listing { video: self.video.push(v), ..self },
            Some(Entry::Audio(a)) => Listing { audio: self.audio.push(a), ..self },
            Some(Entry::Subtitle(s)) => Listing { subtitle: self.subtitle.push(s), ..self },
            None => self,
        }
    }
}

/// The streams that the lines say, each line trimmed before it is read.
pub open spec fn listing_of(lines: Seq<Seq<char>>) -> Listing
    decreases lines.len(),
{
    if lines.len() == 0 {
        Listing::empty()
    } else {
        listing_of(lines.drop_last()).with(entry_of(trimmed(lines.last())))
    }
}

/// The streams that the output of a listing run names.
pub open spec fn streams_in(output: Seq<char>) -> Listing {
    listing_of(split(output, "\n"@))
}

/// The texts of the fields, if there are any.
pub open spec fn fields_view(fields: Option<Vec<String>>) -> Option<Seq<Seq<char>>> {
    match fields {
        Some(f) => Some(texts_of(f@)),
        None => None,
    }
}

/// The view of an entry, if there is one.
pub open spec fn entry_view(entry: Option<StreamEntry>) -> Option<Entry> {
    match entry {
        Some(e) => Some(e@),
        None => None,
    }
}

/// Whether `tag` stands in `line`, and the fields behind it where it stands
/// exactly once.
fn read_fields(line: &str, tag: &str) -> (r: (bool, Option<Vec<String>>))
    ensures
        r.0 == occurs(line@, tag@),
        fields_view(r.1) == fields_behind(line@, tag@),
{
    let parts = split_text(line, tag);
    let found = parts.len() > 1;
    if parts.len() != 2 {
        return (found, None);
    }
    assert(texts_of(parts@)[1] == parts[1]@);
    let pieces = split_text(parts[1].as_str(), "|");
    let ghost raw = texts_of(pieces@);
    let mut fields: Vec<String> = Vec::new();
    let n = pieces.len();
    let mut i: usize = 0;
    while i < n
        invariant
            i <= n == pieces.len(),
            raw == texts_of(pieces@),
            fields.len() == i,
            forall|k: int| 0 <= k < i ==> (#[trigger] fields[k])@ == trimmed(raw[k]),
        decreases n - i,
    {
        assert(raw[i as int] == pieces[i as int]@);
        fields.push(trim_text(pieces[i].as_str()));
        i = i + 1;
    }
    assert(texts_of(fields@) =~= all_trimmed(raw));
    (found, Some(fields))
}

/// Reads one line of the listing.
pub fn parse_stream_line(line: &str) -> (r: Option<StreamEntry>)
    ensures
        entry_view(r) == entry_of(line@),
{
    let (is_video, fields) = read_fields(line, "INFO : Vid");
    if is_video {
        return match fields {
            Some(f) => {
                if f.len() >= 4 {
                    let ghost t = texts_of(f@);
                    assert(t[0] == f[0]@ && t[1] == f[1]@ && t[2] == f[2]@ && t[3] == f[3]@);
                    let bare = remove_all(f[1].as_str(), "Kbps");
                    Some(
                        StreamEntry::Video(
                            VideoStream {
                                resolution: f[0].clone(),
                                bitrate: trim_text(bare.as_str()),
                                fps: f[2].clone(),
                                codec: f[3].clone(),
                            },
                        ),
                    )
                } else {
                    None
                }
            },
            None => None,
        };
    }
    let (is_audio, fields) = read_fields(line, "INFO : Aud");
    if is_audio {
        return match fields {
            Some(f) => {
                if f.len() >= 4 {
                    let ghost t = texts_of(f@);
                    assert(t[0] == f[0]@ && t[1] == f[1]@ && t[2] == f[2]@ && t[3] == f[3]@);
                    Some(
                        StreamEntry::Audio(
                            AudioStream {
                                id: f[0].clone(),
                                name: f[1].clone(),
                                language: f[2].clone(),
                                channels: f[3].clone(),
                            },
                        ),
                    )
                } else {
                    None
                }
            },
            None => None,
        };
    }
    let (is_subtitle, fields) = read_fields(line, "INFO : Sub");
    if is_subtitle {
        return match fields {
            Some(f) => {
                if f.len() >= 3 {
                    let ghost t = texts_of(f@);
                    assert(t[0] == f[0]@ && t[1] == f[1]@ && t[2] == f[2]@);
                    Some(
                        StreamEntry::Subtitle(
                            SubtitleStream {
                                id: f[0].clone(),
                                language: f[1].clone(),
                                name: f[2].clone(),
                            },
                        ),
                    )
                } else {
                    None
                }
            },
            None => None,
        };
    }
    None
}

/// Reads the streams that the output of a listing run names.
pub fn parse_stream_info(output: &str) -> (r: StreamInfo)
    ensures
        r@ == streams_in(output@),
{
    let lines = split_text(output, "\n");
    let ghost all = texts_of(lines@);
    let mut info = StreamInfo {
        video_streams: Vec::new(),
        audio_streams: Vec::new(),
        subtitle_streams: Vec::new(),
    };
    let n = lines.len();
    let mut i: usize = 0;
    assert(all.take(0) =~= Seq::<Seq<char>>::empty());
    assert(info@ =~= Listing::empty()) by {
        assert(info@.video =~= Seq::<VideoText>::empty());
        assert(info@.audio =~= Seq::<AudioText>::empty());
        assert(info@.subtitle =~= Seq::<SubtitleText>::empty());
    }
    while i < n
        invariant
            i <= n == lines.len(),
            all == texts_of(lines@),
            info@ == listing_of(all.take(i as int)),
        decreases n - i,
    {
        let line = trim_text(lines[i].as_str());
        let ghost before = info@;
        proof {
            assert(all.take(i + 1).drop_last() =~= all.take(i as int));
            assert(all.take(i + 1).last() == lines[i as int]@);
        }
        match parse_stream_line(line.as_str()) {
            Some(StreamEntry::Video(v)) => {
                info.video_streams.push(v);
                assert(info@.video =~= before.video.push(v@));
                assert(info@.audio =~= before.audio);
                assert(info@.subtitle =~= before.subtitle);
            },
            Some(StreamEntry::Audio(a)) => {
                info.audio_streams.push(a);
                assert(info@.audio =~= before.audio.push(a@));
                assert(info@.video =~= before.video);
                assert(info@.subtitle =~= before.subtitle);
            },
            Some(StreamEntry::Subtitle(s)) => {
                info.subtitle_streams.push(s);
                assert(info@.subtitle =~= before.subtitle.push(s@));
                assert(info@.video =~= before.video);
                assert(info@.audio =~= before.audio);
            },
            None => {},
        }
        i = i + 1;
    }
    assert(all.take(n as int) =~= all);
    info
}

} // verus!
