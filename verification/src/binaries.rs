//! The names of the two programs that a download needs, and the rule that
//! says which of them are missing.

use vstd::prelude::*;
use vstd::string::StringExecFns;
use crate::text::{chars_of, texts_of};

verus! {

/// The suffix of an executable file on Windows.
pub open spec fn exe_suffix() -> Seq<char> {
    seq!['.', 'e', 'x', 'e']
}

/// `name` ends in `.exe`.
pub open spec fn has_exe_suffix(name: Seq<char>) -> bool {
    name.len() >= 4 && name.subrange(name.len() - 4, name.len() as int) == exe_suffix()
}

/// The file name of the program `name`: on Windows with `.exe` behind it,
/// unless it is there already; elsewhere the name itself.
pub open spec fn platform_binary_name(name: Seq<char>, windows: bool) -> Seq<char> {
    if windows && !has_exe_suffix(name) {
        name + exe_suffix()
    } else {
        name
    }
}

fn ends_in_exe(name: &str) -> (r: bool)
    ensures
        r == has_exe_suffix(name@),
{
    let s = chars_of(name);
    let n = s.len();
    if n < 4 {
        return false;
    }
    let r = s[n - 4] == '.' && s[n - 3] == 'e' && s[n - 2] == 'x' && s[n - 1] == 'e';
    proof {
        let tail = name@.subrange(n - 4, n as int);
        if r {
            assert(tail =~= exe_suffix());
        } else {
            assert(tail[0] == s@[n - 4] && tail[1] == s@[n - 3] && tail[2] == s@[n - 2] && tail[3]
                == s@[n - 1]);
        }
    }
    r
}

/// The file name under which the program `name` is looked for. `windows` says
/// whether the program runs on Windows.
pub fn get_platform_binary_name(name: &str, windows: bool) -> (r: String)
    ensures
        r@ == platform_binary_name(name@, windows),
{
    let mut r = name.to_owned();
    if windows && !ends_in_exe(name) {
        proof {
            reveal_strlit(".exe");
        }
        r.append(".exe");
        assert(r@ =~= name@ + exe_suffix());
    }
    r
}

/// The name of the downloader.
pub open spec fn downloader_name() -> Seq<char> {
    seq!['N', '_', 'm', '3', 'u', '8', 'D', 'L', '-', 'R', 'E']
}

/// The name of the muxer.
pub open spec fn muxer_name() -> Seq<char> {
    seq!['f', 'f', 'm', 'p', 'e', 'g']
}

/// The name of the downloader, without a platform suffix.
pub fn downloader() -> (r: &'static str)
    ensures
        r@ == downloader_name(),
{
    proof {
        reveal_strlit("N_m3u8DL-RE");
    }
    let r = "N_m3u8DL-RE";
    assert(r@ =~= downloader_name());
    r
}

/// The name of the muxer, without a platform suffix.
pub fn muxer() -> (r: &'static str)
    ensures
        r@ == muxer_name(),
{
    proof {
        reveal_strlit("ffmpeg");
    }
    let r = "ffmpeg";
    assert(r@ =~= muxer_name());
    r
}

/// The names of the missing programs, the downloader first.
pub open spec fn missing_names(downloader_present: bool, muxer_present: bool) -> Seq<Seq<char>> {
    (if downloader_present {
        seq![]
    } else {
        seq![downloader_name()]
    }) + (if muxer_present {
        seq![]
    } else {
        seq![muxer_name()]
    })
}

/// Which of the two programs are missing, given which of them were found.
/// A download is to be started only when the result is empty.
pub fn missing_binaries(downloader_present: bool, muxer_present: bool) -> (r: Vec<String>)
    ensures
        texts_of(r@) == missing_names(downloader_present, muxer_present),
{
    let mut r: Vec<String> = Vec::new();
    if !downloader_present {
        r.push(downloader().to_owned());
    }
    if !muxer_present {
        r.push(muxer().to_owned());
    }
    assert(texts_of(r@) =~= missing_names(downloader_present, muxer_present));
    r
}

} // verus!
