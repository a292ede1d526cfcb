//! Where the Whisper model lives, and progress while it downloads.
use vstd::prelude::*;

verus! {

/// The model's file name inside the models directory.
pub open spec fn model_file_suffix() -> Seq<char> {
    "models/ggml-small.bin"@
}

/// `data_dir` joined with `models/ggml-small.bin` (as `Path::join` with a relative
/// path): a `/` goes between them unless `data_dir` is empty or already ends in `/`.
pub open spec fn spec_model_path(data_dir: Seq<char>) -> Seq<char> {
    if data_dir.len() == 0 || data_dir.last() == '/' {
        data_dir + model_file_suffix()
    } else {
        data_dir + seq!['/'] + model_file_suffix()
    }
}

/// The path of the Whisper model file under the application's data directory.
pub fn model_path(data_dir: &str) -> (path: String)
    ensures
        path@ == spec_model_path(data_dir@),
{
    let chars = crate::text::chars_of(data_dir);
    let n = chars.len();
    let mut path = String::from_str(data_dir);
    if n > 0 && chars[n - 1] != '/' {
        path.append("/");
        proof {
            reveal_strlit("/");
        }
    }
    path.append("models/ggml-small.bin");
    path
}

/// The whole-number percentage of a download, as the progress event carries it (a
/// `u8`, truncated). `None` while the total size is unknown (zero).
pub open spec fn spec_download_percent(downloaded: u64, total: u64) -> Option<u8> {
    if total > 0 {
        Some(((downloaded * 100) / (total as int)) as u8)
    } else {
        None
    }
}

/// Which percentage a download-progress event is due for, after `downloaded` of
/// `total` bytes, when the last event carried `last_percent`: the current percentage
/// when the total is known and the percentage changed, and `None` otherwise.
pub fn progress_to_emit(last_percent: u8, downloaded: u64, total: u64) -> (r: Option<u8>)
    requires
        downloaded <= u64::MAX / 100,
    ensures
        r == (match spec_download_percent(downloaded, total) {
            Some(p) => if p != last_percent { Some(p) } else { None },
            None => None,
        }),
{
    if total > 0 {
        let percent = ((downloaded * 100) / total) as u8;
        if percent != last_percent {
            return Some(percent);
        }
    }
    None
}

} // verus!
