//! The audio file extensions that a batch picks up.
use vstd::prelude::*;

verus! {

/// What `str::to_lowercase` returns for a string.
pub uninterp spec fn lower_of(s: Seq<char>) -> Seq<char>;

/// Relies on `str::to_lowercase`: the result depends on the characters alone.
#[verifier::external_body]
fn lowercase(s: &str) -> (r: String)
    ensures
        r@ == lower_of(s@),
{
    s.to_lowercase()
}

/// Whether an already lower-cased extension names a supported audio format.
pub open spec fn supported_extension(ext: Seq<char>) -> bool {
    ext == "wav"@ || ext == "mp3"@ || ext == "flac"@ || ext == "m4a"@ || ext == "aac"@ || ext
        == "ogg"@
}

/// Whether a lower-case extension is one of wav, mp3, flac, m4a, aac, ogg.
pub fn is_supported_lowercase(ext: &String) -> (r: bool)
    ensures
        r == supported_extension(ext@),
{
    proof {
        reveal_strlit("wav");
        reveal_strlit("mp3");
        reveal_strlit("flac");
        reveal_strlit("m4a");
        reveal_strlit("aac");
        reveal_strlit("ogg");
    }
    *ext == "wav".to_owned() || *ext == "mp3".to_owned() || *ext == "flac".to_owned() || *ext
        == "m4a".to_owned() || *ext == "aac".to_owned() || *ext == "ogg".to_owned()
}

/// Whether a file extension, in any letter case, names a supported audio
/// format.
pub fn is_audio_extension(ext: &str) -> (r: bool)
    ensures
        r == supported_extension(lower_of(ext@)),
{
    let lower = lowercase(ext);
    is_supported_lowercase(&lower)
}

} // verus!
