//! Media files: which file types the vault accepts, how imported files are
//! named, and the content checksum that spots duplicates.

use vstd::prelude::*;
use crate::text::{chars_of, string_of, concat, str_eq, push_arg, trim, trimmed};

verus! {

/// What a media item is, by file type.
pub open spec fn is_image_extension(e: Seq<char>) -> bool {
    e == "png"@ || e == "jpg"@ || e == "jpeg"@ || e == "bmp"@ || e == "webp"@ || e == "tiff"@
        || e == "tif"@ || e == "avif"@
}

pub open spec fn is_video_extension(e: Seq<char>) -> bool {
    e == "mp4"@ || e == "mkv"@ || e == "avi"@ || e == "mov"@ || e == "webm"@ || e == "flv"@
        || e == "wmv"@
}

pub open spec fn is_gif_extension(e: Seq<char>) -> bool {
    e == "gif"@
}

pub open spec fn is_audio_extension(e: Seq<char>) -> bool {
    e == "mp3"@ || e == "wav"@ || e == "flac"@ || e == "ogg"@ || e == "aac"@ || e == "m4a"@
        || e == "wma"@ || e == "opus"@
}

/// The media type of a lowercase extension, if the vault accepts it.
pub open spec fn media_type_for(e: Seq<char>) -> Option<Seq<char>> {
    if is_image_extension(e) {
        Some("image"@)
    } else if is_video_extension(e) {
        Some("video"@)
    } else if is_gif_extension(e) {
        Some("gif"@)
    } else if is_audio_extension(e) {
        Some("audio"@)
    } else {
        None
    }
}

/// The extensions the vault takes, with their media types: images (png, jpg,
/// jpeg, bmp, webp, tiff, tif, avif), videos (mp4, mkv, avi, mov, webm, flv,
/// wmv), GIFs (gif) and audio (mp3, wav, flac, ogg, aac, m4a, wma, opus).
/// Every other extension is refused.
pub proof fn law_accepted_extensions(e: Seq<char>)
    ensures
        (media_type_for(e) == Some("image"@)) <==> seq!["png"@, "jpg"@, "jpeg"@, "bmp"@, "webp"@, "tiff"@, "tif"@, "avif"@].contains(e),
        (media_type_for(e) == Some("video"@)) <==> seq!["mp4"@, "mkv"@, "avi"@, "mov"@, "webm"@, "flv"@, "wmv"@].contains(e),
        (media_type_for(e) == Some("gif"@)) <==> e == "gif"@,
        (media_type_for(e) == Some("audio"@)) <==> seq!["mp3"@, "wav"@, "flac"@, "ogg"@, "aac"@, "m4a"@, "wma"@, "opus"@].contains(e),
        media_type_for(e) is None || media_type_for(e) == Some("image"@) || media_type_for(e) == Some("video"@)
            || media_type_for(e) == Some("gif"@) || media_type_for(e) == Some("audio"@),
{
    reveal_strlit("image");
    reveal_strlit("video");
    reveal_strlit("gif");
    reveal_strlit("audio");
    reveal_strlit("png");
    reveal_strlit("jpg");
    reveal_strlit("jpeg");
    reveal_strlit("bmp");
    reveal_strlit("webp");
    reveal_strlit("tiff");
    reveal_strlit("tif");
    reveal_strlit("avif");
    reveal_strlit("mp4");
    reveal_strlit("mkv");
    reveal_strlit("avi");
    reveal_strlit("mov");
    reveal_strlit("webm");
    reveal_strlit("flv");
    reveal_strlit("wmv");
    reveal_strlit("mp3");
    reveal_strlit("wav");
    reveal_strlit("flac");
    reveal_strlit("ogg");
    reveal_strlit("aac");
    reveal_strlit("m4a");
    reveal_strlit("wma");
    reveal_strlit("opus");
    let images = seq!["png"@, "jpg"@, "jpeg"@, "bmp"@, "webp"@, "tiff"@, "tif"@, "avif"@];
    let videos = seq!["mp4"@, "mkv"@, "avi"@, "mov"@, "webm"@, "flv"@, "wmv"@];
    let audios = seq!["mp3"@, "wav"@, "flac"@, "ogg"@, "aac"@, "m4a"@, "wma"@, "opus"@];
    assert(images.contains(e) <==> is_image_extension(e)) by {
        if is_image_extension(e) {
            if e == "png"@ { assert(images[0] == e); }
            else if e == "jpg"@ { assert(images[1] == e); }
            else if e == "jpeg"@ { assert(images[2] == e); }
            else if e == "bmp"@ { assert(images[3] == e); }
            else if e == "webp"@ { assert(images[4] == e); }
            else if e == "tiff"@ { assert(images[5] == e); }
            else if e == "tif"@ { assert(images[6] == e); }
            else { assert(images[7] == e); }
        }
    }
    assert(videos.contains(e) <==> is_video_extension(e)) by {
        if is_video_extension(e) {
            if e == "mp4"@ { assert(videos[0] == e); }
            else if e == "mkv"@ { assert(videos[1] == e); }
            else if e == "avi"@ { assert(videos[2] == e); }
            else if e == "mov"@ { assert(videos[3] == e); }
            else if e == "webm"@ { assert(videos[4] == e); }
            else if e == "flv"@ { assert(videos[5] == e); }
            else { assert(videos[6] == e); }
        }
    }
    assert(audios.contains(e) <==> is_audio_extension(e)) by {
        if is_audio_extension(e) {
            if e == "mp3"@ { assert(audios[0] == e); }
            else if e == "wav"@ { assert(audios[1] == e); }
            else if e == "flac"@ { assert(audios[2] == e); }
            else if e == "ogg"@ { assert(audios[3] == e); }
            else if e == "aac"@ { assert(audios[4] == e); }
            else if e == "m4a"@ { assert(audios[5] == e); }
            else if e == "wma"@ { assert(audios[6] == e); }
            else { assert(audios[7] == e); }
        }
    }
    // Each literal spelled out, so that different ones are seen to differ.
    assert(("png"@).len() == 3 && ("png"@)[0] == 'p' && ("png"@)[1] == 'n' && ("png"@)[2] == 'g');
    assert(("jpg"@).len() == 3 && ("jpg"@)[0] == 'j' && ("jpg"@)[1] == 'p' && ("jpg"@)[2] == 'g');
    assert(("jpeg"@).len() == 4 && ("jpeg"@)[0] == 'j' && ("jpeg"@)[1] == 'p' && ("jpeg"@)[2] == 'e' && ("jpeg"@)[3] == 'g');
    assert(("bmp"@).len() == 3 && ("bmp"@)[0] == 'b' && ("bmp"@)[1] == 'm' && ("bmp"@)[2] == 'p');
    assert(("webp"@).len() == 4 && ("webp"@)[0] == 'w' && ("webp"@)[1] == 'e' && ("webp"@)[2] == 'b' && ("webp"@)[3] == 'p');
    assert(("tiff"@).len() == 4 && ("tiff"@)[0] == 't' && ("tiff"@)[1] == 'i' && ("tiff"@)[2] == 'f' && ("tiff"@)[3] == 'f');
    assert(("tif"@).len() == 3 && ("tif"@)[0] == 't' && ("tif"@)[1] == 'i' && ("tif"@)[2] == 'f');
    assert(("avif"@).len() == 4 && ("avif"@)[0] == 'a' && ("avif"@)[1] == 'v' && ("avif"@)[2] == 'i' && ("avif"@)[3] == 'f');
    assert(("mp4"@).len() == 3 && ("mp4"@)[0] == 'm' && ("mp4"@)[1] == 'p' && ("mp4"@)[2] == '4');
    assert(("mkv"@).len() == 3 && ("mkv"@)[0] == 'm' && ("mkv"@)[1] == 'k' && ("mkv"@)[2] == 'v');
    assert(("avi"@).len() == 3 && ("avi"@)[0] == 'a' && ("avi"@)[1] == 'v' && ("avi"@)[2] == 'i');
    assert(("mov"@).len() == 3 && ("mov"@)[0] == 'm' && ("mov"@)[1] == 'o' && ("mov"@)[2] == 'v');
    assert(("webm"@).len() == 4 && ("webm"@)[0] == 'w' && ("webm"@)[1] == 'e' && ("webm"@)[2] == 'b' && ("webm"@)[3] == 'm');
    assert(("flv"@).len() == 3 && ("flv"@)[0] == 'f' && ("flv"@)[1] == 'l' && ("flv"@)[2] == 'v');
    assert(("wmv"@).len() == 3 && ("wmv"@)[0] == 'w' && ("wmv"@)[1] == 'm' && ("wmv"@)[2] == 'v');
    assert(("gif"@).len() == 3 && ("gif"@)[0] == 'g' && ("gif"@)[1] == 'i' && ("gif"@)[2] == 'f');
    assert(("mp3"@).len() == 3 && ("mp3"@)[0] == 'm' && ("mp3"@)[1] == 'p' && ("mp3"@)[2] == '3');
    assert(("wav"@).len() == 3 && ("wav"@)[0] == 'w' && ("wav"@)[1] == 'a' && ("wav"@)[2] == 'v');
    assert(("flac"@).len() == 4 && ("flac"@)[0] == 'f' && ("flac"@)[1] == 'l' && ("flac"@)[2] == 'a' && ("flac"@)[3] == 'c');
    assert(("ogg"@).len() == 3 && ("ogg"@)[0] == 'o' && ("ogg"@)[1] == 'g' && ("ogg"@)[2] == 'g');
    assert(("aac"@).len() == 3 && ("aac"@)[0] == 'a' && ("aac"@)[1] == 'a' && ("aac"@)[2] == 'c');
    assert(("m4a"@).len() == 3 && ("m4a"@)[0] == 'm' && ("m4a"@)[1] == '4' && ("m4a"@)[2] == 'a');
    assert(("wma"@).len() == 3 && ("wma"@)[0] == 'w' && ("wma"@)[1] == 'm' && ("wma"@)[2] == 'a');
    assert(("opus"@).len() == 4 && ("opus"@)[0] == 'o' && ("opus"@)[1] == 'p' && ("opus"@)[2] == 'u' && ("opus"@)[3] == 's');
    assert(("image"@).len() == 5 && ("image"@)[0] == 'i' && ("image"@)[1] == 'm' && ("image"@)[2] == 'a' && ("image"@)[3] == 'g' && ("image"@)[4] == 'e');
    assert(("video"@).len() == 5 && ("video"@)[0] == 'v' && ("video"@)[1] == 'i' && ("video"@)[2] == 'd' && ("video"@)[3] == 'e' && ("video"@)[4] == 'o');
    assert(("audio"@).len() == 5 && ("audio"@)[0] == 'a' && ("audio"@)[1] == 'u' && ("audio"@)[2] == 'd' && ("audio"@)[3] == 'i' && ("audio"@)[4] == 'o');
}

/// What `str::to_lowercase` returns for a string.
pub uninterp spec fn str_lowercase(s: Seq<char>) -> Seq<char>;

/// Whether every character of `s` is ASCII.
pub open spec fn is_ascii_text(s: Seq<char>) -> bool {
    forall|i: int| 0 <= i < s.len() ==> (#[trigger] s[i] as int) < 128
}

/// The ASCII lowercase form of a character: `A`..`Z` become `a`..`z`.
pub open spec fn ascii_lower(c: char) -> char {
    if ('A' as int) <= (c as int) <= ('Z' as int) {
        ((c as int) + 32) as char
    } else {
        c
    }
}

/// `str::to_lowercase`: the Unicode lowercase form of `s`, named by
/// `str_lowercase`. For ASCII text that is the ASCII lowercase form, letter
/// by letter; nothing more is claimed of other text.
#[verifier::external_body]
fn lowercase(s: &str) -> (res: String)
    ensures
        res@ == str_lowercase(s@),
        is_ascii_text(s@) ==> res@ == s@.map_values(|c: char| ascii_lower(c)),
{
    s.to_lowercase()
}

fn is_image(e: &str) -> (res: bool)
    ensures
        res == is_image_extension(e@),
{
    str_eq(e, "png") || str_eq(e, "jpg") || str_eq(e, "jpeg") || str_eq(e, "bmp") || str_eq(e, "webp")
        || str_eq(e, "tiff") || str_eq(e, "tif") || str_eq(e, "avif")
}

fn is_video(e: &str) -> (res: bool)
    ensures
        res == is_video_extension(e@),
{
    str_eq(e, "mp4") || str_eq(e, "mkv") || str_eq(e, "avi") || str_eq(e, "mov") || str_eq(e, "webm")
        || str_eq(e, "flv") || str_eq(e, "wmv")
}

fn is_audio(e: &str) -> (res: bool)
    ensures
        res == is_audio_extension(e@),
{
    str_eq(e, "mp3") || str_eq(e, "wav") || str_eq(e, "flac") || str_eq(e, "ogg") || str_eq(e, "aac")
        || str_eq(e, "m4a") || str_eq(e, "wma") || str_eq(e, "opus")
}

/// The media type of an already lowercase extension.
pub fn media_type_of_lowercase(ext: &str) -> (res: Option<&'static str>)
    ensures
        match res {
            Some(t) => media_type_for(ext@) == Some(t@),
            None => media_type_for(ext@) is None,
        },
{
    if is_image(ext) {
        Some("image")
    } else if is_video(ext) {
        Some("video")
    } else if str_eq(ext, "gif") {
        Some("gif")
    } else if is_audio(ext) {
        Some("audio")
    } else {
        None
    }
}

/// The media type for a file extension, in any letter case: `image`,
/// `video`, `gif` or `audio`; `None` for file types the vault does not take.
pub fn detect_media_type(extension: &str) -> (res: Option<&'static str>)
    ensures
        match res {
            Some(t) => media_type_for(str_lowercase(extension@)) == Some(t@),
            None => media_type_for(str_lowercase(extension@)) is None,
        },
        is_ascii_text(extension@) ==> match res {
            Some(t) => media_type_for(extension@.map_values(|c: char| ascii_lower(c))) == Some(t@),
            None => media_type_for(extension@.map_values(|c: char| ascii_lower(c))) is None,
        },
{
    let ext = lowercase(extension);
    media_type_of_lowercase(ext.as_str())
}

/// A media file copied or renamed into the vault.
#[derive(Debug)]
pub struct ImportedMedia {
    pub id: String,
    pub extension: String,
    pub media_type: String,
    pub codec: Option<String>,
    pub file_size: Option<u64>,
    pub checksum: String,
}

// ---------------------------------------------------------------------------
// File names
// ---------------------------------------------------------------------------

/// Position of the last `.` in `s`, if any.
pub open spec fn last_dot(s: Seq<char>) -> Option<int>
    decreases s.len(),
{
    if s.len() == 0 {
        None
    } else if s.last() == '.' {
        Some(s.len() - 1)
    } else {
        last_dot(s.drop_last())
    }
}

/// The names that are not file names: empty, `.` and `..`.
pub open spec fn is_special_name(name: Seq<char>) -> bool {
    name.len() == 0 || name == seq!['.'] || name == seq!['.', '.']
}

/// The extension of a file name, as `Path::extension` gives it: the part after
/// the last `.`, unless there is no `.` or the only one starts the name.
pub open spec fn file_extension(name: Seq<char>) -> Option<Seq<char>> {
    if is_special_name(name) {
        None
    } else {
        match last_dot(name) {
            Some(i) => if i == 0 { None } else { Some(name.skip(i + 1)) },
            None => None,
        }
    }
}

/// The stem of a file name, as `Path::file_stem` gives it: the part before the
/// last `.`, or the whole name when there is no `.` or the only one starts it.
pub open spec fn file_stem(name: Seq<char>) -> Option<Seq<char>> {
    if is_special_name(name) {
        None
    } else {
        match last_dot(name) {
            Some(i) => if i == 0 { Some(name) } else { Some(name.take(i)) },
            None => Some(name),
        }
    }
}

proof fn lemma_last_dot(s: Seq<char>)
    ensures
        match last_dot(s) {
            Some(i) => 0 <= i < s.len() && s[i] == '.' && forall|j: int| i < j < s.len() ==> s[j] != '.',
            None => forall|j: int| 0 <= j < s.len() ==> s[j] != '.',
        },
    decreases s.len(),
{
    if s.len() > 0 && s.last() != '.' {
        lemma_last_dot(s.drop_last());
        match last_dot(s.drop_last()) {
            Some(i) => {
                assert forall|j: int| i < j < s.len() implies s[j] != '.' by {
                    if j < s.len() - 1 {
                        assert(s.drop_last()[j] == s[j]);
                    }
                }
            },
            None => {
                assert forall|j: int| 0 <= j < s.len() implies s[j] != '.' by {
                    if j < s.len() - 1 {
                        assert(s.drop_last()[j] == s[j]);
                    }
                }
            },
        }
    }
}

/// The position of the last `.`, found from the end.
fn find_last_dot(cs: &Vec<char>) -> (res: Option<usize>)
    ensures
        match res {
            Some(i) => last_dot(cs@) == Some(i as int),
            None => last_dot(cs@) is None,
        },
{
    let mut i = cs.len();
    assert(cs@.take(i as int) =~= cs@);
    while i > 0
        invariant
            i <= cs.len(),
            last_dot(cs@) == last_dot(cs@.take(i as int)),
        decreases i,
    {
        assert(cs@.take(i as int).drop_last() =~= cs@.take(i - 1));
        if cs[i - 1] == '.' {
            return Some(i - 1);
        }
        i -= 1;
    }
    assert(cs@.take(0) =~= Seq::<char>::empty());
    None
}

fn is_special(cs: &Vec<char>) -> (res: bool)
    ensures
        res == is_special_name(cs@),
{
    if cs.len() == 0 {
        return true;
    }
    if cs.len() == 1 && cs[0] == '.' {
        assert(cs@ =~= seq!['.']);
        return true;
    }
    if cs.len() == 2 && cs[0] == '.' && cs[1] == '.' {
        assert(cs@ =~= seq!['.', '.']);
        return true;
    }
    proof {
        if cs@ == seq!['.'] {
            assert(cs@[0] == '.');
        }
        if cs@ == seq!['.', '.'] {
            assert(cs@[0] == '.' && cs@[1] == '.');
        }
    }
    false
}

/// Splits a file name into its stem and its extension, as `Path::file_stem`
/// and `Path::extension` do for a name without directory parts.
pub fn split_file_name(name: &str) -> (res: (Option<String>, Option<String>))
    ensures
        match res.0 {
            Some(s) => file_stem(name@) == Some(s@),
            None => file_stem(name@) is None,
        },
        match res.1 {
            Some(e) => file_extension(name@) == Some(e@),
            None => file_extension(name@) is None,
        },
{
    let cs = chars_of(name);
    if is_special(&cs) {
        return (None, None);
    }
    proof { lemma_last_dot(cs@); }
    match find_last_dot(&cs) {
        Some(i) => {
            if i == 0 {
                (Some(name.to_owned()), None)
            } else {
                let mut stem: Vec<char> = Vec::new();
                let mut j: usize = 0;
                while j < i
                    invariant
                        j <= i,
                        i < cs.len(),
                        stem@ == cs@.take(j as int),
                    decreases i - j,
                {
                    stem.push(cs[j]);
                    j += 1;
                    assert(stem@ =~= cs@.take(j as int));
                }
                let mut ext: Vec<char> = Vec::new();
                let mut k: usize = i + 1;
                while k < cs.len()
                    invariant
                        i < k <= cs.len(),
                        ext@ == cs@.subrange(i + 1, k as int),
                    decreases cs.len() - k,
                {
                    ext.push(cs[k]);
                    k += 1;
                    assert(ext@ =~= cs@.subrange(i + 1, k as int));
                }
                assert(cs@.subrange(i + 1, cs@.len() as int) =~= cs@.skip(i + 1));
                (Some(string_of(&stem)), Some(string_of(&ext)))
            }
        },
        None => (Some(name.to_owned()), None),
    }
}

// ---------------------------------------------------------------------------
// Media ids
// ---------------------------------------------------------------------------

pub open spec fn is_hex_digit(c: char) -> bool {
    ||| ('0' as int) <= (c as int) <= ('9' as int)
    ||| ('a' as int) <= (c as int) <= ('f' as int)
    ||| ('A' as int) <= (c as int) <= ('F' as int)
}

pub open spec fn is_lower_hex_digit(c: char) -> bool {
    ||| ('0' as int) <= (c as int) <= ('9' as int)
    ||| ('a' as int) <= (c as int) <= ('f' as int)
}

pub open spec fn is_uuid_hyphen_position(i: int) -> bool {
    i == 8 || i == 13 || i == 18 || i == 23
}

/// `8-4-4-4-12` hexadecimal digits separated by hyphens.
pub open spec fn hyphenated_uuid(s: Seq<char>) -> bool {
    &&& s.len() == 36
    &&& forall|i: int| 0 <= i < 36 ==> if is_uuid_hyphen_position(i) {
        s[i] == '-'
    } else {
        is_hex_digit(#[trigger] s[i])
    }
}

/// The hyphenated form in lowercase, as `Uuid` prints itself.
pub open spec fn lower_hyphenated_uuid(s: Seq<char>) -> bool {
    &&& s.len() == 36
    &&& forall|i: int| 0 <= i < 36 ==> if is_uuid_hyphen_position(i) {
        s[i] == '-'
    } else {
        is_lower_hex_digit(#[trigger] s[i])
    }
}

/// 32 hexadecimal digits.
pub open spec fn simple_uuid(s: Seq<char>) -> bool {
    s.len() == 32 && forall|i: int| 0 <= i < 32 ==> is_hex_digit(#[trigger] s[i])
}

/// `s` equals `t` when ASCII letters of `t` may also stand in upper case.
pub open spec fn equals_ignoring_ascii_case(s: Seq<char>, t: Seq<char>) -> bool {
    &&& s.len() == t.len()
    &&& forall|i: int| 0 <= i < s.len() ==> (#[trigger] s[i] == t[i] || (('a' as int) <= (t[i] as int) <= ('z' as int)
        && (s[i] as int) == (t[i] as int) - 32))
}

/// The texts `Uuid::parse_str` accepts: simple, hyphenated, braced
/// (`{...}`) or URN (`urn:uuid:...`, prefix in any case).
pub open spec fn uuid_text(s: Seq<char>) -> bool {
    ||| simple_uuid(s)
    ||| hyphenated_uuid(s)
    ||| (s.len() == 38 && s[0] == '{' && s[37] == '}' && hyphenated_uuid(s.subrange(1, 37)))
    ||| (s.len() == 45 && equals_ignoring_ascii_case(s.take(9), "urn:uuid:"@) && hyphenated_uuid(s.skip(9)))
}

/// `Uuid::parse_str(s).is_ok()`: whether `s` reads as a UUID. The crate's
/// parser accepts exactly the four forms of `uuid_text`.
#[verifier::external_body]
fn parses_as_uuid(s: &str) -> (res: bool)
    ensures
        res == uuid_text(s@),
{
    uuid::Uuid::parse_str(s).is_ok()
}

/// The version and variant digits of a random (version 4, RFC 4122 variant)
/// UUID in hyphenated form: `4` at position 14, one of `8 9 a b` at 19.
pub open spec fn is_version4_uuid(s: Seq<char>) -> bool {
    s.len() == 36 && s[14] == '4' && (s[19] == '8' || s[19] == '9' || s[19] == 'a' || s[19] == 'b')
}

/// `Uuid::new_v4().to_string()`: a fresh random id. Its value rests on the
/// random generator; what is claimed is only its printed form, lowercase
/// hyphenated with the version-4 and variant digits the crate sets.
#[verifier::external_body]
fn random_uuid_string() -> (res: String)
    ensures
        lower_hyphenated_uuid(res@),
        is_version4_uuid(res@),
{
    uuid::Uuid::new_v4().to_string()
}

/// A fresh id for a media item: a random UUID, lowercase and hyphenated.
pub fn new_media_id() -> (res: String)
    ensures
        lower_hyphenated_uuid(res@),
        uuid_text(res@),
        is_version4_uuid(res@),
{
    let id = random_uuid_string();
    proof { law_generated_ids_parse(id@); }
    id
}

/// Every id the vault hands out reads back as a UUID.
pub proof fn law_generated_ids_parse(s: Seq<char>)
    requires
        lower_hyphenated_uuid(s),
    ensures
        uuid_text(s),
{
    assert forall|i: int| 0 <= i < 36 implies if is_uuid_hyphen_position(i) {
        s[i] == '-'
    } else {
        is_hex_digit(#[trigger] s[i])
    } by {
        if !is_uuid_hyphen_position(i) {
            assert(is_lower_hex_digit(s[i]));
        }
    }
}

/// Whether a file stem is already a UUID.
pub fn is_uuid(stem: &str) -> (res: bool)
    ensures
        res == uuid_text(stem@),
{
    parses_as_uuid(stem)
}

// ---------------------------------------------------------------------------
// Checksums
// ---------------------------------------------------------------------------

#[verifier::external_type_specification]
#[verifier::external_body]
pub struct ExBlake3Hasher(blake3::Hasher);

/// The bytes a `blake3::Hasher` has been fed so far.
pub uninterp spec fn hasher_input(h: blake3::Hasher) -> Seq<u8>;

/// The lowercase hexadecimal BLAKE3 hash of some bytes.
pub uninterp spec fn blake3_hex(input: Seq<u8>) -> Seq<char>;

/// `blake3::Hasher::new`: a hasher that has been fed nothing.
#[verifier::external_body]
fn hasher_new() -> (h: blake3::Hasher)
    ensures
        hasher_input(h) == Seq::<u8>::empty(),
{
    blake3::Hasher::new()
}

/// `blake3::Hasher::update`: feeds `data` after what the hasher already holds.
#[verifier::external_body]
fn hasher_update(h: &mut blake3::Hasher, data: &[u8])
    ensures
        hasher_input(*final(h)) == hasher_input(*old(h)) + data@,
{
    h.update(data);
}

/// `blake3::Hasher::finalize` printed with `Hash::to_hex`: the hash of all
/// bytes fed so far, as 64 lowercase hexadecimal digits.
#[verifier::external_body]
fn hasher_finalize_hex(h: &blake3::Hasher) -> (res: String)
    ensures
        res@ == blake3_hex(hasher_input(*h)),
        res@.len() == 64,
        forall|i: int| 0 <= i < 64 ==> is_lower_hex_digit(#[trigger] res@[i]),
{
    h.finalize().to_hex().to_string()
}

/// Content checksum of a media file, fed chunk by chunk as the file is read.
pub struct ChecksumHasher {
    hasher: blake3::Hasher,
}

impl ChecksumHasher {
    /// The bytes fed so far.
    pub closed spec fn input(&self) -> Seq<u8> {
        hasher_input(self.hasher)
    }

    /// A checksum of nothing yet.
    pub fn new() -> (res: ChecksumHasher)
        ensures
            res.input() == Seq::<u8>::empty(),
    {
        ChecksumHasher { hasher: hasher_new() }
    }

    /// Feed the next chunk of the file.
    pub fn update(&mut self, chunk: &[u8])
        ensures
            final(self).input() == old(self).input() + chunk@,
    {
        hasher_update(&mut self.hasher, chunk);
    }

    /// The checksum of everything fed: the BLAKE3 hash in lowercase hex.
    pub fn finish(&self) -> (res: String)
        ensures
            res@ == blake3_hex(self.input()),
            res@.len() == 64,
    {
        hasher_finalize_hex(&self.hasher)
    }
}

/// The checksum of a whole byte string at once.
pub fn compute_checksum(data: &[u8]) -> (res: String)
    ensures
        res@ == blake3_hex(data@),
        res@.len() == 64,
{
    let mut h = ChecksumHasher::new();
    h.update(data);
    assert(Seq::<u8>::empty() + data@ =~= data@);
    h.finish()
}

// ---------------------------------------------------------------------------
// Codec detection
// ---------------------------------------------------------------------------

/// The ffprobe arguments that print the codec of the first video stream of
/// `input` (the first audio stream with `audio`).
pub fn codec_probe_args(input: &str, audio: bool) -> (res: Vec<String>)
    ensures
        res.deep_view() == seq![
            "-v"@,
            "error"@,
            "-select_streams"@,
            if audio { "a:0"@ } else { "v:0"@ },
            "-show_entries"@,
            "stream=codec_name"@,
            "-of"@,
            "default=noprint_wrappers=1:nokey=1"@,
            input@,
        ],
{
    let mut a: Vec<String> = Vec::new();
    push_arg(&mut a, "-v");
    push_arg(&mut a, "error");
    push_arg(&mut a, "-select_streams");
    if audio {
        push_arg(&mut a, "a:0");
    } else {
        push_arg(&mut a, "v:0");
    }
    push_arg(&mut a, "-show_entries");
    push_arg(&mut a, "stream=codec_name");
    push_arg(&mut a, "-of");
    push_arg(&mut a, "default=noprint_wrappers=1:nokey=1");
    push_arg(&mut a, input);
    assert(a.deep_view() =~= seq![
        "-v"@,
        "error"@,
        "-select_streams"@,
        if audio { "a:0"@ } else { "v:0"@ },
        "-show_entries"@,
        "stream=codec_name"@,
        "-of"@,
        "default=noprint_wrappers=1:nokey=1"@,
        input@,
    ]);
    a
}

/// The codec name ffprobe printed: its output without surrounding white
/// space, or `None` when that is empty (no such stream).
pub fn probed_codec(output: &str) -> (res: Option<String>)
    ensures
        match res {
            Some(c) => trim(output@).len() > 0 && c@ == trim(output@),
            None => trim(output@).len() == 0,
        },
{
    let t = trimmed(output);
    if t.as_str().unicode_len() == 0 {
        None
    } else {
        Some(t)
    }
}

// ---------------------------------------------------------------------------
// What to do with a file
// ---------------------------------------------------------------------------

/// The error for a file type the vault does not take.
pub fn unsupported_type_error(extension: &str) -> (res: String)
    ensures
        res@ == "Unsupported file type: "@ + extension@,
{
    concat("Unsupported file type: ", extension)
}

/// For a file being imported with the given extension: the lowercase
/// extension and its media type, or the error for an unsupported type.
pub fn import_plan(extension: &str) -> (res: Result<(String, &'static str), String>)
    ensures
        match res {
            Ok((e, t)) => e@ == str_lowercase(extension@) && media_type_for(e@) == Some(t@),
            Err(msg) => media_type_for(str_lowercase(extension@)) is None
                && msg@ == "Unsupported file type: "@ + str_lowercase(extension@),
        },
{
    let ext = lowercase(extension);
    match media_type_of_lowercase(ext.as_str()) {
        Some(t) => Ok((ext, t)),
        None => Err(unsupported_type_error(ext.as_str())),
    }
}

/// For a file found in the media folder: `Ok(None)` when its stem is already a
/// UUID (nothing to rename), otherwise its lowercase extension and media type,
/// or the error for an unsupported type.
pub fn rename_plan(filename: &str) -> (res: Result<Option<(String, &'static str)>, String>)
    ensures
        ({
            let stem = match file_stem(filename@) { Some(s) => s, None => Seq::<char>::empty() };
            let ext = str_lowercase(match file_extension(filename@) { Some(e) => e, None => Seq::<char>::empty() });
            match res {
                Ok(None) => uuid_text(stem),
                Ok(Some((e, t))) => !uuid_text(stem) && e@ == ext && media_type_for(ext) == Some(t@),
                Err(msg) => !uuid_text(stem) && media_type_for(ext) is None
                    && msg@ == "Unsupported file type: "@ + ext,
            }
        }),
{
    let (stem, ext) = split_file_name(filename);
    let stem = match stem {
        Some(s) => s,
        None => String::new(),
    };
    if is_uuid(stem.as_str()) {
        return Ok(None);
    }
    let ext = match ext {
        Some(e) => e,
        None => String::new(),
    };
    match import_plan(ext.as_str()) {
        Ok(p) => Ok(Some(p)),
        Err(e) => Err(e),
    }
}

/// For a file found while scanning the media folder: its lowercase extension
/// and media type, or `None` when it is skipped (hidden, or not a media type).
pub fn scan_plan(filename: &str) -> (res: Option<(String, &'static str)>)
    ensures
        ({
            let ext = str_lowercase(match file_extension(filename@) { Some(e) => e, None => Seq::<char>::empty() });
            match res {
                Some((e, t)) => !(filename@.len() > 0 && filename@[0] == '.') && e@ == ext && media_type_for(ext) == Some(t@),
                None => (filename@.len() > 0 && filename@[0] == '.') || media_type_for(ext) is None,
            }
        }),
{
    let cs = chars_of(filename);
    if cs.len() > 0 && cs[0] == '.' {
        return None;
    }
    let (_stem, ext) = split_file_name(filename);
    let ext = match ext {
        Some(e) => e,
        None => String::new(),
    };
    match import_plan(ext.as_str()) {
        Ok(p) => Some(p),
        Err(_) => None,
    }
}

proof fn lemma_last_dot_at(s: Seq<char>, i: int)
    requires
        0 <= i < s.len(),
        s[i] == '.',
        forall|j: int| i < j < s.len() ==> s[j] != '.',
    ensures
        last_dot(s) == Some(i),
    decreases s.len(),
{
    if s.len() - 1 != i {
        let d = s.drop_last();
        assert forall|j: int| i < j < d.len() implies d[j] != '.' by {
            assert(d[j] == s[j]);
        }
        lemma_last_dot_at(d, i);
    }
}

/// A file the vault named `{id}.{extension}` with an id it generated, and an
/// extension without dots, keeps its name: its stem is the id, and the id
/// reads as a UUID, so the media-folder scan does not rename it again.
pub proof fn law_vault_names_are_kept(id: Seq<char>, ext: Seq<char>)
    requires
        lower_hyphenated_uuid(id),
        forall|j: int| 0 <= j < ext.len() ==> ext[j] != '.',
    ensures
        file_stem(id + "."@ + ext) == Some(id),
        uuid_text(id),
{
    let name = id + "."@ + ext;
    reveal_strlit(".");
    assert(name[36] == '.');
    assert forall|j: int| 36 < j < name.len() implies name[j] != '.' by {
        assert(name[j] == ext[j - 37]);
    }
    lemma_last_dot_at(name, 36);
    assert(!is_special_name(name)) by {
        if name == seq!['.', '.'] {
            assert(name.len() == 2);
        }
        if name == seq!['.'] {
            assert(name.len() == 1);
        }
    }
    assert(name.take(36) =~= id);
    law_generated_ids_parse(id);
}

/// A file name made of a stem, a `.` and an extension without dots splits
/// back into that stem and that extension (the stem may hold dots itself:
/// only the last `.` separates), unless the name is `..`.
pub proof fn law_name_splits_at_last_dot(stem: Seq<char>, ext: Seq<char>)
    requires
        stem.len() > 0,
        forall|j: int| 0 <= j < ext.len() ==> ext[j] != '.',
        !(stem == seq!['.'] && ext.len() == 0),
    ensures
        file_stem(stem + seq!['.'] + ext) == Some(stem),
        file_extension(stem + seq!['.'] + ext) == Some(ext),
{
    let name = stem + seq!['.'] + ext;
    let i = stem.len() as int;
    assert(name[i] == '.');
    assert forall|j: int| i < j < name.len() implies name[j] != '.' by {
        assert(name[j] == ext[j - i - 1]);
    }
    lemma_last_dot_at(name, i);
    assert(!is_special_name(name)) by {
        if name == seq!['.', '.'] {
            assert(name.len() == 2);
            assert(stem.len() == 1 && ext.len() == 0);
            assert(stem[0] == name[0]);
            assert(stem =~= seq!['.']);
        }
        if name == seq!['.'] {
            assert(name.len() == 1);
        }
    }
    assert(name.take(i) =~= stem);
    assert(name.skip(i + 1) =~= ext);
}

/// A file name without any `.` has no extension and is its own stem.
pub proof fn law_name_without_dot(name: Seq<char>)
    requires
        name.len() > 0,
        forall|j: int| 0 <= j < name.len() ==> name[j] != '.',
    ensures
        file_stem(name) == Some(name),
        file_extension(name) is None,
{
    lemma_last_dot(name);
    assert(!is_special_name(name)) by {
        if name == seq!['.'] || name == seq!['.', '.'] {
            assert(name[0] == '.');
        }
    }
}

} // verus!
