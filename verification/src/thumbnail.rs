//! Thumbnails and animated previews: where they live, which one to show, how
//! ffmpeg is asked for them, and what a failure reports.
//!
//! Running ffmpeg and looking at the disk is the application's part; it hands
//! this module what it found.

use vstd::prelude::*;
use crate::layout::{VaultFile, previews_file};
use crate::text::{
    concat, contains_substring, has_substring, join, join_strings, owned, text_lines, trim_end,
    trimmed_lines, str_eq, push_arg,
};

verus! {

/// Message returned when ffmpeg cannot be located at all.
pub fn ffmpeg_missing() -> (res: String)
    ensures
        res@ == "ffmpeg was not found. Place ffmpeg and ffprobe next to the application executable, or install them and make sure they are on your PATH."@,
{
    owned("ffmpeg was not found. Place ffmpeg and ffprobe next to the application executable, or install them and make sure they are on your PATH.")
}

/// The error of a request to regenerate every preview while ffmpeg is
/// missing (regenerating deletes the previews first).
pub fn regenerate_unavailable() -> (res: String)
    ensures
        res@ == "Cannot regenerate previews. "@ + "ffmpeg was not found. Place ffmpeg and ffprobe next to the application executable, or install them and make sure they are on your PATH."@,
{
    let missing = ffmpeg_missing();
    concat("Cannot regenerate previews. ", missing.as_str())
}

/// How a thumbnail or preview generation starts.
#[derive(Debug, Clone, Copy, PartialEq, Eq, Structural)]
pub enum GenerationStart {
    /// The output or its failure marker is there: nothing to do.
    AlreadyDone,
    /// ffmpeg is missing: fail without writing anything, so the item is
    /// tried again once ffmpeg is installed.
    FfmpegMissing,
    /// Run ffmpeg (and on failure write the marker).
    Run,
}

/// Whether to generate an output, given whether it or its failure marker
/// exists and whether ffmpeg can be run. Only `Run` leads to any file being
/// written, so a missing ffmpeg leaves no file behind.
pub fn generation_start(output_exists: bool, failed_exists: bool, ffmpeg_available: bool) -> (res: GenerationStart)
    ensures
        res == if output_exists || failed_exists {
            GenerationStart::AlreadyDone
        } else if !ffmpeg_available {
            GenerationStart::FfmpegMissing
        } else {
            GenerationStart::Run
        },
{
    if output_exists || failed_exists {
        GenerationStart::AlreadyDone
    } else if !ffmpeg_available {
        GenerationStart::FfmpegMissing
    } else {
        GenerationStart::Run
    }
}

/// Whether `f` is the file `name` in the previews folder.
pub open spec fn is_preview_file(f: VaultFile, name: Seq<char>) -> bool {
    f.dir@ == "previews"@ && f.name@ == name
}

/// The static thumbnail: `previews/{id}.webp`.
pub fn thumbnail_path(media_id: &str) -> (res: VaultFile)
    ensures
        is_preview_file(res, media_id@ + ".webp"@),
{
    previews_file(concat(media_id, ".webp").as_str())
}

/// The animated preview of a video: `previews/{id}_preview.mp4`.
pub fn preview_mp4_path(media_id: &str) -> (res: VaultFile)
    ensures
        is_preview_file(res, media_id@ + "_preview.mp4"@),
{
    previews_file(concat(media_id, "_preview.mp4").as_str())
}

/// The animated preview of a GIF: `previews/{id}_preview.gif`.
pub fn preview_gif_path(media_id: &str) -> (res: VaultFile)
    ensures
        is_preview_file(res, media_id@ + "_preview.gif"@),
{
    previews_file(concat(media_id, "_preview.gif").as_str())
}

/// Failure markers sit next to the real previews but with a distinct
/// `.failed.webp` suffix, so they are never mistaken for a result.
pub fn failed_thumbnail_path(media_id: &str) -> (res: VaultFile)
    ensures
        is_preview_file(res, media_id@ + ".failed.webp"@),
{
    previews_file(concat(media_id, ".failed.webp").as_str())
}

pub fn failed_preview_path(media_id: &str) -> (res: VaultFile)
    ensures
        is_preview_file(res, media_id@ + "_preview.failed.webp"@),
{
    previews_file(concat(media_id, "_preview.failed.webp").as_str())
}

/// The real thumbnail, when it exists. `None` means generation has not
/// succeeded, which tells callers what still needs generating.
pub fn get_thumbnail_path(media_id: &str, thumbnail_exists: bool) -> (res: Option<VaultFile>)
    ensures
        match res {
            Some(f) => thumbnail_exists && is_preview_file(f, media_id@ + ".webp"@),
            None => !thumbnail_exists,
        },
{
    if thumbnail_exists {
        Some(thumbnail_path(media_id))
    } else {
        None
    }
}

/// The real animated preview: the MP4 if it exists, else the GIF if that exists.
pub fn get_preview_path(media_id: &str, mp4_exists: bool, gif_exists: bool) -> (res: Option<VaultFile>)
    ensures
        match res {
            Some(f) => (mp4_exists && is_preview_file(f, media_id@ + "_preview.mp4"@)) || (!mp4_exists
                && gif_exists && is_preview_file(f, media_id@ + "_preview.gif"@)),
            None => !mp4_exists && !gif_exists,
        },
{
    if mp4_exists {
        Some(preview_mp4_path(media_id))
    } else if gif_exists {
        Some(preview_gif_path(media_id))
    } else {
        None
    }
}

/// The thumbnail to show: the real one, else the failure placeholder.
pub fn get_display_thumbnail_path(media_id: &str, thumbnail_exists: bool, failed_exists: bool) -> (res:
    Option<VaultFile>)
    ensures
        match res {
            Some(f) => (thumbnail_exists && is_preview_file(f, media_id@ + ".webp"@)) || (!thumbnail_exists
                && failed_exists && is_preview_file(f, media_id@ + ".failed.webp"@)),
            None => !thumbnail_exists && !failed_exists,
        },
{
    match get_thumbnail_path(media_id, thumbnail_exists) {
        Some(f) => Some(f),
        None => if failed_exists {
            Some(failed_thumbnail_path(media_id))
        } else {
            None
        },
    }
}

/// The preview to show: the real one (MP4, then GIF), else the failure placeholder.
pub fn get_display_preview_path(media_id: &str, mp4_exists: bool, gif_exists: bool, failed_exists: bool) -> (res:
    Option<VaultFile>)
    ensures
        match res {
            Some(f) => (mp4_exists && is_preview_file(f, media_id@ + "_preview.mp4"@)) || (!mp4_exists
                && gif_exists && is_preview_file(f, media_id@ + "_preview.gif"@)) || (!mp4_exists
                && !gif_exists && failed_exists && is_preview_file(f, media_id@ + "_preview.failed.webp"@)),
            None => !mp4_exists && !gif_exists && !failed_exists,
        },
{
    match get_preview_path(media_id, mp4_exists, gif_exists) {
        Some(f) => Some(f),
        None => if failed_exists {
            Some(failed_preview_path(media_id))
        } else {
            None
        },
    }
}

/// Every preview file of a media item, failure markers included: what is
/// deleted when its previews are removed.
pub fn preview_files(media_id: &str) -> (res: Vec<VaultFile>)
    ensures
        res.len() == 7,
        is_preview_file(res[0], media_id@ + ".webp"@),
        is_preview_file(res[1], media_id@ + "_preview.gif"@),
        is_preview_file(res[2], media_id@ + "_preview.mp4"@),
        is_preview_file(res[3], media_id@ + "_preview.mp3"@),
        is_preview_file(res[4], media_id@ + "_preview.webp"@),
        is_preview_file(res[5], media_id@ + ".failed.webp"@),
        is_preview_file(res[6], media_id@ + "_preview.failed.webp"@),
{
    let mut res: Vec<VaultFile> = Vec::new();
    res.push(thumbnail_path(media_id));
    res.push(preview_gif_path(media_id));
    res.push(preview_mp4_path(media_id));
    res.push(previews_file(concat(media_id, "_preview.mp3").as_str()));
    res.push(previews_file(concat(media_id, "_preview.webp").as_str()));
    res.push(failed_thumbnail_path(media_id));
    res.push(failed_preview_path(media_id));
    res
}

// ---------------------------------------------------------------------------
// ffmpeg
// ---------------------------------------------------------------------------

/// The last `n` lines of a text, joined with ` | `.
pub open spec fn tail_text(s: Seq<char>, n: nat) -> Seq<char> {
    let lines = text_lines(trim_end(s));
    let start = if lines.len() > n { lines.len() - n } else { 0 };
    join(lines.skip(start), " | "@)
}

/// Keep only the last `n` lines of ffmpeg output, the interesting part of a
/// failure, so log lines stay readable.
pub fn tail_lines(s: &str, n: usize) -> (res: String)
    ensures
        res@ == tail_text(s@, n as nat),
{
    let lines = trimmed_lines(s);
    let start = if lines.len() > n { lines.len() - n } else { 0 };
    let mut tail: Vec<String> = Vec::new();
    let mut i = start;
    while i < lines.len()
        invariant
            start <= i <= lines.len(),
            tail.deep_view() == lines.deep_view().subrange(start as int, i as int),
        decreases lines.len() - i,
    {
        let ghost before = tail.deep_view();
        tail.push(lines[i].clone());
        assert(tail.deep_view() =~= before.push(lines.deep_view()[i as int]));
        i += 1;
        assert(tail.deep_view() =~= lines.deep_view().subrange(start as int, i as int));
    }
    assert(lines.deep_view().subrange(start as int, lines.len() as int) =~= lines.deep_view().skip(start as int));
    join_strings(&tail, " | ")
}

/// Whether ffmpeg's error output asks for a retry with the libvpx-vp9
/// decoder, which copes with broken VP9 color metadata.
pub fn needs_decoder_retry(stderr: &str) -> (res: bool)
    ensures
        res == (has_substring(stderr@, "Invalid color space"@) || has_substring(stderr@, "Invalid color range"@)),
{
    contains_substring(stderr, "Invalid color space") || contains_substring(stderr, "Invalid color range")
}

/// `res` is `args` with `-c:v libvpx-vp9` put before the first `-i`.
pub open spec fn decoder_inserted(args: Seq<Seq<char>>, res: Seq<Seq<char>>) -> bool {
    if exists|i: int| 0 <= i < args.len() && args[i] == "-i"@ {
        exists|f: int|
            0 <= f < args.len() && args[f] == "-i"@ && (forall|j: int| 0 <= j < f ==> args[j] != "-i"@)
                && res == args.take(f) + seq!["-c:v"@, "libvpx-vp9"@] + args.skip(f)
    } else {
        res == args
    }
}

/// The ffmpeg arguments with the libvpx-vp9 decoder chosen for the input.
pub fn with_vp9_decoder(args: &Vec<String>) -> (res: Vec<String>)
    ensures
        decoder_inserted(args.deep_view(), res.deep_view()),
{
    let ghost a = args.deep_view();
    let mut res: Vec<String> = Vec::new();
    let mut inserted = false;
    let mut first: usize = 0;
    let n = args.len();
    for i in 0..n
        invariant
            n == args.len(),
            a == args.deep_view(),
            !inserted ==> res.deep_view() == a.take(i as int) && forall|j: int| 0 <= j < i ==> a[j] != "-i"@,
            inserted ==> first < i && a[first as int] == "-i"@ && (forall|j: int| 0 <= j < first ==> a[j] != "-i"@)
                && res.deep_view() == a.take(first as int) + seq!["-c:v"@, "libvpx-vp9"@] + a.subrange(
                first as int,
                i as int,
            ),
    {
        let ghost before = res.deep_view();
        let ghost was_inserted = inserted;
        if !inserted && str_eq(args[i].as_str(), "-i") {
            res.push(owned("-c:v"));
            res.push(owned("libvpx-vp9"));
            inserted = true;
            first = i;
            assert(res.deep_view() =~= before + seq!["-c:v"@, "libvpx-vp9"@]);
        }
        let ghost mid = res.deep_view();
        res.push(args[i].clone());
        assert(res.deep_view() =~= mid.push(a[i as int]));
        proof {
            if inserted {
                assert(res.deep_view() =~= a.take(first as int) + seq!["-c:v"@, "libvpx-vp9"@] + a.subrange(
                    first as int,
                    i + 1,
                ));
            } else {
                assert(res.deep_view() =~= a.take(i + 1));
            }
        }
    }
    proof {
        if inserted {
            assert(a.subrange(first as int, n as int) =~= a.skip(first as int));
        } else {
            assert(a.take(n as int) =~= a);
        }
    }
    res
}

/// What a failed ffmpeg run reports: the last four lines of its error output.
pub fn ffmpeg_failure(stderr: &str, retried: bool) -> (res: String)
    ensures
        res@ == (if retried { "ffmpeg failed (retry): "@ } else { "ffmpeg failed: "@ }) + tail_text(stderr@, 4),
{
    let tail = tail_lines(stderr, 4);
    if retried {
        concat("ffmpeg failed (retry): ", tail.as_str())
    } else {
        concat("ffmpeg failed: ", tail.as_str())
    }
}

/// ffmpeg arguments for a 192x192 WebP thumbnail of `input`, written to
/// `output`; with `seek`, the frame is taken one second in.
pub fn thumbnail_args(input: &str, output: &str, seek: bool) -> (res: Vec<String>)
    ensures
        res.deep_view() == (if seek { seq!["-y"@, "-ss"@, "1"@] } else { seq!["-y"@] }) + seq![
            "-i"@,
            input@,
            "-vframes"@,
            "1"@,
            "-vf"@,
            "scale=192:192:force_original_aspect_ratio=decrease"@,
            "-pix_fmt"@,
            "yuv420p"@,
            "-f"@,
            "webp"@,
            output@,
        ],
{
    let mut a: Vec<String> = Vec::new();
    push_arg(&mut a, "-y");
    if seek {
        push_arg(&mut a, "-ss");
        push_arg(&mut a, "1");
    }
    push_arg(&mut a, "-i");
    push_arg(&mut a, input);
    push_arg(&mut a, "-vframes");
    push_arg(&mut a, "1");
    push_arg(&mut a, "-vf");
    push_arg(&mut a, "scale=192:192:force_original_aspect_ratio=decrease");
    push_arg(&mut a, "-pix_fmt");
    push_arg(&mut a, "yuv420p");
    push_arg(&mut a, "-f");
    push_arg(&mut a, "webp");
    push_arg(&mut a, output);
    assert(a.deep_view() =~= (if seek { seq!["-y"@, "-ss"@, "1"@] } else { seq!["-y"@] }) + seq![
        "-i"@,
        input@,
        "-vframes"@,
        "1"@,
        "-vf"@,
        "scale=192:192:force_original_aspect_ratio=decrease"@,
        "-pix_fmt"@,
        "yuv420p"@,
        "-f"@,
        "webp"@,
        output@,
    ]);
    a
}

/// The GIF filter: a per-clip palette instead of ffmpeg's fixed 8-bit one.
pub open spec fn gif_filter() -> Seq<char> {
    "fps=24,scale=192:192:force_original_aspect_ratio=decrease:flags=lanczos,split[a][b];[a]palettegen=stats_mode=diff[p];[b][p]paletteuse=dither=bayer:bayer_scale=5:diff_mode=rectangle"@
}

/// ffmpeg arguments for an animated preview of at most `duration` seconds:
/// an animated GIF for GIFs, a small H.264 MP4 with mono audio otherwise.
pub fn animated_preview_args(input: &str, output: &str, duration: &str, is_gif: bool) -> (res: Vec<String>)
    ensures
        is_gif ==> res.deep_view() == seq![
            "-y"@,
            "-i"@,
            input@,
            "-t"@,
            duration@,
            "-filter_complex"@,
            gif_filter(),
            "-loop"@,
            "0"@,
            output@,
        ],
        !is_gif ==> res.deep_view() == seq![
            "-y"@,
            "-i"@,
            input@,
            "-t"@,
            duration@,
            "-vf"@,
            "scale=192:192:force_original_aspect_ratio=decrease:flags=lanczos,pad=ceil(iw/2)*2:ceil(ih/2)*2"@,
            "-pix_fmt"@,
            "yuv420p"@,
            "-c:v"@,
            "libx264"@,
            "-preset"@,
            "fast"@,
            "-crf"@,
            "30"@,
            "-c:a"@,
            "aac"@,
            "-b:a"@,
            "64k"@,
            "-ac"@,
            "1"@,
            "-movflags"@,
            "+faststart"@,
            output@,
        ],
{
    let mut a: Vec<String> = Vec::new();
    push_arg(&mut a, "-y");
    push_arg(&mut a, "-i");
    push_arg(&mut a, input);
    push_arg(&mut a, "-t");
    push_arg(&mut a, duration);
    if is_gif {
        push_arg(&mut a, "-filter_complex");
        push_arg(&mut a, "fps=24,scale=192:192:force_original_aspect_ratio=decrease:flags=lanczos,split[a][b];[a]palettegen=stats_mode=diff[p];[b][p]paletteuse=dither=bayer:bayer_scale=5:diff_mode=rectangle");
        push_arg(&mut a, "-loop");
        push_arg(&mut a, "0");
        push_arg(&mut a, output);
        assert(a.deep_view() =~= seq![
            "-y"@,
            "-i"@,
            input@,
            "-t"@,
            duration@,
            "-filter_complex"@,
            gif_filter(),
            "-loop"@,
            "0"@,
            output@,
        ]);
    } else {
        push_arg(&mut a, "-vf");
        push_arg(&mut a, "scale=192:192:force_original_aspect_ratio=decrease:flags=lanczos,pad=ceil(iw/2)*2:ceil(ih/2)*2");
        push_arg(&mut a, "-pix_fmt");
        push_arg(&mut a, "yuv420p");
        push_arg(&mut a, "-c:v");
        push_arg(&mut a, "libx264");
        push_arg(&mut a, "-preset");
        push_arg(&mut a, "fast");
        push_arg(&mut a, "-crf");
        push_arg(&mut a, "30");
        push_arg(&mut a, "-c:a");
        push_arg(&mut a, "aac");
        push_arg(&mut a, "-b:a");
        push_arg(&mut a, "64k");
        push_arg(&mut a, "-ac");
        push_arg(&mut a, "1");
        push_arg(&mut a, "-movflags");
        push_arg(&mut a, "+faststart");
        push_arg(&mut a, output);
        assert(a.deep_view() =~= seq![
            "-y"@,
            "-i"@,
            input@,
            "-t"@,
            duration@,
            "-vf"@,
            "scale=192:192:force_original_aspect_ratio=decrease:flags=lanczos,pad=ceil(iw/2)*2:ceil(ih/2)*2"@,
            "-pix_fmt"@,
            "yuv420p"@,
            "-c:v"@,
            "libx264"@,
            "-preset"@,
            "fast"@,
            "-crf"@,
            "30"@,
            "-c:a"@,
            "aac"@,
            "-b:a"@,
            "64k"@,
            "-ac"@,
            "1"@,
            "-movflags"@,
            "+faststart"@,
            output@,
        ]);
    }
    a
}

/// The reason given when generation produced nothing usable: the error of the
/// attempt that failed, or that the output file came out empty.
pub open spec fn failure_reason(err: Option<String>) -> Seq<char> {
    match err {
        Some(e) => e@,
        None => "produced an empty file"@,
    }
}

/// The error when both thumbnail attempts failed: the later attempt's error if
/// it had one, else the earlier one's, else that the output was empty.
pub fn thumbnail_failure(first: Option<String>, second: Option<String>) -> (res: String)
    ensures
        res@ == "thumbnail generation failed: "@ + failure_reason(if second is Some { second } else { first }),
{
    let reason = match second {
        Some(e) => e,
        None => match first {
            Some(e) => e,
            None => owned("produced an empty file"),
        },
    };
    concat("thumbnail generation failed: ", reason.as_str())
}

/// The error when the animated preview attempt failed.
pub fn preview_failure(err: Option<String>) -> (res: String)
    ensures
        res@ == "animated preview generation failed: "@ + failure_reason(err),
{
    let reason = match err {
        Some(e) => e,
        None => owned("produced an empty file"),
    };
    concat("animated preview generation failed: ", reason.as_str())
}

/// Whether a file in the previews folder is an error placeholder that older
/// builds wrote in place of a real preview: not a failure marker (its path
/// holds no `.failed.`) and byte for byte the placeholder.
pub fn is_in_band_placeholder(path_text: &str, contents: &[u8], placeholder: &[u8]) -> (res: bool)
    ensures
        res == (!has_substring(path_text@, ".failed."@) && contents@ == placeholder@),
{
    if contains_substring(path_text, ".failed.") {
        return false;
    }
    if contents.len() != placeholder.len() {
        return false;
    }
    let mut i: usize = 0;
    while i < contents.len()
        invariant
            contents.len() == placeholder.len(),
            i <= contents.len(),
            forall|j: int| 0 <= j < i ==> contents@[j] == placeholder@[j],
        decreases contents.len() - i,
    {
        if contents[i] != placeholder[i] {
            return false;
        }
        i += 1;
    }
    assert(contents@ =~= placeholder@);
    true
}

/// The standard base64 alphabet (RFC 4648): `A`-`Z`, `a`-`z`, `0`-`9`, `+`, `/`.
pub open spec fn base64_alphabet() -> Seq<char> {
    seq![
        'A', 'B', 'C', 'D', 'E', 'F', 'G', 'H', 'I', 'J', 'K', 'L', 'M', 'N', 'O', 'P',
        'Q', 'R', 'S', 'T', 'U', 'V', 'W', 'X', 'Y', 'Z', 'a', 'b', 'c', 'd', 'e', 'f',
        'g', 'h', 'i', 'j', 'k', 'l', 'm', 'n', 'o', 'p', 'q', 'r', 's', 't', 'u', 'v',
        'w', 'x', 'y', 'z', '0', '1', '2', '3', '4', '5', '6', '7', '8', '9', '+', '/',
    ]
}

/// The character of a 6-bit value in the standard base64 alphabet.
pub open spec fn base64_digit(v: int) -> char {
    base64_alphabet()[v]
}

/// Standard base64 with `=` padding (RFC 4648): every three bytes become four
/// characters of six bits each; a last group of one or two bytes is padded.
pub open spec fn base64_standard(data: Seq<u8>) -> Seq<char>
    decreases data.len(),
{
    if data.len() == 0 {
        Seq::empty()
    } else if data.len() == 1 {
        let b0 = data[0] as int;
        seq![base64_digit(b0 / 4), base64_digit((b0 % 4) * 16), '=', '=']
    } else if data.len() == 2 {
        let b0 = data[0] as int;
        let b1 = data[1] as int;
        seq![base64_digit(b0 / 4), base64_digit((b0 % 4) * 16 + b1 / 16), base64_digit((b1 % 16) * 4), '=']
    } else {
        let b0 = data[0] as int;
        let b1 = data[1] as int;
        let b2 = data[2] as int;
        seq![
            base64_digit(b0 / 4),
            base64_digit((b0 % 4) * 16 + b1 / 16),
            base64_digit((b1 % 16) * 4 + b2 / 64),
            base64_digit(b2 % 64),
        ] + base64_standard(data.skip(3))
    }
}

/// Four characters for every started group of three bytes.
proof fn lemma_base64_len(data: Seq<u8>)
    ensures
        base64_standard(data).len() == 4 * ((data.len() + 2) / 3),
    decreases data.len(),
{
    if data.len() >= 3 {
        lemma_base64_len(data.skip(3));
    }
}

/// `base64::engine::general_purpose::STANDARD.encode(data)`: standard base64
/// with padding. The crate panics where the encoded length does not fit in a
/// `usize`.
#[verifier::external_body]
fn base64_encode(data: &[u8]) -> (res: String)
    requires
        data@.len() <= usize::MAX / 4 * 3,
    ensures
        res@ == base64_standard(data@),
{
    base64::Engine::encode(&base64::engine::general_purpose::STANDARD, data)
}

/// A thumbnail's or preview's bytes as the text the user interface shows
/// them from (standard base64).
pub fn encode_image_data(data: &[u8]) -> (res: String)
    requires
        data@.len() <= usize::MAX / 4 * 3,
    ensures
        res@ == base64_standard(data@),
        res@.len() == 4 * ((data@.len() + 2) / 3),
{
    proof {
        lemma_base64_len(data@);
    }
    base64_encode(data)
}

} // verus!
