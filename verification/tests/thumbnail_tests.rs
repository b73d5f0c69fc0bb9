use media_vault::thumbnail::{
    animated_preview_args, encode_image_data, generation_start, GenerationStart, ffmpeg_failure, ffmpeg_missing, get_display_preview_path,
    get_display_thumbnail_path, get_preview_path, get_thumbnail_path, is_in_band_placeholder, needs_decoder_retry,
    preview_failure, preview_files, regenerate_unavailable, tail_lines, thumbnail_args, thumbnail_failure,
    with_vp9_decoder,
};

fn names(v: &Option<media_vault::layout::VaultFile>) -> Option<String> {
    v.as_ref().map(|f| format!("{}/{}", f.dir, f.name))
}

#[test]
fn real_thumbnail_only_when_it_exists() {
    assert_eq!(names(&get_thumbnail_path("m", true)), Some("previews/m.webp".to_string()));
    assert_eq!(names(&get_thumbnail_path("m", false)), None);
}

#[test]
fn preview_prefers_mp4_over_gif() {
    assert_eq!(names(&get_preview_path("m", true, true)), Some("previews/m_preview.mp4".to_string()));
    assert_eq!(names(&get_preview_path("m", false, true)), Some("previews/m_preview.gif".to_string()));
    assert_eq!(names(&get_preview_path("m", false, false)), None);
}

#[test]
fn display_paths_fall_back_to_failure_markers() {
    assert_eq!(names(&get_display_thumbnail_path("m", true, true)), Some("previews/m.webp".to_string()));
    assert_eq!(names(&get_display_thumbnail_path("m", false, true)), Some("previews/m.failed.webp".to_string()));
    assert_eq!(names(&get_display_thumbnail_path("m", false, false)), None);
    assert_eq!(
        names(&get_display_preview_path("m", false, false, true)),
        Some("previews/m_preview.failed.webp".to_string())
    );
    assert_eq!(names(&get_display_preview_path("m", false, true, true)), Some("previews/m_preview.gif".to_string()));
    assert_eq!(names(&get_display_preview_path("m", false, false, false)), None);
}

#[test]
fn every_preview_file_is_removed() {
    let files: Vec<String> = preview_files("id").iter().map(|f| f.name.clone()).collect();
    assert_eq!(
        files,
        vec!["id.webp", "id_preview.gif", "id_preview.mp4", "id_preview.mp3", "id_preview.webp", "id.failed.webp",
            "id_preview.failed.webp"]
    );
}

#[test]
fn tail_keeps_last_lines() {
    assert_eq!(tail_lines("a\nb\r\nc\nd\ne\n\n", 4), "b | c | d | e");
    assert_eq!(tail_lines("only", 4), "only");
    assert_eq!(tail_lines("", 4), "");
    assert_eq!(tail_lines("x\ny", 0), "");
}

#[test]
fn decoder_retry_on_color_errors() {
    assert!(needs_decoder_retry("[vp9] Invalid color space 3"));
    assert!(needs_decoder_retry("Invalid color range"));
    assert!(!needs_decoder_retry("No such file"));
}

#[test]
fn vp9_decoder_goes_before_the_first_input() {
    let args: Vec<String> = ["-y", "-ss", "1", "-i", "in.webm", "-i", "x"].iter().map(|s| s.to_string()).collect();
    assert_eq!(
        with_vp9_decoder(&args),
        vec!["-y", "-ss", "1", "-c:v", "libvpx-vp9", "-i", "in.webm", "-i", "x"]
    );
    let none: Vec<String> = vec!["-y".to_string()];
    assert_eq!(with_vp9_decoder(&none), vec!["-y"]);
}

#[test]
fn ffmpeg_failure_messages() {
    assert_eq!(ffmpeg_failure("a\nb", false), "ffmpeg failed: a | b");
    assert_eq!(ffmpeg_failure("a\nb\nc\nd\ne", true), "ffmpeg failed (retry): b | c | d | e");
    assert_eq!(thumbnail_failure(Some("x".to_string()), Some("y".to_string())), "thumbnail generation failed: y");
    assert_eq!(thumbnail_failure(Some("x".to_string()), None), "thumbnail generation failed: x");
    assert_eq!(thumbnail_failure(None, None), "thumbnail generation failed: produced an empty file");
    assert_eq!(preview_failure(None), "animated preview generation failed: produced an empty file");
    assert!(regenerate_unavailable().starts_with("Cannot regenerate previews. ffmpeg was not found."));
    assert!(ffmpeg_missing().ends_with("make sure they are on your PATH."));
}

#[test]
fn thumbnail_command_line() {
    assert_eq!(
        thumbnail_args("in.mp4", "out.webp", true),
        vec!["-y", "-ss", "1", "-i", "in.mp4", "-vframes", "1", "-vf",
            "scale=192:192:force_original_aspect_ratio=decrease", "-pix_fmt", "yuv420p", "-f", "webp", "out.webp"]
    );
    assert_eq!(thumbnail_args("a", "b", false)[0..3], ["-y", "-i", "a"]);
}

#[test]
fn gif_preview_command_line() {
    let a = animated_preview_args("in.gif", "out.gif", "3", true);
    assert_eq!(a[0..5], ["-y", "-i", "in.gif", "-t", "3"]);
    assert_eq!(a[5], "-filter_complex");
    assert_eq!(a[7..], ["-loop", "0", "out.gif"]);
}

#[test]
fn placeholders_written_in_band_are_found() {
    assert!(is_in_band_placeholder("previews/m.webp", b"abc", b"abc"));
    assert!(!is_in_band_placeholder("previews/m.failed.webp", b"abc", b"abc"));
    assert!(!is_in_band_placeholder("previews/m.webp", b"abd", b"abc"));
    assert!(!is_in_band_placeholder("previews/m.webp", b"ab", b"abc"));
}

#[test]
fn image_data_is_base64() {
    assert_eq!(encode_image_data(b"hello"), "aGVsbG8=");
    assert_eq!(encode_image_data(b""), "");
    assert_eq!(encode_image_data(&[0xff, 0xfe, 0xfd]), "//79");
}

#[test]
fn generation_starts_only_when_needed_and_possible() {
    assert_eq!(generation_start(true, false, true), GenerationStart::AlreadyDone);
    assert_eq!(generation_start(false, true, false), GenerationStart::AlreadyDone);
    assert_eq!(generation_start(false, false, false), GenerationStart::FfmpegMissing);
    assert_eq!(generation_start(false, false, true), GenerationStart::Run);
}
