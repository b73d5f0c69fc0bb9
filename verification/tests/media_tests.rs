use media_vault::layout::{db_path, media_file, media_file_name};
use media_vault::media::{
    codec_probe_args, compute_checksum, detect_media_type, import_plan, is_uuid, new_media_id, probed_codec,
    rename_plan, scan_plan, split_file_name, unsupported_type_error, ChecksumHasher,
};

#[test]
fn media_types_by_extension() {
    assert_eq!(detect_media_type("png"), Some("image"));
    assert_eq!(detect_media_type("JPEG"), Some("image"));
    assert_eq!(detect_media_type("mkv"), Some("video"));
    assert_eq!(detect_media_type("gif"), Some("gif"));
    assert_eq!(detect_media_type("Opus"), Some("audio"));
    assert_eq!(detect_media_type("txt"), None);
    assert_eq!(detect_media_type(""), None);
}

#[test]
fn file_names_split_like_paths() {
    assert_eq!(split_file_name("clip.MP4"), (Some("clip".to_string()), Some("MP4".to_string())));
    assert_eq!(split_file_name("archive.tar.gz"), (Some("archive.tar".to_string()), Some("gz".to_string())));
    assert_eq!(split_file_name(".hidden"), (Some(".hidden".to_string()), None));
    assert_eq!(split_file_name("noext"), (Some("noext".to_string()), None));
    assert_eq!(split_file_name("trailing."), (Some("trailing".to_string()), Some("".to_string())));
    assert_eq!(split_file_name(".."), (None, None));
}

#[test]
fn uuid_forms_are_recognised() {
    assert!(is_uuid("67e55044-10b1-426f-9247-bb680e5fe0c8"));
    assert!(is_uuid("67E55044-10B1-426F-9247-BB680E5FE0C8"));
    assert!(is_uuid("67e5504410b1426f9247bb680e5fe0c8"));
    assert!(is_uuid("{67e55044-10b1-426f-9247-bb680e5fe0c8}"));
    assert!(is_uuid("urn:uuid:67e55044-10b1-426f-9247-bb680e5fe0c8"));
    assert!(!is_uuid("holiday"));
    assert!(!is_uuid("67e55044-10b1-426f-9247-bb680e5fe0cz"));
}

#[test]
fn generated_ids_are_lowercase_uuids() {
    let id = new_media_id();
    assert_eq!(id.len(), 36);
    assert!(is_uuid(&id));
    assert_eq!(id, id.to_lowercase());
    assert_ne!(id, new_media_id());
    assert_eq!(&id[14..15], "4");
    assert!(matches!(&id[19..20], "8" | "9" | "a" | "b"));
}

#[test]
fn checksum_of_nothing() {
    assert_eq!(compute_checksum(b""), "af1349b9f5f9a1a6a0404dea36dcc9499bcb25c9adc112b7cc9a93cae41f3262");
}

#[test]
fn checksum_in_chunks_equals_checksum_at_once() {
    let data: Vec<u8> = (0..200_000u32).map(|i| (i % 251) as u8).collect();
    let mut h = ChecksumHasher::new();
    for chunk in data.chunks(65536) {
        h.update(chunk);
    }
    let whole = compute_checksum(&data);
    assert_eq!(h.finish(), whole);
    assert_eq!(whole.len(), 64);
    assert_ne!(whole, compute_checksum(b"x"));
}

#[test]
fn import_plan_lowercases_and_classifies() {
    assert_eq!(import_plan("PNG"), Ok(("png".to_string(), "image")));
    assert_eq!(import_plan("Doc"), Err("Unsupported file type: doc".to_string()));
    assert_eq!(unsupported_type_error("x"), "Unsupported file type: x");
}

#[test]
fn rename_plan_leaves_uuid_names_alone() {
    assert_eq!(rename_plan("67e55044-10b1-426f-9247-bb680e5fe0c8.png"), Ok(None));
    assert_eq!(rename_plan("holiday.JPG"), Ok(Some(("jpg".to_string(), "image"))));
    assert_eq!(rename_plan("notes.txt"), Err("Unsupported file type: txt".to_string()));
}

#[test]
fn scan_plan_skips_hidden_and_unknown_files() {
    assert_eq!(scan_plan(".DS_Store"), None);
    assert_eq!(scan_plan(".clip.mp4"), None);
    assert_eq!(scan_plan("readme.md"), None);
    assert_eq!(scan_plan("song.FLAC"), Some(("flac".to_string(), "audio")));
}

#[test]
fn vault_names() {
    assert_eq!(media_file_name("abc", "png"), "abc.png");
    let f = media_file("abc.png");
    assert_eq!((f.dir.as_str(), f.name.as_str()), ("media", "abc.png"));
    assert_eq!(db_path().name, "vault.db");
}

#[test]
fn codec_probe_command_lines() {
    assert_eq!(
        codec_probe_args("/v/a.mp4", false),
        vec!["-v", "error", "-select_streams", "v:0", "-show_entries", "stream=codec_name", "-of",
            "default=noprint_wrappers=1:nokey=1", "/v/a.mp4"]
    );
    assert_eq!(codec_probe_args("x", true)[3], "a:0");
}

#[test]
fn probed_codec_is_trimmed_output() {
    assert_eq!(probed_codec("h264\n"), Some("h264".to_string()));
    assert_eq!(probed_codec("  \n"), None);
    assert_eq!(probed_codec(""), None);
}
