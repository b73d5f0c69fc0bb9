use media_vault::protocol::{
    content_range, media_content_type, media_request_path, parse_u64, partial_length, plan_range, strip_prefix,
    unsatisfied_content_range, RangeAnswer,
};

#[test]
fn request_paths_are_decoded() {
    assert_eq!(media_request_path("media://localhost/home/u/my%20clip.mp4"), "/home/u/my clip.mp4");
    assert_eq!(media_request_path("http://media.localhost/C:/a%2Fb.png"), "/C:/a/b.png");
    assert_eq!(media_request_path("https://elsewhere/x"), "");
    assert_eq!(media_request_path("media://localhost/caf%C3%A9.jpg"), "/café.jpg");
}

#[test]
fn prefixes() {
    assert_eq!(strip_prefix("bytes=0-1", "bytes="), Some("0-1".to_string()));
    assert_eq!(strip_prefix("0-1", "bytes="), None);
}

#[test]
fn numbers_parse_like_std() {
    assert_eq!(parse_u64("42"), Some(42));
    assert_eq!(parse_u64("+7"), Some(7));
    assert_eq!(parse_u64("18446744073709551615"), Some(u64::MAX));
    assert_eq!(parse_u64("18446744073709551616"), None);
    assert_eq!(parse_u64(""), None);
    assert_eq!(parse_u64("+"), None);
    assert_eq!(parse_u64("-1"), None);
    assert_eq!(parse_u64("1a"), None);
    assert_eq!(parse_u64("99999999999999999999x"), None);
}

#[test]
fn no_range_gets_the_whole_file() {
    assert_eq!(plan_range(None, 100), Some(RangeAnswer::Whole));
    assert_eq!(plan_range(None, 0), Some(RangeAnswer::Whole));
    assert_eq!(RangeAnswer::Whole.status(), 200);
}

#[test]
fn ranges_of_an_empty_file_are_not_satisfiable() {
    assert_eq!(plan_range(Some("bytes=0-"), 0), Some(RangeAnswer::NotSatisfiable));
    assert_eq!(RangeAnswer::NotSatisfiable.status(), 416);
    assert_eq!(unsatisfied_content_range(0), "bytes */0");
}

#[test]
fn ranges_are_clamped_to_the_file() {
    assert_eq!(plan_range(Some("bytes=0-"), 100), Some(RangeAnswer::Partial { start: 0, end: 99 }));
    assert_eq!(plan_range(Some("bytes=10-19"), 100), Some(RangeAnswer::Partial { start: 10, end: 19 }));
    assert_eq!(plan_range(Some("bytes=10-500"), 100), Some(RangeAnswer::Partial { start: 10, end: 99 }));
    assert_eq!(plan_range(Some("bytes=-5"), 100), Some(RangeAnswer::Partial { start: 0, end: 5 }));
    assert_eq!(plan_range(Some("5-6"), 100), Some(RangeAnswer::Partial { start: 5, end: 6 }));
    assert_eq!(plan_range(Some("bytes=x-y"), 100), Some(RangeAnswer::Partial { start: 0, end: 99 }));
    assert_eq!(plan_range(Some("bytes=1-2-3"), 100), Some(RangeAnswer::Partial { start: 1, end: 2 }));
    assert_eq!(RangeAnswer::Partial { start: 1, end: 2 }.status(), 206);
}

#[test]
fn a_range_past_its_end_cannot_be_answered() {
    assert_eq!(plan_range(Some("bytes=50-10"), 100), None);
    assert_eq!(plan_range(Some("bytes=200-"), 100), None);
}

#[test]
fn partial_answer_headers() {
    assert_eq!(partial_length(10, 19), 10);
    assert_eq!(content_range(10, 19, 100), "bytes 10-19/100");
}

#[test]
fn content_types_by_extension() {
    assert_eq!(media_content_type("/v/clip.mp4"), "video/mp4");
    assert_eq!(media_content_type("/v/pic.PNG"), "image/png");
    assert_eq!(media_content_type("/v/noext"), "application/octet-stream");
}

#[test]
fn a_range_request_for_a_plain_path() {
    assert_eq!(media_request_path("media://localhost/v/a.bin"), "/v/a.bin");
    let answer = plan_range(Some("bytes=2-5"), 10);
    assert_eq!(answer, Some(RangeAnswer::Partial { start: 2, end: 5 }));
    assert_eq!(answer.unwrap().status(), 206);
    assert_eq!(partial_length(2, 5), 4);
    assert_eq!(content_range(2, 5, 10), "bytes 2-5/10");
}
