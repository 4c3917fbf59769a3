use soundfiller_studio::youtube::{
    check_youtube_request, download_progress_text, is_valid_youtube_url, parse_youtube_meta,
    progress_line_in_domain,
};

#[test]
fn accepted_url_shapes() {
    assert!(is_valid_youtube_url("https://www.youtube.com/watch?v=dQw4w9WgXcQ"));
    assert!(is_valid_youtube_url("https://youtu.be/dQw4w9WgXcQ"));
    assert!(is_valid_youtube_url("https://youtube.com/shorts/abc123"));
    assert!(is_valid_youtube_url("https://m.youtube.com/watch?v=x"));
    assert!(is_valid_youtube_url("m.youtube.com/"));
}

#[test]
fn rejected_url_shapes() {
    assert!(!is_valid_youtube_url("https://vimeo.com/123"));
    assert!(!is_valid_youtube_url("https://youtu.be"));
    assert!(!is_valid_youtube_url("youtube.com/"));
    assert!(!is_valid_youtube_url(""));
}

#[test]
fn request_needs_acknowledgement_first() {
    assert_eq!(
        check_youtube_request("https://vimeo.com/1", "nope"),
        Err("Legal acknowledgement required. Please accept the terms first.".to_string())
    );
    assert_eq!(
        check_youtube_request("https://youtu.be/x", ""),
        Err("Legal acknowledgement required. Please accept the terms first.".to_string())
    );
}

#[test]
fn request_needs_youtube_url() {
    assert_eq!(
        check_youtube_request("https://vimeo.com/1", "accepted_v1"),
        Err("Invalid YouTube URL. Supported: youtube.com/watch, youtu.be, youtube.com/shorts".to_string())
    );
}

#[test]
fn request_accepted() {
    assert_eq!(check_youtube_request("https://youtu.be/x", "accepted_v1"), Ok(()));
}

#[test]
fn progress_of_download_lines() {
    let cases: [(&str, Option<&str>); 10] = [
        ("[download]  12.3% of 7.42MiB at 1.00MiB/s ETA 00:05", Some("12.3")),
        ("[download] 100% of 7.42MiB in 00:04", Some("100")),
        ("[download]   0.0% of ~ 3.00MiB", Some("0.0")),
        ("[download] .5%", Some(".5")),
        ("[download] 7.%", Some("7.")),
        ("[download] 12.3.4%", None),
        ("[download] .%", None),
        ("[download] %", None),
        ("[download] Destination: track.webm", None),
        ("[info] 12.3% done", None),
    ];
    for (line, expected) in cases {
        assert!(progress_line_in_domain(line));
        assert_eq!(download_progress_text(line).as_deref(), expected, "line {:?}", line);
    }
}

#[test]
fn progress_needs_something_before_the_number() {
    assert!(progress_line_in_domain("50%[download]"));
    assert_eq!(download_progress_text("50%[download]"), None);
    assert_eq!(download_progress_text("x50%[download]"), Some("50".to_string()));
}

#[test]
fn progress_percentage_parses_as_number() {
    let text = download_progress_text("[download]  42.5% of 1MiB").unwrap();
    assert_eq!(text.parse::<f64>().unwrap(), 42.5);
}

#[test]
fn progress_domain_excludes_multibyte_cut() {
    assert!(!progress_line_in_domain("[download] é12%"));
    assert!(progress_line_in_domain("é [download] 12%"));
    assert_eq!(download_progress_text("é [download] 12%"), Some("12".to_string()));
}

#[test]
fn metadata_from_two_lines() {
    let meta = parse_youtube_meta("Opus\nEric Prydz\n", "https://youtu.be/x");
    assert_eq!(meta.title, "Opus");
    assert_eq!(meta.uploader, "Eric Prydz");
    assert_eq!(meta.source_url, "https://youtu.be/x");
}

#[test]
fn metadata_defaults() {
    let meta = parse_youtube_meta("", "u");
    assert_eq!(meta.title, "Unknown Track");
    assert_eq!(meta.uploader, "Unknown Artist");
    let meta = parse_youtube_meta("Only title\n", "u");
    assert_eq!(meta.title, "Only title");
    assert_eq!(meta.uploader, "Unknown Artist");
    let meta = parse_youtube_meta("No newline", "u");
    assert_eq!(meta.title, "No newline");
    assert_eq!(meta.uploader, "Unknown Artist");
}

#[test]
fn metadata_line_endings_follow_str_lines() {
    for out in ["T\r\nU\r\nextra", "\nU", "T\nU\r", "T\n\n", "a\rb\nc"] {
        let meta = parse_youtube_meta(out, "u");
        let mut lines = out.lines();
        assert_eq!(meta.title, lines.next().unwrap_or("Unknown Track"), "output {:?}", out);
        assert_eq!(meta.uploader, lines.next().unwrap_or("Unknown Artist"), "output {:?}", out);
    }
}
