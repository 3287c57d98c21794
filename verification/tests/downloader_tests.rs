use adf_utils::downloader::download_args;
use adf_utils::downloader::parse_progress;
use adf_utils::downloader::progress_from_capture;
use adf_utils::downloader::DownloadState;
use adf_utils::downloader::DownloadStatus;
use adf_utils::downloader::DownloaderTab;
use adf_utils::downloader::Format;
use adf_utils::text::contains_text;

#[test]
fn format_options_and_names() {
    assert_eq!(Format::Mp3.to_args(), vec!["-x", "--audio-format", "mp3"]);
    assert_eq!(Format::Mp4.to_args(), vec!["-f", "mp4"]);
    assert_eq!(Format::Mkv.to_args(), vec!["-f", "bestvideo[ext=mp4]+bestaudio[ext=m4a]/mp4"]);
    assert_eq!(Format::Mp3.as_str(), "mp3");
    assert_eq!(Format::Mp4.as_str(), "mp4");
    assert_eq!(Format::Mkv.as_str(), "mkv");
}

#[test]
fn download_arguments() {
    assert_eq!(
        download_args(Format::Mp4, "https://example.com/v", "/tmp/download"),
        vec!["-f", "mp4", "https://example.com/v", "-o", "/tmp/download"]
    );
}

#[test]
fn download_request_needs_path_and_idle() {
    let mut tab = DownloaderTab::default();
    assert_eq!(tab.format, Format::Mp3);
    tab.url = "u".to_string();
    assert_eq!(tab.download_request(false), None);
    tab.save_path = Some("p".to_string());
    assert_eq!(tab.download_request(true), None);
    assert_eq!(
        tab.download_request(false),
        Some(vec!["-x".to_string(), "--audio-format".to_string(), "mp3".to_string(), "u".to_string(), "-o".to_string(), "p".to_string()])
    );
}

#[test]
fn progress_is_read_from_percentage() {
    assert_eq!(parse_progress("[download]  45.6% of 3.20MiB at 1.00MiB/s"), Some(456));
    assert_eq!(parse_progress("[download] 100.0% of 3.20MiB"), Some(1000));
    assert_eq!(parse_progress("[download]   0.0%"), Some(0));
    assert_eq!(parse_progress("[download] 1234.5%"), Some(2345));
    assert_eq!(parse_progress("[download] Destination: x.mp3"), None);
    assert_eq!(parse_progress("45%"), None);
    assert_eq!(parse_progress(""), None);
}

#[test]
fn captured_percentages() {
    assert_eq!(progress_from_capture("7.5"), Some(75));
    assert_eq!(progress_from_capture("045.6"), Some(456));
    assert_eq!(progress_from_capture("999.9"), Some(9999));
    assert_eq!(progress_from_capture("1.25"), None);
    assert_eq!(progress_from_capture("1000.0"), None);
    assert_eq!(progress_from_capture(".5"), None);
    assert_eq!(progress_from_capture("a.5"), None);
    assert_eq!(progress_from_capture("\u{663}.5"), None);
}

#[test]
fn contains_finds_marker() {
    assert!(contains_text("xx[download] y", "[download]"));
    assert!(!contains_text("[downloa", "[download]"));
    assert!(contains_text("abc", ""));
}

#[test]
fn state_follows_the_download() {
    let mut st = DownloadState::default();
    assert!(matches!(st.status, DownloadStatus::Idle));
    assert_eq!(st.status.fixed_text(), Some(String::new()));
    st.start();
    assert!(st.is_downloading);
    assert_eq!(st.status.fixed_text(), Some("Starting download...".to_string()));
    st.on_output_line("[youtube] abc: Downloading webpage");
    assert!(matches!(st.status, DownloadStatus::Starting));
    st.on_output_line("[download] Destination: a.webm");
    assert_eq!(st.status.fixed_text(), Some("[download] Destination: a.webm".to_string()));
    st.on_output_line("[download]  12.5% of 1.00MiB");
    assert_eq!(st.progress, 125);
    assert!(matches!(st.status, DownloadStatus::Progress(125)));
    assert_eq!(st.status.fixed_text(), None);
    st.finish();
    assert!(!st.is_downloading);
    assert_eq!(st.progress, 1000);
    assert_eq!(st.status.fixed_text(), Some("Download complete!".to_string()));
}
