use linuxy::downloader::{start_download, ChunkAction, DownloadSession};

#[test]
fn download_accepts_only_http_addresses() {
    assert_eq!(start_download("https://example.com/a.AppImage", "a.AppImage"), Ok("Downloading a.AppImage...".to_string()));
    assert_eq!(start_download("http://example.com/b", "b"), Ok("Downloading b...".to_string()));
    assert_eq!(
        start_download("ftp://example.com/a", "a"),
        Err("Only http:// and https:// downloads are allowed.".to_string())
    );
    assert!(start_download("file:///etc/passwd", "x").is_err());
}

#[test]
fn download_rejects_failed_responses() {
    let r = DownloadSession::on_response(false, "404 Not Found", Some(10));
    assert_eq!(r.err(), Some("Download failed with HTTP status 404 Not Found.".to_string()));
}

#[test]
fn download_counts_chunks_and_reports_progress_only_with_a_length() {
    let mut s = DownloadSession::on_response(true, "200 OK", Some(100)).unwrap();
    assert_eq!(s.downloaded, 0);
    assert_eq!(s.total, 100);
    assert_eq!(s.on_chunk(0), ChunkAction::Skip);
    assert_eq!(s.on_chunk(40), ChunkAction::Write { report_progress: true });
    assert_eq!(s.on_chunk(60), ChunkAction::Write { report_progress: true });
    assert_eq!(s.downloaded, 100);
    assert_eq!(s.finish(), Ok(()));

    let mut t = DownloadSession::on_response(true, "200 OK", None).unwrap();
    assert_eq!(t.total, 0);
    assert_eq!(t.on_chunk(5), ChunkAction::Write { report_progress: false });
    assert_eq!(t.downloaded, 5);
}

#[test]
fn download_without_data_fails() {
    let s = DownloadSession::on_response(true, "200 OK", Some(0)).unwrap();
    assert_eq!(s.finish(), Err("Download completed with no data.".to_string()));
}

#[test]
fn download_counter_refuses_overflow() {
    let s = DownloadSession { downloaded: u64::MAX - 1, total: 0 };
    assert!(s.can_count(1));
    assert!(!s.can_count(2));
}
