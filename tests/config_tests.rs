use webdav_fs::auth::WebdavAuth;
use webdav_fs::download::{retry_step, DownloadError, RetryStep, DEFAULT_MAX_RETRIES, DEFAULT_RETRY_DELAY_MS};
use webdav_fs::transfer::range_response_usable;
use webdav_fs::webdav::{propfind_succeeded, status_code_of};
use webdav_fs::files::get_local_files;
use webdav_fs::hooks::HookAbort;

#[test]
fn retry_defaults() {
    assert_eq!(DEFAULT_MAX_RETRIES, 3);
    assert_eq!(DEFAULT_RETRY_DELAY_MS, 1000);
}

#[test]
fn range_answers() {
    assert!(range_response_usable(206, 4, 8, Some(4)));
    assert!(range_response_usable(200, 0, 8, Some(8)));
    assert!(!range_response_usable(200, 0, 8, Some(100)));
    assert!(!range_response_usable(200, 4, 8, Some(4)));
    assert!(!range_response_usable(200, 0, 8, None));
    assert!(!range_response_usable(416, 0, 8, Some(8)));
}

#[test]
fn propfind_statuses() {
    assert!(propfind_succeeded(207));
    assert!(propfind_succeeded(200));
    assert!(!propfind_succeeded(404));
    assert!(!propfind_succeeded(301));
}

#[test]
fn status_line_unicode_spaces() {
    assert_eq!(status_code_of("HTTP/1.1\u{3000}200\u{A0}OK"), Some(200));
    assert_eq!(status_code_of("HTTP/1.1\u{2003}404"), Some(404));
}

#[test]
fn auth_base_without_slash_succeeds() {
    let a = WebdavAuth::new("u", "p", "https://host.example/a/b").unwrap();
    assert_eq!(a.base_url().href, "https://host.example/a/b/");
    assert_eq!(a.base_url().path, "/a/b/");
}

#[test]
fn retries_until_exhausted() {
    let r = retry_step(2, 0, 3, DownloadError::Request("reset".to_string()), "reset".to_string());
    assert!(matches!(r, RetryStep::Retry(1)));
    let r = retry_step(2, 2, 3, DownloadError::Request("reset".to_string()), "reset".to_string());
    assert!(matches!(r, RetryStep::Retry(3)));
    match retry_step(2, 3, 3, DownloadError::Request("reset".to_string()), "reset".to_string()) {
        RetryStep::GiveUp(DownloadError::ChunkFailed { chunk_index, retries, message }) => {
            assert_eq!((chunk_index, retries, message.as_str()), (2, 4, "reset"));
        }
        other => panic!("unexpected {:?}", other),
    }
    let r = retry_step(0, 0, 0, DownloadError::RangeNotSupported, "no range".to_string());
    assert!(matches!(r, RetryStep::GiveUp(DownloadError::ChunkFailed { retries: 1, .. })));
}

#[test]
fn cancel_and_hook_abort_are_not_retried() {
    let r = retry_step(0, 0, 3, DownloadError::Cancelled, String::new());
    assert!(matches!(r, RetryStep::GiveUp(DownloadError::Cancelled)));
    let r = retry_step(0, 0, 3, DownloadError::HookAbort(HookAbort), String::new());
    assert!(matches!(r, RetryStep::GiveUp(DownloadError::HookAbort(_))));
}

#[test]
fn local_listing_is_empty() {
    assert!(get_local_files().unwrap().is_empty());
}

#[test]
fn auth_equality_uses_url_and_fingerprint() {
    let a = WebdavAuth::new("user", "pass", "http://example.com/dav/").unwrap();
    let b = WebdavAuth::new("user", "pass", "http://example.com/dav").unwrap();
    let c = WebdavAuth::new("user", "pass2", "http://example.com/dav/").unwrap();
    assert!(a == b);
    assert!(a != c);
}
