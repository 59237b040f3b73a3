use std::sync::{Arc, Mutex};

use webdav_fs::auth::WebdavAuth;
use webdav_fs::download::{DownloadError, DownloadProgress};
use webdav_fs::downloader::build_downloader;
use webdav_fs::files::RemoteFile;
use webdav_fs::hooks::{DownloadHook, HookAbort};
use webdav_fs::webdav::RemoteFileData;

struct Recorder {
    name: &'static str,
    abort: bool,
    seen: Arc<Mutex<Vec<String>>>,
}

impl DownloadHook for Recorder {
    fn before_start(&mut self) -> Result<(), HookAbort> {
        self.seen.lock().unwrap().push(format!("{}:before", self.name));
        if self.abort {
            Err(HookAbort)
        } else {
            Ok(())
        }
    }

    fn on_chunk(&mut self, chunk: &[u8]) {
        self.seen.lock().unwrap().push(format!("{}:chunk{}", self.name, chunk.len()));
    }

    fn on_progress(&mut self, bytes_done: u64, _total: Option<u64>) {
        self.seen.lock().unwrap().push(format!("{}:progress{}", self.name, bytes_done));
    }

    fn after_complete(&mut self) {
        self.seen.lock().unwrap().push(format!("{}:after", self.name));
    }
}

fn remote(is_dir: bool, size: Option<u64>) -> RemoteFile {
    let auth = WebdavAuth::new("user", "pass", "http://example.com/dav").unwrap();
    RemoteFile {
        data: RemoteFileData {
            base_url: "http://example.com/dav/".to_string(),
            relative_root_path: "/dav/b.txt".to_string(),
            absolute_path: "http://example.com/dav/b.txt".to_string(),
            name: "b.txt".to_string(),
            is_dir,
            size,
            last_modified: None,
            mime: None,
            owner: None,
            etag: None,
            privileges: Vec::new(),
        },
        webdav_auth: auth,
    }
}

#[test]
fn before_start_abort_stops_everything() {
    let seen = Arc::new(Mutex::new(Vec::new()));
    let f = remote(false, Some(13));
    let mut d = build_downloader::<Recorder>(&f)
        .save_to("never_created.bin")
        .with_hook(Recorder { name: "a", abort: true, seen: seen.clone() })
        .with_hook(Recorder { name: "b", abort: false, seen: seen.clone() });
    let before = d.progress();
    let r = d.prepare();
    assert!(matches!(r, Err(DownloadError::HookAbort(_))));
    assert_eq!(d.progress(), before);
    assert_eq!(*seen.lock().unwrap(), vec!["a:before".to_string()]);
    assert!(!std::path::Path::new("never_created.bin").exists());
}

#[test]
fn hooks_run_in_registration_order() {
    let seen = Arc::new(Mutex::new(Vec::new()));
    let f = remote(false, Some(3));
    let mut d = build_downloader::<Recorder>(&f)
        .output_bytes()
        .with_hook(Recorder { name: "h1", abort: false, seen: seen.clone() })
        .with_hook(Recorder { name: "h2", abort: false, seen: seen.clone() });
    let plan = d.prepare().unwrap();
    assert!(plan.output_bytes);
    assert_eq!(d.progress(), DownloadProgress { bytes_done: 0, total: Some(3) });
    d.notify_chunk(b"abc", DownloadProgress { bytes_done: 3, total: Some(3) });
    d.complete();
    assert_eq!(
        *seen.lock().unwrap(),
        vec!["h1:before", "h2:before", "h1:chunk3", "h2:chunk3", "h1:progress3", "h2:progress3", "h1:after", "h2:after"]
    );
}

#[test]
fn send_without_sink_is_no_destination() {
    let seen = Arc::new(Mutex::new(Vec::new()));
    let f = remote(false, Some(13));
    let mut d = build_downloader::<Recorder>(&f).with_hook(Recorder { name: "a", abort: false, seen: seen.clone() });
    assert!(matches!(d.prepare(), Err(DownloadError::NoDestination)));
    assert!(seen.lock().unwrap().is_empty());
}

#[test]
fn directory_descriptor_is_dir() {
    let f = remote(true, None);
    let mut d = f.build_downloader::<Recorder>().output_bytes();
    assert!(matches!(d.prepare(), Err(DownloadError::IsDir)));
}

#[test]
fn chunked_with_unknown_size() {
    let f = remote(false, None);
    let mut d = build_downloader::<Recorder>(&f).output_bytes().max_concurrent_chunks(4);
    assert!(matches!(d.prepare(), Err(DownloadError::UnknownFileSizeForChunked)));
}

#[test]
fn cancel_flag_is_seen() {
    let f = remote(false, Some(100));
    let mut d = build_downloader::<Recorder>(&f).save_to("x.bin");
    assert!(!d.cancel_requested());
    d.request_cancel();
    assert!(d.cancel_requested());
    let d = build_downloader::<Recorder>(&f).save_to("");
    assert!(d.download_config().save_path.is_none());
}
