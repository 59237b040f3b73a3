use webdav_fs::auth::{format_url_path, WebdavAuth};
use webdav_fs::files::RemoteFile;
use webdav_fs::webdav::{
    clean_etag, decode_name, extract_privileges, parse_http_date, status_code_of, take_ok_propstat,
    CurrentUserPrivilegeSet, Depth, EmptyElement, MultiStatus, Privilege, Prop, PropStat, ResourceType, Response,
    WebDavMethod,
};

fn prop(is_dir: bool, size: Option<u64>) -> Prop {
    Prop {
        resource_type: Some(ResourceType { is_collection: if is_dir { Some(EmptyElement {}) } else { None } }),
        content_length: size,
        last_modified: None,
        content_type: None,
        creation_date: None,
        etag: None,
        display_name: None,
        owner: None,
        current_user_privilege_set: None,
    }
}

fn ok(p: Prop) -> PropStat {
    PropStat { prop: p, status: "HTTP/1.1 200 OK".to_string() }
}

#[test]
fn depth_and_method_text() {
    assert_eq!(Depth::Zero.as_str(), "0");
    assert_eq!(Depth::One.as_str(), "1");
    assert_eq!(Depth::Infinity.as_str(), "infinity");
    assert_eq!(WebDavMethod::PROPFIND.to_string(), "PROPFIND");
}

#[test]
fn status_lines() {
    assert_eq!(status_code_of("HTTP/1.1 200 OK"), Some(200));
    assert_eq!(status_code_of("HTTP/1.1 404 Not Found"), Some(404));
    assert_eq!(status_code_of("  207"), Some(207));
    assert_eq!(status_code_of("HTTP/1.1 +201 Created"), Some(201));
    assert_eq!(status_code_of("HTTP/1.1 99999 x"), None);
    assert_eq!(status_code_of("no code"), None);
    assert_eq!(status_code_of(""), None);
}

#[test]
fn first_successful_propstat() {
    let ps = vec![
        PropStat { prop: prop(false, None), status: "HTTP/1.1 404 Not Found".to_string() },
        PropStat { prop: prop(false, Some(1)), status: "HTTP/1.1 200 OK".to_string() },
        PropStat { prop: prop(false, Some(2)), status: "HTTP/1.1 200 OK".to_string() },
    ];
    assert_eq!(take_ok_propstat(&ps), Some(1));
    assert_eq!(take_ok_propstat(&ps[..1].to_vec()), None);
}

#[test]
fn etags_are_trimmed_and_unquoted() {
    assert_eq!(clean_etag(&Some("  \"abc\"  ".to_string())), Some("abc".to_string()));
    assert_eq!(clean_etag(&Some("W/\"x\"".to_string())), Some("W/\"x\"".to_string()));
    assert_eq!(clean_etag(&Some("\"\"".to_string())), Some(String::new()));
    assert_eq!(clean_etag(&None), None);
}

#[test]
fn names_prefer_display_name() {
    assert_eq!(decode_name(&Some("Shown".to_string()), "/dav/x.txt"), "Shown");
    assert_eq!(decode_name(&None, "/dav/a%20b.txt"), "a b.txt");
    assert_eq!(decode_name(&None, "/dav/dir//"), "dir");
    assert_eq!(decode_name(&None, "plain"), "plain");
}

#[test]
fn privileges_flatten_in_order() {
    let none = Privilege { read: None, write: None, all: None, read_acl: None, write_acl: None };
    let set = CurrentUserPrivilegeSet {
        privileges: vec![
            Privilege { read: Some(EmptyElement {}), write: Some(EmptyElement {}), ..none },
            Privilege { write_acl: Some(EmptyElement {}), all: Some(EmptyElement {}), ..none },
        ],
    };
    assert_eq!(extract_privileges(&Some(set)), vec!["read", "write", "all", "write_acl"]);
    assert!(extract_privileges(&None).is_empty());
}

#[test]
fn last_modified_dates() {
    let d = parse_http_date(&Some("Tue, 1 Jul 2003 10:52:37 +0200".to_string())).unwrap().unwrap();
    assert_eq!(d.unix_seconds, 1057049557);
    assert_eq!(d.offset_seconds, 7200);
    assert!(parse_http_date(&Some("yesterday".to_string())).is_err());
    assert_eq!(parse_http_date(&None).unwrap(), None);
}

#[test]
fn depth_one_listing_of_two_entries() {
    let auth = WebdavAuth::new("user", "pass", "http://example.com/dav/dir/").unwrap();
    let ms = MultiStatus {
        responses: vec![
            Response { href: "/dav/dir/".to_string(), propstats: vec![ok(prop(true, None))] },
            Response { href: "/dav/dir/a/".to_string(), propstats: vec![ok(prop(true, None))] },
            Response { href: "/dav/dir/b.txt".to_string(), propstats: vec![ok(prop(false, Some(11)))] },
        ],
    };
    let files = RemoteFile::from_multi_status(&auth, ms).unwrap();
    assert_eq!(files.len(), 2);
    assert!(files[0].data.is_dir);
    assert_eq!(files[0].data.name, "a");
    assert!(!files[1].data.is_dir);
    assert_eq!(files[1].data.size, Some(11));
    assert_eq!(files[1].data.name, "b.txt");
    assert_eq!(files[1].data.absolute_path, "http://example.com/dav/dir/b.txt");
    assert_eq!(files[1].data.base_url, "http://example.com/dav/dir/");
}

#[test]
fn single_response_is_kept_and_failed_ones_skipped() {
    let auth = WebdavAuth::new("u", "p", "http://example.com/").unwrap();
    let ms = MultiStatus {
        responses: vec![Response { href: "/only.txt".to_string(), propstats: vec![ok(prop(false, Some(1)))] }],
    };
    let v = ms.to_remote_file_data(auth.base_url()).unwrap();
    assert_eq!(v.len(), 1);
    let ms = MultiStatus {
        responses: vec![
            Response { href: "/".to_string(), propstats: vec![ok(prop(true, None))] },
            Response {
                href: "/gone".to_string(),
                propstats: vec![PropStat { prop: prop(false, None), status: "HTTP/1.1 403 Forbidden".to_string() }],
            },
        ],
    };
    assert!(ms.to_remote_file_data(auth.base_url()).unwrap().is_empty());
}

#[test]
fn auth_handle() {
    let a = WebdavAuth::new("user", "pass", "http://example.com/dav").unwrap();
    assert_eq!(a.base_url().href, "http://example.com/dav/");
    assert_eq!(a.authorization(), "Basic dXNlcjpwYXNz");
    let b = WebdavAuth::new("user", "pass", "http://example.com/other/").unwrap();
    let c = WebdavAuth::new("user", "other", "http://example.com/dav/").unwrap();
    assert!(a.eq_only_token(&b));
    assert!(!a.same_endpoint(&b));
    assert!(!a.eq_only_token(&c));
    assert!(a.same_endpoint(&a.duplicate()));
    assert!(WebdavAuth::new("u", "p", "").is_err());
    assert!(WebdavAuth::new("u", "p", "not a url").is_err());
}

#[test]
fn paths_stay_under_the_base() {
    let a = WebdavAuth::new("user", "pass", "http://example.com/dav/").unwrap();
    assert_eq!(format_url_path(&a, "t2/a1.txt").unwrap(), "http://example.com/dav/t2/a1.txt");
    assert!(format_url_path(&a, "../etc/passwd").is_err());
    assert!(format_url_path(&a, "http://other.com/dav/x").is_err());
    assert!(format_url_path(&a, "/elsewhere").is_err());
}
