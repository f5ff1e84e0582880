use qshare::digest::{digest_hex, hex_string, parse_algo, HashAlgo};
use qshare::error::QshareError;
use qshare::reader::{build_entry, DirListing};
use qshare::routes::{
    cache_ttl_ms, default_tail, etag_of, health_response, is_gui_poll, listing_page, md5_wanted,
    mode_string, raw_plan, request_error_line, server_url, stat_response, BindHost, ListQuery,
    LogQuery, RawPlan,
};
use qshare::thumb::{cache_key, generate_thumbnail, thumb_from_encoded, thumb_target, RgbPixels, ThumbQuery, ThumbResult};

#[test]
fn digests_are_lower_hex() {
    assert_eq!(digest_hex(HashAlgo::Md5, b"abc"), "900150983cd24fb0d6963f7d28e17f72");
    assert_eq!(digest_hex(HashAlgo::Md5, b""), "d41d8cd98f00b204e9800998ecf8427e");
    assert_eq!(
        digest_hex(HashAlgo::Sha256, b"abc"),
        "ba7816bf8f01cfea414140de5dae2223b00361a396177a9cb410ff61f20015ad"
    );
    assert_eq!(hex_string(&[0x00, 0x0f, 0xa0, 0xff]), "000fa0ff");
}

#[test]
fn hash_algorithm_defaults_to_md5() {
    assert_eq!(parse_algo(None), HashAlgo::Md5);
    assert_eq!(parse_algo(Some("sha256")), HashAlgo::Sha256);
    assert_eq!(parse_algo(Some("SHA256")), HashAlgo::Md5);
    assert_eq!(parse_algo(Some("sha1")), HashAlgo::Md5);
}

#[test]
fn thumbnail_cache_key_is_a_sha256_prefix() {
    assert_eq!(cache_key("/tmp/a.jpg", 1_700_000_000, 320), "83eed0adff9f170b3eaba15780a47dcc");
    assert_ne!(cache_key("/tmp/a.jpg", 1_700_000_001, 320), cache_key("/tmp/a.jpg", 1_700_000_000, 320));
    assert_eq!(cache_key("/x", 0, 16).len(), 32);
}

#[test]
fn thumbnail_width_and_target() {
    assert_eq!(ThumbQuery { path: String::new(), w: None }.max_width(), 320);
    assert_eq!(ThumbQuery { path: String::new(), w: Some(1) }.max_width(), 16);
    assert_eq!(ThumbQuery { path: String::new(), w: Some(5000) }.max_width(), 1024);
    assert_eq!(thumb_target(1000, 500, 320), Some((320, 500)));
    assert_eq!(thumb_target(200, 500, 320), None);
    assert_eq!(thumb_target(400, 100, 0), Some((320, 100)));
}

#[test]
fn thumbnails_are_jpeg_and_errors_are_prefixed() {
    let img = RgbPixels { width: 640, height: 480, data: vec![200u8; 640 * 480 * 3] };
    match generate_thumbnail(Ok(img), 320).unwrap() {
        ThumbResult::Jpeg(bytes) => {
            assert_eq!(&bytes[..2], &[0xFF, 0xD8]);
            let back = image::load_from_memory(&bytes).unwrap();
            assert_eq!((back.width(), back.height()), (320, 240));
        }
        ThumbResult::Unsupported(r) => panic!("unsupported: {r}"),
    }
    assert!(matches!(generate_thumbnail(Err("bad header".into()), 320), Ok(ThumbResult::Unsupported(m)) if m == "decode: bad header"));
    // Narrow enough already: encoded at its own size.
    let small = RgbPixels { width: 100, height: 50, data: vec![10u8; 100 * 50 * 3] };
    match generate_thumbnail(Ok(small), 320).unwrap() {
        ThumbResult::Jpeg(bytes) => {
            let back = image::load_from_memory(&bytes).unwrap();
            assert_eq!((back.width(), back.height()), (100, 50));
        }
        ThumbResult::Unsupported(r) => panic!("unsupported: {r}"),
    }
    assert!(matches!(thumb_from_encoded(Ok(vec![1, 2])), Ok(ThumbResult::Jpeg(b)) if b == vec![1, 2]));
    assert_eq!(thumb_from_encoded(Err("no space".into())).err(), Some("encode: no space".to_string()));
}

#[test]
fn etag_mode_and_md5_policy() {
    assert_eq!(etag_of(1234, 1_700_000_000), "\"1234-1700000000\"");
    assert_eq!(mode_string(Some(0o100644)), "0644");
    assert_eq!(mode_string(Some(0o40755)), "0755");
    assert_eq!(mode_string(Some(0o4755)), "4755");
    assert_eq!(mode_string(None), "");
    assert!(md5_wanted(false, 1));
    assert!(md5_wanted(false, 64 * 1024 * 1024));
    assert!(!md5_wanted(false, 64 * 1024 * 1024 + 1));
    assert!(!md5_wanted(false, 0));
    assert!(!md5_wanted(true, 10));
}

#[test]
fn stat_response_fields() {
    let r = stat_response("/a/pic.png".into(), "pic.png".into(), false, 10, 20, Some(0o644), Some("ff".into()));
    assert_eq!(r.mime.as_deref(), Some("image/png"));
    assert!(r.previewable);
    assert_eq!(r.etag, "\"10-20\"");
    assert_eq!(r.mode, "0644");
    assert_eq!(r.md5.as_deref(), Some("ff"));
    let d = stat_response("/a".into(), "a".into(), true, 0, 0, None, None);
    assert!(d.mime.is_none());
    assert!(!d.previewable);
}

#[test]
fn raw_plans() {
    let etag = "\"1000-5\"";
    assert!(matches!(raw_plan("/d", true, 0, 0, None, None), Err(QshareError::BadRequest(m)) if m == "cannot stream a directory"));
    assert!(matches!(raw_plan("/f.mp4", false, 1000, 5, Some(etag), Some("bytes=0-1")), Ok(RawPlan::NotModified { etag: e }) if e == etag));
    match raw_plan("/f.mp4", false, 1000, 5, Some("\"other\""), Some("bytes=100-199")).unwrap() {
        RawPlan::Send { status, start, length, mime, etag: e, content_range } => {
            assert_eq!((status, start, length), (206, 100, 100));
            assert_eq!(mime, "video/mp4");
            assert_eq!(e, etag);
            assert_eq!(content_range.as_deref(), Some("bytes 100-199/1000"));
        }
        other => panic!("{other:?}"),
    }
    match raw_plan("/f.txt", false, 1000, 5, None, Some("bytes=5000-")).unwrap() {
        RawPlan::Send { status, start, length, content_range, .. } => {
            assert_eq!((status, start, length), (200, 0, 1000));
            assert!(content_range.is_none());
        }
        other => panic!("{other:?}"),
    }
}

#[test]
fn list_query_limits_and_pages() {
    let q = ListQuery { path: "/".into(), sort: None, order: None, offset: None, limit: None };
    assert_eq!((q.page_limit(), q.page_offset()), (200, 0));
    let q = ListQuery { path: "/".into(), sort: None, order: None, offset: Some(7), limit: Some(0) };
    assert_eq!((q.page_limit(), q.page_offset()), (1, 7));
    let q = ListQuery { path: "/".into(), sort: None, order: None, offset: None, limit: Some(99999) };
    assert_eq!(q.page_limit(), 1000);
    let full = DirListing {
        path: "/d".into(),
        parent: Some("/".into()),
        entries: (0..5).map(|i| build_entry("/d", format!("f{i}"), false, 0, 0)).collect(),
        total: 5,
    };
    let page = listing_page(&full, 3, 10);
    assert_eq!(page.total, 5);
    assert_eq!(page.entries.len(), 2);
    assert_eq!(page.entries[0].name, "f3");
    assert!(listing_page(&full, 9, 10).entries.is_empty());
    assert_eq!(cache_ttl_ms(0), 1000);
    assert_eq!(cache_ttl_ms(5), 5000);
    assert_eq!(cache_ttl_ms(u64::MAX), u64::MAX);
}

#[test]
fn log_tail_defaults_and_cap() {
    assert_eq!(default_tail(), 200);
    assert_eq!(LogQuery::new().lines_wanted(), 200);
    assert_eq!(LogQuery { tail: 5000 }.lines_wanted(), 1000);
}

#[test]
fn health_and_announced_url() {
    let h = health_response(42);
    assert_eq!((h.status, h.uptime_secs), ("ok", 42));
    assert_eq!(server_url(&BindHost::AnyV4, 8888), "http://127.0.0.1:8888");
    assert_eq!(server_url(&BindHost::AnyV6, 80), "http://[::1]:80");
    assert_eq!(server_url(&BindHost::Addr("192.168.1.2".into()), 9), "http://192.168.1.2:9");
}

#[test]
fn request_tracking_rules() {
    assert!(is_gui_poll(Some("qshare")));
    assert!(is_gui_poll(Some("qshare-gui/1.0")));
    assert!(!is_gui_poll(Some("Mozilla/5.0")));
    assert!(!is_gui_poll(None));
    assert_eq!(request_error_line("GET", "/api/thumb?path=/x", 422), Some("GET /api/thumb?path=/x → 422".to_string()));
    assert_eq!(request_error_line("GET", "/", 200), None);
    assert_eq!(request_error_line("GET", "/", 399), None);
    assert!(request_error_line("GET", "/", 599).is_some());
}

#[test]
fn bind_addresses_print_host_and_port() {
    assert_eq!(qshare::routes::bind_addr("0.0.0.0", 8888), "0.0.0.0:8888");
    assert_eq!(qshare::routes::bind_addr("::1", 80), "::1:80");
}
