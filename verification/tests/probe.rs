use muzn_dm::probe::{accepts_ranges, build, check_probe_url, content_range_total, get_result, head_result, header_u64, mime_of, ProbeHeaders};

fn headers() -> ProbeHeaders {
    ProbeHeaders {
        content_length: None,
        accept_ranges: None,
        content_range: None,
        content_disposition: None,
        etag: None,
        last_modified: None,
        content_type: None,
    }
}

#[test]
fn rejects_non_http_scheme() {
    assert_eq!(check_probe_url("ftp://x/y").unwrap_err().code(), "INVALID_URL");
    assert_eq!(check_probe_url("nonsense").unwrap_err().code(), "INVALID_URL");
    assert!(check_probe_url("https://x/y").is_ok());
}

#[test]
fn header_values_are_read() {
    assert_eq!(header_u64(Some(" 12345 ")), Some(12345));
    assert_eq!(header_u64(Some("+7")), Some(7));
    assert_eq!(header_u64(Some("-7")), None);
    assert_eq!(header_u64(Some("18446744073709551616")), None);
    assert_eq!(header_u64(Some("18446744073709551615")), Some(u64::MAX));
    assert_eq!(header_u64(None), None);
    assert!(accepts_ranges(Some("Bytes")));
    assert!(!accepts_ranges(Some("none")));
    assert_eq!(content_range_total(Some("bytes 0-0/12345")), Some(12345));
    assert_eq!(content_range_total(Some("bytes 0-0/*")), None);
    assert_eq!(mime_of(Some("application/zip; charset=binary")).as_deref(), Some("application/zip"));
}

#[test]
fn the_head_then_get_decisions() {
    let mut h = headers();
    h.content_length = Some("1024".into());
    h.accept_ranges = Some("bytes".into());
    assert_eq!(head_result(200, &h), Some(1024));
    assert_eq!(head_result(405, &h), None);
    assert_eq!(head_result(200, &headers()), None);
    let mut no_ranges = headers();
    no_ranges.content_length = Some("1024".into());
    assert_eq!(head_result(200, &no_ranges), None, "no Accept-Ranges: the ranged GET decides");
    no_ranges.accept_ranges = Some("none".into());
    assert_eq!(head_result(200, &no_ranges), None);
    assert_eq!(get_result(200, &no_ranges).unwrap(), (Some(1024), false), "a plain 200 means ranges off");
    let mut g = headers();
    g.content_range = Some("bytes 0-0/5000".into());
    assert_eq!(get_result(206, &g).unwrap(), (Some(5000), true));
    assert_eq!(get_result(404, &g).unwrap_err().code(), "HTTP_STATUS");
    assert_eq!(get_result(200, &h).unwrap(), (Some(1024), true));
}

#[test]
fn content_disposition_names_the_file() {
    let mut h = headers();
    h.content_disposition = Some("attachment; filename=\"report.pdf\"".into());
    h.content_type = Some("application/pdf".into());
    h.etag = Some("\"v1\"".into());
    let p = build("https://x/dl/file", &h, Some(10), true);
    assert_eq!(p.filename, "report.pdf");
    assert_eq!(p.mime.as_deref(), Some("application/pdf"));
    assert_eq!(p.etag.as_deref(), Some("\"v1\""));
    assert_eq!((p.size, p.ranges, p.final_url.as_str()), (Some(10), true, "https://x/dl/file"));
    let q = build("https://x/dl/file", &headers(), None, false);
    assert_eq!(q.filename, "file");
}
