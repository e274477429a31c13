use muzn_dm::filename::{filename_from, from_content_disposition, sanitize, DEFAULT_FILENAME, MAX_FILENAME_BYTES};

#[test]
fn prefers_rfc5987_filename_star() {
    let cd = r#"attachment; filename="fallback.txt"; filename*=UTF-8''r%C3%A9sum%C3%A9.pdf"#;
    assert_eq!(filename_from(Some(cd), "https://x/y.zip"), "résumé.pdf");
}

#[test]
fn then_quoted_filename() {
    let cd = r#"attachment; filename="report 2026.pdf""#;
    assert_eq!(filename_from(Some(cd), "https://x/y.zip"), "report 2026.pdf");
}

#[test]
fn then_bare_filename() {
    assert_eq!(filename_from(Some("inline; filename=a.iso"), "https://x/y"), "a.iso");
}

#[test]
fn then_url_path_percent_decoded() {
    assert_eq!(
        filename_from(None, "https://x/dl/My%20File.tar.gz?token=1"),
        "My File.tar.gz"
    );
}

#[test]
fn then_default() {
    assert_eq!(filename_from(None, "https://x/"), DEFAULT_FILENAME);
    assert_eq!(filename_from(Some("attachment"), "https://x"), DEFAULT_FILENAME);
}

#[test]
fn sanitize_strips_separators_and_reserved_names() {
    assert_eq!(sanitize("a/b\\c:d*e?f\"g<h>i|j"), "a_b_c_d_e_f_g_h_i_j");
    assert_eq!(sanitize("  ..hidden.. "), "hidden");
    assert_eq!(sanitize("CON"), "_CON");
    assert_eq!(sanitize("com1.txt"), "_com1.txt");
    assert_eq!(sanitize("bad\u{0}name\n"), "bad_name_");
    assert_eq!(sanitize(""), DEFAULT_FILENAME);
    assert_eq!(sanitize("..."), DEFAULT_FILENAME);
}

#[test]
fn sanitize_caps_length_keeping_extension() {
    let long = format!("{}.tar.gz", "x".repeat(300));
    let out = sanitize(&long);
    assert!(out.len() <= MAX_FILENAME_BYTES);
    assert!(out.ends_with(".tar.gz"));
}

#[test]
fn sanitize_cap_respects_utf8_boundaries() {
    let long = "é".repeat(150); // 300 bytes
    let out = sanitize(&long);
    assert!(out.len() <= MAX_FILENAME_BYTES);
    assert!(std::str::from_utf8(out.as_bytes()).is_ok());
}

#[test]
fn the_cut_keeps_exactly_two_hundred_bytes() {
    let long = format!("{}.tar.gz", "x".repeat(300));
    assert_eq!(sanitize(&long), format!("{}.tar.gz", "x".repeat(193)));
    // a two-byte character does not fit in the last odd byte
    let out = sanitize(&"é".repeat(150));
    assert_eq!(out, "é".repeat(100));
    // a dot far from the end is no extension
    let far = format!("a.{}", "b".repeat(250));
    assert_eq!(sanitize(&far).len(), 200);
    assert!(sanitize(&far).starts_with("a.bbb"));
}

#[test]
fn reserved_names_are_matched_on_the_first_component_only() {
    assert_eq!(sanitize("lpt9.tar.gz"), "_lpt9.tar.gz");
    assert_eq!(sanitize("CONSOLE.txt"), "CONSOLE.txt");
    assert_eq!(sanitize("aux"), "_aux");
}

#[test]
fn content_disposition_edge_cases() {
    assert_eq!(from_content_disposition("attachment").as_deref(), None);
    assert_eq!(from_content_disposition("attachment; filename=\"\"").as_deref(), None);
    assert_eq!(from_content_disposition("attachment; FILENAME = a.b ").as_deref(), Some("a.b"));
    assert_eq!(from_content_disposition("attachment; filename*=x.bin").as_deref(), Some("x.bin"));
    assert_eq!(from_content_disposition("filename=a.txt").as_deref(), None, "the first part is the type");
    assert_eq!(
        from_content_disposition("attachment; filename*=UTF-8''; filename=b.txt").as_deref(),
        Some("b.txt"),
        "an empty filename* falls back"
    );
}

#[test]
fn a_cut_name_keeps_no_trailing_space_or_dot() {
    let name = format!("{}{}{}", "a".repeat(199), " ", "b".repeat(100));
    let r = sanitize(&name);
    assert_eq!(r, "a".repeat(199));
    let dotted = format!("{}{}{}", "a".repeat(198), ". ", "b".repeat(100));
    let r = sanitize(&dotted);
    assert_eq!(r, "a".repeat(198));
    assert!(!r.ends_with(' ') && !r.ends_with('.') && r.len() <= 200);
}
