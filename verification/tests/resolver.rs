use telegram_onedrive::filename::{
    get_filename, get_filename_from_cd, get_tg_file_size, preprocess_tg_file_name,
    get_tg_document_name_and_id, HttpResponseInfo, ResolveError, TgDocument, TgMedia,
};

fn resp(cd: Option<&str>, ct: Option<&str>) -> HttpResponseInfo {
    HttpResponseInfo {
        status: 200,
        content_disposition: cd.map(|s| s.to_string()),
        content_type: ct.map(|s| s.to_string()),
    }
}

#[test]
fn disposition_name_with_matching_extension_kept() {
    let r = resp(
        Some("attachment; filename=\"report.PDF\""),
        Some("application/pdf"),
    );
    let name = get_filename("https://host/ignored", &r, 1700000000).unwrap();
    assert_eq!(name, "report.PDF");
}

#[test]
fn url_query_parameter_names_the_file() {
    let r = resp(None, None);
    let name = get_filename("https://x/y/data?file=notes.txt", &r, 1700000000).unwrap();
    assert_eq!(name, "notes.txt");
}

#[test]
fn overlong_name_with_non_matching_extension_becomes_timestamp_with_implied() {
    let stem = "a".repeat(146);
    let long_name = format!("{}.doc", stem);
    let cd = format!("filename={}", long_name);
    let r = resp(Some(&cd), Some("image/png"));
    let name = get_filename("https://host/x", &r, 42).unwrap();
    assert_eq!(name, "42.png");
}

#[test]
fn overlong_name_with_matching_extension_becomes_timestamp_keeping_it() {
    let stem = "b".repeat(146);
    let long_name = format!("{}.jpg", stem);
    let cd = format!("filename={}", long_name);
    let r = resp(Some(&cd), Some("image/jpeg"));
    let name = get_filename("https://host/x", &r, 42).unwrap();
    // the name's own extension is kept; the implied list starts elsewhere
    assert_eq!(name, "42.jpg");
}

#[test]
fn resolving_twice_with_timestamp_held_fixed_is_identical() {
    let r = resp(None, Some("text/plain"));
    let a = get_filename("https://x/y/data?file=notes", &r, 7).unwrap();
    let b = get_filename("https://x/y/data?file=notes", &r, 7).unwrap();
    assert_eq!(a, b);
    assert!(!a.is_empty());
    assert!(!a.contains('/'));
    assert!(!a.contains('\\'));
}

#[test]
fn no_candidate_falls_back_to_bare_timestamp() {
    let r = resp(None, None);
    let name = get_filename("https://x/", &r, 1700000000).unwrap();
    assert_eq!(name, "1700000000");
}

#[test]
fn separator_in_candidate_is_repaired_with_timestamp_and_extension() {
    let r = resp(None, None);
    let name = get_filename("https://x/p?file=a/b.txt", &r, 5).unwrap();
    assert_eq!(name, "5.txt");
}

#[test]
fn non_success_status_is_file_not_found() {
    let mut r = resp(None, None);
    r.status = 404;
    assert_eq!(
        get_filename("https://x/y", &r, 1).unwrap_err(),
        ResolveError::FileNotFound
    );
}

#[test]
fn unparsable_url_is_url_invalid() {
    let r = resp(None, None);
    assert_eq!(
        get_filename("not a url", &r, 1).unwrap_err(),
        ResolveError::UrlInvalid
    );
}

#[test]
fn disposition_capture_trims_space_and_quotes() {
    assert_eq!(
        get_filename_from_cd("attachment; filename= 'draft.txt' "),
        Some("draft.txt".to_string())
    );
    assert_eq!(get_filename_from_cd("attachment; size=33"), None);
}

#[test]
fn temporary_marker_prefix_is_stripped() {
    let r = resp(Some("filename=~$budget.xlsx"), None);
    let name = get_filename("https://host/x", &r, 9).unwrap();
    assert_eq!(name, "budget.xlsx");
}

#[test]
fn photo_media_is_named_by_id() {
    let name = preprocess_tg_file_name(&TgMedia::Photo { id: 7, size: 100 });
    assert_eq!(name, "7.jpg");
}

#[test]
fn document_with_good_name_keeps_it() {
    let doc = TgDocument {
        name: "report.pdf".to_string(),
        id: 11,
        mime_type: Some("application/pdf".to_string()),
        size: 5,
    };
    assert_eq!(preprocess_tg_file_name(&TgMedia::Document(doc)), "report.pdf");
}

#[test]
fn nameless_document_is_named_by_id_and_mime() {
    let doc = TgDocument {
        name: String::new(),
        id: 12,
        mime_type: Some("application/pdf".to_string()),
        size: 5,
    };
    let (name, id) = get_tg_document_name_and_id(&doc);
    assert_eq!(id, 12);
    assert_eq!(name, "12.pdf");
    assert_eq!(preprocess_tg_file_name(&TgMedia::Document(doc)), "12.pdf");
}

#[test]
fn document_with_separator_in_name_is_repaired() {
    let doc = TgDocument {
        name: "evil/../name.txt".to_string(),
        id: 13,
        mime_type: None,
        size: 5,
    };
    assert_eq!(preprocess_tg_file_name(&TgMedia::Document(doc)), "13.txt");
}

#[test]
fn sticker_goes_by_its_document() {
    let doc = TgDocument {
        name: "smile.webp".to_string(),
        id: 14,
        mime_type: None,
        size: 5,
    };
    assert_eq!(preprocess_tg_file_name(&TgMedia::Sticker(doc)), "smile.webp");
}

#[test]
fn media_sizes_are_read_per_kind() {
    assert_eq!(get_tg_file_size(&TgMedia::Photo { id: 1, size: 640 }), 640);
    let doc = TgDocument {
        name: "a".to_string(),
        id: 2,
        mime_type: None,
        size: 1234,
    };
    assert_eq!(get_tg_file_size(&TgMedia::Document(doc)), 1234);
    assert_eq!(get_tg_file_size(&TgMedia::Other), 0);
}
