use saltator_cs_api::json::Json;
use saltator_cs_api::routes::media::{
    add_image, blob_of, blob_response, cannot_thumbnail, check_preview_url, check_upload_size,
    config, config_legacy, create_async, extend_capped, fetch_remote_media, html_title,
    image_address, inline_safe, legacy_remote, lookup_meta, media_id_of, meta_attr, mxc_uri,
    og_tags, page_preview, parse_preview_url, png_dimensions, preview_failed, preview_fetch,
    random_media_id, remote_media_failed, remote_media_paths, thumbnail_crops, thumbnail_dim,
    thumbnail_side, upload, upload_async, AsyncUpload, MediaFile, MediaMeta, PREVIEW_MAX_BYTES,
};

fn t(x: &str) -> String {
    x.to_owned()
}

fn js(x: &str) -> Json {
    Json::Str(x.to_owned())
}

fn obj(fields: Vec<(&str, Json)>) -> Json {
    Json::Object(map(fields))
}

fn map(fields: Vec<(&str, Json)>) -> Vec<(String, Json)> {
    fields.into_iter().map(|(k, v)| (k.to_owned(), v)).collect()
}

/// A value as compact JSON text, its fields in the order of their names.
fn show(j: &Json) -> String {
    match j {
        Json::Null => t("null"),
        Json::Bool(b) => b.to_string(),
        Json::Int(i) => i.to_string(),
        Json::Number(n) => n.clone(),
        Json::Str(s) => format!("{s:?}"),
        Json::Array(items) => {
            format!("[{}]", items.iter().map(show).collect::<Vec<String>>().join(","))
        }
        Json::Object(m) => show_map(m),
    }
}

fn show_map(m: &Vec<(String, Json)>) -> String {
    let mut sorted: std::collections::BTreeMap<&String, &Json> = std::collections::BTreeMap::new();
    for (k, v) in m {
        sorted.insert(k, v);
    }
    let parts: Vec<String> = sorted.iter().map(|(k, v)| format!("{k:?}:{}", show(v))).collect();
    format!("{{{}}}", parts.join(","))
}

fn query(pairs: &[(&str, &str)]) -> Vec<(String, String)> {
    pairs.iter().map(|(k, v)| (t(k), t(v))).collect()
}

#[test]
fn attributes_are_quoted() {
    assert_eq!(meta_attr("<META Property='og:title' content=\"a b\"", "property"), Some(t("og:title")));
    assert_eq!(meta_attr("<meta content=\"it's\"", "content"), Some(t("it's")));
    assert_eq!(meta_attr("<meta content=bare", "content"), None);
    assert_eq!(meta_attr("<meta content=\"open", "content"), None);
    assert_eq!(meta_attr("<meta", "content"), None);
}

#[test]
fn tags_come_in_document_order() {
    let html = "<head><meta property=\"og:title\" content=\"T\"><meta name='description' \
                content='no'><META name='og:image' content='/i.png'><meta property=\"og:x\">";
    assert_eq!(
        og_tags(html),
        vec![(t("og:title"), t("T")), (t("og:image"), t("/i.png"))]
    );
    assert!(og_tags("<meta property=\"og:title\" content=\"T\"").is_empty());
    assert_eq!(html_title("<Title> é T \n</TITLE>"), Some(t("é T")));
    assert_eq!(html_title("<title>open"), None);
    // ASCII white space goes, other control characters stay.
    assert_eq!(html_title("<title> \t\n\x0b\x0c\r\x1f\x1c \r</title>"), Some(t("\x1f\x1c")));
}

#[test]
fn og_pairs_join_up() {
    let first = "<meta property=\"og:title\" content=\"T\"><p>";
    let second = "<META name='og:title' content='U'><meta name='x' content='y'>";
    let both = og_tags(&format!("{first}{second}"));
    let mut joined = og_tags(first);
    joined.extend(og_tags(second));
    assert_eq!(both, joined);
    assert_eq!(both, vec![(t("og:title"), t("T")), (t("og:title"), t("U"))]);
}

#[test]
fn pictures_have_dimensions() {
    let mut png: Vec<u8> = vec![0x89, 0x50, 0x4e, 0x47, 0x0d, 0x0a, 0x1a, 0x0a];
    png.extend([0, 0, 0, 13]);
    png.extend(b"IHDR");
    png.extend([0, 0, 1, 2, 0, 0, 0, 7]);
    assert_eq!(png_dimensions(&png), Some((258, 7)));
    assert_eq!(png_dimensions(&png[..23]), None);
    png[12] = 0;
    assert_eq!(png_dimensions(&png), None);
    assert_eq!(png_dimensions(&[0u8; 30]), None);
}

#[test]
fn markup_is_downloaded() {
    for inline in ["text/plain", "TEXT/Plain; charset=x", "application/pdf", "audio/ogg", "image/png"] {
        assert!(inline_safe(inline), "{inline}");
    }
    for attached in ["text/html", "image/svg+xml", " image/SVG+xml ;x", "application/javascript", ""] {
        assert!(!inline_safe(attached), "{attached}");
    }
    let h = blob_response(Some(t("text/html")), Some(t("a b.html")));
    assert_eq!(h.content_type, "text/html");
    assert_eq!(h.content_disposition, "attachment; filename=\"a b.html\"");
    assert_eq!(h.content_type_options, "nosniff");
    assert_eq!(
        h.content_security_policy,
        "sandbox; default-src 'none'; script-src 'none'; object-src 'none';"
    );
    let h = blob_response(Some(t("image/png")), None);
    assert_eq!(h.content_disposition, "inline");
    let h = blob_response(None, None);
    assert_eq!(h.content_type, "application/octet-stream");
    assert_eq!(h.content_disposition, "attachment");
}

#[test]
fn preview_addresses_are_web_addresses() {
    assert_eq!(check_preview_url(Some("u"), Some("https")).unwrap(), "u");
    assert_eq!(
        check_preview_url(None, None).unwrap_err().message,
        "url: required parameter is missing"
    );
    assert_eq!(check_preview_url(Some("u"), None).unwrap_err().message, "url: not a valid URL");
    assert_eq!(
        check_preview_url(Some("u"), Some("file")).unwrap_err().message,
        "url: unsupported scheme"
    );
    assert_eq!(
        parse_preview_url(&query(&[("url", "HTTPS://a/b")])).unwrap(),
        "HTTPS://a/b"
    );
    assert_eq!(
        parse_preview_url(&query(&[("url", "ftp://a/b")])).unwrap_err().message,
        "url: unsupported scheme"
    );
    assert_eq!(
        parse_preview_url(&query(&[("url", "a/b")])).unwrap_err().message,
        "url: not a valid URL"
    );
}

#[test]
fn fetches_are_bounded() {
    let max = PREVIEW_MAX_BYTES as u64;
    assert_eq!(
        preview_fetch(true, "200 OK", Some(" text/html ; charset=utf-8"), false, Some(max)).unwrap(),
        Some(t("text/html"))
    );
    assert_eq!(preview_fetch(true, "200 OK", None, false, None).unwrap(), None);
    let fault = |success: bool, header: Option<&str>, image: bool, length: Option<u64>| {
        let e = preview_fetch(success, "404 Not Found", header, image, length).unwrap_err();
        assert_eq!(e.status, 502);
        (e.errcode, e.message)
    };
    assert_eq!(
        fault(false, None, false, None),
        (t("M_UNKNOWN"), t("preview fetch failed: HTTP 404 Not Found"))
    );
    assert_eq!(
        fault(true, Some("text/html"), true, None),
        (t("M_UNKNOWN"), t("og:image target is not an image"))
    );
    assert_eq!(
        fault(true, None, false, Some(max + 1)),
        (t("M_TOO_LARGE"), t("preview target too large"))
    );
    assert_eq!(preview_failed("dns").message, "preview fetch failed: dns");
    assert_eq!(extend_capped(vec![1, 2], &[3]).unwrap(), vec![1, 2, 3]);
    let full = vec![0u8; PREVIEW_MAX_BYTES];
    assert_eq!(extend_capped(full.clone(), &[]).unwrap().len(), PREVIEW_MAX_BYTES);
    assert_eq!(extend_capped(full, &[1]).unwrap_err().errcode, "M_TOO_LARGE");
}

#[test]
fn previews_hide_image_addresses() {
    let html = "<title>Page</title><meta property='og:image' content='/i.png'>\
                <meta property='og:site_name' content='S'>";
    let p = page_preview(Some("text/html"), html.as_bytes(), "https://a/b/c");
    assert_eq!(show_map(&p.fields), "{\"og:site_name\":\"S\",\"og:title\":\"Page\"}");
    assert_eq!(p.image.as_deref(), Some("/i.png"));
    assert_eq!(image_address("https://a/b/c", p.image.as_deref()), Some(t("https://a/i.png")));
    assert_eq!(image_address("https://a/b/c", None), None);
    assert_eq!(image_address("https://a/b/c", Some("http://[bad")), None);
    // Bytes that are no UTF-8 are repaired, not refused.
    let p = page_preview(Some("text/html"), b"<title>a\xffb</title>", "https://a/");
    assert_eq!(show_map(&p.fields), "{\"og:title\":\"a\u{fffd}b\"}");
    let p = page_preview(Some("image/png"), &[], "https://a/i.png");
    assert_eq!((p.fields.len(), p.image.as_deref()), (0, Some("https://a/i.png")));
    let p = page_preview(Some("application/json"), &[], "https://a/");
    assert!(p.fields.is_empty() && p.image.is_none());
    assert_eq!(
        show(&add_image(vec![], &[1, 2, 3], Some("image/gif"), "mxc://hs1/m")),
        "{\"matrix:image:size\":3,\"og:image\":\"mxc://hs1/m\",\"og:image:type\":\"image/gif\"}"
    );
}

#[test]
fn media_ids_are_url_safe() {
    let bytes: Vec<u8> = (0..24).map(|i| 255 - i).collect();
    assert_eq!(media_id_of(&bytes), "__79_Pv6-fj39vX08_Lx8O_u7ezr6uno");
    assert_eq!(media_id_of(&vec![0; 24]), "A".repeat(32));
    let id = random_media_id();
    assert_eq!(id.len(), 32);
    assert!(id.chars().all(|c| c.is_ascii_alphanumeric() || c == '-' || c == '_'));
    assert_ne!(id, random_media_id());
    assert_eq!(mxc_uri("hs1", "m1"), "mxc://hs1/m1");
}

#[test]
fn uploads_are_recorded() {
    assert!(check_upload_size(10, 10).is_ok());
    let e = check_upload_size(11, 10).unwrap_err();
    assert_eq!((e.status, e.errcode.as_str(), e.message.as_str()), (413, "M_TOO_LARGE", "Upload too large"));
    let m = upload("@a:x", Some(t("image/png")), Some(t("f")), 5, 77, t("hash"));
    assert_eq!((m.owner.as_str(), m.size, m.created_ts, m.pending), ("@a:x", 5, 77, false));
    assert_eq!(blob_of(&m, "id"), "hash");
    let m = create_async("@a:x", 77);
    assert!(m.pending && m.blob.is_none());
    assert_eq!(blob_of(&m, "id"), "id");
}

fn async_upload(server: &str, user: &str, size: u64) -> AsyncUpload {
    AsyncUpload {
        server_name: t(server),
        user_id: t(user),
        content_type: Some(t("image/png")),
        filename: None,
        size,
    }
}

#[test]
fn content_is_never_overwritten() {
    let reserved = || Some(create_async("@a:x", 77));
    let m = upload_async(async_upload("hs1", "@a:x", 5), "hs1", reserved(), 10).unwrap();
    assert_eq!((m.size, m.created_ts, m.pending), (5, 77, false));
    let fault = |up: AsyncUpload, meta: Option<MediaMeta>| {
        let e = upload_async(up, "hs1", meta, 10).unwrap_err();
        (e.status, e.message)
    };
    assert_eq!(
        fault(async_upload("hs2", "@a:x", 5), reserved()),
        (404, t("Media ID is not on this server"))
    );
    assert_eq!(fault(async_upload("hs1", "@a:x", 5), None), (404, t("Unknown media ID")));
    assert_eq!(
        fault(async_upload("hs1", "@b:x", 5), reserved()),
        (403, t("Media ID was reserved by another user"))
    );
    assert_eq!(
        fault(async_upload("hs1", "@a:x", 5), Some(m)),
        (409, t("Media ID already has content"))
    );
    assert_eq!(fault(async_upload("hs1", "@a:x", 11), reserved()), (413, t("Upload too large")));
}

#[test]
fn media_is_looked_up() {
    let m = || upload("@a:x", None, None, 5, 77, t("hash"));
    assert_eq!(lookup_meta("hs1", "hs1", Some(m())).unwrap().size, 5);
    let e = lookup_meta("hs2", "hs1", Some(m())).unwrap_err();
    assert_eq!((e.status, e.message.as_str()), (404, "Remote media not available"));
    assert_eq!(lookup_meta("hs1", "hs1", None).unwrap_err().message, "Unknown media");
    let e = lookup_meta("hs1", "hs1", Some(create_async("@a:x", 1))).unwrap_err();
    assert_eq!((e.status, e.errcode.as_str()), (504, "M_NOT_YET_UPLOADED"));
    assert_eq!(legacy_remote("hs1", "hs1").unwrap(), None);
    assert_eq!(legacy_remote("hs2:8448", "hs1").unwrap(), Some(t("hs2:8448")));
    assert_eq!(legacy_remote("not a server", "hs1").unwrap_err().message, "Invalid server name");
}

#[test]
fn remote_media_is_a_file_or_a_part() {
    assert_eq!(
        remote_media_paths("hs2", "m1"),
        (
            t("/_matrix/federation/v1/media/download/m1"),
            t("/_matrix/media/v3/download/hs2/m1")
        )
    );
    let part = MediaFile { bytes: vec![9], content_type: Some(t("image/png")), filename: None };
    assert_eq!(fetch_remote_media(Some(t("multipart/mixed")), Some(part), vec![1]).unwrap().bytes, vec![9]);
    let raw = fetch_remote_media(Some(t("image/gif")), None, vec![1]).unwrap();
    assert_eq!((raw.bytes, raw.content_type), (vec![1], Some(t("image/gif"))));
    assert_eq!(fetch_remote_media(Some(t("")), None, vec![1]).unwrap().content_type, None);
    assert_eq!(fetch_remote_media(None, None, vec![1]).unwrap().content_type, None);
    let e = fetch_remote_media(Some(t("MultiPart/mixed")), None, vec![1]).unwrap_err();
    assert_eq!((e.status, e.message.as_str()), (404, "Malformed remote media response"));
    assert_eq!(remote_media_failed("x").message, "remote media fetch failed: x");
    assert_eq!(cannot_thumbnail("x").message, "cannot thumbnail remote media: x");
}

#[test]
fn thumbnails_are_bounded() {
    assert_eq!((thumbnail_side(100), thumbnail_side(1 << 40)), (100, 4096));
    let q = query(&[("width", "5000"), ("height", "x"), ("method", "crop")]);
    assert_eq!((thumbnail_dim(&q, "width"), thumbnail_dim(&q, "height")), (4096, 96));
    assert_eq!(thumbnail_dim(&query(&[("width", "4294967296")]), "width"), 96);
    assert!(thumbnail_crops(&q) && !thumbnail_crops(&query(&[("method", "scale")])));
    assert_eq!(config(1_000), 1_000);
    assert_eq!(config(u64::MAX), 9_007_199_254_740_991);
    assert_eq!(show(&config_legacy(u64::MAX)), "{\"m.upload.size\":18446744073709551615}");
}
