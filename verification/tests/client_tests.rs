use webdav_request::client::WebDAVClient;
use webdav_request::error::Error;
use webdav_request::headers::HeaderMap;
use webdav_request::method::Method;
use webdav_request::Range;

#[test]
fn range_header_is_formatted_exactly() {
    let client = WebDAVClient::new("u", "p");
    let p = client.get("https://example.com/f").range(3, 9).build().unwrap();
    assert_eq!(p.headers.get("range").unwrap(), "bytes=3-9");
}

#[test]
fn range_does_not_validate_order() {
    let client = WebDAVClient::new("u", "p");
    let p = client.get("https://example.com/f").range(9, 3).build().unwrap();
    assert_eq!(p.headers.get("range").unwrap(), "bytes=9-3");
}

#[test]
fn header_names_are_case_insensitive_and_newest_wins() {
    let client = WebDAVClient::new("u", "p");
    let p = client
        .get("https://example.com/f")
        .header("X-Token", "one")
        .header("x-token", "two")
        .build()
        .unwrap();
    assert_eq!(p.headers.get("X-TOKEN").unwrap(), "two");
    assert_eq!(p.headers.len(), 1);
}

#[test]
fn headers_extend_prefers_the_newer_map() {
    let mut extra = HeaderMap::new();
    extra.insert("Depth", "infinity");
    extra.insert("X-A", "a");
    let client = WebDAVClient::new("u", "p");
    let p = client
        .get("https://example.com/f")
        .header("Depth", "0")
        .headers(&extra)
        .build()
        .unwrap();
    assert_eq!(p.headers.get("depth").unwrap(), "infinity");
    assert_eq!(p.headers.get("x-a").unwrap(), "a");
}

#[test]
fn client_default_credentials_are_used() {
    let client = WebDAVClient::new("alice", "secret");
    let p = client.get("https://example.com/f").build().unwrap();
    assert_eq!(p.auth.0, "alice");
    assert_eq!(p.auth.1, "secret");
}

#[test]
fn per_request_override_wins_over_default() {
    let client = WebDAVClient::new("alice", "secret");
    let p = client
        .get("https://example.com/f")
        .basic_auth("bob", "hunter")
        .build()
        .unwrap();
    assert_eq!(p.auth.0, "bob");
    assert_eq!(p.auth.1, "hunter");
}

#[test]
fn missing_credentials_are_surfaced_not_sent() {
    let client = WebDAVClient::anonymous();
    let e = client.get("https://example.com/f").build().unwrap_err();
    assert!(e.is_std_err());
}

#[test]
fn body_is_carried_through() {
    let client = WebDAVClient::new("u", "p");
    let p = client
        .put("https://example.com/f")
        .body(b"payload".to_vec())
        .build()
        .unwrap();
    assert!(matches!(p.method, Method::Put));
    assert_eq!(p.body.unwrap(), b"payload".to_vec());
}

#[test]
fn all_propfind_request_carries_the_propfind_shape() {
    let client = WebDAVClient::new("u", "p");
    let p = client.all_propfind_request("https://example.com/dav/").unwrap();
    assert!(matches!(p.method, Method::Propfind));
    assert_eq!(p.url, "https://example.com/dav/");
    assert_eq!(p.headers.get("content-type").unwrap(), "application/xml");
    assert_eq!(p.headers.get("depth").unwrap(), "1");
    let body = String::from_utf8(p.body.unwrap()).unwrap();
    assert!(body.contains("<D:allprop/>"));
    assert!(body.contains("xmlns:D=\"DAV:\""));
}

#[test]
fn rooted_target_resolves_under_the_base_endpoint() {
    let client = WebDAVClient::new("u", "p").with_endpoint("https://example.com/dav").unwrap();
    let p = client.get("/file.txt").build().unwrap();
    assert_eq!(p.url, "https://example.com/dav/file.txt");
    let q = client.get("/dav/file.txt").build().unwrap();
    assert_eq!(q.url, "https://example.com/dav/file.txt");
}

#[test]
fn full_url_target_passes_the_base_unchanged() {
    let client = WebDAVClient::new("u", "p").with_endpoint("https://example.com/dav").unwrap();
    let p = client.get("https://other.example/x").build().unwrap();
    assert_eq!(p.url, "https://other.example/x");
}

#[test]
fn without_a_base_the_target_is_untouched() {
    let client = WebDAVClient::new("u", "p");
    let p = client.get("/file.txt").build().unwrap();
    assert_eq!(p.url, "/file.txt");
}

#[test]
fn a_bad_endpoint_is_a_url_error() {
    let e = WebDAVClient::new("u", "p").with_endpoint("///").unwrap_err();
    assert!(e.is_url_err());
}

#[test]
fn all_propfind_request_resolves_under_the_base() {
    let client = WebDAVClient::new("u", "p").with_endpoint("https://example.com/dav").unwrap();
    let p = client.all_propfind_request("/sub/").unwrap();
    assert_eq!(p.url, "https://example.com/dav/sub/");
}

#[test]
fn list_from_response_surfaces_server_refusal() {
    let r = WebDAVClient::list_from_response(404, "ignored");
    match r {
        Err(Error::ResponseError(code)) => assert_eq!(code, 404),
        _ => panic!("a refused listing must carry the status"),
    }
}

#[test]
fn list_from_response_distinguishes_decode_failure() {
    let e = WebDAVClient::list_from_response(200, "<broken").unwrap_err();
    assert!(e.is_de_err());
    assert!(!e.is_response_err());
}

#[test]
fn list_from_response_decodes_a_listing() {
    let xml = "<D:multistatus xmlns:D=\"DAV:\">\
               <D:response><D:href>/dav/</D:href><D:propstat><D:prop>\
               <D:displayname>dav</D:displayname>\
               </D:prop><D:status>HTTP/1.1 200 OK</D:status></D:propstat></D:response>\
               </D:multistatus>";
    let c = WebDAVClient::list_from_response(207, xml).unwrap();
    assert_eq!(c.display_name, "dav");
}

#[test]
fn method_from_bytes_accepts_token_names() {
    let m = Method::from_bytes(b"REPORT").unwrap();
    assert_eq!(m.convert(), "REPORT");
}

#[test]
fn method_from_bytes_rejects_empty_and_bad_bytes() {
    assert!(Method::from_bytes(b"").is_err());
    assert!(Method::from_bytes(b"GE T").is_err());
    assert!(Method::from_bytes(b"G\x00T").is_err());
}

#[test]
fn method_names_match_the_wire() {
    assert_eq!(Method::Get.convert(), "GET");
    assert_eq!(Method::Put.convert(), "PUT");
    assert_eq!(Method::Post.convert(), "POST");
    assert_eq!(Method::Delete.convert(), "DELETE");
    assert_eq!(Method::Patch.convert(), "PATCH");
    assert_eq!(Method::Propfind.convert(), "PROPFIND");
}

#[test]
fn error_kind_predicates_pick_their_variant() {
    assert!(Error::StdError(String::from("x")).is_std_err());
    assert!(Error::RequestError(String::from("x")).is_request_err());
    assert!(Error::ResponseError(500).is_response_err());
    assert!(Error::Utf8Error.is_invalid_utf8_err());
    assert!(Error::UrlError.is_url_err());
    assert!(!Error::UrlError.is_de_err());
}

#[test]
fn range_struct_keeps_its_bounds() {
    let r = Range::new(10, 20);
    assert_eq!(r.start, 10);
    assert_eq!(r.end, 20);
    assert_eq!(r, Range::new(10, 20));
}
