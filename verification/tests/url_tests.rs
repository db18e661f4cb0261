use webdav_request::url::WebDavUrl;

#[test]
fn new_parses_full_url() {
    let url = WebDavUrl::new("https://example.com/dav").unwrap();
    assert_eq!(url.scheme(), "https://");
    assert_eq!(url.domain(), "example.com");
    assert_eq!(url.path(), "/dav");
}

#[test]
fn new_parses_http_scheme() {
    let url = WebDavUrl::new("http://example.com/a/b").unwrap();
    assert_eq!(url.scheme(), "http://");
    assert_eq!(url.domain(), "example.com");
    assert_eq!(url.path(), "/a/b");
}

#[test]
fn new_defaults_to_https() {
    let url = WebDavUrl::new("example.com/dav").unwrap();
    assert_eq!(url.scheme(), "https://");
    assert_eq!(url.domain(), "example.com");
    assert_eq!(url.path(), "/dav");
}

#[test]
fn new_without_path_gets_root() {
    let url = WebDavUrl::new("https://example.com").unwrap();
    assert_eq!(url.path(), "/");
}

#[test]
fn new_collapses_repeated_slashes() {
    let url = WebDavUrl::new("https://example.com//a///b").unwrap();
    assert_eq!(url.domain(), "example.com");
    assert_eq!(url.path(), "/a/b");
}

#[test]
fn new_rejects_empty_input() {
    assert!(WebDavUrl::new("").is_none());
    assert!(WebDavUrl::new("///").is_none());
}

#[test]
fn new_rejects_scheme_without_authority() {
    assert!(WebDavUrl::new("http://").is_none());
    assert!(WebDavUrl::new("https:").is_none());
}

#[test]
fn join_appends_relative_fragment() {
    let url = WebDavUrl::new("https://example.com/dav").unwrap();
    let joined = url.join("dav");
    assert_eq!(joined.path(), "/dav/dav");
    assert_eq!(joined.scheme(), "https://");
    assert_eq!(joined.domain(), "example.com");
}

#[test]
fn join_rooted_replaces_path() {
    let url = WebDavUrl::new("https://example.com/dav/deep/dir").unwrap();
    assert_eq!(url.join("/x").path(), "/x");
    let other = WebDavUrl::new("https://example.com/other").unwrap();
    assert_eq!(other.join("/x").path(), "/x");
}

#[test]
fn join_empty_fragment_keeps_leading_slash() {
    let url = WebDavUrl::new("https://example.com/dav").unwrap();
    let joined = url.join("");
    assert!(joined.path().starts_with('/'));
    assert_eq!(joined.path(), "/dav/");
}

#[test]
fn join_composes_relative_path() {
    let url = WebDavUrl::new("https://example.com/dav").unwrap();
    assert_eq!(url.join("a").path(), "/dav/a");
}

#[test]
fn url_join_prefixed_candidate_gets_authority() {
    let url = WebDavUrl::new("https://example.com/dav").unwrap();
    assert_eq!(url.url_join("/dav/file.txt"), "https://example.com/dav/file.txt");
}

#[test]
fn url_join_unprefixed_candidate_gets_base_path_too() {
    let url = WebDavUrl::new("https://example.com/dav").unwrap();
    assert_eq!(url.url_join("/other/file.txt"), "https://example.com/dav/other/file.txt");
}

#[test]
fn url_join_full_url_unchanged() {
    let url = WebDavUrl::new("https://example.com/dav").unwrap();
    assert_eq!(url.url_join("http://mirror.example/x"), "http://mirror.example/x");
}

#[test]
fn to_url_string_concatenates_parts() {
    let url = WebDavUrl::new("https://example.com/dav").unwrap();
    assert_eq!(url.to_url_string(), "https://example.com/dav");
}
