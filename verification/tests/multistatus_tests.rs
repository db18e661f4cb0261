use webdav_request::collection::Collection;
use webdav_request::multistatus::{parse_bool, parse_u64, MultiStatus};

fn doc(body: &str) -> String {
    let mut s = String::from("<?xml version=\"1.0\" encoding=\"utf-8\"?>\n<D:multistatus xmlns:D=\"DAV:\">");
    s.push_str(body);
    s.push_str("</D:multistatus>");
    s
}

fn response(href: &str, prop_body: &str) -> String {
    let mut s = String::from("<D:response><D:href>");
    s.push_str(href);
    s.push_str("</D:href><D:propstat><D:prop>");
    s.push_str(prop_body);
    s.push_str("</D:prop><D:status>HTTP/1.1 200 OK</D:status></D:propstat></D:response>");
    s
}

#[test]
fn empty_multistatus_parses_to_empty_collection() {
    let ms = MultiStatus::parse(&doc("")).unwrap();
    assert_eq!(ms.response.len(), 0);
    let c = Collection::from(ms);
    assert_eq!(c.href, "");
    assert_eq!(c.display_name, "");
    assert_eq!(c.children.len(), 0);
}

#[test]
fn self_closing_empty_multistatus_parses() {
    let xml = "<?xml version=\"1.0\"?><D:multistatus xmlns:D=\"DAV:\"/>";
    let ms = MultiStatus::parse(xml).unwrap();
    assert_eq!(ms.response.len(), 0);
}

#[test]
fn single_response_becomes_collection_header() {
    let xml = doc(&response("/dav/", "<D:displayname>dav</D:displayname>"));
    let ms = MultiStatus::parse(&xml).unwrap();
    assert_eq!(ms.response.len(), 1);
    assert_eq!(ms.response[0].href, "/dav/");
    assert_eq!(ms.response[0].prop_stat.status, "HTTP/1.1 200 OK");
    let c = Collection::from(ms);
    assert_eq!(c.href, "/dav/");
    assert_eq!(c.display_name, "dav");
    assert_eq!(c.children.len(), 0);
}

#[test]
fn children_carry_their_properties() {
    let mut body = response("/dav/", "<D:displayname>dav</D:displayname>");
    body.push_str(&response(
        "/dav/a.txt",
        "<D:displayname>a.txt</D:displayname>\
         <D:getcontenttype>text/plain</D:getcontenttype>\
         <D:getlastmodified>Tue, 07 May 2024 08:00:00 GMT</D:getlastmodified>\
         <D:getcontentlength>42</D:getcontentlength>",
    ));
    let ms = MultiStatus::parse(&doc(&body)).unwrap();
    let c = Collection::from(ms);
    assert_eq!(c.children.len(), 1);
    let r = &c.children[0];
    assert_eq!(r.href, "/dav/a.txt");
    assert_eq!(r.display_name, "a.txt");
    assert_eq!(r.content_type, "text/plain");
    assert_eq!(r.last_modified, "Tue, 07 May 2024 08:00:00 GMT");
    assert_eq!(r.len, 42);
    assert!(!r.is_collection);
}

#[test]
fn resourcetype_collection_marker_sets_is_collection() {
    let mut body = response("/dav/", "<D:displayname>dav</D:displayname>");
    body.push_str(&response(
        "/dav/sub/",
        "<D:displayname>sub</D:displayname><D:resourcetype><D:collection/></D:resourcetype>",
    ));
    let ms = MultiStatus::parse(&doc(&body)).unwrap();
    assert!(ms.response[1].prop_stat.prop.is_collection());
    assert!(!ms.response[1].prop_stat.prop.collection);
    let c = Collection::from(ms);
    assert!(c.children[0].is_collection);
}

#[test]
fn literal_iscollection_flag_sets_is_collection() {
    let mut body = response("/dav/", "<D:displayname>dav</D:displayname>");
    body.push_str(&response(
        "/dav/sub/",
        "<D:displayname>sub</D:displayname><iscollection>true</iscollection>",
    ));
    let ms = MultiStatus::parse(&doc(&body)).unwrap();
    assert!(ms.response[1].prop_stat.prop.collection);
    assert!(ms.response[1].prop_stat.prop.is_collection());
}

#[test]
fn iscollection_numeric_one_counts_as_true() {
    let mut body = response("/dav/", "<D:displayname>dav</D:displayname>");
    body.push_str(&response(
        "/dav/sub/",
        "<D:displayname>sub</D:displayname><iscollection>1</iscollection>",
    ));
    let ms = MultiStatus::parse(&doc(&body)).unwrap();
    assert!(ms.response[1].prop_stat.prop.is_collection());
}

#[test]
fn empty_resourcetype_is_not_a_collection() {
    let mut body = response("/dav/", "<D:displayname>dav</D:displayname>");
    body.push_str(&response(
        "/dav/f",
        "<D:displayname>f</D:displayname><D:resourcetype/>",
    ));
    let ms = MultiStatus::parse(&doc(&body)).unwrap();
    assert!(!ms.response[1].prop_stat.prop.is_collection());
}

#[test]
fn privilege_markers_fold_into_flags() {
    let mut body = response("/dav/", "<D:displayname>dav</D:displayname>");
    body.push_str(&response(
        "/dav/f",
        "<D:displayname>f</D:displayname>\
         <D:current-user-privilege-set>\
         <D:privilege><D:read/></D:privilege>\
         <D:privilege><D:write/></D:privilege>\
         </D:current-user-privilege-set>",
    ));
    let ms = MultiStatus::parse(&doc(&body)).unwrap();
    let c = Collection::from(ms);
    let p = &c.children[0].privilege;
    assert!(p.read());
    assert!(p.write());
    assert!(!p.read_acl());
    assert!(!p.write_acl());
    assert!(!p.all());
}

#[test]
fn absent_privilege_set_yields_all_false_flags() {
    let mut body = response("/dav/", "<D:displayname>dav</D:displayname>");
    body.push_str(&response("/dav/f", "<D:displayname>f</D:displayname>"));
    let ms = MultiStatus::parse(&doc(&body)).unwrap();
    let c = Collection::from(ms);
    let p = &c.children[0].privilege;
    assert!(!p.read() && !p.write() && !p.read_acl() && !p.write_acl() && !p.all());
}

#[test]
fn unknown_privilege_markers_are_dropped() {
    let mut body = response("/dav/", "<D:displayname>dav</D:displayname>");
    body.push_str(&response(
        "/dav/f",
        "<D:displayname>f</D:displayname>\
         <D:current-user-privilege-set>\
         <D:privilege><D:unbind/></D:privilege>\
         <D:privilege><D:all/></D:privilege>\
         </D:current-user-privilege-set>",
    ));
    let ms = MultiStatus::parse(&doc(&body)).unwrap();
    let c = Collection::from(ms);
    let p = &c.children[0].privilege;
    assert!(p.all());
    assert!(!p.read() && !p.write() && !p.read_acl() && !p.write_acl());
}

#[test]
fn href_is_percent_decoded() {
    let mut body = response("/dav/", "<D:displayname>dav</D:displayname>");
    body.push_str(&response(
        "/dav/hello%20world.txt",
        "<D:displayname>hello world.txt</D:displayname>",
    ));
    let ms = MultiStatus::parse(&doc(&body)).unwrap();
    let c = Collection::from(ms);
    assert_eq!(c.children[0].href, "/dav/hello world.txt");
}

#[test]
fn href_with_invalid_utf8_escape_stays_raw() {
    let mut body = response("/dav/", "<D:displayname>dav</D:displayname>");
    body.push_str(&response("/dav/%ff%fe", "<D:displayname>x</D:displayname>"));
    let ms = MultiStatus::parse(&doc(&body)).unwrap();
    let c = Collection::from(ms);
    assert_eq!(c.children[0].href, "/dav/%ff%fe");
}

#[test]
fn unknown_properties_are_ignored() {
    let body = response(
        "/dav/",
        "<D:displayname>dav</D:displayname>\
         <D:getetag>\"abc\"</D:getetag>\
         <D:supportedlock><D:lockentry/></D:supportedlock>",
    );
    let ms = MultiStatus::parse(&doc(&body)).unwrap();
    assert_eq!(ms.response[0].prop_stat.prop.display_name, "dav");
    assert_eq!(ms.response[0].prop_stat.prop.content_type, "");
    assert_eq!(ms.response[0].prop_stat.prop.content_length, 0);
}

#[test]
fn into_prop_hands_out_the_properties() {
    let body = response("/dav/", "<D:displayname>dav</D:displayname>");
    let ms = MultiStatus::parse(&doc(&body)).unwrap();
    let prop = ms.response.into_iter().next().unwrap().into_prop();
    assert_eq!(prop.display_name, "dav");
}

#[test]
fn missing_displayname_is_a_decode_error() {
    let body = response("/dav/", "<D:getcontentlength>1</D:getcontentlength>");
    assert!(MultiStatus::parse(&doc(&body)).is_err());
}

#[test]
fn missing_href_is_a_decode_error() {
    let body = "<D:response><D:propstat><D:prop>\
                <D:displayname>x</D:displayname>\
                </D:prop><D:status>HTTP/1.1 200 OK</D:status></D:propstat></D:response>";
    assert!(MultiStatus::parse(&doc(body)).is_err());
}

#[test]
fn missing_status_is_a_decode_error() {
    let body = "<D:response><D:href>/x</D:href><D:propstat><D:prop>\
                <D:displayname>x</D:displayname>\
                </D:prop></D:propstat></D:response>";
    assert!(MultiStatus::parse(&doc(body)).is_err());
}

#[test]
fn bad_content_length_is_a_decode_error() {
    let body = response(
        "/dav/",
        "<D:displayname>x</D:displayname><D:getcontentlength>12x</D:getcontentlength>",
    );
    assert!(MultiStatus::parse(&doc(&body)).is_err());
}

#[test]
fn bad_iscollection_is_a_decode_error() {
    let body = response(
        "/dav/",
        "<D:displayname>x</D:displayname><iscollection>maybe</iscollection>",
    );
    assert!(MultiStatus::parse(&doc(&body)).is_err());
}

#[test]
fn unterminated_markup_is_a_decode_error() {
    assert!(MultiStatus::parse("<D:multistatus").is_err());
}

#[test]
fn unknown_wrapper_does_not_leak_its_children() {
    let body = response(
        "/dav/",
        "<D:displayname>real</D:displayname>\
         <x:props><D:displayname>m</D:displayname></x:props>",
    );
    let ms = MultiStatus::parse(&doc(&body)).unwrap();
    assert_eq!(ms.response[0].prop_stat.prop.display_name, "real");
}

#[test]
fn unknown_wrapper_does_not_leak_a_resourcetype() {
    let mut body = response("/dav/", "<D:displayname>dav</D:displayname>");
    body.push_str(&response(
        "/dav/f",
        "<D:displayname>f</D:displayname>\
         <foo><D:resourcetype><D:collection/></D:resourcetype>\
         <D:getcontentlength>99</D:getcontentlength></foo>",
    ));
    let ms = MultiStatus::parse(&doc(&body)).unwrap();
    assert!(!ms.response[1].prop_stat.prop.is_collection());
    assert_eq!(ms.response[1].prop_stat.prop.content_length, 0);
}

#[test]
fn duplicate_propstat_is_a_decode_error() {
    let body = "<D:response><D:href>/x</D:href>\
                <D:propstat><D:prop><D:displayname>x</D:displayname></D:prop>\
                <D:status>HTTP/1.1 200 OK</D:status></D:propstat>\
                <D:propstat><D:prop><D:displayname>y</D:displayname></D:prop>\
                <D:status>HTTP/1.1 404 Not Found</D:status></D:propstat>\
                </D:response>";
    assert!(MultiStatus::parse(&doc(body)).is_err());
}

#[test]
fn duplicate_href_is_a_decode_error() {
    let body = "<D:response><D:href>/x</D:href><D:href>/y</D:href>\
                <D:propstat><D:prop><D:displayname>x</D:displayname></D:prop>\
                <D:status>HTTP/1.1 200 OK</D:status></D:propstat></D:response>";
    assert!(MultiStatus::parse(&doc(body)).is_err());
}

#[test]
fn entities_in_field_text_are_expanded() {
    let body = response(
        "/dav/a%20&amp;%20b",
        "<D:displayname>a &amp; b &lt;c&gt; &quot;d&apos;</D:displayname>",
    );
    let ms = MultiStatus::parse(&doc(&body)).unwrap();
    assert_eq!(ms.response[0].prop_stat.prop.display_name, "a & b <c> \"d'");
    assert_eq!(ms.response[0].href, "/dav/a%20&%20b");
}

#[test]
fn numeric_character_references_are_expanded() {
    let body = response("/x", "<D:displayname>&#65;&#x42;&#XA9;</D:displayname>");
    let ms = MultiStatus::parse(&doc(&body)).unwrap();
    assert_eq!(ms.response[0].prop_stat.prop.display_name, "AB\u{a9}");
}

#[test]
fn bad_entities_are_decode_errors() {
    assert!(MultiStatus::parse(&doc(&response("/x", "<D:displayname>&bogus;</D:displayname>"))).is_err());
    assert!(MultiStatus::parse(&doc(&response("/x", "<D:displayname>a &amp b</D:displayname>"))).is_err());
}

#[test]
fn cdata_field_text_is_taken_verbatim() {
    let body = response("/x", "<D:displayname><![CDATA[a<b&c]]></D:displayname>");
    let ms = MultiStatus::parse(&doc(&body)).unwrap();
    assert_eq!(ms.response[0].prop_stat.prop.display_name, "a<b&c");
}

#[test]
fn comments_and_quoted_attributes_may_hold_gt() {
    let xml = "<D:multistatus xmlns:D=\"DAV:\" note=\"a>b\">\
               <!-- x > y -->\
               <D:response><D:href>/x</D:href><D:propstat><D:prop>\
               <D:displayname>x</D:displayname>\
               </D:prop><D:status>HTTP/1.1 200 OK</D:status></D:propstat></D:response>\
               </D:multistatus>";
    let ms = MultiStatus::parse(xml).unwrap();
    assert_eq!(ms.response.len(), 1);
}

#[test]
fn largest_content_length_survives_a_full_parse() {
    let mut body = response("/dav/", "<D:displayname>dav</D:displayname>");
    body.push_str(&response(
        "/dav/big",
        "<D:displayname>big</D:displayname>         <D:getcontentlength>18446744073709551615</D:getcontentlength>",
    ));
    let ms = MultiStatus::parse(&doc(&body)).unwrap();
    let c = Collection::from(ms);
    assert_eq!(c.children[0].len, u64::MAX);
}

#[test]
fn text_split_across_markup_boundaries_is_rejected() {
    let body = "<D:response><D:href>/x<b/></D:href><D:propstat><D:prop>                <D:displayname>x</D:displayname>                </D:prop><D:status>HTTP/1.1 200 OK</D:status></D:propstat></D:response>";
    assert!(MultiStatus::parse(&doc(body)).is_err());
}

#[test]
fn parse_u64_reads_exact_values() {
    assert_eq!(parse_u64("0"), Some(0));
    assert_eq!(parse_u64("42"), Some(42));
    assert_eq!(parse_u64("18446744073709551615"), Some(u64::MAX));
}

#[test]
fn parse_u64_rejects_overflow_and_junk() {
    assert_eq!(parse_u64("18446744073709551616"), None);
    assert_eq!(parse_u64(""), None);
    assert_eq!(parse_u64("-1"), None);
    assert_eq!(parse_u64("1 2"), None);
}

#[test]
fn parse_bool_reads_the_four_forms() {
    assert_eq!(parse_bool("true"), Some(true));
    assert_eq!(parse_bool("1"), Some(true));
    assert_eq!(parse_bool("false"), Some(false));
    assert_eq!(parse_bool("0"), Some(false));
    assert_eq!(parse_bool("yes"), None);
}

#[test]
fn namespace_prefixes_are_stripped() {
    let xml = "<dav:multistatus xmlns:dav=\"DAV:\">\
               <dav:response><dav:href>/x</dav:href><dav:propstat><dav:prop>\
               <dav:displayname>x</dav:displayname>\
               </dav:prop><dav:status>HTTP/1.1 200 OK</dav:status></dav:propstat></dav:response>\
               </dav:multistatus>";
    let ms = MultiStatus::parse(xml).unwrap();
    assert_eq!(ms.response[0].href, "/x");
}
