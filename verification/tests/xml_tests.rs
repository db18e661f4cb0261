use webdav_request::xml::{tokenize, XmlEvent};

#[test]
fn plain_element_with_text() {
    let evs = tokenize("<a>hi</a>").unwrap();
    assert_eq!(
        evs,
        vec![
            XmlEvent::Open(String::from("a")),
            XmlEvent::Text(String::from("hi")),
            XmlEvent::Close(String::from("a")),
        ]
    );
}

#[test]
fn self_closing_element_opens_and_closes() {
    let evs = tokenize("<br/>").unwrap();
    assert_eq!(
        evs,
        vec![XmlEvent::Open(String::from("br")), XmlEvent::Close(String::from("br"))]
    );
}

#[test]
fn namespace_prefix_and_attributes_are_stripped() {
    let evs = tokenize("<D:multistatus xmlns:D=\"DAV:\"></D:multistatus>").unwrap();
    assert_eq!(
        evs,
        vec![
            XmlEvent::Open(String::from("multistatus")),
            XmlEvent::Close(String::from("multistatus")),
        ]
    );
}

#[test]
fn declarations_and_comments_are_skipped() {
    let evs = tokenize("<?xml version=\"1.0\"?><!-- note --><x/>").unwrap();
    assert_eq!(
        evs,
        vec![XmlEvent::Open(String::from("x")), XmlEvent::Close(String::from("x"))]
    );
}

#[test]
fn unterminated_markup_is_rejected() {
    assert!(tokenize("<a").is_err());
    assert!(tokenize("text<").is_err());
}

#[test]
fn empty_tag_name_is_rejected() {
    assert!(tokenize("<>").is_err());
    assert!(tokenize("</>").is_err());
    assert!(tokenize("<D:>").is_err());
}

#[test]
fn gt_inside_quoted_attribute_does_not_end_the_tag() {
    let evs = tokenize("<a x=\"1>2\">t</a>").unwrap();
    assert_eq!(
        evs,
        vec![
            XmlEvent::Open(String::from("a")),
            XmlEvent::Text(String::from("t")),
            XmlEvent::Close(String::from("a")),
        ]
    );
}

#[test]
fn comment_may_hold_gt() {
    let evs = tokenize("<!-- a > b --><x/>").unwrap();
    assert_eq!(
        evs,
        vec![XmlEvent::Open(String::from("x")), XmlEvent::Close(String::from("x"))]
    );
}

#[test]
fn cdata_yields_verbatim_text() {
    let evs = tokenize("<![CDATA[a<b&c]]>").unwrap();
    assert_eq!(evs, vec![XmlEvent::Text(String::from("a<b&c"))]);
}

#[test]
fn named_entities_are_expanded() {
    let evs = tokenize("a&amp;b &lt;&gt; &quot;&apos;").unwrap();
    assert_eq!(evs, vec![XmlEvent::Text(String::from("a&b <> \"'"))]);
}

#[test]
fn numeric_references_are_expanded() {
    let evs = tokenize("&#65;&#x42;").unwrap();
    assert_eq!(evs, vec![XmlEvent::Text(String::from("AB"))]);
}

#[test]
fn invalid_references_are_rejected() {
    assert!(tokenize("&bogus;").is_err());
    assert!(tokenize("a &amp b").is_err());
    assert!(tokenize("&#xD800;").is_err());
    assert!(tokenize("&#1114112;").is_err());
    assert!(tokenize("&#;").is_err());
    assert!(tokenize("&;").is_err());
}

#[test]
fn unterminated_comment_and_cdata_are_rejected() {
    assert!(tokenize("<!-- never closed >").is_err());
    assert!(tokenize("<![CDATA[ never closed >").is_err());
    assert!(tokenize("<?pi never closed >").is_err());
}

#[test]
fn text_between_elements_is_kept_verbatim() {
    let evs = tokenize("a <b/> c").unwrap();
    assert_eq!(
        evs,
        vec![
            XmlEvent::Text(String::from("a ")),
            XmlEvent::Open(String::from("b")),
            XmlEvent::Close(String::from("b")),
            XmlEvent::Text(String::from(" c")),
        ]
    );
}
