use ofplayer::webdav_xml::{entries_from_xml_events, local_xml_name, parse_u64, parse_webdav_multistatus, XmlEvent};

#[test]
fn multistatus_documents_list_their_responses() {
    let xml = r#"<?xml version="1.0" encoding="utf-8"?>
<d:multistatus xmlns:d="DAV:">
  <d:response>
    <d:href>/dav/music/</d:href>
    <d:propstat><d:prop>
      <d:displayname>music</d:displayname>
      <d:resourcetype><d:collection></d:collection></d:resourcetype>
    </d:prop></d:propstat>
  </d:response>
  <d:response>
    <d:href>/dav/music/a.flac</d:href>
    <d:propstat><d:prop>
      <d:getcontentlength> 1234 </d:getcontentlength>
      <d:getcontenttype>audio/flac</d:getcontenttype>
      <d:getetag>"e1"</d:getetag>
      <d:getlastmodified>Mon, 01 Jan 2024 00:00:00 GMT</d:getlastmodified>
    </d:prop></d:propstat>
  </d:response>
</d:multistatus>"#;
    let entries = parse_webdav_multistatus(xml).unwrap();
    assert_eq!(entries.len(), 2);
    assert_eq!(entries[0].href, "/dav/music/");
    assert!(entries[0].is_collection);
    assert_eq!(entries[0].display_name, "music");
    assert_eq!(entries[1].href, "/dav/music/a.flac");
    assert_eq!(entries[1].content_length, 1234);
    assert_eq!(entries[1].content_type, "audio/flac");
    assert!(!entries[1].is_collection);
}

#[test]
fn broken_documents_fail() {
    let error = parse_webdav_multistatus("<a><b></a>").unwrap_err();
    assert!(error.starts_with("Failed to parse WebDAV response XML: "));
}

#[test]
fn events_fold_into_entries() {
    let events = vec![
        XmlEvent::Start(String::from("D:Response")),
        XmlEvent::Start(String::from("D:getcontentlength")),
        XmlEvent::Text(String::from("x12")),
        XmlEvent::End(String::from("D:getcontentlength")),
        XmlEvent::Text(String::from("ignored without a field")),
        XmlEvent::End(String::from("D:response")),
        XmlEvent::Eof,
        XmlEvent::Start(String::from("response")),
    ];
    let entries = entries_from_xml_events(&events).unwrap();
    assert_eq!(entries.len(), 1);
    assert_eq!(entries[0].content_length, 0);
    assert_eq!(entries[0].href, "");
}

#[test]
fn names_and_numbers() {
    assert_eq!(local_xml_name("D:HREF"), "href");
    assert_eq!(local_xml_name("plain"), "plain");
    assert_eq!(parse_u64("+42"), Some(42));
    assert_eq!(parse_u64("18446744073709551616"), None);
    assert_eq!(parse_u64(""), None);
    assert_eq!(parse_u64("1 2"), None);
}

#[test]
fn responses_come_in_document_order_with_untouched_fields_empty() {
    let xml = "<D:multistatus xmlns:D='DAV:'><D:response><D:href>/m/</D:href><D:resourcetype><D:collection></D:collection></D:resourcetype><D:status>HTTP/1.1 200 OK</D:status></D:response><D:response><D:href>/m/a.mp3</D:href><D:getcontentlength>123</D:getcontentlength><D:getcontenttype>audio/mpeg</D:getcontenttype></D:response></D:multistatus>";
    let entries = parse_webdav_multistatus(xml).unwrap();
    assert_eq!(entries.len(), 2);
    assert_eq!(entries[0].href, "/m/");
    assert!(entries[0].is_collection);
    assert_eq!(entries[0].content_length, 0);
    assert_eq!(entries[0].content_type, "");
    assert_eq!(entries[0].display_name, "");
    assert_eq!(entries[0].etag, "");
    assert_eq!(entries[0].modified_at, "");
    assert_eq!(entries[1].href, "/m/a.mp3");
    assert_eq!(entries[1].content_length, 123);
    assert_eq!(entries[1].content_type, "audio/mpeg");
    assert!(!entries[1].is_collection);
    assert_eq!(entries[1].display_name, "");
    assert_eq!(entries[1].etag, "");
    assert_eq!(entries[1].modified_at, "");
}

#[test]
fn an_empty_document_has_no_entries() {
    assert_eq!(parse_webdav_multistatus("").unwrap().len(), 0);
}
