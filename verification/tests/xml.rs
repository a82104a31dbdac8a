use lib_common::xml::{extract_url_from_feed_item, LinkScanner, XmlEvent};

#[test]
fn test_extract_url_from_feed_item() {
    let item = r#"&#32; submitted by &#32; <a href="https://www.reddit.com/user/orhunp"> /u/orhunp </a> <br/> <span><a href="https://blog.orhun.dev/800-rust-projects/">[link]</a></span> &#32; <span><a href="https://www.reddit.com/r/rust/comments/1sb859y/800_rust_terminal_projects_in_3_years/">[comments]</a></span>"#;
    let urls = extract_url_from_feed_item(item, None).unwrap();
    assert_eq!(urls[0], "https://www.reddit.com/user/orhunp");
    assert_eq!(urls[1], "https://blog.orhun.dev/800-rust-projects/");
    assert_eq!(
        urls[2],
        "https://www.reddit.com/r/rust/comments/1sb859y/800_rust_terminal_projects_in_3_years/"
    );
}

#[test]
fn max_depth_skips_nested_links() {
    let item = r#"<a href="top">x</a><span><img src="inner.png"></img></span>"#;
    let urls = extract_url_from_feed_item(item, Some(1)).unwrap();
    assert_eq!(urls, vec!["top".to_string()]);
    let urls = extract_url_from_feed_item(item, None).unwrap();
    assert_eq!(urls, vec!["top".to_string(), "inner.png".to_string()]);
}

#[test]
fn links_need_their_attribute() {
    let urls = extract_url_from_feed_item(r#"<a name="x">y</a><link href="l"></link>"#, None).unwrap();
    assert_eq!(urls, vec!["l".to_string()]);
}

#[test]
fn reader_errors_are_returned() {
    assert!(extract_url_from_feed_item("<a href=\"x\">y</b>", None).is_err());
}

#[test]
fn scanner_follows_events() {
    let mut s = LinkScanner::new(Some(1));
    s.feed(XmlEvent::Start("a".into(), vec![None, Some(("href".into(), "u".into()))]));
    s.feed(XmlEvent::Start("img".into(), vec![Some(("src".into(), "deep".into()))]));
    s.feed(XmlEvent::End);
    s.feed(XmlEvent::End);
    assert!(!s.is_done());
    s.feed(XmlEvent::Eof);
    assert!(s.is_done());
    assert_eq!(s.finish().unwrap(), vec!["u".to_string()]);
    let mut s = LinkScanner::new(None);
    s.feed(XmlEvent::Error("boom".into()));
    assert_eq!(s.finish(), Err("boom".to_string()));
}
