use lib_common::atom::{author_text, rss_category, rss_item_fields, AtomCategory, AtomEntryFields, AtomSource};

fn entry() -> AtomEntryFields {
    AtomEntryFields {
        title: "Release 1.0".to_string(),
        id: "urn:uuid:1".to_string(),
        updated: "Tue, 1 Jul 2003 10:52:37 +0200".to_string(),
        summary: Some("short".to_string()),
        content: None,
        links: vec!["https://a.example/1".to_string(), "https://b.example/2".to_string()],
        author_emails: vec![Some("a@x.org".to_string()), None, Some("b@y.org".to_string())],
        categories: vec![
            AtomCategory { term: "rust".to_string(), label: Some("Rust".to_string()) },
            AtomCategory { term: "news".to_string(), label: None },
        ],
        source: Some(AtomSource { links: vec![], title: "Feed".to_string() }),
    }
}

#[test]
fn atom_entry_becomes_rss_item() {
    let r = rss_item_fields(entry());
    assert_eq!(r.title, "Release 1.0");
    assert_eq!(r.guid, "urn:uuid:1");
    assert_eq!(r.pub_date, "Tue, 1 Jul 2003 10:52:37 +0200");
    assert_eq!(r.description.as_deref(), Some("short"));
    assert_eq!(r.content, None);
    assert_eq!(r.link.as_deref(), Some("https://a.example/1"));
    assert_eq!(r.author, "a@x.org;b@y.org");
    assert_eq!(r.categories.len(), 2);
    assert_eq!(r.categories[0].name, "Rust");
    assert_eq!(r.categories[0].domain.as_deref(), Some("rust"));
    assert_eq!(r.categories[1].name, "news");
    assert_eq!(r.categories[1].domain.as_deref(), Some("news"));
    let s = r.source.unwrap();
    assert_eq!(s.url, "");
    assert_eq!(s.title.as_deref(), Some("Feed"));
}

#[test]
fn atom_entry_without_links_or_source() {
    let mut e = entry();
    e.links = vec![];
    e.source = None;
    e.author_emails = vec![None];
    let r = rss_item_fields(e);
    assert_eq!(r.link, None);
    assert!(r.source.is_none());
    assert_eq!(r.author, "");
}

#[test]
fn author_text_skips_missing_addresses() {
    assert_eq!(author_text(&vec![]), "");
    assert_eq!(author_text(&vec![Some("only@x".to_string())]), "only@x");
    assert_eq!(author_text(&vec![None, Some("a".to_string()), None, Some("b".to_string())]), "a;b");
}

#[test]
fn category_label_or_term() {
    let c = rss_category(&AtomCategory { term: "t".to_string(), label: None });
    assert_eq!(c.name, "t");
    assert_eq!(c.domain.as_deref(), Some("t"));
}
