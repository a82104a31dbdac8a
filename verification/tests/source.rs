use lib_common::source::{image_url_content, item_message};
use lib_common::source::{
    atom_item_title, content_kind, item_instant, rss_item_identity, rss_item_title, sort_order, ContentKind,
    DefaultMetadata, DefaultUpdate, ImageOrText, MessagePart, UrlContent,
};

#[test]
fn update_json_escapes_and_marks_images() {
    let u: DefaultUpdate<u8> = DefaultUpdate::new(
        "Chapter 1 - The New Girl",
        vec![ImageOrText::Text("a & \"b\"".into()), ImageOrText::Image(7), ImageOrText::Text("c".into())],
        Some("RSS item".into()),
    );
    assert_eq!(
        u.message_json(),
        r#"{"title":"Chapter 1 - The New Girl","content":"a && \"b\"&c","type":"RSS item"}"#
    );
    assert_eq!(u.images(), &vec![7]);
    assert_eq!(u.title, "Chapter 1 - The New Girl");
}

#[test]
fn update_without_content_or_type() {
    let u: DefaultUpdate<u8> = DefaultUpdate::new("t\n", vec![], None);
    assert_eq!(u.message_json(), "{\"title\":\"t\\n\"}");
}

#[test]
fn message_splits_at_image_markers() {
    // two images: one marker is looked for, the last image is not placed
    let u: DefaultUpdate<u8> = DefaultUpdate::new(
        "t",
        vec![ImageOrText::Image(1), ImageOrText::Text("x".into()), ImageOrText::Image(2)],
        None,
    );
    let json = u.message_json().to_string();
    assert_eq!(json, r#"{"title":"t","content":"&x&"}"#);
    let parts = u.get_message();
    assert_eq!(
        parts,
        vec![
            MessagePart::Text(r#"{"title":"t","content":""#.to_string()),
            MessagePart::Image(0),
            MessagePart::Text(r#"x&"}"#.to_string()),
        ]
    );
}

#[test]
fn message_of_single_image_update_is_whole_text() {
    let u: DefaultUpdate<u8> = DefaultUpdate::new("t", vec![ImageOrText::Image(1)], None);
    assert_eq!(u.try_get_message(), Some(vec![MessagePart::Text(r#"{"title":"t","content":"&"}"#.to_string())]));
}

#[test]
fn message_without_marker_fails() {
    let u: DefaultUpdate<u8> =
        DefaultUpdate::new("t", vec![ImageOrText::Text("x".into()), ImageOrText::Text("y".into())], None);
    assert_eq!(u.try_get_message(), Some(vec![MessagePart::Text(r#"{"title":"t","content":"xy"}"#.to_string())]));
    let u: DefaultUpdate<u8> = DefaultUpdate::new("&&", vec![ImageOrText::Image(1), ImageOrText::Image(2)], None);
    assert_eq!(u.try_get_message(), None);
}

#[test]
fn metadata_message() {
    let m = DefaultMetadata::new("Rain".into(), Some("RSS feed".into()));
    assert_eq!(m.get_message(), vec!["RSS feed named \"Rain\"".to_string()]);
    let m = DefaultMetadata::new("Rain".into(), None);
    assert_eq!(m.get_message(), vec!["Rain".to_string()]);
}

#[test]
fn rss_titles_and_identity() {
    assert_eq!(rss_item_title(Some("Ch. 1"), Some("desc"), Some("https://x")), "Ch. 1 https://x");
    assert_eq!(rss_item_title(None, Some("desc"), None), "desc");
    assert_eq!(rss_item_title(None, None, None), "");
    assert_eq!(rss_item_identity(Some("g"), "t"), "g");
    assert_eq!(rss_item_identity(None, "t"), "t");
}

#[test]
fn atom_titles() {
    assert_eq!(atom_item_title("Post", &vec!["a".into(), "b".into()]), "Post a b");
    assert_eq!(atom_item_title("Post", &vec![]), "Post ");
}

#[test]
fn url_content_labels_and_kinds() {
    let c: UrlContent<u8> = UrlContent::Text { url: "https://a".into(), text: "t".into() };
    assert_eq!(c.url(), "https://a");
    assert_eq!(c.label(), "Fetched content for \"https://a\"");
    assert_eq!(content_kind("text/html"), ContentKind::Text);
    assert_eq!(content_kind("image/png"), ContentKind::Image);
    assert_eq!(content_kind("application/json"), ContentKind::Unsupported);
}

#[test]
fn items_sorted_by_instant_stably() {
    let keys = vec![(5, 0), (1, 0), (5, 0), (1, 5), (0, 9)];
    assert_eq!(sort_order(&keys), vec![4, 1, 3, 0, 2]);
    assert_eq!(sort_order(&vec![]), Vec::<usize>::new());
}

#[test]
fn publication_dates_order_items() {
    let fallback = (99, 0);
    assert_eq!(item_instant(Some("Thu, 28 May 2026 17:43:36 +0000"), fallback), (1_779_990_216, 0));
    assert_eq!(item_instant(Some("28th Nov 2010, 1:00 PM"), fallback), fallback);
    assert_eq!(item_instant(None, fallback), fallback);
}

#[test]
fn item_message_labels_fetched_content() {
    let extras: Vec<UrlContent<u8>> = vec![
        UrlContent::Image { url: "https://i".into(), image: 5 },
        UrlContent::Text { url: "https://t".into(), text: "page".into() },
    ];
    let m = item_message("{\"title\":\"x\"}".into(), extras);
    assert_eq!(m.len(), 5);
    assert!(matches!(&m[0], ImageOrText::Text(t) if t == "{\"title\":\"x\"}"));
    assert!(matches!(&m[1], ImageOrText::Text(t) if t == "Fetched content for \"https://i\""));
    assert!(matches!(&m[2], ImageOrText::Image(5)));
    assert!(matches!(&m[3], ImageOrText::Text(t) if t == "Fetched content for \"https://t\""));
    assert!(matches!(&m[4], ImageOrText::Text(t) if t == "page"));
}

#[test]
fn image_content_decodes_images() {
    let img = image::DynamicImage::new_rgb8(2, 3);
    let mut buf = std::io::Cursor::new(Vec::new());
    img.write_to(&mut buf, image::ImageFormat::Png).unwrap();
    let c = image_url_content("https://x.example/a.png", buf.get_ref()).unwrap();
    assert_eq!(c.url(), "https://x.example/a.png");
    match c {
        UrlContent::Image { image, .. } => {
            assert_eq!(&image.bytes, buf.get_ref());
            assert_eq!(image.image.width(), 2);
            assert_eq!(image.image.height(), 3);
        }
        UrlContent::Text { .. } => panic!("expected an image"),
    }
}

#[test]
fn image_content_refuses_other_bytes() {
    assert!(image_url_content("https://x.example/a.png", b"not an image").is_err());
}
