use lib_common::memory::material_shasum;
use lib_common::memory::config_path;
use lib_common::chat::{chat_message_from_shared, prepend_exchange, system_prompt, update_system_prompt, ChatMsg, Role};
use lib_common::chat::{png_pieces, SystemPromptAwareChatHistory};
use lib_common::gemma4::{criteria_list, ToolResult as GemmaToolResult};
use lib_common::memory::{DebugCriteriaMemory, DebugDialogMemory, FsDialogMemory, NaE};
use lib_common::source::ImageOrText;

#[test]
fn criteria_memory_keeps_order() {
    let mut m = DebugCriteriaMemory::new();
    assert!(m.is_empty());
    m.add("first").unwrap();
    m.add("second").unwrap();
    m.add("third").unwrap();
    assert_eq!(m.get().unwrap(), vec!["first", "second", "third"]);
    m.remove(1).unwrap();
    assert_eq!(m.get().unwrap(), vec!["first", "third"]);
    assert!(!m.is_empty());
}

#[test]
fn dialog_memory_keeps_last() {
    let mut m: DebugDialogMemory<u32> = DebugDialogMemory::new();
    assert_eq!(m.get().unwrap(), &None);
    m.update(3).unwrap();
    m.update(4).unwrap();
    assert_eq!(m.get().unwrap(), &Some(4));
}

#[test]
fn fs_dialog_memory_path() {
    let m = FsDialogMemory::new("/var/lib/notyet", "feed-1");
    assert_eq!(m.file_path(), "/var/lib/notyet/dialog/feed-1");
    let m = FsDialogMemory::new("/var/lib/notyet/", "/abs");
    assert_eq!(m.file_path(), "/abs");
}

#[test]
fn nae_text() {
    assert_eq!(NaE.to_string(), "this should have never happened, logic is flawed");
}

#[test]
fn chat_message_numbers_images() {
    let m = chat_message_from_shared(
        vec![
            ImageOrText::Text("look".into()),
            ImageOrText::Image(vec![1, 2, 3]),
            ImageOrText::Image(vec![]),
            ImageOrText::Text("end".into()),
        ],
        Role::User,
    );
    assert_eq!(m.role, Role::User);
    assert_eq!(m.content, "look\n <image_1/>  <image_2/> end");
    assert_eq!(m.images, vec!["AQID".to_string(), String::new()]);
}

#[test]
fn system_prompt_is_kept_first() {
    let mut h: Vec<ChatMsg> = vec![ChatMsg { role: Role::User, content: "hi".into(), images: vec![] }];
    assert_eq!(system_prompt(&h), None);
    update_system_prompt(&mut h, "be brief".into());
    assert_eq!(system_prompt(&h), Some("be brief"));
    assert_eq!(h.len(), 2);
    update_system_prompt(&mut h, "be kind".into());
    assert_eq!(system_prompt(&h), Some("be kind"));
    assert_eq!(h.len(), 2);
    prepend_exchange(
        &mut h,
        ChatMsg { role: Role::User, content: "q".into(), images: vec![] },
        ChatMsg { role: Role::Assistant, content: "Yes".into(), images: vec![] },
    );
    assert_eq!(h.len(), 4);
    assert_eq!(h[0].content, "q");
    assert_eq!(h[1].content, "Yes");
    assert_eq!(system_prompt(&h), None);
}

#[test]
fn gemma_criteria_and_results() {
    assert_eq!(criteria_list(&vec!["a".into(), "b".into()]), "[a, b]");
    assert_eq!(criteria_list(&vec![]), "[]");
    let r = GemmaToolResult::Failure("not found");
    assert_eq!(r.key(), "failure");
    assert_eq!(r.text(), "not found");
}

#[test]
fn config_path_prefers_explicit_dir() {
    assert_eq!(config_path(Some("/etc/app"), Some("/home/u/.config")), Some("/etc/app/notyet".to_string()));
    assert_eq!(config_path(None, Some("/home/u/.config")), Some("/home/u/.config/notyet".to_string()));
    assert_eq!(config_path(None, None), None);
}

#[test]
fn material_names_are_unpadded_hex_digests() {
    // SHA-256 of "abc" is ba7816bf 8f01cfea 414140de 5dae2223 b00361a3 96177a9c b410ff61 f20015ad;
    // bytes below 0x10 lose their leading zero
    assert_eq!(
        material_shasum(&b"abc".to_vec()),
        "ba7816bf8f1cfea414140de5dae2223b0361a396177a9cb410ff61f2015ad"
    );
}

#[test]
fn history_trait_keeps_one_system_prompt() {
    let mut h: Vec<ChatMsg> = Vec::new();
    assert_eq!(SystemPromptAwareChatHistory::system_prompt(&h), None);
    SystemPromptAwareChatHistory::update_system_prompt(&mut h, "first".to_string());
    SystemPromptAwareChatHistory::update_system_prompt(&mut h, "second".to_string());
    assert_eq!(h.len(), 1);
    assert_eq!(SystemPromptAwareChatHistory::system_prompt(&h), Some("second"));
}

#[test]
fn images_are_encoded_as_png_for_messages() {
    let pieces = vec![ImageOrText::Text("look".to_string()), ImageOrText::Image(image::DynamicImage::new_rgb8(1, 1))];
    let encoded = png_pieces(&pieces).unwrap();
    assert_eq!(encoded.len(), 2);
    match &encoded[0] {
        ImageOrText::Text(t) => assert_eq!(t, "look"),
        ImageOrText::Image(_) => panic!("expected text"),
    }
    match &encoded[1] {
        ImageOrText::Image(b) => assert_eq!(&b[..4], &[0x89, b'P', b'N', b'G']),
        ImageOrText::Text(_) => panic!("expected an image"),
    }
    let m = chat_message_from_shared(encoded, Role::User);
    assert_eq!(m.content, "look\n <image_1/>");
    assert_eq!(m.images.len(), 1);
}

#[test]
fn text_only_pieces_always_encode() {
    let pieces: Vec<ImageOrText<image::DynamicImage>> = vec![ImageOrText::Text("a".to_string()), ImageOrText::Text("b".to_string())];
    let encoded = png_pieces(&pieces).unwrap();
    assert_eq!(encoded.len(), 2);
}
