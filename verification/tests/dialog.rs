use lib_common::dialog::{tag, MultiTurnDialog};

#[test]
fn tag_middle() {
    let res = "foo\n<|think|>\nbar\n<|/think|>\nbaz";
    let (rest, reasoning) = tag(res, "<|think|>", "<|/think|>").unwrap();
    assert_eq!(rest, "foo\nbaz");
    assert_eq!(reasoning, "bar");
}

#[test]
fn tag_end() {
    let res = "foo\n<|think|>\nbar\n<|/think|>";
    let (rest, reasoning) = tag(res, "<|think|>", "<|/think|>").unwrap();
    assert_eq!(rest, "foo");
    assert_eq!(reasoning, "bar");
}

#[test]
fn tag_start() {
    let res = "<|think|>\nfoo\n<|/think|>\nbar";
    let (rest, reasoning) = tag(res, "<|think|>", "<|/think|>").unwrap();
    assert_eq!(rest, "bar");
    assert_eq!(reasoning, "foo");
}

#[test]
fn tag_missing_end_is_none() {
    assert!(tag("foo <|think|> bar", "<|think|>", "<|/think|>").is_none());
}

#[test]
fn tag_without_start_takes_everything_before_end() {
    let (rest, reasoning) = tag("  thoughts  <|/think|>  answer ", "<|think|>", "<|/think|>").unwrap();
    assert_eq!(rest, "answer ");
    assert_eq!(reasoning, "thoughts");
}

#[test]
fn multi_turn_dialog_starts_empty_and_records_exchanges() {
    let mut d: MultiTurnDialog<u32, Vec<u32>> = MultiTurnDialog::new();
    assert!(d.turns().is_empty());
    assert!(d.history().is_empty());
    d.push_exchange(1, 2);
    d.push_exchange(3, 4);
    assert_eq!(d.turns(), &[1, 2, 3, 4]);
    d.history_mut().push(7);
    assert_eq!(d.history(), &vec![7]);
}
