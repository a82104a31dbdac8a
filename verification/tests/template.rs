use lib_common::template::{
    expand_prompt, literal_replace, macro_name, TemplateExpander, TemplateExpansionError, TemplateReader, TemplateStep,
};
use lib_common::xml::XmlEvent;

fn lits(pairs: &[(&str, &str)]) -> Vec<(String, String)> {
    pairs.iter().map(|(k, v)| (k.to_string(), v.to_string())).collect()
}

#[test]
fn literals_are_replaced_in_turn() {
    assert_eq!(literal_replace("Hi {name}, {name}!", &lits(&[("name", "Ann")])), "Hi Ann, Ann!");
    assert_eq!(literal_replace("{a}{b}", &lits(&[("a", "{b}"), ("b", "x")])), "xx");
    assert_eq!(literal_replace("{a}", &lits(&[])), "{a}");
}

#[test]
fn prompt_paragraphs_are_trimmed_and_filled() {
    let t = "<prompt><p>\n  Judge: {condition}  \n</p><p>Now</p></prompt>";
    let r: Result<Vec<String>, TemplateExpansionError<()>> = expand_prompt(t, &lits(&[("condition", "two chapters")]));
    assert_eq!(r.unwrap(), vec!["Judge: two chapters".to_string(), "Now".to_string()]);
}

#[test]
fn unknown_tags_and_bad_nesting_fail() {
    let r: Result<Vec<String>, TemplateExpansionError<()>> = expand_prompt("<prompt><div>x</div></prompt>", &lits(&[]));
    assert!(matches!(r, Err(TemplateExpansionError::InvalidTag(t)) if t == "div"));
    let r: Result<Vec<String>, TemplateExpansionError<()>> = expand_prompt("<prompt><prompt></prompt></prompt>", &lits(&[]));
    assert!(matches!(r, Err(TemplateExpansionError::InvalidHirarchy)));
    let r: Result<Vec<String>, TemplateExpansionError<()>> = expand_prompt("<p><p>a</p></p>", &lits(&[]));
    assert!(matches!(r, Err(TemplateExpansionError::InvalidHirarchy)));
}

#[test]
fn expansion_without_macros_fails_on_expand() {
    let r: Result<Vec<String>, TemplateExpansionError<()>> =
        expand_prompt("<prompt><expand>{notes}</expand></prompt>", &lits(&[]));
    assert!(matches!(r, Err(TemplateExpansionError::InvalidMacro(m)) if m == "notes"));
    let r: Result<Vec<String>, TemplateExpansionError<()>> =
        expand_prompt("<prompt><expand>notes</expand></prompt>", &lits(&[]));
    assert!(matches!(r, Err(TemplateExpansionError::InvalidMacro(m)) if m == "notes"));
}

#[test]
fn macro_names_need_braces() {
    assert_eq!(macro_name::<()>("{update}").ok(), Some("update".to_string()));
    assert!(matches!(macro_name::<()>("update"), Err(TemplateExpansionError::InvalidMacro(m)) if m == "update"));
    assert!(matches!(macro_name::<()>("{"), Err(TemplateExpansionError::InvalidMacro(m)) if m == "{"));
}

#[test]
fn malformed_xml_is_reported() {
    let r: Result<Vec<String>, TemplateExpansionError<()>> = expand_prompt("<prompt><p>a</q></prompt>", &lits(&[]));
    assert!(matches!(r, Err(TemplateExpansionError::XmlParsing(_))));
}

#[test]
fn expander_steps_on_events() {
    let mut e = TemplateExpander::new();
    let l = lits(&[]);
    assert_eq!(e.feed::<()>(XmlEvent::Start("prompt".into(), vec![]), &l).ok(), Some(TemplateStep::Continue));
    assert_eq!(e.feed::<()>(XmlEvent::Start("expand".into(), vec![]), &l).ok(), Some(TemplateStep::Continue));
    assert_eq!(e.feed::<()>(XmlEvent::Text(" {x} ".into()), &l).ok(), Some(TemplateStep::Expand(" {x} ".into())));
    assert_eq!(e.feed::<()>(XmlEvent::End, &l).ok(), Some(TemplateStep::Continue));
    assert_eq!(e.feed::<()>(XmlEvent::End, &l).ok(), Some(TemplateStep::Continue));
    assert_eq!(e.feed::<()>(XmlEvent::End, &l).ok(), Some(TemplateStep::Done));
}

#[test]
fn reader_hands_out_steps() {
    let mut r = TemplateReader::new("<prompt><p>a</p><expand>{m}</expand></prompt>");
    let l = lits(&[]);
    assert_eq!(r.next_step::<()>(&l).ok(), Some(TemplateStep::Emit("a".into())));
    assert_eq!(r.next_step::<()>(&l).ok(), Some(TemplateStep::Expand("{m}".into())));
    assert_eq!(r.next_step::<()>(&l).ok(), Some(TemplateStep::Done));
}
