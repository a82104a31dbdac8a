use lib_common::decision::{
    clip_content, fetch_plan, is_truthy_response, judge_literals, markdown_reply, notes_messages,
    previous_decision_index, remove_selected, select_decisions, verdict_text, Decision,
    DecisionFilter, DecisionLookup, FetchPlan,
};

#[test]
fn filters_match_decisions() {
    let yes = Decision { time: 0, material: (), is_truthy: true };
    let no = Decision { time: 0, material: (), is_truthy: false };
    assert!(DecisionFilter::Truthy.matches(&yes));
    assert!(!DecisionFilter::Truthy.matches(&no));
    assert!(DecisionFilter::Falsy.matches(&no));
}

#[test]
fn selection_skips_and_limits_matching_decisions() {
    let truthy = vec![true, false, true, true, false, true];
    assert_eq!(select_decisions(&truthy, None, None, None), vec![0, 1, 2]);
    assert_eq!(select_decisions(&truthy, Some(DecisionFilter::Truthy), Some(1), Some(2)), vec![2, 3]);
    assert_eq!(select_decisions(&truthy, Some(DecisionFilter::Falsy), None, Some(10)), vec![1, 4]);
    assert_eq!(select_decisions(&truthy, Some(DecisionFilter::Truthy), Some(10), None), Vec::<usize>::new());
}

#[test]
fn request_is_answered_at_first_shown_decision() {
    let truthy = vec![false, true, false, true];
    assert_eq!(previous_decision_index(&truthy, Some(DecisionFilter::Truthy), None), Some(1));
    assert_eq!(previous_decision_index(&truthy, Some(DecisionFilter::Truthy), Some(1)), Some(3));
    assert_eq!(previous_decision_index(&truthy, Some(DecisionFilter::Truthy), Some(2)), None);
    assert_eq!(previous_decision_index(&truthy, None, Some(0)), Some(0));
    let mut lookup = DecisionLookup::new(Some(DecisionFilter::Falsy), Some(1));
    assert!(!lookup.on_decision(true));
    assert!(!lookup.on_decision(false));
    assert!(lookup.on_decision(false));
}

#[test]
fn shown_decisions_are_removed() {
    let mut items = vec!['a', 'b', 'c', 'd', 'e'];
    remove_selected(&mut items, &vec![0, 2, 3]);
    assert_eq!(items, vec!['b', 'e']);
}

#[test]
fn answers_are_read_for_yes() {
    assert!(is_truthy_response("Yes, it is."));
    assert!(is_truthy_response("I would say yes"));
    assert!(!is_truthy_response("YES"));
    assert!(!is_truthy_response("No"));
    assert_eq!(verdict_text(true), "Yes");
    assert_eq!(verdict_text(false), "No");
}

#[test]
fn notes_list_criteria_and_history() {
    let c = vec!["short posts".to_string(), "no ads".to_string()];
    assert_eq!(notes_messages(&c, false), vec!["- short posts".to_string(), "- no ads".to_string()]);
    assert_eq!(
        notes_messages(&vec![], true),
        vec!["You have seen this series before.".to_string()]
    );
}

#[test]
fn fetch_plans_by_content_type() {
    assert_eq!(fetch_plan("text/plain; charset=utf-8", None), FetchPlan::Text);
    assert_eq!(fetch_plan("text/html;charset=UTF-8", Some(false)), FetchPlan::Markdown);
    assert_eq!(fetch_plan("text/xml", None), FetchPlan::Markdown);
    assert_eq!(fetch_plan("text/csv", Some(true)), FetchPlan::Text);
    assert_eq!(fetch_plan("text/csv", None), FetchPlan::Reply("unsupported: text/csv".into()));
    assert_eq!(
        fetch_plan("application/json", None),
        FetchPlan::Reply("expect a text content type, got \"application/json\"".into())
    );
}

#[test]
fn content_is_clipped_to_range() {
    let text = "abcdefghij";
    assert_eq!(clip_content(text, None, Some(4)), "abcd");
    assert_eq!(clip_content(text, None, None), "abcdefghij");
    assert_eq!(clip_content(text, Some(2), Some(3)), "cde");
    // characters from the offset to the end when fewer than the limit remain
    assert_eq!(clip_content(text, Some(2), None), "cdefghij");
    assert_eq!(clip_content(text, Some(20), None), "");
    assert_eq!(clip_content("héllo", Some(1), Some(2)), "él");
}

#[test]
fn markdown_is_clipped_by_characters() {
    let full = markdown_reply("<p>Body text</p>", None, None).unwrap().unwrap();
    let part = markdown_reply("<p>Body text</p>", Some(1), Some(3)).unwrap().unwrap();
    assert_eq!(part, full.chars().skip(1).take(3).collect::<String>());
}

#[test]
fn html_pages_become_markdown() {
    let r = markdown_reply("<h1>Title</h1><p>Body text</p>", None, None).unwrap().unwrap();
    assert!(r.contains("Title"));
    assert!(r.contains("Body text"));
    assert!(!r.contains("<h1>"));
}

#[test]
fn judging_literals_hold_condition_and_time() {
    let l = judge_literals("two chapters", 1_704_067_200_000).unwrap();
    assert_eq!(l[0], ("condition".to_string(), "two chapters".to_string()));
    assert_eq!(l[1], ("time".to_string(), "Mon January 01 12:00:00 AM 2024 UTC".to_string()));
}

#[test]
fn fetch_target_parses_addresses() {
    let u = lib_common::decision::fetch_target("https://example.com/a?b=1").unwrap();
    assert_eq!(u, "https://example.com/a?b=1");
    // the parser writes the address in its normal form
    assert_eq!(lib_common::decision::fetch_target("HTTPS://Example.com").unwrap(), "https://example.com/");
}

#[test]
fn fetch_target_explains_bad_addresses() {
    let e = lib_common::decision::fetch_target("not a url").unwrap_err();
    assert_eq!(e, "failure: relative URL without a base");
}

#[test]
fn model_answer_becomes_the_recorded_decision() {
    let d = lib_common::decision::judge_outcome("Yes, it does.", 42, "item");
    assert!(d.is_truthy);
    assert_eq!(d.time, 42);
    assert_eq!(d.material, "item");
    assert!(!lib_common::decision::judge_outcome("No.", 1, ()).is_truthy);
}

#[test]
fn decisions_shown_once_are_not_shown_again() {
    let truthy = vec![true, false, true, true];
    let mut shown = lib_common::decision::ShownDecisions::new(truthy.len());
    assert_eq!(shown.show(&truthy, Some(DecisionFilter::Truthy), None, Some(2)), vec![0, 2]);
    assert_eq!(shown.show(&truthy, Some(DecisionFilter::Truthy), None, None), vec![3]);
    assert_eq!(shown.show(&truthy, None, Some(0), None), vec![1]);
    assert!(shown.show(&truthy, None, None, None).is_empty());
}

#[test]
fn request_for_missing_decisions_gets_empty_list() {
    let truthy = vec![false, false];
    assert_eq!(
        lib_common::decision::previous_decisions_reply(&truthy, Some(DecisionFilter::Truthy), None),
        Some("[]".to_string())
    );
    assert_eq!(lib_common::decision::previous_decisions_reply(&truthy, None, Some(1)), None);
}
