use lib_common::optimize::prompt_or_default;
use lib_common::optimize::{
    buffer_set_reply, clarification_reply, criteria_listing, interval_set_reply, reject_message, ApproveOrDeny,
    BasicOptimizerAction, ChangeRequest, ExtraToolInfo, LoopStep, ReplyStep, ScheduleParamters, ToToolResult,
    ToolHandlerError, ToolResult, ToolState, ToolcallKind,
};

const REFUSE_INTERVAL: &str =
    "failure: you must check the polling interval before changing it. please use the `get_polling_interval` tool first";

#[test]
fn schedule_parameters_in_words() {
    let both = ScheduleParamters { interval_mins: Some(30), buffer_size: Some(5) };
    assert_eq!(both.to_string(), "30 minutes apart, and allow at most 5 staged posts");
    let interval = ScheduleParamters { interval_mins: Some(1), buffer_size: None };
    assert_eq!(interval.to_string(), "1 minutes apart");
    let buffer = ScheduleParamters { interval_mins: None, buffer_size: Some(0) };
    assert_eq!(buffer.to_string(), "allow at most 0 staged posts");
    let none = ScheduleParamters { interval_mins: None, buffer_size: None };
    assert_eq!(none.to_string(), "");
}

#[test]
fn tool_results_in_words() {
    assert_eq!(ToolResult::Success("ok".into()).to_string(), "success: ok");
    assert_eq!(ToolResult::Failure("bad".into()).to_string(), "failure: bad");
    assert_eq!(ToolResult::Rejected { reason: Some("no".into()) }.to_string(), "rejected: no");
    assert_eq!(ToolResult::Rejected { reason: None }.to_string(), "the user actively rejected your request");
    assert!(matches!(ToolResult::from_outcome(Err("e".into())), ToolResult::Failure(e) if e == "e"));
}

#[test]
fn approve_or_deny_maps_to_tool_result() {
    let r = ApproveOrDeny::Approve.map_ok(|_| "done".to_string());
    assert!(matches!(r, ToolResult::Success(s) if s == "done"));
    let r = ApproveOrDeny::Deny { reason: Some("later".into()) }.map_ok(|_| "done".to_string());
    assert!(matches!(r, ToolResult::Rejected { reason: Some(s) } if s == "later"));
}

#[test]
fn reject_messages() {
    assert_eq!(reject_message(Some("too often".into())), "user rejected, reason: too often");
    assert_eq!(reject_message(None), "the user actively rejected your request");
}

#[test]
fn change_refused_until_setting_read() {
    let mut st = ToolState::new();
    match st.request_interval(15) {
        ChangeRequest::Refuse(m) => assert_eq!(m, REFUSE_INTERVAL),
        other => panic!("{other:?}"),
    }
    // one refusal pending: the dialog may not end without giving up
    match st.next_step("I changed nothing.") {
        LoopStep::Prompt(p) => assert_eq!(
            p,
            "System: there is 1 error to be resolved. Presumably you did not finish your tasks well. Please try again. However, if this is intentional, respond with `give up`"
        ),
        LoopStep::Finish => panic!("finished with a refusal pending"),
    }
    assert_eq!(st.next_step("OK, I GIVE UP"), LoopStep::Finish);
    st.on_retrieve(ToolcallKind::PollingInterval);
    match st.request_interval(15) {
        ChangeRequest::Propose(BasicOptimizerAction::Schedule(p)) => {
            assert_eq!(p.interval_mins, Some(15));
            assert_eq!(p.buffer_size, None);
        }
        other => panic!("{other:?}"),
    }
    // nothing refused, but nothing done either
    match st.next_step("done") {
        LoopStep::Prompt(p) => assert!(p.starts_with("System: though there're no errors")),
        LoopStep::Finish => panic!("finished without action"),
    }
    assert_eq!(st.on_setting_reply(Some(ApproveOrDeny::Approve)).unwrap(), ReplyStep::Apply);
    assert_eq!(st.next_step("done"), LoopStep::Finish);
}

#[test]
fn two_refusals_are_counted() {
    let mut st = ToolState::new();
    assert!(matches!(st.request_interval(1), ChangeRequest::Refuse(_)));
    match st.request_buffer_size(3) {
        ChangeRequest::Refuse(m) => assert_eq!(
            m,
            "failure: you must check the buffer size before changing it. please use the `get_buffer_size` tool first"
        ),
        other => panic!("{other:?}"),
    }
    match st.next_step("x") {
        LoopStep::Prompt(p) => assert!(p.starts_with("System: there are 2 errors to be resolved.")),
        LoopStep::Finish => panic!(),
    }
}

#[test]
fn criterion_allowed_when_no_notes_exist() {
    let mut st = ToolState::new();
    match st.request_criterion(true, "likes rust".into()) {
        ChangeRequest::Propose(BasicOptimizerAction::ContextPrefill(n)) => assert_eq!(n, vec!["likes rust".to_string()]),
        other => panic!("{other:?}"),
    }
    let mut st = ToolState::new();
    match st.request_criterion(false, "x".into()) {
        ChangeRequest::Refuse(m) => assert_eq!(
            m,
            "failure: you must check the criteria list before changing it. please use the `get_criteria` tool first"
        ),
        other => panic!("{other:?}"),
    }
    st.on_retrieve(ToolcallKind::Criteria);
    assert!(matches!(st.request_criterion(false, "x".into()), ChangeRequest::Propose(_)));
    assert_eq!(st.on_criterion_reply(Some(ApproveOrDeny::Approve)).unwrap(), ReplyStep::Apply);
    assert_eq!(st.on_criterion_stored(Ok(())), "criterion added");
    assert_eq!(st.next_step("done"), LoopStep::Finish);
}

#[test]
fn replies_and_closed_channels() {
    let mut st = ToolState::new();
    assert!(matches!(st.on_setting_reply(None), Err(ToolHandlerError::ChannelClosed)));
    assert_eq!(
        st.on_setting_reply(Some(ApproveOrDeny::Deny { reason: None })).unwrap(),
        ReplyStep::Respond("the user actively rejected your request".into())
    );
    assert_eq!(st.on_criterion_stored(Err("disk full".into())), "failure: disk full");
    assert_eq!(interval_set_reply(45, Ok(())), "success: the new interval is 45 minutes.");
    assert_eq!(interval_set_reply(45, Err("nope".into())), "failure: nope");
    assert_eq!(buffer_set_reply(8, Ok(())), "success: the new buffer size is 8");
    assert_eq!(clarification_reply(Some("yes".into())), "yes");
    assert_eq!(clarification_reply(None), "the user actively rejected your request");
}

#[test]
fn criteria_listing_formats() {
    assert_eq!(criteria_listing(Ok(vec![])), "[]");
    assert_eq!(criteria_listing(Ok(vec!["a".into(), "b".into()])), "- a\n- b");
    assert_eq!(criteria_listing(Err("oops".into())), "failure: oops");
}

#[test]
fn earlier_reads_count_from_history() {
    let names = vec!["get_buffer_size".to_string(), "other".to_string()];
    let mut st = ToolState::from_tool_history(&names);
    assert!(matches!(st.request_buffer_size(2), ChangeRequest::Propose(_)));
    assert!(matches!(st.request_interval(2), ChangeRequest::Refuse(_)));
}

#[test]
fn extra_tools_are_gated_by_their_retriever() {
    let mut st = ToolState::new();
    let reader = ExtraToolInfo { is_action: false, retriever: None };
    let writer = ExtraToolInfo { is_action: true, retriever: Some((1, "read_thing".into())) };
    assert_eq!(st.extra_tool_gate(&writer), Some("rejected: you must tool `read_thing` before this one".into()));
    assert_eq!(st.extra_tool_gate(&reader), None);
    assert_eq!(st.on_extra_result(1, &reader, ToolResult::Success("v".into())), "success: v");
    assert_eq!(st.extra_tool_gate(&writer), None);
    assert_eq!(st.on_extra_result(2, &writer, ToolResult::Failure("bad".into())), "failure: bad");
    assert!(matches!(st.next_step("x"), LoopStep::Prompt(_)));
}

#[test]
fn default_complaint() {
    assert_eq!(prompt_or_default(None), "I don't like this post.");
    assert_eq!(prompt_or_default(Some("too long".into())), "too long");
}
