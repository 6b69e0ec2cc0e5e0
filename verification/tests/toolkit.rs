use funcode::toolkit::{
    AbortEvent, PermissionRequest, PermissionResponse, Progress, RiskLevel, ToolResult,
};

#[test]
fn results_tell_success_from_failure() {
    let good = ToolResult::success("done");
    assert_eq!((good.success, good.output.as_str(), good.error.clone()), (true, "done", None));
    assert_eq!(good.clone(), good);
    let bad = ToolResult::failure("broken".to_string());
    assert_eq!((bad.success, bad.output.as_str()), (false, ""));
    assert_eq!(bad.error.as_deref(), Some("broken"));
}

#[test]
fn a_question_has_medium_risk_unless_said_otherwise() {
    let request = PermissionRequest::new("bash", "run");
    assert_eq!(request.risk_level, RiskLevel::Medium);
    assert_eq!(request.details, None);
    let request = request.with_details("in /tmp").with_risk_level(RiskLevel::Low);
    assert_eq!(request.risk_level, RiskLevel::Low);
    assert_eq!(request.details.as_deref(), Some("in /tmp"));
    assert_eq!(request.clone(), request);
}

#[test]
fn answers_are_grants_or_refusals() {
    assert_eq!(PermissionResponse::from(true), PermissionResponse::granted());
    assert_eq!(PermissionResponse::from(false), PermissionResponse::denied("Permission denied"));
    assert_eq!(PermissionResponse::denied("later").into_refusal(), "later");
}

#[test]
fn aborts_may_name_a_session() {
    let anyone = AbortEvent::new("stop");
    assert_eq!(anyone.session_id, None);
    let one = AbortEvent::for_session("s1", "stop");
    assert_eq!(one.session_id.as_deref(), Some("s1"));
    assert_eq!(one.reason, "stop");
    assert_eq!(one.clone(), one);
}

#[test]
fn a_percentage_stops_at_one_hundred() {
    let at = |p: u8| Progress::new("x").with_percentage(p).percentage;
    assert_eq!(at(0), Some(0));
    assert_eq!(at(100), Some(100));
    assert_eq!(at(101), Some(100));
    assert_eq!(at(255), Some(100));
    assert_eq!(Progress::new("x").percentage, None);
}
