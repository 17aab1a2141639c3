use ambilight::api::{classify_message, classify_type, Incoming, SessionPhase, WebSocketSession};
use ambilight::models::HASSApiBody;

fn body(entity: &str) -> HASSApiBody {
    HASSApiBody::for_color(entity.to_string(), (1, 2, 3))
}

#[test]
fn auth_message_goes_first() {
    let (session, auth) = WebSocketSession::new("SECRET-REDACTED".to_string());
    assert_eq!(auth.msg_type, "auth");
    assert_eq!(auth.access_token, "SECRET-REDACTED");
    assert_eq!(session.phase(), SessionPhase::AwaitingAuth);
}

#[test]
fn no_command_before_auth_ok() {
    let (mut session, _) = WebSocketSession::new("t".to_string());
    assert!(session.next_command(body("a")).is_none());
    assert_eq!(session.on_message(Incoming::Other), SessionPhase::AwaitingAuth);
    assert!(session.next_command(body("a")).is_none());
    assert_eq!(session.on_message(Incoming::AuthOk), SessionPhase::Ready);
    let c = session.next_command(body("a")).unwrap();
    assert_eq!(c.id, 1);
    assert_eq!(c.msg_type, "call_service");
    assert_eq!(c.domain, "light");
    assert_eq!(c.service, "turn_on");
    assert_eq!(c.service_data.entity_id, "a");
}

#[test]
fn ids_rise_by_one_across_lights() {
    let (mut session, _) = WebSocketSession::new("t".to_string());
    session.on_message(Incoming::AuthOk);
    let ids: Vec<u64> = ["a", "b", "a", "c"]
        .iter()
        .map(|e| session.next_command(body(e)).unwrap().id)
        .collect();
    assert_eq!(ids, vec![1, 2, 3, 4]);
    session.on_message(Incoming::CommandResult);
    assert_eq!(session.next_command(body("b")).unwrap().id, 5);
}

#[test]
fn auth_invalid_fails_the_session() {
    let (mut session, _) = WebSocketSession::new("t".to_string());
    assert_eq!(session.on_message(Incoming::AuthInvalid), SessionPhase::Failed);
    assert_eq!(session.on_message(Incoming::AuthOk), SessionPhase::Failed);
    assert!(session.next_command(body("a")).is_none());
}

#[test]
fn closed_session_sends_nothing() {
    let (mut session, _) = WebSocketSession::new("t".to_string());
    session.on_message(Incoming::AuthOk);
    session.close();
    assert_eq!(session.phase(), SessionPhase::Closed);
    assert!(session.next_command(body("a")).is_none());
}

#[test]
fn messages_classified_by_type_member() {
    assert_eq!(classify_message(r#"{"type":"auth_ok","ha_version":"2024.1"}"#), Incoming::AuthOk);
    assert_eq!(classify_message(r#"{"type": "auth_invalid", "message": "bad"}"#), Incoming::AuthInvalid);
    assert_eq!(classify_message(r#"{"id":3,"type":"result","success":true}"#), Incoming::CommandResult);
    assert_eq!(classify_message(r#"{"type":"auth_required"}"#), Incoming::Other);
    assert_eq!(classify_message(r#"{"type":5}"#), Incoming::Other);
    assert_eq!(classify_message("not json"), Incoming::Other);
    assert_eq!(classify_message(r#"["auth_ok"]"#), Incoming::Other);
}

#[test]
fn type_names_classified() {
    assert_eq!(classify_type(Some("auth_ok".to_string())), Incoming::AuthOk);
    assert_eq!(classify_type(Some("auth_invalid".to_string())), Incoming::AuthInvalid);
    assert_eq!(classify_type(Some("result".to_string())), Incoming::CommandResult);
    assert_eq!(classify_type(Some("event".to_string())), Incoming::Other);
    assert_eq!(classify_type(None), Incoming::Other);
}
