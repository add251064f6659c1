use data_manipulation::node_engine::{
    Incoming, ListenerAction, NodeEngine, Security, SessionAction, SessionEvent, PORT,
};

#[test]
fn listens_on_the_database_port() {
    assert_eq!(PORT, 5432);
}

#[test]
fn encrypts_only_with_certificate_and_password() {
    let node = NodeEngine::default();
    assert_eq!(
        node.security(Some("/etc/cert.pfx".to_owned()), Some("secret".to_owned())),
        Security::Encrypted { certificate_path: "/etc/cert.pfx".to_owned(), password: "secret".to_owned() }
    );
    assert_eq!(node.security(Some("/etc/cert.pfx".to_owned()), None), Security::Plain);
    assert_eq!(node.security(None, Some("secret".to_owned())), Security::Plain);
    assert_eq!(node.security(None, None), Security::Plain);
}

#[test]
fn stops_listening_when_waiting_fails() {
    let node = NodeEngine;
    assert_eq!(node.on_incoming(Incoming::Connected), ListenerAction::Serve);
    assert_eq!(node.on_incoming(Incoming::Failed), ListenerAction::Stop);
}

#[test]
fn session_follows_the_events() {
    let node = NodeEngine;
    assert_eq!(node.on_event(SessionEvent::Accepted), SessionAction::Receive);
    assert_eq!(node.on_event(SessionEvent::Request), SessionAction::Execute);
    assert_eq!(node.on_event(SessionEvent::Executed), SessionAction::Receive);
    assert_eq!(node.on_event(SessionEvent::TransportFailure), SessionAction::FailWithTransportError);
    assert_eq!(node.on_event(SessionEvent::ProtocolFailure), SessionAction::FailWithInvalidInput);
    assert_eq!(node.on_event(SessionEvent::ExecutionEnded), SessionAction::Finish);
}
