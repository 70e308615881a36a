use rdm::command::CommandStatus;
use rdm::protocol::WsMessage;
use rdm::registry::{Device, DeviceRegistry};
use rdm::session::{DispatchError, Hub, Reaction, SessionError, SessionState};

fn s(x: &str) -> String {
    x.to_string()
}

fn heartbeat(dev: &str, ts: i64) -> WsMessage {
    WsMessage::Heartbeat { device_id: s(dev), timestamp: ts }
}

/// A hub with device `dev` authenticated on connection `conn` at time `now`.
fn hub_with(conn: u64, dev: &str, now: i64) -> Hub {
    let mut hub = Hub::new(15_000);
    connect_device(&mut hub, conn, dev, now);
    hub
}

fn connect_device(hub: &mut Hub, conn: u64, dev: &str, now: i64) {
    hub.connect(conn, now).unwrap();
    let r = hub.receive(conn, WsMessage::Auth { token: s("tok") }, now).unwrap();
    assert_eq!(r, Reaction::Verify(s("tok")));
    assert_eq!(hub.state_of(conn), SessionState::Authenticating);
    assert_eq!(hub.auth_result(conn, Some(s(dev)), now), Ok(true));
    assert_eq!(hub.state_of(conn), SessionState::Active);
}

#[test]
fn dispatch_round_trip_scenario() {
    let mut hub = Hub::new(15_000);
    let c1 = hub.enqueue_command(s("d1"), s("uname -a"), false).unwrap();
    assert_eq!(hub.dispatch("d1", &c1), Err(DispatchError::DeviceOffline));
    assert_eq!(hub.get_command(&c1).unwrap().status, CommandStatus::Queued);

    connect_device(&mut hub, 1, "d1", 1_000);
    assert_eq!(hub.receive(1, heartbeat("d1", 1), 2_000), Ok(Reaction::Accepted));
    assert_eq!(hub.dispatch("d1", &c1), Ok(()));
    assert_eq!(hub.get_command(&c1).unwrap().status, CommandStatus::Executing);
    let out = hub.take_outbox(1);
    assert_eq!(out, vec![WsMessage::Command { id: c1.clone(), command: s("uname -a"), sudo: false }]);
    assert!(hub.take_outbox(1).is_empty());

    let result = WsMessage::CommandResult { id: c1.clone(), success: true, output: s("ok"), error: None };
    assert_eq!(hub.receive(1, result, 3_000), Ok(Reaction::Accepted));
    let c = hub.get_command(&c1).unwrap();
    assert_eq!(c.status, CommandStatus::Completed);
    assert_eq!(c.status.as_text(), "completed");
    assert_eq!(c.output, Some(s("ok")));
}

#[test]
fn duplicate_result_scenario() {
    let mut hub = hub_with(1, "d1", 0);
    let c1 = hub.enqueue_command(s("d1"), s("ls"), false).unwrap();
    hub.dispatch("d1", &c1).unwrap();
    let result = WsMessage::CommandResult { id: c1.clone(), success: true, output: s("ok"), error: None };
    assert_eq!(hub.receive(1, result.clone(), 500), Ok(Reaction::Accepted));
    let at = hub.get_command(&c1).unwrap().completed_at;
    assert_eq!(at, Some(500));
    assert_eq!(hub.receive(1, result, 900), Ok(Reaction::AlreadyFinal));
    assert_eq!(hub.get_command(&c1).unwrap().completed_at, at);
    assert_eq!(hub.state_of(1), SessionState::Active);
}

#[test]
fn failed_result_uses_reported_error() {
    let mut hub = hub_with(1, "d1", 0);
    let c1 = hub.enqueue_command(s("d1"), s("false"), false).unwrap();
    hub.dispatch("d1", &c1).unwrap();
    let result = WsMessage::CommandResult { id: c1.clone(), success: false, output: s(""), error: None };
    assert_eq!(hub.receive(1, result, 10), Ok(Reaction::Accepted));
    let c = hub.get_command(&c1).unwrap();
    assert_eq!(c.status, CommandStatus::Failed);
    assert_eq!(c.error, Some(s("command failed")));
}

#[test]
fn result_for_unknown_command_keeps_session() {
    let mut hub = hub_with(1, "d1", 0);
    let result = WsMessage::CommandResult { id: s("nope"), success: true, output: s(""), error: None };
    assert_eq!(
        hub.receive(1, result, 10),
        Err(SessionError::Ledger(rdm::command::LedgerError::NotFound))
    );
    assert_eq!(hub.state_of(1), SessionState::Active);
}

#[test]
fn dispatch_errors() {
    let mut hub = hub_with(1, "d1", 0);
    let c1 = hub.enqueue_command(s("d1"), s("a"), false).unwrap();
    let c2 = hub.enqueue_command(s("d1"), s("b"), false).unwrap();
    let other = hub.enqueue_command(s("d2"), s("c"), false).unwrap();
    assert_eq!(hub.dispatch("d1", "missing"), Err(DispatchError::NotFound));
    assert_eq!(hub.dispatch("d1", &other), Err(DispatchError::NotFound));
    assert_eq!(hub.dispatch("d1", &c1), Ok(()));
    assert_eq!(hub.dispatch("d1", &c2), Err(DispatchError::InvalidTransition));
    assert_eq!(hub.dispatch("d1", &c1), Err(DispatchError::InvalidTransition));
    assert_eq!(hub.take_outbox(1).len(), 1);
    assert_eq!(hub.get_command(&c2).unwrap().status, CommandStatus::Queued);
}

#[test]
fn heartbeat_timeout_fails_in_flight_command() {
    let mut hub = hub_with(1, "d1", 0);
    connect_device(&mut hub, 2, "d2", 0);
    let c1 = hub.enqueue_command(s("d1"), s("sleep 100"), false).unwrap();
    let c2 = hub.enqueue_command(s("d2"), s("sleep 100"), false).unwrap();
    hub.dispatch("d1", &c1).unwrap();
    hub.dispatch("d2", &c2).unwrap();
    hub.receive(1, heartbeat("d1", 0), 10_000).unwrap();
    hub.receive(2, heartbeat("d2", 0), 20_000).unwrap();
    hub.check_timeouts(20_000);
    assert_eq!(hub.state_of(1), SessionState::Active);
    assert!(hub.registry.is_online("d1"));
    hub.check_timeouts(25_001);
    assert_eq!(hub.state_of(1), SessionState::Closing);
    assert!(!hub.registry.is_online("d1"));
    let c = hub.get_command(&c1).unwrap();
    assert_eq!(c.status, CommandStatus::Failed);
    assert_eq!(c.error, Some(s("heartbeat timeout")));
    assert_eq!(c.completed_at, Some(25_001));
    assert_eq!(hub.state_of(2), SessionState::Active);
    assert!(hub.registry.is_online("d2"));
    assert_eq!(hub.get_command(&c2).unwrap().status, CommandStatus::Executing);
    assert_eq!(hub.dispatch("d1", &c1), Err(DispatchError::DeviceOffline));
    assert_eq!(hub.receive(1, heartbeat("d1", 0), 25_002), Err(SessionError::NotAccepting));
    assert!(hub.disconnect(1, 25_003));
    assert_eq!(hub.state_of(1), SessionState::Closed);
    assert!(!hub.disconnect(1, 25_004));
}

#[test]
fn first_message_must_be_auth() {
    let mut hub = Hub::new(1_000);
    hub.connect(7, 0).unwrap();
    assert_eq!(hub.receive(7, heartbeat("d1", 0), 1), Err(SessionError::ProtocolViolation));
    assert_eq!(hub.state_of(7), SessionState::Closing);
    assert_eq!(hub.receive(8, heartbeat("d1", 0), 1), Err(SessionError::UnknownConnection));
    assert_eq!(hub.connect(7, 2), Err(SessionError::DuplicateConnection));
}

#[test]
fn refused_token_sends_error_and_closes() {
    let mut hub = Hub::new(1_000);
    hub.connect(3, 0).unwrap();
    hub.receive(3, WsMessage::Auth { token: s("bad") }, 0).unwrap();
    assert_eq!(hub.auth_result(3, None, 1), Ok(false));
    assert_eq!(hub.state_of(3), SessionState::Closing);
    assert_eq!(
        hub.take_outbox(3),
        vec![WsMessage::Error { code: s("auth_failed"), message: s("authentication failed") }]
    );
    assert_eq!(hub.auth_result(3, Some(s("d1")), 2), Err(SessionError::NotAccepting));
}

#[test]
fn message_for_another_device_ends_session() {
    let mut hub = hub_with(1, "d1", 0);
    let c1 = hub.enqueue_command(s("d1"), s("ls"), false).unwrap();
    hub.dispatch("d1", &c1).unwrap();
    assert_eq!(hub.receive(1, heartbeat("d2", 0), 5), Err(SessionError::ProtocolViolation));
    assert_eq!(hub.state_of(1), SessionState::Closing);
    assert!(!hub.registry.is_online("d1"));
    assert_eq!(hub.get_command(&c1).unwrap().status, CommandStatus::Failed);
}

#[test]
fn reconnect_replaces_old_session() {
    let mut hub = hub_with(1, "d1", 0);
    connect_device(&mut hub, 2, "d1", 10);
    assert_eq!(hub.state_of(1), SessionState::Closing);
    assert_eq!(hub.state_of(2), SessionState::Active);
    assert!(hub.registry.is_online("d1"));
}

#[test]
fn device_info_and_logs_are_recorded() {
    let mut hub = hub_with(1, "d1", 100);
    let info = WsMessage::DeviceInfo { device_id: s("d1"), info: s("{\"model\":\"P7\"}") };
    assert_eq!(hub.receive(1, info, 200), Ok(Reaction::Accepted));
    let d = hub.registry.get("d1").unwrap();
    assert_eq!(d.device_info, "{\"model\":\"P7\"}");
    assert_eq!(d.created_at, 100);
    assert_eq!(d.last_seen, 200);
    let log = WsMessage::Log { device_id: s("d1"), level: s("info"), message: s("boot"), data: None };
    assert_eq!(hub.receive(1, log, 300), Ok(Reaction::Accepted));
    assert_eq!(hub.logs.len(), 1);
    assert_eq!(hub.logs[0].message, "boot");
    assert_eq!(hub.logs[0].timestamp, 300);
    assert_eq!(hub.logs[0].id.len(), 36);
    let online = hub.list_online_devices();
    assert_eq!(online.len(), 1);
    assert_eq!(online[0].id, "d1");
}

#[test]
fn registry_upsert_touch_and_offline() {
    let mut r = DeviceRegistry::new();
    r.upsert(Device::unnamed(s("a"), 10), 10);
    r.upsert(Device::unnamed(s("b"), 20), 20);
    assert!(r.touch("a", 30));
    assert!(!r.touch("zz", 30));
    assert_eq!(r.get("a").unwrap().last_seen, 30);
    assert!(r.touch("a", 25));
    assert_eq!(r.get("a").unwrap().last_seen, 30);
    let mut renamed = Device::unnamed(s("a"), 99);
    renamed.name = s("phone");
    r.upsert(renamed, 40);
    let a = r.get("a").unwrap();
    assert_eq!(a.name, "phone");
    assert_eq!(a.created_at, 10);
    assert_eq!(a.last_seen, 40);
    assert!(r.mark_offline("a"));
    assert!(!r.mark_offline("zz"));
    let online = r.list_online();
    assert_eq!(online.len(), 1);
    assert_eq!(online[0].id, "b");
}

#[test]
fn result_for_another_devices_command_is_refused() {
    let mut hub = hub_with(1, "d1", 0);
    connect_device(&mut hub, 2, "d2", 0);
    let c1 = hub.enqueue_command(s("d1"), s("ls"), false).unwrap();
    hub.dispatch("d1", &c1).unwrap();
    let result = WsMessage::CommandResult { id: c1.clone(), success: true, output: s("x"), error: None };
    assert_eq!(
        hub.receive(2, result, 10),
        Err(SessionError::Ledger(rdm::command::LedgerError::NotFound))
    );
    assert_eq!(hub.get_command(&c1).unwrap().status, CommandStatus::Executing);
    assert_eq!(hub.state_of(2), SessionState::Active);
}

#[test]
fn session_expires_at_exactly_the_window() {
    let mut hub = hub_with(1, "d1", 0);
    hub.check_timeouts(14_999);
    assert_eq!(hub.state_of(1), SessionState::Active);
    hub.check_timeouts(15_000);
    assert_eq!(hub.state_of(1), SessionState::Closing);
    assert!(hub.list_online_devices().is_empty());
}
