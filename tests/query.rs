use rdm::command::CommandStatus;
use rdm::protocol::WsMessage;
use rdm::query::{CommandsQuery, DeviceCommandRequest, DevicesQuery, LogsQuery, SubmitError};
use rdm::session::Hub;

fn s(x: &str) -> String {
    x.to_string()
}

fn active(hub: &mut Hub, conn: u64, dev: &str) {
    hub.connect(conn, 0).unwrap();
    hub.receive(conn, WsMessage::Auth { token: s("t") }, 0).unwrap();
    hub.auth_result(conn, Some(s(dev)), 0).unwrap();
}

fn log(hub: &mut Hub, conn: u64, dev: &str, msg: &str, at: i64) {
    let m = WsMessage::Log { device_id: s(dev), level: s("info"), message: s(msg), data: None };
    hub.receive(conn, m, at).unwrap();
}

#[test]
fn logs_are_filtered_newest_first_and_paged() {
    let mut hub = Hub::new(1_000_000);
    active(&mut hub, 1, "a");
    active(&mut hub, 2, "b");
    log(&mut hub, 1, "a", "a1", 1);
    log(&mut hub, 2, "b", "b1", 2);
    log(&mut hub, 1, "a", "a2", 3);
    log(&mut hub, 1, "a", "a3", 4);
    let msgs = |q: LogsQuery, hub: &Hub| -> Vec<String> {
        hub.get_logs(&q).into_iter().map(|l| l.message).collect()
    };
    assert_eq!(msgs(LogsQuery { device_id: None, limit: None, offset: None }, &hub), vec!["a3", "a2", "b1", "a1"]);
    assert_eq!(msgs(LogsQuery { device_id: Some(s("a")), limit: None, offset: None }, &hub), vec!["a3", "a2", "a1"]);
    assert_eq!(msgs(LogsQuery { device_id: Some(s("a")), limit: Some(1), offset: Some(1) }, &hub), vec!["a2"]);
    assert_eq!(msgs(LogsQuery { device_id: Some(s("a")), limit: Some(-3), offset: None }, &hub), Vec::<String>::new());
    assert_eq!(msgs(LogsQuery { device_id: None, limit: None, offset: Some(10) }, &hub), Vec::<String>::new());
    assert_eq!(msgs(LogsQuery { device_id: Some(s("zz")), limit: None, offset: None }, &hub), Vec::<String>::new());
}

#[test]
fn commands_are_filtered_by_device_and_status() {
    let mut hub = Hub::new(1_000_000);
    let c1 = hub.enqueue_command(s("a"), s("one"), false).unwrap();
    let c2 = hub.enqueue_command(s("b"), s("two"), false).unwrap();
    let c3 = hub.enqueue_command(s("a"), s("three"), false).unwrap();
    active(&mut hub, 1, "a");
    hub.dispatch("a", &c1).unwrap();
    let ids = |q: CommandsQuery, hub: &Hub| -> Vec<String> {
        hub.list_commands(&q).into_iter().map(|c| c.id).collect()
    };
    assert_eq!(ids(CommandsQuery { device_id: s("a"), status: None, limit: None }, &hub), vec![c3.clone(), c1.clone()]);
    assert_eq!(ids(CommandsQuery { device_id: s("a"), status: Some(s("queued")), limit: None }, &hub), vec![c3.clone()]);
    assert_eq!(ids(CommandsQuery { device_id: s("a"), status: Some(s("executing")), limit: None }, &hub), vec![c1.clone()]);
    assert_eq!(ids(CommandsQuery { device_id: s("a"), status: None, limit: Some(1) }, &hub), vec![c3.clone()]);
    assert_eq!(ids(CommandsQuery { device_id: s("b"), status: None, limit: None }, &hub), vec![c2]);
}

#[test]
fn devices_are_filtered_by_online_flag() {
    let mut hub = Hub::new(1_000_000);
    active(&mut hub, 1, "a");
    active(&mut hub, 2, "b");
    hub.disconnect(1, 5);
    let ids = |online: Option<bool>, hub: &Hub| -> Vec<String> {
        hub.list_devices(&DevicesQuery { online }).into_iter().map(|d| d.id).collect()
    };
    assert_eq!(ids(None, &hub), vec!["a", "b"]);
    assert_eq!(ids(Some(true), &hub), vec!["b"]);
    assert_eq!(ids(Some(false), &hub), vec!["a"]);
}

#[test]
fn submit_delivers_or_keeps_queued() {
    let mut hub = Hub::new(1_000_000);
    let req = |dev: &str, cmd: &str| DeviceCommandRequest { device_id: s(dev), command: s(cmd), sudo: true, timeout: None };
    let offline = match hub.submit(req("a", "ls")) {
        Err(SubmitError::DeviceOffline(id)) => id,
        other => panic!("unexpected {:?}", other),
    };
    assert_eq!(hub.get_command(&offline).unwrap().status, CommandStatus::Queued);
    active(&mut hub, 1, "a");
    let sent = hub.submit(req("a", "uptime")).unwrap();
    assert_eq!(hub.get_command(&sent).unwrap().status, CommandStatus::Executing);
    let busy = match hub.submit(req("a", "df")) {
        Err(SubmitError::Busy(id)) => id,
        other => panic!("unexpected {:?}", other),
    };
    assert_eq!(hub.get_command(&busy).unwrap().status, CommandStatus::Queued);
    assert_eq!(
        hub.take_outbox(1),
        vec![WsMessage::Command { id: sent, command: s("uptime"), sudo: true }]
    );
}

#[test]
fn devices_are_listed_most_recently_seen_first() {
    let mut hub = Hub::new(1_000_000);
    for (conn, dev, at) in [(1u64, "a", 1i64), (2, "b", 2), (3, "c", 3)] {
        hub.connect(conn, at).unwrap();
        hub.receive(conn, WsMessage::Auth { token: s("t") }, at).unwrap();
        hub.auth_result(conn, Some(s(dev)), at).unwrap();
    }
    hub.receive(1, WsMessage::Heartbeat { device_id: s("a"), timestamp: 0 }, 10).unwrap();
    let ids: Vec<String> = hub.list_devices(&DevicesQuery { online: None }).into_iter().map(|d| d.id).collect();
    assert_eq!(ids, vec!["a", "c", "b"]);
    let online: Vec<String> = hub.list_online_devices().into_iter().map(|d| d.id).collect();
    assert_eq!(online, vec!["a", "c", "b"]);
}

#[test]
fn logs_are_ordered_by_timestamp() {
    let mut hub = Hub::new(1_000_000);
    active(&mut hub, 1, "a");
    log(&mut hub, 1, "a", "late", 5);
    log(&mut hub, 1, "a", "early", 1);
    log(&mut hub, 1, "a", "tie-old", 3);
    log(&mut hub, 1, "a", "tie-new", 3);
    let msgs: Vec<String> = hub
        .get_logs(&LogsQuery { device_id: None, limit: None, offset: None })
        .into_iter()
        .map(|l| l.message)
        .collect();
    assert_eq!(msgs, vec!["late", "tie-new", "tie-old", "early"]);
}

#[test]
fn queued_submission_keeps_the_request() {
    let mut hub = Hub::new(1_000_000);
    let req = DeviceCommandRequest { device_id: s("x"), command: s("reboot"), sudo: true, timeout: Some(5) };
    let id = match hub.submit(req) {
        Err(SubmitError::DeviceOffline(id)) => id,
        other => panic!("unexpected {:?}", other),
    };
    let c = hub.get_command(&id).unwrap();
    assert_eq!(c.device_id, "x");
    assert_eq!(c.command, "reboot");
    assert!(c.sudo);
    assert_eq!(c.status, CommandStatus::Queued);
}
