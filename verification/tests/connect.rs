use fabric_servers::config::ServerState;
use fabric_servers::connect::{
    handle_client, handle_handshake, read_handshake, status_packet_for, status_response,
    status_value, wait_for_proxy, Action, Event, NextState, Phase, StatusError, WaitAction,
    WaitEvent, VERSION_NAME, VERSION_PROTOCOL,
};

const DESCRIPTION: &str = "{\"text\": \"A \\\"server\\\"\", \"bold\": true, \"n\": 1}";

fn varint(mut n: usize) -> Vec<u8> {
    let mut out = Vec::new();
    while n >= 128 {
        out.push((n % 128 + 128) as u8);
        n /= 128;
    }
    out.push(n as u8);
    out
}

fn packet(id: u8, body: &[u8]) -> Vec<u8> {
    let mut out = varint(1 + body.len());
    out.push(id);
    out.extend_from_slice(body);
    out
}

fn handshake(version: usize, host: &str, port: u16, next: u8) -> Vec<u8> {
    let mut body = varint(version);
    body.extend(varint(host.len()));
    body.extend_from_slice(host.as_bytes());
    body.push((port / 256) as u8);
    body.push((port % 256) as u8);
    body.push(next);
    packet(0, &body)
}

#[test]
fn handshakes_are_read() {
    assert_eq!(read_handshake(&handshake(763, "localhost", 25565, 1)), Some(NextState::Status));
    assert_eq!(read_handshake(&handshake(763, "localhost", 25565, 2)), Some(NextState::Login));
    assert_eq!(read_handshake(&handshake(0, "", 0, 2)), Some(NextState::Login));
    assert_eq!(
        read_handshake(&handshake(2147483647, "m\u{e9}.example", 65535, 1)),
        Some(NextState::Status)
    );
    let mut followed = handshake(763, &"h".repeat(300), 1, 2);
    followed.extend_from_slice(&[1, 0, 0xff]);
    assert_eq!(read_handshake(&followed), Some(NextState::Login));
}

#[test]
fn handshakes_of_any_version_are_read() {
    for version in [0xffff_ffff, 0x8000_0000, 0xffff_fffe] {
        assert_eq!(
            read_handshake(&handshake(version, "localhost", 25565, 1)),
            Some(NextState::Status)
        );
    }
}

#[test]
fn broken_handshakes_ask_for_nothing() {
    let body = |host: &[u8], tail: &[u8]| {
        let mut body = varint(763);
        body.extend(varint(host.len()));
        body.extend_from_slice(host);
        body.extend_from_slice(tail);
        body
    };
    assert_eq!(
        read_handshake(&packet(0, &body(b"h", &[0, 1, 2]))),
        Some(NextState::Login)
    );
    assert_eq!(read_handshake(&packet(0, &body(b"\xff", &[0, 1, 2]))), None);
    assert_eq!(read_handshake(&packet(0, &body(b"h", &[0, 1, 0]))), None);
    assert_eq!(read_handshake(&packet(0, &body(b"h", &[0, 1, 0xff, 0xff, 0xff, 0xff, 0x0f]))), None);
    assert_eq!(read_handshake(&packet(0, &body(b"h", &[0, 1, 2, 2]))), None);
    let full = body(b"host", &[0, 1, 2]);
    for n in 0..full.len() {
        assert_eq!(read_handshake(&packet(0, &full[..n])), None);
    }
    assert_eq!(read_handshake(&[0, 0, 1]), None);
    let mut huge = varint(2097153);
    huge.extend_from_slice(&full);
    assert_eq!(read_handshake(&huge), None);
    let mut negative = varint(0xffff_ffff);
    negative.extend_from_slice(&full);
    assert_eq!(read_handshake(&negative), None);
}

#[test]
fn anything_else_is_no_handshake() {
    assert_eq!(read_handshake(&[]), None);
    assert_eq!(read_handshake(b"GET / HTTP/1.1\r\n\r\n"), None);
    assert_eq!(read_handshake(&handshake(763, "localhost", 25565, 3)), None);
    assert_eq!(read_handshake(&packet(1, &[0])), None);
    assert_eq!(read_handshake(&[0xff, 0xff, 0xff, 0xff, 0xff, 0xff]), None);
    let whole = handshake(763, "localhost", 25565, 2);
    assert_eq!(read_handshake(&whole[..whole.len() - 1]), None);
}

fn status_text(favicon: &str) -> String {
    format!(
        "{{\"description\":{{\"bold\":true,\"n\":1,\"text\":\"A \\\"server\\\"\"}},\"favicon\":\"data:image/png;base64,{}\",\"version\":{{\"name\":\"1.21.1\",\"protocol\":763}}}}",
        favicon
    )
}

fn status_packet(text: &str) -> Vec<u8> {
    let mut body = varint(text.len());
    body.extend_from_slice(text.as_bytes());
    packet(0, &body)
}

#[test]
fn status_is_a_packet_with_the_document() {
    assert_eq!((VERSION_NAME, VERSION_PROTOCOL), ("1.21.1", 763));
    for (bytes, text) in [
        (&b""[..], ""),
        (&b"f"[..], "Zg=="),
        (&b"fo"[..], "Zm8="),
        (&b"foo"[..], "Zm9v"),
        (&b"foob"[..], "Zm9vYg=="),
        (&[0xfb, 0xff, 0xfe][..], "+//+"),
        (&[0x89, 0x50, 0x4e, 0x47, 0x0d, 0x0a, 0x1a, 0x0a][..], "iVBORw0KGgo="),
    ] {
        assert_eq!(status_response(bytes, DESCRIPTION), Ok(status_packet(&status_text(text))));
    }
}

#[test]
fn status_document_keeps_the_description() {
    let description: serde_json::Value = serde_json::from_str("[1, null, \"x\"]").unwrap();
    let v = status_value(description.clone(), b"foo");
    assert_eq!(v["description"], description);
    assert_eq!(v["favicon"], "data:image/png;base64,Zm9v");
    assert_eq!(v["version"]["name"], "1.21.1");
    assert_eq!(v["version"]["protocol"], 763);
    assert_eq!(v.as_object().unwrap().len(), 3);
}

#[test]
fn status_errors() {
    assert_eq!(status_response(b"foo", "{"), Err(StatusError::Description));
    assert_eq!(status_response(b"foo", ""), Err(StatusError::Description));
    let fits = "x".repeat(2097152 - 1 - 3);
    assert_eq!(status_packet_for(&fits), Ok(status_packet(&fits)));
    let large = "x".repeat(2097152 - 1 - 2);
    assert_eq!(status_packet_for(&large), Err(StatusError::TooLarge));
    assert_eq!(status_response(&vec![0u8; 1600000], DESCRIPTION), Err(StatusError::TooLarge));
    assert_eq!(status_packet_for("{}"), Ok(vec![4, 0, 2, b'{', b'}']));
}

struct World {
    state: ServerState,
    packet: Option<Vec<u8>>,
    launches: bool,
    proxy_up: bool,
    connects: bool,
}

fn run(world: &World) -> Vec<Action<Vec<u8>>> {
    let mut phase: Phase<Vec<u8>> = Phase::Fresh;
    let mut event: Event<Vec<u8>> = Event::State(world.state);
    let mut all = Vec::new();
    let so = |yes: bool, e: Event<Vec<u8>>| if yes { e } else { Event::Failed };
    for _ in 0..5 {
        let (next, action) = handle_client(b"foo", DESCRIPTION, phase, event);
        phase = next;
        event = match &action {
            Action::ReadPacket => match &world.packet {
                Some(p) => Event::Packet(p.clone()),
                None => Event::Failed,
            },
            Action::StartServers => so(world.launches, Event::Launched),
            Action::AwaitProxy => so(world.proxy_up, Event::ProxyUp),
            Action::Dial => so(world.connects, Event::Connected),
            _ => {
                assert_eq!(phase, Phase::Done);
                all.push(action);
                return all;
            }
        };
        all.push(action);
    }
    panic!("did not end")
}

fn world(state: ServerState, packet: Option<Vec<u8>>) -> World {
    World { state, packet, launches: true, proxy_up: true, connects: true }
}

#[test]
fn a_login_starts_the_servers_and_reaches_the_proxy() {
    let login = handshake(763, "localhost", 25565, 2);
    assert_eq!(
        run(&world(ServerState::NotStarted, Some(login.clone()))),
        vec![
            Action::ReadPacket,
            Action::StartServers,
            Action::AwaitProxy,
            Action::Dial,
            Action::Relay(login.clone())
        ]
    );
    let mut w = world(ServerState::NotStarted, Some(login.clone()));
    w.launches = false;
    assert_eq!(run(&w).last(), Some(&Action::Exit(1)));
    let mut w = world(ServerState::NotStarted, Some(login.clone()));
    w.proxy_up = false;
    assert_eq!(run(&w).last(), Some(&Action::Exit(1)));
    let mut w = world(ServerState::NotStarted, Some(login));
    w.connects = false;
    assert_eq!(run(&w).last(), Some(&Action::Fail));
}

#[test]
fn a_status_request_is_answered_without_starting() {
    let status = handshake(763, "localhost", 25565, 1);
    assert_eq!(
        run(&world(ServerState::NotStarted, Some(status.clone()))),
        vec![Action::ReadPacket, Action::Reply(status_packet(&status_text("Zm9v")))]
    );
    assert_eq!(
        handle_handshake(b"foo", "no json", NextState::Status, status),
        (Phase::Done, Action::Fail)
    );
}

#[test]
fn clients_by_state() {
    assert_eq!(
        run(&world(ServerState::Started, None)),
        vec![Action::Dial, Action::Relay(vec![])]
    );
    assert_eq!(
        run(&world(ServerState::Starting, None)),
        vec![Action::AwaitProxy, Action::Dial, Action::Relay(vec![])]
    );
    let mut w = world(ServerState::Starting, None);
    w.proxy_up = false;
    assert_eq!(run(&w), vec![Action::AwaitProxy, Action::Exit(1)]);
    assert_eq!(
        run(&world(ServerState::NotStarted, None)),
        vec![Action::ReadPacket, Action::Fail]
    );
    assert_eq!(
        run(&world(ServerState::NotStarted, Some(vec![]))),
        vec![Action::ReadPacket, Action::Close]
    );
    assert_eq!(run(&world(ServerState::ShuttingDown, None)), vec![Action::Close]);
    assert_eq!(run(&world(ServerState::ShutDown, None)), vec![Action::Close]);
    assert_eq!(
        handle_client(b"", "", Phase::Dialing { packet: vec![1] }, Event::Launched),
        (Phase::Done, Action::Fail)
    );
}

#[test]
fn waiting_for_the_proxy() {
    let mut state = ServerState::Starting;
    assert_eq!(wait_for_proxy(&mut state, WaitEvent::Elapsed(0)), WaitAction::Connect);
    assert_eq!(wait_for_proxy(&mut state, WaitEvent::Elapsed(24)), WaitAction::Connect);
    assert_eq!(wait_for_proxy(&mut state, WaitEvent::Accepted(false)), WaitAction::CheckClock);
    assert_eq!(wait_for_proxy(&mut state, WaitEvent::Elapsed(25)), WaitAction::TimedOut);
    assert_eq!(state, ServerState::Starting);
    assert_eq!(wait_for_proxy(&mut state, WaitEvent::Accepted(true)), WaitAction::Ready);
    assert_eq!(state, ServerState::Started);
}

fn wait(elapsed: &[u64], accepted: &[bool]) -> (WaitAction, ServerState, usize) {
    let mut state = ServerState::Starting;
    let mut look = 0;
    let mut event = WaitEvent::Elapsed(elapsed[0]);
    loop {
        let action = wait_for_proxy(&mut state, event);
        event = match action {
            WaitAction::Connect => WaitEvent::Accepted(accepted[look]),
            WaitAction::CheckClock => {
                look += 1;
                WaitEvent::Elapsed(elapsed[look])
            }
            _ => return (action, state, look),
        };
    }
}

#[test]
fn a_wait_ends_with_the_proxy_or_the_time() {
    let clock = [0, 10, 24, 25, 30];
    let never = [false; 5];
    assert_eq!(wait(&clock, &never), (WaitAction::TimedOut, ServerState::Starting, 3));
    let late = [false, false, false, true, true];
    assert_eq!(wait(&clock, &late), (WaitAction::TimedOut, ServerState::Starting, 3));
    let just = [false, false, true, false, false];
    assert_eq!(wait(&clock, &just), (WaitAction::Ready, ServerState::Started, 2));
    assert_eq!(
        WaitAction::TimedOut.message(),
        Some("Timed out while waiting for proxy to start.")
    );
    assert_eq!(WaitAction::Ready.message(), None);
    assert_eq!(wait(&clock, &[true; 5]), (WaitAction::Ready, ServerState::Started, 0));
}
