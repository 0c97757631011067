use fabric_servers::config::{
    ServerState, BLUEMAP_MOD_PORT, BLUEMAP_PORT, BUFFER_TIMEOUT, CLIENT_PORT, INIT_TIMEOUT,
    PROXY_PORT, SRV_DIR, SRV_STARTUP_SCRIPT, TMUX_SESSION,
};
use fabric_servers::monitor::{
    accepts_connections, assign_listeners, watch_idle, watch_proxy, IdleAction, IdleEvent,
    Listeners, ProxyAction, ProxyEvent,
};
use fabric_servers::socket::{get_systemd_sockets, listen_fds_count, listener_fds, FdRange};

const STATES: [ServerState; 5] = [
    ServerState::NotStarted,
    ServerState::Starting,
    ServerState::Started,
    ServerState::ShuttingDown,
    ServerState::ShutDown,
];

#[test]
fn parameters() {
    assert_eq!(SRV_DIR, ".local/share/srv");
    assert_eq!(SRV_STARTUP_SCRIPT, "./run");
    assert_eq!(TMUX_SESSION, "fabric-servers");
    assert_eq!((BUFFER_TIMEOUT, INIT_TIMEOUT), (25, 60));
    assert_eq!((CLIENT_PORT, BLUEMAP_PORT, PROXY_PORT, BLUEMAP_MOD_PORT), (25565, 31898, 25564, 8100));
}

#[test]
fn states_are_ordered() {
    for i in 0..5 {
        for j in 0..5 {
            assert_eq!(STATES[i] < STATES[j], i < j);
            assert_eq!(STATES[i] == STATES[j], i == j);
            assert_eq!(STATES[i].cmp(&STATES[j]), i.cmp(&j));
            assert_eq!(STATES[i].partial_cmp(&STATES[j]), i.partial_cmp(&j));
        }
        assert_eq!(STATES[i].rank() as usize, i);
        assert_eq!(accepts_connections(STATES[i]), i < 3);
    }
}

#[test]
fn file_descriptors() {
    assert_eq!(listener_fds(Some("2")), FdRange { first: 3, end: 5 });
    assert_eq!(listener_fds(Some("0")), FdRange { first: 3, end: 3 });
    assert_eq!(listener_fds(Some("two")), FdRange { first: 3, end: 3 });
    assert_eq!(listener_fds(None), FdRange { first: 3, end: 3 });
    assert_eq!(listener_fds(Some("-1")), FdRange { first: 3, end: 2 });
    assert_eq!(listen_fds_count(Some("2147483647")), 2147483647);
    assert_eq!(listen_fds_count(Some("2147483648")), 0);
}

#[test]
fn listeners_by_port() {
    let sockets = get_systemd_sockets(&vec![Some(25565), None, Some(31898), Some(25565)]);
    assert_eq!(sockets.len(), 2);
    assert_eq!(sockets[&25565], 3);
    assert_eq!(sockets[&31898], 2);
    assert_eq!(assign_listeners(&sockets), Ok(Listeners { client: 3, bluemap: Some(2) }));
    let sockets = get_systemd_sockets(&vec![Some(25565)]);
    assert_eq!(assign_listeners(&sockets), Ok(Listeners { client: 0, bluemap: None }));
    let sockets = get_systemd_sockets(&vec![Some(31898), None]);
    assert_eq!(assign_listeners(&sockets), Err(1));
    assert!(get_systemd_sockets(&vec![]).is_empty());
}

#[test]
fn the_proxy_is_watched() {
    assert_eq!(watch_proxy(ProxyEvent::Begin), ProxyAction::Sleep(5));
    for s in STATES {
        let expected = if s == ServerState::Started {
            ProxyAction::Connect
        } else {
            ProxyAction::Sleep(5)
        };
        assert_eq!(watch_proxy(ProxyEvent::Woke(s)), expected);
    }
    assert_eq!(watch_proxy(ProxyEvent::Accepted(true)), ProxyAction::Sleep(5));
    assert_eq!(watch_proxy(ProxyEvent::Accepted(false)), ProxyAction::CleanUp);
    assert_eq!(watch_proxy(ProxyEvent::CleanedUp(true)), ProxyAction::Exit(0));
    assert_eq!(watch_proxy(ProxyEvent::CleanedUp(false)), ProxyAction::Exit(1));
}

#[test]
fn an_idle_daemon_ends() {
    assert_eq!(watch_idle(IdleEvent::State(ServerState::NotStarted)), IdleAction::Sleep(1));
    assert_eq!(watch_idle(IdleEvent::State(ServerState::Starting)), IdleAction::Stop);
    assert_eq!(watch_idle(IdleEvent::State(ServerState::Started)), IdleAction::Stop);
    assert_eq!(watch_idle(IdleEvent::Times { last: 100, now: 159 }), IdleAction::CheckState);
    assert_eq!(watch_idle(IdleEvent::Times { last: 100, now: 160 }), IdleAction::Exit(0));
    assert_eq!(watch_idle(IdleEvent::Times { last: 100, now: 100 }), IdleAction::CheckState);
}

fn watch(states: &[ServerState], accepts: &[bool], cleaned: bool) -> (u64, usize, Option<i32>) {
    let mut slept = 0;
    let mut cleanups = 0;
    let mut looks = 0;
    let mut event = ProxyEvent::Begin;
    loop {
        event = match watch_proxy(event) {
            ProxyAction::Sleep(secs) => {
                slept += secs;
                if looks == states.len() {
                    return (slept, cleanups, None);
                }
                looks += 1;
                ProxyEvent::Woke(states[looks - 1])
            }
            ProxyAction::Connect => ProxyEvent::Accepted(accepts[looks - 1]),
            ProxyAction::CleanUp => {
                cleanups += 1;
                ProxyEvent::CleanedUp(cleaned)
            }
            ProxyAction::Exit(code) => return (slept, cleanups, Some(code)),
        };
    }
}

#[test]
fn the_daemon_follows_the_proxy() {
    let states = [
        ServerState::NotStarted,
        ServerState::Starting,
        ServerState::Started,
        ServerState::Started,
    ];
    assert_eq!(watch(&states, &[false, false, true, false], true), (20, 1, Some(0)));
    assert_eq!(watch(&states, &[false, false, false, false], false), (15, 1, Some(1)));
    assert_eq!(watch(&states, &[false, false, true, true], true), (25, 0, None));
}

fn idle(states: &[ServerState], times: &[(u64, u64)]) -> (IdleAction, usize) {
    let mut look = 0;
    let mut event = IdleEvent::State(states[0]);
    loop {
        let action = watch_idle(event);
        event = match action {
            IdleAction::Sleep(_) => IdleEvent::Times { last: times[look].0, now: times[look].1 },
            IdleAction::CheckState if look + 1 < states.len() => {
                look += 1;
                IdleEvent::State(states[look])
            }
            _ => return (action, look),
        };
    }
}

#[test]
fn the_watch_for_clients_ends() {
    let waiting = [ServerState::NotStarted; 3];
    assert_eq!(idle(&waiting, &[(0, 1), (0, 59), (0, 60)]), (IdleAction::Exit(0), 2));
    assert_eq!(idle(&waiting, &[(0, 1), (50, 59), (50, 60)]), (IdleAction::CheckState, 2));
    let started = [ServerState::NotStarted, ServerState::Starting, ServerState::NotStarted];
    assert_eq!(idle(&started, &[(0, 1), (0, 60), (0, 61)]), (IdleAction::Stop, 1));
}
