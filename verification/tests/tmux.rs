use fabric_servers::config::ServerState;
use fabric_servers::tmux::{
    begin_start, cleanup_servers, find_proxy, get_tmux_socket_path, is_process_running,
    kill_session_args, launch_servers, names_proxy, pane_queries, pane_query_args,
    process_query_args, server_pid, server_pids, start_servers, start_tmux_windows, CleanupAction,
    CleanupEvent, CleanupPhase, LaunchAction, LaunchEvent, LaunchPhase, ServerEntry, Signal,
    StartError,
};

#[test]
fn socket_paths() {
    assert_eq!(get_tmux_socket_path(Some("/run/user/1000")), "/run/user/1000/fabric-servers.sock");
    assert_eq!(get_tmux_socket_path(Some("/run/")), "/run/fabric-servers.sock");
    assert_eq!(get_tmux_socket_path(Some("")), "fabric-servers.sock");
    assert_eq!(get_tmux_socket_path(None), "/tmp/fabric-servers.sock");
}

#[test]
fn arguments() {
    assert_eq!(kill_session_args("/s"), ["-S", "/s", "kill-session", "-t", "fabric-servers"]);
    assert_eq!(
        pane_query_args("/s", "lobby"),
        ["-S", "/s", "display-message", "-pt", "fabric-servers:lobby.0", "#{pane_pid}"]
    );
    assert_eq!(process_query_args(4242), ["-0", "4242"]);
    assert_eq!(process_query_args(-7), ["-0", "-7"]);
}

#[test]
fn processes() {
    assert_eq!(server_pid(b"4242\n"), Some(4242));
    assert_eq!(server_pid(b"  17\t\r\n"), Some(17));
    assert_eq!(server_pid(b""), None);
    assert_eq!(server_pid(b"no server running\n"), None);
    assert_eq!(server_pid(b"99999999999"), None);
    assert_eq!(server_pid(b"1\xff"), None);
    assert!(is_process_running(Some(true)));
    assert!(!is_process_running(Some(false)));
    assert!(!is_process_running(None));
}

#[test]
fn the_start_is_claimed_once() {
    let mut state = ServerState::NotStarted;
    assert_eq!(begin_start(&mut state), Ok(()));
    assert_eq!(state, ServerState::Starting);
    assert_eq!(begin_start(&mut state), Err(StartError::AlreadyRunning));
    assert_eq!(state, ServerState::Starting);
    for s in [ServerState::Started, ServerState::ShuttingDown, ServerState::ShutDown] {
        let mut state = s;
        assert_eq!(begin_start(&mut state), Err(StartError::AlreadyRunning));
        assert_eq!(state, s);
    }
}

fn list(names: &[&str]) -> Vec<String> {
    names.iter().map(|n| n.to_string()).collect()
}

#[test]
fn proxies_by_name() {
    assert!(names_proxy("Velocity"));
    assert!(names_proxy("my-Velocity-3"));
    assert!(names_proxy("a\nVelocity\nb"));
    assert!(names_proxy("velocity"));
    assert!(names_proxy("the-VELOCITY-proxy"));
    assert!(names_proxy("\u{130}veLOCityx"));
    assert!(!names_proxy("Veloc\u{130}ty"));
    assert!(!names_proxy("Veloc\u{131}ty"));
    assert!(!names_proxy("Velo city"));
    assert!(!names_proxy(""));
    assert_eq!(find_proxy(&list(&["lobby", "xVelocity", "Velocity"])), Some(1));
    assert_eq!(find_proxy(&list(&["lobby", "velocity-proxy", "Velocity"])), Some(1));
    assert_eq!(find_proxy(&list(&["lobby", "world"])), None);
    assert_eq!(find_proxy(&list(&[])), None);
}

fn dir(name: &str) -> Option<ServerEntry> {
    Some(ServerEntry { name: name.to_string(), is_dir: true })
}

#[test]
fn the_proxy_is_started_first() {
    let entries = vec![
        dir("lobby"),
        None,
        Some(ServerEntry { name: "Velocity.log".to_string(), is_dir: false }),
        dir("Velocity"),
        dir("world1"),
    ];
    let plan = start_tmux_windows("/home/u/.local/share/srv", "/s", &entries).ok().unwrap();
    assert_eq!(plan.window_names, ["lobby", "Velocity", "world1"]);
    assert_eq!(
        plan.session,
        [
            "-S", "/s", "new-session", "-d", "-s", "fabric-servers", "-n", "Velocity", "-c",
            "/home/u/.local/share/srv/Velocity", "./run"
        ]
    );
    assert_eq!(
        plan.windows,
        [
            [
                "-S", "/s", "new-window", "-t", "fabric-servers", "-n", "lobby", "-c",
                "/home/u/.local/share/srv/lobby", "./run"
            ],
            [
                "-S", "/s", "new-window", "-t", "fabric-servers", "-n", "world1", "-c",
                "/home/u/.local/share/srv/world1", "./run"
            ]
        ]
    );
}

#[test]
fn without_a_proxy_the_first_server_is_first() {
    let entries = vec![dir("lobby"), dir("world1")];
    let plan = start_tmux_windows("/r", "/s", &entries).ok().unwrap();
    assert_eq!(plan.window_names, ["lobby", "world1"]);
    assert_eq!(plan.session[7], "lobby");
    assert_eq!(plan.windows.len(), 1);
    assert_eq!(plan.windows[0][6], "world1");
}

#[test]
fn without_servers_there_is_no_plan() {
    assert_eq!(start_tmux_windows("/r", "/s", &vec![]).err(), Some(StartError::NoServers));
    let entries = vec![None, Some(ServerEntry { name: "x".to_string(), is_dir: false })];
    assert_eq!(start_tmux_windows("/r", "/s", &entries).err(), Some(StartError::NoServers));
}

#[test]
fn messages_of_start_errors() {
    assert_eq!(StartError::AlreadyRunning.message(), "Startup task is already running.");
    assert_eq!(StartError::NoServers.message(), "Found no servers in the directory");
}

#[test]
fn started_servers_are_remembered() {
    let mut servers = list(&["a"]);
    assert_eq!(start_servers(&mut servers, Ok(list(&["b", "c"]))), None);
    assert_eq!(servers, ["a", "b", "c"]);
    assert_eq!(start_servers(&mut servers, Err(StartError::NoServers)), Some(1));
    assert_eq!(start_servers(&mut servers, Err(StartError::AlreadyRunning)), Some(1));
    assert_eq!(servers, ["a", "b", "c"]);
}

fn end_process(alive_for: usize) -> (Vec<Signal>, u64, usize) {
    let mut phase = CleanupPhase::Fresh;
    let mut event = CleanupEvent::Begin;
    let mut sent = Vec::new();
    let mut secs = 0;
    let mut probes = 0;
    for _ in 0..33 {
        let (next, action) = cleanup_servers(4242, phase, event);
        phase = next;
        event = match action {
            CleanupAction::Wait(s) => {
                secs += s;
                CleanupEvent::Waited
            }
            CleanupAction::Probe(pid) => {
                assert_eq!(pid, 4242);
                probes += 1;
                CleanupEvent::Running(probes <= alive_for)
            }
            CleanupAction::Send(pid, signal) => {
                assert_eq!(pid, 4242);
                sent.push(signal);
                CleanupEvent::Sent
            }
            CleanupAction::Finish => return (sent, secs, probes),
        };
    }
    panic!("did not end")
}

#[test]
fn signals_follow_the_schedule() {
    let schedule = [
        Signal::Term, Signal::Term, Signal::Term, Signal::Int, Signal::Int, Signal::Int,
        Signal::Hup, Signal::Hup, Signal::Hup, Signal::Kill,
    ];
    for k in 0..11 {
        let (sent, secs, probes) = end_process(k);
        assert_eq!(sent, schedule[..k]);
        assert_eq!(secs, 10 + 10 * (k.min(9) as u64));
        assert_eq!(probes, (k + 1).min(10));
    }
    assert_eq!(
        cleanup_servers(7, CleanupPhase::Checking { sent: 200 }, CleanupEvent::Running(true)),
        (CleanupPhase::Killing, CleanupAction::Send(7, Signal::Kill))
    );
}

#[test]
fn every_window_is_asked_once_and_in_order() {
    assert_eq!(
        pane_queries("/s", &list(&["lobby", "world1", "lobby"])),
        [
            pane_query_args("/s", "lobby"),
            pane_query_args("/s", "world1"),
            pane_query_args("/s", "lobby")
        ]
    );
    assert!(pane_queries("/s", &list(&[])).is_empty());
}

#[test]
fn all_processes_or_none() {
    let out = |text: &str| Some(text.as_bytes().to_vec());
    assert_eq!(server_pids(&vec![]), Some(vec![]));
    assert_eq!(server_pids(&vec![out("12\n"), out(" 7 "), out("12")]), Some(vec![12, 7, 12]));
    assert_eq!(server_pids(&vec![out("12\n"), out("none")]), None);
    assert_eq!(server_pids(&vec![out("12\n"), None]), None);
    assert_eq!(server_pids(&vec![None, out("12\n")]), None);
}

type Launch = (Vec<LaunchAction<Vec<String>, Vec<Vec<String>>>>, ServerState);

fn launch(state: ServerState, names: &[&str]) -> Launch {
    let mut state = state;
    let mut phase: LaunchPhase<Vec<String>, Vec<Vec<String>>> = LaunchPhase::Fresh;
    let mut event = LaunchEvent::Begin;
    let mut actions = Vec::new();
    loop {
        let (next, action) = launch_servers(&mut state, "/s", phase, event);
        phase = next;
        event = match &action {
            LaunchAction::Run(_) => LaunchEvent::Ran,
            LaunchAction::List => LaunchEvent::Listed {
                root: "/r".to_string(),
                entries: names.iter().map(|n| dir(n)).collect(),
            },
            _ => {
                actions.push(action);
                return (actions, state);
            }
        };
        actions.push(action);
    }
}

#[test]
fn a_launch_runs_in_order() {
    let entries = vec![dir("lobby"), dir("velocity-proxy")];
    let plan = start_tmux_windows("/r", "/s", &entries).ok().unwrap();
    assert_eq!(plan.session[7], "velocity-proxy");
    assert_eq!(plan.windows[0][6], "lobby");
    assert_eq!(
        launch(ServerState::NotStarted, &["lobby", "velocity-proxy"]),
        (
            vec![
                LaunchAction::Run(kill_session_args("/s")),
                LaunchAction::List,
                LaunchAction::Run(plan.session),
                LaunchAction::Spread {
                    names: list(&["lobby", "velocity-proxy"]),
                    windows: plan.windows
                }
            ],
            ServerState::Starting
        )
    );
}

#[test]
fn a_launch_without_servers_only_ends_the_session() {
    assert_eq!(
        launch(ServerState::NotStarted, &[]),
        (
            vec![
                LaunchAction::Run(kill_session_args("/s")),
                LaunchAction::List,
                LaunchAction::Refuse(StartError::NoServers)
            ],
            ServerState::Starting
        )
    );
}

#[test]
fn a_refused_launch_runs_nothing() {
    for s in [ServerState::Starting, ServerState::Started, ServerState::ShutDown] {
        assert_eq!(
            launch(s, &["lobby"]),
            (vec![LaunchAction::Refuse(StartError::AlreadyRunning)], s)
        );
    }
    let mut state = ServerState::NotStarted;
    let step = launch_servers(&mut state, "/s", LaunchPhase::Fresh, LaunchEvent::Ran);
    assert_eq!(step, (LaunchPhase::Done, LaunchAction::Fail));
    assert_eq!(state, ServerState::NotStarted);
}
