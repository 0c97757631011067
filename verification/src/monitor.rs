//! What the daemon watches: the proxy, the time since the last connection, and its listeners.
use crate::config::{ServerState, BLUEMAP_PORT, CLIENT_PORT, INIT_TIMEOUT};
use std::collections::HashMap;
use vstd::prelude::*;

verus! {

/// How many seconds pass between two looks at the proxy.
pub const PROXY_PERIOD: u64 = 5;

/// How many seconds pass between two looks at the time since the last connection.
pub const IDLE_PERIOD: u64 = 1;

/// What is learnt about the proxy.
#[derive(Clone, Copy, Debug, PartialEq, Eq, Structural)]
pub enum ProxyEvent {
    /// The watch begins.
    Begin,
    /// The time has passed; this is how far the servers are.
    Woke(ServerState),
    /// Whether the proxy accepted a connection.
    Accepted(bool),
    /// Whether all servers have been ended.
    CleanedUp(bool),
}

/// What is to be done next.
#[derive(Clone, Copy, Debug, PartialEq, Eq, Structural)]
pub enum ProxyAction {
    /// Let so many seconds pass.
    Sleep(u64),
    /// Try to connect to the proxy.
    Connect,
    /// End all servers.
    CleanUp,
    /// End the daemon with an exit code.
    Exit(i32),
}

/// What is to be done next while the proxy is watched.
pub open spec fn proxy_step(event: ProxyEvent) -> ProxyAction {
    match event {
        ProxyEvent::Begin => ProxyAction::Sleep(PROXY_PERIOD),
        ProxyEvent::Woke(state) => if state == ServerState::Started {
            ProxyAction::Connect
        } else {
            ProxyAction::Sleep(PROXY_PERIOD)
        },
        ProxyEvent::Accepted(yes) => if yes {
            ProxyAction::Sleep(PROXY_PERIOD)
        } else {
            ProxyAction::CleanUp
        },
        ProxyEvent::CleanedUp(yes) => if yes {
            ProxyAction::Exit(0)
        } else {
            ProxyAction::Exit(1)
        },
    }
}

/// Takes one step of watching the proxy. It is looked at once the servers have started; when it
/// is gone, the servers are ended, and then the daemon.
pub fn watch_proxy(event: ProxyEvent) -> (action: ProxyAction)
    ensures
        action == proxy_step(event),
{
    match event {
        ProxyEvent::Begin => ProxyAction::Sleep(PROXY_PERIOD),
        ProxyEvent::Woke(state) => if state == ServerState::Started {
            ProxyAction::Connect
        } else {
            ProxyAction::Sleep(PROXY_PERIOD)
        },
        ProxyEvent::Accepted(yes) => if yes {
            ProxyAction::Sleep(PROXY_PERIOD)
        } else {
            ProxyAction::CleanUp
        },
        ProxyEvent::CleanedUp(yes) => if yes {
            ProxyAction::Exit(0)
        } else {
            ProxyAction::Exit(1)
        },
    }
}

/// What a watch over the proxy has come to.
pub struct ProxyWatch {
    /// How many seconds have been slept.
    pub slept: nat,
    /// How often the servers were ended.
    pub cleanups: nat,
    pub last: ProxyAction,
}

/// What a watch over the proxy comes to, within a number of steps; `state` tells how far the
/// servers are at the first look, the second, and so on, `accepts` whether the proxy would accept a
/// connection then, `cleaned` whether ending the servers works out, and `looks` how often the watch
/// has looked.
pub open spec fn proxy_watch(
    state: spec_fn(nat) -> ServerState,
    accepts: spec_fn(nat) -> bool,
    cleaned: bool,
    event: ProxyEvent,
    looks: nat,
    steps: nat,
) -> ProxyWatch
    decreases steps,
{
    let action = proxy_step(event);
    let more = (steps - 1) as nat;
    if steps == 0 || action is Exit {
        ProxyWatch { slept: 0, cleanups: 0, last: action }
    } else {
        match action {
            ProxyAction::Sleep(secs) => {
                let rest = proxy_watch(
                    state,
                    accepts,
                    cleaned,
                    ProxyEvent::Woke(state(looks)),
                    looks + 1,
                    more,
                );
                ProxyWatch { slept: secs as nat + rest.slept, ..rest }
            },
            ProxyAction::Connect => proxy_watch(
                state,
                accepts,
                cleaned,
                ProxyEvent::Accepted(accepts((looks - 1) as nat)),
                looks,
                more,
            ),
            _ => {
                let rest = proxy_watch(
                    state,
                    accepts,
                    cleaned,
                    ProxyEvent::CleanedUp(cleaned),
                    looks,
                    more,
                );
                ProxyWatch { cleanups: 1 + rest.cleanups, ..rest }
            },
        }
    }
}

/// At a look the servers have started, and the proxy is gone.
pub open spec fn is_gone(
    state: spec_fn(nat) -> ServerState,
    accepts: spec_fn(nat) -> bool,
    look: nat,
) -> bool {
    state(look) == ServerState::Started && !accepts(look)
}

proof fn lemma_watch_from(
    state: spec_fn(nat) -> ServerState,
    accepts: spec_fn(nat) -> bool,
    cleaned: bool,
    event: ProxyEvent,
    looks: nat,
    gone: nat,
    steps: nat,
)
    requires
        proxy_step(event) == ProxyAction::Sleep(PROXY_PERIOD),
        looks <= gone,
        is_gone(state, accepts, gone),
        forall|i: nat| i < gone ==> !#[trigger] is_gone(state, accepts, i),
        steps >= 2 * (gone - looks) + 3,
    ensures
        proxy_watch(state, accepts, cleaned, event, looks, steps) == (ProxyWatch {
            slept: (PROXY_PERIOD * (gone - looks + 1)) as nat,
            cleanups: 1,
            last: ProxyAction::Exit(
                if cleaned {
                    0
                } else {
                    1
                },
            ),
        }),
    decreases gone - looks,
{
    reveal_with_fuel(proxy_watch, 4);
    if looks < gone {
        assert(!is_gone(state, accepts, looks));
        if state(looks) == ServerState::Started {
            lemma_watch_from(
                state,
                accepts,
                cleaned,
                ProxyEvent::Accepted(true),
                looks + 1,
                gone,
                (steps - 2) as nat,
            );
        } else {
            lemma_watch_from(
                state,
                accepts,
                cleaned,
                ProxyEvent::Woke(state(looks)),
                looks + 1,
                gone,
                (steps - 1) as nat,
            );
        }
    }
}

/// The proxy is looked at every period. At the first look that finds it gone after the servers have
/// started, the servers are ended, once, and then the daemon: with success where ending them works
/// out, and with an error otherwise.
pub proof fn law_daemon_follows_the_proxy(
    state: spec_fn(nat) -> ServerState,
    accepts: spec_fn(nat) -> bool,
    cleaned: bool,
    gone: nat,
    steps: nat,
)
    requires
        state(gone) == ServerState::Started && !accepts(gone),
        forall|i: nat|
            i < gone ==> !(#[trigger] state(i) == ServerState::Started && !accepts(i)),
        steps >= 2 * gone + 3,
    ensures
        proxy_watch(state, accepts, cleaned, ProxyEvent::Begin, 0, steps) == (ProxyWatch {
            slept: PROXY_PERIOD as nat * (gone + 1),
            cleanups: 1,
            last: ProxyAction::Exit(
                if cleaned {
                    0
                } else {
                    1
                },
            ),
        }),
{
    assert(forall|i: nat| i < gone ==> !#[trigger] is_gone(state, accepts, i));
    lemma_watch_from(state, accepts, cleaned, ProxyEvent::Begin, 0, gone, steps);
}

proof fn lemma_watch_goes_on(
    state: spec_fn(nat) -> ServerState,
    accepts: spec_fn(nat) -> bool,
    cleaned: bool,
    event: ProxyEvent,
    looks: nat,
    steps: nat,
)
    requires
        forall|i: nat| !#[trigger] is_gone(state, accepts, i),
        proxy_step(event) == ProxyAction::Sleep(PROXY_PERIOD),
    ensures
        proxy_watch(state, accepts, cleaned, event, looks, steps).cleanups == 0,
        !(proxy_watch(state, accepts, cleaned, event, looks, steps).last is Exit),
    decreases steps,
{
    reveal_with_fuel(proxy_watch, 3);
    assert(!is_gone(state, accepts, looks));
    if steps > 0 {
        if state(looks) != ServerState::Started {
            lemma_watch_goes_on(
                state,
                accepts,
                cleaned,
                ProxyEvent::Woke(state(looks)),
                looks + 1,
                (steps - 1) as nat,
            );
        } else if steps > 1 {
            lemma_watch_goes_on(
                state,
                accepts,
                cleaned,
                ProxyEvent::Accepted(true),
                looks + 1,
                (steps - 2) as nat,
            );
        }
    }
}

/// As long as no look finds the proxy gone after the servers have started, no server is ended, nor
/// the daemon, however long the watch goes on.
pub proof fn law_daemon_stays_with_the_proxy(
    state: spec_fn(nat) -> ServerState,
    accepts: spec_fn(nat) -> bool,
    cleaned: bool,
    steps: nat,
)
    requires
        forall|i: nat| !(#[trigger] state(i) == ServerState::Started && !accepts(i)),
    ensures
        proxy_watch(state, accepts, cleaned, ProxyEvent::Begin, 0, steps).cleanups == 0,
        !(proxy_watch(state, accepts, cleaned, ProxyEvent::Begin, 0, steps).last is Exit),
{
    assert(forall|i: nat| !#[trigger] is_gone(state, accepts, i));
    lemma_watch_goes_on(state, accepts, cleaned, ProxyEvent::Begin, 0, steps);
}

/// What is learnt about the time since the last connection.
#[derive(Clone, Copy, Debug, PartialEq, Eq, Structural)]
pub enum IdleEvent {
    /// How far the servers are.
    State(ServerState),
    /// When the last connection came in, and what time it is, in seconds.
    Times { last: u64, now: u64 },
}

/// What is to be done next.
#[derive(Clone, Copy, Debug, PartialEq, Eq, Structural)]
pub enum IdleAction {
    /// Let so many seconds pass, then look at the times.
    Sleep(u64),
    /// Look at the servers.
    CheckState,
    /// Watch no longer.
    Stop,
    /// End the daemon with an exit code.
    Exit(i32),
}

/// What is to be done next while clients are watched for.
pub open spec fn idle_step(event: IdleEvent) -> IdleAction {
    match event {
        IdleEvent::State(state) => if state == ServerState::NotStarted {
            IdleAction::Sleep(IDLE_PERIOD)
        } else {
            IdleAction::Stop
        },
        IdleEvent::Times { last, now } => if now - last >= INIT_TIMEOUT {
            IdleAction::Exit(0)
        } else {
            IdleAction::CheckState
        },
    }
}

/// Takes one step of watching for clients. It starts with `IdleEvent::State`. The daemon ends
/// when none has come for long enough while the servers have not been started.
pub fn watch_idle(event: IdleEvent) -> (action: IdleAction)
    requires
        event matches IdleEvent::Times { last, now } ==> last <= now,
    ensures
        action == idle_step(event),
{
    match event {
        IdleEvent::State(state) => if state == ServerState::NotStarted {
            IdleAction::Sleep(IDLE_PERIOD)
        } else {
            IdleAction::Stop
        },
        IdleEvent::Times { last, now } => if now - last >= INIT_TIMEOUT {
            IdleAction::Exit(0)
        } else {
            IdleAction::CheckState
        },
    }
}

/// The last action of a watch for clients, within a number of steps; `state` tells how far the
/// servers are at the first look, the second, and so on, and `last` and `now` the times when the
/// sleep after that look is over.
pub open spec fn idle_end(
    state: spec_fn(nat) -> ServerState,
    last: spec_fn(nat) -> u64,
    now: spec_fn(nat) -> u64,
    event: IdleEvent,
    look: nat,
    steps: nat,
) -> IdleAction
    decreases steps,
{
    let action = idle_step(event);
    if steps == 0 {
        action
    } else {
        let more = (steps - 1) as nat;
        match action {
            IdleAction::Sleep(_) => idle_end(
                state,
                last,
                now,
                IdleEvent::Times { last: last(look), now: now(look) },
                look,
                more,
            ),
            IdleAction::CheckState => idle_end(
                state,
                last,
                now,
                IdleEvent::State(state(look + 1)),
                look + 1,
                more,
            ),
            _ => action,
        }
    }
}

/// A look ends the watch: the servers have been started, or no client has come for long enough.
pub open spec fn ends_watch(
    state: spec_fn(nat) -> ServerState,
    last: spec_fn(nat) -> u64,
    now: spec_fn(nat) -> u64,
    look: nat,
) -> bool {
    state(look) != ServerState::NotStarted || now(look) - last(look) >= INIT_TIMEOUT
}

proof fn lemma_idle_from(
    state: spec_fn(nat) -> ServerState,
    last: spec_fn(nat) -> u64,
    now: spec_fn(nat) -> u64,
    look: nat,
    end: nat,
    steps: nat,
)
    requires
        look <= end,
        ends_watch(state, last, now, end),
        forall|i: nat| i < end ==> !#[trigger] ends_watch(state, last, now, i),
        steps >= 2 * (end - look) + 1,
    ensures
        idle_end(state, last, now, IdleEvent::State(state(look)), look, steps) == (if state(end)
            == ServerState::NotStarted {
            IdleAction::Exit(0)
        } else {
            IdleAction::Stop
        }),
    decreases end - look,
{
    reveal_with_fuel(idle_end, 3);
    if look < end {
        assert(!ends_watch(state, last, now, look));
        lemma_idle_from(state, last, now, look + 1, end, (steps - 2) as nat);
    }
}

/// A watch for clients ends at the first look after which no client has come for long enough, and
/// the daemon with it, or at the first that finds the servers started, whichever comes first.
pub proof fn law_idle_daemon_ends(
    state: spec_fn(nat) -> ServerState,
    last: spec_fn(nat) -> u64,
    now: spec_fn(nat) -> u64,
    end: nat,
    steps: nat,
)
    requires
        state(end) != ServerState::NotStarted || now(end) - last(end) >= INIT_TIMEOUT,
        forall|i: nat|
            i < end ==> #[trigger] state(i) == ServerState::NotStarted && now(i) - last(i)
                < INIT_TIMEOUT,
        steps >= 2 * end + 1,
    ensures
        idle_end(state, last, now, IdleEvent::State(state(0)), 0, steps) == (if state(end)
            == ServerState::NotStarted {
            IdleAction::Exit(0)
        } else {
            IdleAction::Stop
        }),
{
    assert(forall|i: nat| i < end ==> !#[trigger] ends_watch(state, last, now, i));
    lemma_idle_from(state, last, now, 0, end, steps);
}

proof fn lemma_idle_goes_on(
    state: spec_fn(nat) -> ServerState,
    last: spec_fn(nat) -> u64,
    now: spec_fn(nat) -> u64,
    look: nat,
    steps: nat,
)
    requires
        forall|i: nat| !#[trigger] ends_watch(state, last, now, i),
    ensures
        ({
            let action = idle_end(state, last, now, IdleEvent::State(state(look)), look, steps);
            !(action is Exit) && !(action is Stop)
        }),
    decreases steps,
{
    reveal_with_fuel(idle_end, 3);
    assert(!ends_watch(state, last, now, look));
    if steps > 1 {
        lemma_idle_goes_on(state, last, now, look + 1, (steps - 2) as nat);
    }
}

/// As long as the servers have not been started and clients keep coming, the watch goes on, and the
/// daemon does not end.
pub proof fn law_busy_daemon_stays(
    state: spec_fn(nat) -> ServerState,
    last: spec_fn(nat) -> u64,
    now: spec_fn(nat) -> u64,
    steps: nat,
)
    requires
        forall|i: nat| #[trigger]
            state(i) == ServerState::NotStarted && now(i) - last(i) < INIT_TIMEOUT,
    ensures
        ({
            let action = idle_end(state, last, now, IdleEvent::State(state(0)), 0, steps);
            !(action is Exit) && !(action is Stop)
        }),
{
    assert(forall|i: nat| !#[trigger] ends_watch(state, last, now, i));
    lemma_idle_goes_on(state, last, now, 0, steps);
}

/// Whether connections are still accepted.
pub fn accepts_connections(state: ServerState) -> (yes: bool)
    ensures
        yes == (state.place() < ServerState::ShuttingDown.place()),
{
    state < ServerState::ShuttingDown
}

/// Which listener is for whom.
#[derive(Clone, Copy, Debug, PartialEq, Eq)]
pub struct Listeners {
    pub client: usize,
    pub bluemap: Option<usize>,
}

/// Finds the listener for Minecraft clients, and the one for BlueMap where there is one. Without
/// the first there is an error, with the exit code that the daemon ends with.
pub fn assign_listeners(sockets: &HashMap<u16, usize>) -> (r: Result<Listeners, i32>)
    ensures
        match r {
            Ok(l) => sockets@.contains_key(CLIENT_PORT) && l.client == sockets@[CLIENT_PORT]
                && l.bluemap == (if sockets@.contains_key(BLUEMAP_PORT) {
                Some(sockets@[BLUEMAP_PORT])
            } else {
                None
            }),
            Err(code) => !sockets@.contains_key(CLIENT_PORT) && code == 1,
        },
{
    broadcast use vstd::std_specs::hash::group_hash_axioms;

    let bluemap: Option<usize> = match sockets.get(&BLUEMAP_PORT) {
        Some(i) => Some(*i),
        None => None,
    };
    match sockets.get(&CLIENT_PORT) {
        Some(i) => Ok(Listeners { client: *i, bluemap }),
        None => Err(1),
    }
}

/// The proxy is looked for only while the servers run, and the servers are ended only where it has
/// just been found gone.
pub proof fn law_only_a_missing_proxy_ends_the_servers(event: ProxyEvent)
    ensures
        proxy_step(event) == ProxyAction::Connect <==> event == ProxyEvent::Woke(
            ServerState::Started,
        ),
        proxy_step(event) == ProxyAction::CleanUp <==> event == ProxyEvent::Accepted(false),
        proxy_step(event) is Exit <==> event is CleanedUp,
{
}

} // verus!
