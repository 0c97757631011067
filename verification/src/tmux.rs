//! The servers' windows in tmux: how they are started, and how their processes are ended.
use crate::config::{ServerState, SRV_STARTUP_SCRIPT, TMUX_SESSION};
use crate::number::{i32_to_decimal, parse_i32};
use crate::outside::regex_is_match;
use crate::path::join;
use crate::text::{text_from, trim};
use vstd::prelude::*;

verus! {

/// What the name of the proxy's directory matches, without regard to case.
pub const PROXY_PATTERN: &'static str = "(?i).*Velocity.*";

/// The arguments of a command, as sequences.
pub type Args = Seq<Seq<char>>;

/// The arguments of some commands.
pub type ArgLists = Seq<Args>;

/// The path of tmux's socket, given the runtime directory.
pub open spec fn socket_path(runtime: Option<Seq<char>>) -> Seq<char> {
    let dir = match runtime {
        Some(dir) => dir,
        None => "/tmp"@,
    };
    crate::path::joined(dir, "fabric-servers.sock"@)
}

/// tmux's arguments that end the session.
pub open spec fn kill_session(socket: Seq<char>) -> Args {
    seq!["-S"@, socket, "kill-session"@, "-t"@, TMUX_SESSION@]
}

/// tmux's arguments that open the session, with a server in its first window.
pub open spec fn new_session(socket: Seq<char>, name: Seq<char>, dir: Seq<char>) -> Args {
    seq![
        "-S"@,
        socket,
        "new-session"@,
        "-d"@,
        "-s"@,
        TMUX_SESSION@,
        "-n"@,
        name,
        "-c"@,
        dir,
        SRV_STARTUP_SCRIPT@,
    ]
}

/// tmux's arguments that open one more window with a server in it.
pub open spec fn new_window(socket: Seq<char>, name: Seq<char>, dir: Seq<char>) -> Args {
    seq![
        "-S"@,
        socket,
        "new-window"@,
        "-t"@,
        TMUX_SESSION@,
        "-n"@,
        name,
        "-c"@,
        dir,
        SRV_STARTUP_SCRIPT@,
    ]
}

/// tmux's arguments that print the process of a window.
pub open spec fn pane_query(socket: Seq<char>, window: Seq<char>) -> Args {
    seq![
        "-S"@,
        socket,
        "display-message"@,
        "-pt"@,
        TMUX_SESSION@ + ":"@ + window + ".0"@,
        "#{pane_pid}"@,
    ]
}

/// The arguments of `kill` that ask whether a process is there.
pub open spec fn process_query(pid: int) -> Args {
    seq!["-0"@, crate::number::signed_decimal(pid)]
}

/// The process that tmux has printed, where that is a number.
pub open spec fn pid_of(stdout: Seq<u8>) -> Option<int> {
    crate::number::i32_of(crate::text::trim_end(crate::text::trim_start(crate::text::text_of(stdout))))
}

/// The path of tmux's socket: in the runtime directory, or in `/tmp` where there is none.
pub fn get_tmux_socket_path(runtime: Option<&str>) -> (path: String)
    ensures
        path@ == socket_path(crate::text::opt_view(runtime)),
{
    let dir = match runtime {
        Some(dir) => dir,
        None => "/tmp",
    };
    join(dir, "fabric-servers.sock")
}

/// tmux's arguments that end the session.
pub fn kill_session_args(socket: &str) -> (args: Vec<String>)
    ensures
        crate::text::views(args@) == kill_session(socket@),
{
    let mut args: Vec<String> = Vec::new();
    args.push("-S".to_owned());
    args.push(socket.to_owned());
    args.push("kill-session".to_owned());
    args.push("-t".to_owned());
    args.push(TMUX_SESSION.to_owned());
    assert(crate::text::views(args@) =~= kill_session(socket@));
    args
}

/// tmux's arguments that open the session, with a server in its first window.
pub fn new_session_args(socket: &str, name: &str, dir: &str) -> (args: Vec<String>)
    ensures
        crate::text::views(args@) == new_session(socket@, name@, dir@),
{
    let mut args: Vec<String> = Vec::new();
    args.push("-S".to_owned());
    args.push(socket.to_owned());
    args.push("new-session".to_owned());
    args.push("-d".to_owned());
    args.push("-s".to_owned());
    args.push(TMUX_SESSION.to_owned());
    args.push("-n".to_owned());
    args.push(name.to_owned());
    args.push("-c".to_owned());
    args.push(dir.to_owned());
    args.push(SRV_STARTUP_SCRIPT.to_owned());
    assert(crate::text::views(args@) =~= new_session(socket@, name@, dir@));
    args
}

/// tmux's arguments that open one more window with a server in it.
pub fn new_window_args(socket: &str, name: &str, dir: &str) -> (args: Vec<String>)
    ensures
        crate::text::views(args@) == new_window(socket@, name@, dir@),
{
    let mut args: Vec<String> = Vec::new();
    args.push("-S".to_owned());
    args.push(socket.to_owned());
    args.push("new-window".to_owned());
    args.push("-t".to_owned());
    args.push(TMUX_SESSION.to_owned());
    args.push("-n".to_owned());
    args.push(name.to_owned());
    args.push("-c".to_owned());
    args.push(dir.to_owned());
    args.push(SRV_STARTUP_SCRIPT.to_owned());
    assert(crate::text::views(args@) =~= new_window(socket@, name@, dir@));
    args
}

/// tmux's arguments that print the process of a window. Windows have one pane.
pub fn pane_query_args(socket: &str, window: &str) -> (args: Vec<String>)
    ensures
        crate::text::views(args@) == pane_query(socket@, window@),
{
    let target = TMUX_SESSION.to_owned().concat(":").concat(window).concat(".0");
    let mut args: Vec<String> = Vec::new();
    args.push("-S".to_owned());
    args.push(socket.to_owned());
    args.push("display-message".to_owned());
    args.push("-pt".to_owned());
    args.push(target);
    args.push("#{pane_pid}".to_owned());
    assert(crate::text::views(args@) =~= pane_query(socket@, window@));
    args
}

/// The arguments of `kill` that ask whether a process is there.
pub fn process_query_args(pid: i32) -> (args: Vec<String>)
    ensures
        crate::text::views(args@) == process_query(pid as int),
{
    let mut args: Vec<String> = Vec::new();
    args.push("-0".to_owned());
    args.push(i32_to_decimal(pid));
    assert(crate::text::views(args@) =~= process_query(pid as int));
    args
}

/// Whether a process runs, given whether `kill` succeeded; `None` stands for a `kill` that could
/// not be run.
pub fn is_process_running(succeeded: Option<bool>) -> (running: bool)
    ensures
        running == (succeeded == Some(true)),
{
    match succeeded {
        Some(yes) => yes,
        None => false,
    }
}

/// The process that tmux has printed for a window.
pub fn server_pid(stdout: &[u8]) -> (pid: Option<i32>)
    ensures
        pid is Some == pid_of(stdout@) is Some,
        pid matches Some(n) ==> pid_of(stdout@) == Some(n as int),
{
    let text = text_from(stdout);
    parse_i32(trim(text.as_str()))
}

/// tmux's arguments that print the processes of some windows: one query for each, in order.
pub open spec fn queries_for(socket: Seq<char>, windows: Seq<Seq<char>>) -> ArgLists {
    windows.map_values(|window: Seq<char>| pane_query(socket, window))
}

/// tmux's arguments that print the processes of some windows.
pub fn pane_queries(socket: &str, windows: &Vec<String>) -> (queries: Vec<Vec<String>>)
    ensures
        crate::text::lists_of_views(queries@) == queries_for(
            socket@,
            crate::text::views(windows@),
        ),
        queries@.len() == windows@.len(),
        forall|i: int|
            0 <= i < queries@.len() ==> crate::text::views((#[trigger] queries@[i])@) == pane_query(
                socket@,
                windows@[i]@,
            ),
{
    let mut queries: Vec<Vec<String>> = Vec::new();
    for i in 0..windows.len()
        invariant
            queries@.len() == i,
            forall|k: int|
                0 <= k < i ==> crate::text::views((#[trigger] queries@[k])@) == pane_query(
                    socket@,
                    windows@[k]@,
                ),
    {
        queries.push(pane_query_args(socket, windows[i].as_str()));
    }
    assert(crate::text::lists_of_views(queries@) =~= queries_for(
        socket@,
        crate::text::views(windows@),
    ));
    queries
}

/// tmux could be asked, and has printed a process.
pub open spec fn has_pid(output: Option<Vec<u8>>) -> bool {
    output matches Some(stdout) && pid_of(stdout@) is Some
}

/// The processes that tmux has printed for some windows, in order: all of them, or none where one
/// is missing. An output is `None` where tmux could not be run.
pub fn server_pids(outputs: &Vec<Option<Vec<u8>>>) -> (pids: Option<Vec<i32>>)
    ensures
        pids is Some <==> forall|i: int|
            0 <= i < outputs@.len() ==> has_pid(#[trigger] outputs@[i]),
        pids is Some <==> forall|i: int|
            0 <= i < outputs@.len() ==> (#[trigger] outputs@[i]) is Some && pid_of(
                outputs@[i]->0@,
            ) is Some,
        pids matches Some(list) ==> list@.len() == outputs@.len() && forall|i: int|
            0 <= i < list@.len() ==> pid_of(outputs@[i]->0@) == Some(#[trigger] list@[i] as int),
{
    let mut pids: Vec<i32> = Vec::new();
    for i in 0..outputs.len()
        invariant
            pids@.len() == i,
            forall|k: int| 0 <= k < i ==> has_pid(#[trigger] outputs@[k]),
            forall|k: int|
                0 <= k < i ==> pid_of(outputs@[k]->0@) == Some(#[trigger] pids@[k] as int),
    {
        let pid: Option<i32> = match &outputs[i] {
            Some(stdout) => server_pid(stdout.as_slice()),
            None => None,
        };
        match pid {
            Some(n) => pids.push(n),
            None => {
                assert(!has_pid(outputs@[i as int]));
                return None;
            },
        }
    }
    Some(pids)
}

/// The commands are for tmux on the given socket and for the one session. A new session and a new
/// window are given the server's name and its directory, and run the script there.
pub proof fn law_arguments(socket: Seq<char>, name: Seq<char>, dir: Seq<char>)
    ensures
        kill_session(socket) == seq!["-S"@, socket] + seq!["kill-session"@] + seq![
            "-t"@,
            "fabric-servers"@,
        ],
        new_session(socket, name, dir) == seq!["-S"@, socket] + seq!["new-session"@, "-d"@] + seq![
            "-s"@,
            "fabric-servers"@,
        ] + seq!["-n"@, name] + seq!["-c"@, dir] + seq!["./run"@],
        new_window(socket, name, dir) == seq!["-S"@, socket] + seq!["new-window"@] + seq![
            "-t"@,
            "fabric-servers"@,
        ] + seq!["-n"@, name] + seq!["-c"@, dir] + seq!["./run"@],
        pane_query(socket, name) == seq!["-S"@, socket] + seq!["display-message"@] + seq![
            "-pt"@,
            "fabric-servers:"@ + name + ".0"@,
        ] + seq!["#{pane_pid}"@],
{
    reveal_strlit("fabric-servers");
    reveal_strlit(":");
    reveal_strlit("fabric-servers:");
    assert("fabric-servers"@ + ":"@ =~= "fabric-servers:"@);
}

/// A process is asked after by its number: the digits of the number, behind a minus sign where it
/// is negative.
pub proof fn law_process_query(pid: int)
    ensures
        pid >= 0 ==> process_query(pid) == seq!["-0"@] + seq![crate::number::decimal(pid as nat)],
        pid < 0 ==> process_query(pid) == seq!["-0"@] + seq![
            seq!['-'] + crate::number::decimal((-pid) as nat),
        ],
{
    if pid >= 0 {
        crate::number::law_sign(pid as nat);
    } else {
        crate::number::law_sign((-pid) as nat);
    }
}

/// tmux's socket lies in the runtime directory, whatever that is, and in `/tmp` without one.
pub proof fn law_socket_path(dir: Seq<char>)
    ensures
        dir.len() > 0 && dir.last() != '/' ==> socket_path(Some(dir)) == dir
            + "/fabric-servers.sock"@,
        socket_path(Some(dir.push('/'))) == dir + "/fabric-servers.sock"@,
        socket_path(Some(Seq::empty())) == "fabric-servers.sock"@,
        socket_path(None) == "/tmp/fabric-servers.sock"@,
{
    reveal_strlit("fabric-servers.sock");
    reveal_strlit("/fabric-servers.sock");
    reveal_strlit("/tmp/fabric-servers.sock");
    reveal_strlit("/tmp");
    let name = "fabric-servers.sock"@;
    crate::path::law_join(dir, name);
    crate::path::law_join(dir.push('/'), name);
    crate::path::law_join(Seq::empty(), name);
    crate::path::law_join("/tmp"@, name);
    assert(dir + seq!['/'] + name =~= dir + "/fabric-servers.sock"@);
    assert(dir.push('/') + name =~= dir + "/fabric-servers.sock"@);
    assert(Seq::<char>::empty() + name =~= name);
    assert("/tmp"@ + seq!['/'] + name =~= "/tmp/fabric-servers.sock"@);
}

/// Whatever number tmux prints, with whatever white space around it, is the process that is read.
pub proof fn law_printed_process_is_read(before: Seq<char>, pid: i32, behind: Seq<char>)
    requires
        forall|i: int| 0 <= i < before.len() ==> crate::text::is_space(#[trigger] before[i]),
        forall|i: int| 0 <= i < behind.len() ==> crate::text::is_space(#[trigger] behind[i]),
    ensures
        pid_of(
            vstd::utf8::encode_utf8(
                before + crate::number::signed_decimal(pid as int) + behind,
            ),
        ) == Some(pid as int),
{
    let s = crate::number::signed_decimal(pid as int);
    crate::text::law_utf8_text_is_read(before + s + behind);
    crate::number::law_signed_decimal_reads_back(pid);
    let n = if pid < 0 {
        (-pid) as nat
    } else {
        pid as nat
    };
    crate::number::law_decimal_reads_back(n);
    let d = crate::number::decimal(n);
    assert(crate::number::is_digit(d[d.len() - 1]));
    assert(crate::number::is_digit(d[0]));
    assert(s.last() == d.last());
    crate::text::law_trim(before, s, behind);
}

/// What is read is the whole of what tmux has printed, but for white space at its ends: where that
/// is no `i32`, no process is read.
pub proof fn law_process_is_all_that_was_printed(stdout: Seq<u8>)
    ensures
        pid_of(stdout) == crate::number::i32_of(
            crate::text::trimmed(crate::text::text_of(stdout)),
        ),
{
}

/// Why the servers are not started.
#[derive(Clone, Copy, Debug, PartialEq, Eq, Structural)]
pub enum StartError {
    /// They have been started before.
    AlreadyRunning,
    /// There are none.
    NoServers,
}

impl StartError {
    /// What is said of the error.
    pub open spec fn message_text(self) -> Seq<char> {
        match self {
            StartError::AlreadyRunning => "Startup task is already running."@,
            StartError::NoServers => "Found no servers in the directory"@,
        }
    }

    /// What is said of the error.
    pub fn message(&self) -> (m: &'static str)
        ensures
            m@ == self.message_text(),
    {
        match self {
            StartError::AlreadyRunning => "Startup task is already running.",
            StartError::NoServers => "Found no servers in the directory",
        }
    }
}

/// The state once the start of the servers has been claimed, which happens once.
pub open spec fn claimed(state: ServerState) -> Result<ServerState, StartError> {
    if state == ServerState::NotStarted {
        Ok(ServerState::Starting)
    } else {
        Err(StartError::AlreadyRunning)
    }
}

/// Claims the start of the servers.
pub fn begin_start(state: &mut ServerState) -> (r: Result<(), StartError>)
    ensures
        match claimed(*old(state)) {
            Ok(next) => r is Ok && *final(state) == next,
            Err(e) => r is Err && r->Err_0 == e && *final(state) == *old(state),
        },
{
    if *state != ServerState::NotStarted {
        return Err(StartError::AlreadyRunning);
    }
    *state = ServerState::Starting;
    Ok(())
}

/// The start of the servers is claimed at most once: when it has been, it is refused, and it
/// still is when the proxy has come up.
pub proof fn law_start_is_claimed_once(state: ServerState)
    requires
        claimed(state) is Ok,
    ensures
        claimed(claimed(state)->Ok_0) is Err,
        claimed(ServerState::Started) is Err,
{
}

/// The start can be claimed exactly where the servers have not been started, and they are then
/// starting.
pub proof fn law_claim(state: ServerState)
    ensures
        state == ServerState::NotStarted ==> claimed(state) == Ok::<ServerState, StartError>(
            ServerState::Starting,
        ),
        state != ServerState::NotStarted ==> claimed(state) == Err::<ServerState, StartError>(
            StartError::AlreadyRunning,
        ),
{
}

/// An entry of the directory that holds the servers.
#[derive(Debug, PartialEq, Eq)]
pub struct ServerEntry {
    pub name: String,
    pub is_dir: bool,
}

/// A directory is a server. `None` stands for an entry that could not be read.
pub open spec fn is_server(entry: Option<ServerEntry>) -> bool {
    entry matches Some(e) && e.is_dir
}

/// The names of the servers, in the order of the listing.
pub open spec fn server_names(entries: Seq<Option<ServerEntry>>) -> Seq<Seq<char>>
    decreases entries.len(),
{
    if entries.len() == 0 {
        Seq::empty()
    } else if is_server(entries.last()) {
        server_names(entries.drop_last()).push(entries.last()->0.name@)
    } else {
        server_names(entries.drop_last())
    }
}

/// The name of a directory with the proxy in it: `Velocity` occurs in it, in whatever case.
pub open spec fn is_proxy_name(name: Seq<char>) -> bool {
    crate::text::is_infix(crate::text::in_small("Velocity"@), crate::text::in_small(name))
}

/// The place of the first proxy among the servers, where there is one.
pub open spec fn first_proxy(names: Seq<Seq<char>>) -> Option<int>
    decreases names.len(),
{
    if names.len() == 0 {
        None
    } else {
        match first_proxy(names.drop_last()) {
            Some(i) => Some(i),
            None => if is_proxy_name(names.last()) {
                Some(names.len() - 1)
            } else {
                None
            },
        }
    }
}

/// The place of the server that is started first: the first proxy, and where there is none the
/// first server.
pub open spec fn lead(names: Seq<Seq<char>>) -> int {
    match first_proxy(names) {
        Some(i) => i,
        None => 0,
    }
}

/// What starts the servers: tmux's arguments for the session with the first server, and those for
/// a window for each of the others.
#[derive(Debug, PartialEq, Eq)]
pub struct LaunchPlan {
    pub window_names: Vec<String>,
    pub session: Vec<String>,
    pub windows: Vec<Vec<String>>,
}

/// A `LaunchPlan`, with its texts as sequences.
pub struct Plan {
    pub window_names: Seq<Seq<char>>,
    pub session: Args,
    pub windows: ArgLists,
}

impl View for LaunchPlan {
    type V = Plan;

    open spec fn view(&self) -> Plan {
        Plan {
            window_names: crate::text::views(self.window_names@),
            session: crate::text::views(self.session@),
            windows: crate::text::lists_of_views(self.windows@),
        }
    }
}

/// tmux's arguments for a window for each of some servers below `root`.
pub open spec fn windows_for(
    root: Seq<char>,
    socket: Seq<char>,
    names: Seq<Seq<char>>,
) -> ArgLists {
    names.map_values(
        |name: Seq<char>| new_window(socket, name, crate::path::joined(root, name)),
    )
}

/// The plan that starts the servers of these names, which lie below `root`.
pub open spec fn plan_for(root: Seq<char>, socket: Seq<char>, names: Seq<Seq<char>>) -> Plan {
    let first = names[lead(names)];
    Plan {
        window_names: names,
        session: new_session(socket, first, crate::path::joined(root, first)),
        windows: windows_for(root, socket, names.remove(lead(names))),
    }
}

/// Whether a name is that of a proxy's directory.
pub fn names_proxy(name: &str) -> (yes: bool)
    ensures
        yes == is_proxy_name(name@),
{
    proof {
        reveal_strlit("Velocity");
        reveal_strlit("(?i).*Velocity.*");
        assert(PROXY_PATTERN@ =~= crate::outside::around("Velocity"@));
        assert(crate::outside::is_plain_word("Velocity"@));
    }
    regex_is_match(PROXY_PATTERN, name)
}

proof fn lemma_first_proxy_range(names: Seq<Seq<char>>)
    ensures
        first_proxy(names) matches Some(i) ==> 0 <= i < names.len() && is_proxy_name(names[i]) && (
        forall|j: int| 0 <= j < i ==> !is_proxy_name(#[trigger] names[j])),
        first_proxy(names) is None ==> forall|j: int|
            0 <= j < names.len() ==> !is_proxy_name(#[trigger] names[j]),
    decreases names.len(),
{
    if names.len() > 0 {
        let front = names.drop_last();
        lemma_first_proxy_range(front);
        assert(forall|j: int| 0 <= j < front.len() ==> #[trigger] names[j] == front[j]);
    }
}

/// Finds the first proxy among the servers.
pub fn find_proxy(names: &Vec<String>) -> (at: Option<usize>)
    ensures
        at is Some == first_proxy(crate::text::views(names@)) is Some,
        at matches Some(i) ==> first_proxy(crate::text::views(names@)) == Some(i as int),
{
    let ghost all = crate::text::views(names@);
    assert(all.take(0) =~= Seq::<Seq<char>>::empty());
    for i in 0..names.len()
        invariant
            all == crate::text::views(names@),
            first_proxy(all.take(i as int)) is None,
    {
        assert(all.take(i + 1).drop_last() =~= all.take(i as int));
        assert(all[i as int] == names@[i as int]@);
        if names_proxy(names[i].as_str()) {
            proof {
                lemma_first_proxy_stays(all, i + 1);
            }
            return Some(i);
        }
    }
    assert(all.take(all.len() as int) =~= all);
    None
}

proof fn lemma_first_proxy_stays(names: Seq<Seq<char>>, i: int)
    requires
        0 <= i <= names.len(),
        first_proxy(names.take(i)) is Some,
    ensures
        first_proxy(names) == first_proxy(names.take(i)),
    decreases names.len() - i,
{
    if i == names.len() {
        assert(names.take(i) =~= names);
    } else {
        assert(names.take(i + 1).drop_last() =~= names.take(i));
        lemma_first_proxy_stays(names, i + 1);
    }
}

/// Plans the start of the servers below `root`, given the listing of that directory: the proxy
/// goes first. There is no plan where there are no servers.
pub fn start_tmux_windows(
    root: &str,
    socket: &str,
    entries: &Vec<Option<ServerEntry>>,
) -> (r: Result<LaunchPlan, StartError>)
    ensures
        match r {
            Ok(plan) => server_names(entries@).len() > 0 && plan@ == plan_for(
                root@,
                socket@,
                server_names(entries@),
            ),
            Err(e) => server_names(entries@).len() == 0 && e == StartError::NoServers,
        },
{
    let mut names: Vec<String> = Vec::new();
    assert(entries@.take(0) =~= Seq::empty());
    assert(crate::text::views(names@) =~= server_names(entries@.take(0)));
    for i in 0..entries.len()
        invariant
            crate::text::views(names@) == server_names(entries@.take(i as int)),
    {
        assert(entries@.take(i + 1).drop_last() =~= entries@.take(i as int));
        if let Some(entry) = &entries[i] {
            if entry.is_dir {
                proof {
                    crate::text::lemma_views_push(names@, entry.name);
                }
                names.push(entry.name.clone());
            }
        }
    }
    assert(entries@.take(entries@.len() as int) =~= entries@);
    let ghost all = crate::text::views(names@);
    assert(all.len() == names@.len());
    if names.len() == 0 {
        return Err(StartError::NoServers);
    }
    proof {
        lemma_first_proxy_range(all);
    }
    let first: usize = match find_proxy(&names) {
        Some(i) => i,
        None => 0,
    };
    assert(all[first as int] == names@[first as int]@);
    let dir = join(root, names[first].as_str());
    let session = new_session_args(socket, names[first].as_str(), dir.as_str());
    let ghost others = all.remove(first as int);
    let mut windows: Vec<Vec<String>> = Vec::new();
    for i in 0..names.len()
        invariant
            all == crate::text::views(names@),
            first < names@.len(),
            others == all.remove(first as int),
            windows@.len() == (if i <= first {
                i as int
            } else {
                i - 1
            }),
            forall|k: int|
                0 <= k < windows@.len() ==> crate::text::views((#[trigger] windows@[k])@)
                    == new_window(socket@, others[k], crate::path::joined(root@, others[k])),
    {
        if i != first {
            let dir = join(root, names[i].as_str());
            assert(all[i as int] == names@[i as int]@);
            assert(others[windows@.len() as int] == all[i as int]);
            windows.push(new_window_args(socket, names[i].as_str(), dir.as_str()));
        }
    }
    assert(crate::text::lists_of_views(windows@) =~= windows_for(root@, socket@, others));
    Ok(LaunchPlan { window_names: names, session, windows })
}

/// Every directory that could be read is a server, under its own name, and nothing else is; they
/// stand in the order of the listing.
pub proof fn law_servers_are_the_directories(
    entries: Seq<Option<ServerEntry>>,
    more: Seq<Option<ServerEntry>>,
    entry: ServerEntry,
)
    ensures
        server_names(Seq::empty()) == Seq::<Seq<char>>::empty(),
        server_names(seq![None]) == Seq::<Seq<char>>::empty(),
        !entry.is_dir ==> server_names(seq![Some(entry)]) == Seq::<Seq<char>>::empty(),
        entry.is_dir ==> server_names(seq![Some(entry)]) == seq![entry.name@],
        server_names(entries + more) == server_names(entries) + server_names(more),
    decreases more.len(),
{
    reveal_with_fuel(server_names, 2);
    let none = Seq::<Option<ServerEntry>>::empty();
    assert(seq![None::<ServerEntry>].drop_last() =~= none);
    assert(seq![Some(entry)].drop_last() =~= none);
    assert(Seq::<Seq<char>>::empty().push(entry.name@) =~= seq![entry.name@]);
    if more.len() == 0 {
        assert(entries + more =~= entries);
        assert(server_names(entries) + server_names(more) =~= server_names(entries));
    } else {
        law_servers_are_the_directories(entries, more.drop_last(), entry);
        assert((entries + more).drop_last() =~= entries + more.drop_last());
        assert((entries + more).last() == more.last());
        let a = server_names(entries);
        let b = server_names(more.drop_last());
        if is_server(more.last()) {
            assert((a + b).push(more.last()->0.name@) =~= a + b.push(more.last()->0.name@));
        }
    }
}

/// A name is that of a proxy exactly where `velocity` stands in it, each letter in upper or lower
/// case, with anything before and behind.
pub proof fn law_proxy_names(name: Seq<char>)
    ensures
        is_proxy_name(name) <==> exists|i: int|
            0 <= i && i + 8 <= name.len() && #[trigger] spells_velocity(name.subrange(i, i + 8)),
        forall|before: Seq<char>, word: Seq<char>, behind: Seq<char>|
            spells_velocity(word) && name == #[trigger] (before + word + behind)
                ==> is_proxy_name(name),
        forall|word: Seq<char>| #[trigger]
            spells_velocity(word) <==> {
                &&& word.len() == 8
                &&& word[0] == 'v' || word[0] == 'V'
                &&& word[1] == 'e' || word[1] == 'E'
                &&& word[2] == 'l' || word[2] == 'L'
                &&& word[3] == 'o' || word[3] == 'O'
                &&& word[4] == 'c' || word[4] == 'C'
                &&& word[5] == 'i' || word[5] == 'I'
                &&& word[6] == 't' || word[6] == 'T'
                &&& word[7] == 'y' || word[7] == 'Y'
            },
{
    reveal_strlit("Velocity");
    let small = crate::text::in_small(name);
    let word = crate::text::in_small("Velocity"@);
    assert(word =~= seq!['v', 'e', 'l', 'o', 'c', 'i', 't', 'y']);
    assert forall|i: int| 0 <= i && i + 8 <= name.len() implies (#[trigger] small.subrange(
        i,
        i + 8,
    ) == word <==> spells_velocity(name.subrange(i, i + 8))) by {
        let part = name.subrange(i, i + 8);
        let low = small.subrange(i, i + 8);
        assert(forall|k: int| 0 <= k < 8 ==> #[trigger] low[k] == crate::text::small(part[k]));
        if low == word {
            assert(low[0] == 'v' && low[1] == 'e' && low[2] == 'l' && low[3] == 'o' && low[4] == 'c'
                && low[5] == 'i' && low[6] == 't' && low[7] == 'y');
        }
        if spells_velocity(part) {
            assert(low =~= word);
        }
    }
    if is_proxy_name(name) {
        let i = choose|i: int|
            0 <= i <= small.len() - word.len() && #[trigger] small.subrange(i, i + word.len())
                == word;
        assert(spells_velocity(name.subrange(i, i + 8)));
    }
    if exists|i: int|
        0 <= i && i + 8 <= name.len() && #[trigger] spells_velocity(name.subrange(i, i + 8)) {
        let i = choose|i: int|
            0 <= i && i + 8 <= name.len() && #[trigger] spells_velocity(name.subrange(i, i + 8));
        assert(small.subrange(i, i + 8) == word);
    }
    assert forall|before: Seq<char>, w: Seq<char>, behind: Seq<char>|
        spells_velocity(w) && name == #[trigger] (before + w + behind) implies is_proxy_name(
        name,
    ) by {
        let i = before.len() as int;
        assert(name.subrange(i, i + 8) =~= w);
        assert(small.subrange(i, i + 8) == word);
    }
}

/// `velocity`, each letter in upper or lower case.
pub open spec fn spells_velocity(word: Seq<char>) -> bool {
    &&& word.len() == 8
    &&& word[0] == 'v' || word[0] == 'V'
    &&& word[1] == 'e' || word[1] == 'E'
    &&& word[2] == 'l' || word[2] == 'L'
    &&& word[3] == 'o' || word[3] == 'O'
    &&& word[4] == 'c' || word[4] == 'C'
    &&& word[5] == 'i' || word[5] == 'I'
    &&& word[6] == 't' || word[6] == 'T'
    &&& word[7] == 'y' || word[7] == 'Y'
}

/// Without a proxy, the first server listed is started first.
pub proof fn law_first_server_without_proxy(names: Seq<Seq<char>>)
    requires
        names.len() > 0,
        forall|i: int| 0 <= i < names.len() ==> !is_proxy_name(#[trigger] names[i]),
    ensures
        lead(names) == 0,
{
    lemma_first_proxy_range(names);
}

/// A plan starts every server: the leading one in the session's first window, and each of the
/// others, in the order of the listing, in a window of its own. There are as many windows as
/// servers, the names that they are given are the servers' names, each as often as it is listed,
/// and each server runs in the directory of its name below the root. The windows that are
/// remembered are all of them.
pub proof fn law_plan_starts_every_server(
    root: Seq<char>,
    socket: Seq<char>,
    names: Seq<Seq<char>>,
)
    requires
        names.len() > 0,
    ensures
        ({
            let plan = plan_for(root, socket, names);
            let l = lead(names);
            let dir = |name: Seq<char>| crate::path::joined(root, name);
            let given = seq![plan.session[7]] + Seq::new(
                plan.windows.len(),
                |i: int| plan.windows[i][6],
            );
            &&& plan.window_names == names
            &&& 0 <= l < names.len()
            &&& plan.windows.len() + 1 == names.len()
            &&& plan.session == new_session(socket, names[l], dir(names[l]))
            &&& plan.session[6] == "-n"@ && plan.session[7] == names[l]
            &&& plan.session[8] == "-c"@ && plan.session[9] == dir(names[l])
            &&& forall|i: int|
                0 <= i < l ==> (#[trigger] plan.windows[i]) == new_window(
                    socket,
                    names[i],
                    dir(names[i]),
                )
            &&& forall|i: int|
                l <= i < plan.windows.len() ==> (#[trigger] plan.windows[i]) == new_window(
                    socket,
                    names[i + 1],
                    dir(names[i + 1]),
                )
            &&& forall|i: int|
                0 <= i < plan.windows.len() ==> (#[trigger] plan.windows[i])[5] == "-n"@
                    && plan.windows[i][7] == "-c"@ && plan.windows[i][8] == dir(
                    plan.windows[i][6],
                )
            &&& given.to_multiset() == names.to_multiset()
        }),
{
    let plan = plan_for(root, socket, names);
    let l = lead(names);
    law_every_server_has_one_window(names);
    let others = names.remove(l);
    let given = seq![plan.session[7]] + Seq::new(
        plan.windows.len(),
        |i: int| plan.windows[i][6],
    );
    assert(given =~= seq![names[l]] + others);
}

/// How far the launch of the servers has come. `A` is the type of lists of texts, and `W` that of
/// lists of those.
#[derive(Debug, PartialEq, Eq)]
pub enum LaunchPhase<A, W> {
    /// It has been asked for.
    Fresh,
    /// A session that may be there is being ended.
    Killing,
    /// The servers are being listed.
    Listing,
    /// The session is being opened.
    Opening { names: A, windows: W },
    Done,
}

/// What came of the last action. `S` is the type of texts, and `L` that of listings.
#[derive(Debug, PartialEq, Eq)]
pub enum LaunchEvent<S, L> {
    /// The launch has been asked for.
    Begin,
    /// The command has ended, with or without success.
    Ran,
    /// Where the servers are, and what was found there.
    Listed { root: S, entries: L },
}

/// What is to be done next.
#[derive(Debug, PartialEq, Eq)]
pub enum LaunchAction<A, W> {
    /// Run tmux with these arguments, and wait until it ends.
    Run(A),
    /// List the directory that holds the servers.
    List,
    /// Run tmux with each of these lists of arguments, side by side. With that the servers of these
    /// names have been started.
    Spread { names: A, windows: W },
    /// Start nothing more.
    Refuse(StartError),
    /// Give up with an error.
    Fail,
}

impl View for LaunchPhase<Vec<String>, Vec<Vec<String>>> {
    type V = LaunchPhase<Args, ArgLists>;

    open spec fn view(&self) -> LaunchPhase<Args, ArgLists> {
        match *self {
            LaunchPhase::Fresh => LaunchPhase::Fresh,
            LaunchPhase::Killing => LaunchPhase::Killing,
            LaunchPhase::Listing => LaunchPhase::Listing,
            LaunchPhase::Opening { names, windows } => LaunchPhase::Opening {
                names: crate::text::views(names@),
                windows: crate::text::lists_of_views(windows@),
            },
            LaunchPhase::Done => LaunchPhase::Done,
        }
    }
}

impl View for LaunchEvent<String, Vec<Option<ServerEntry>>> {
    type V = LaunchEvent<Seq<char>, Seq<Option<ServerEntry>>>;

    open spec fn view(&self) -> LaunchEvent<Seq<char>, Seq<Option<ServerEntry>>> {
        match *self {
            LaunchEvent::Begin => LaunchEvent::Begin,
            LaunchEvent::Ran => LaunchEvent::Ran,
            LaunchEvent::Listed { root, entries } => LaunchEvent::Listed {
                root: root@,
                entries: entries@,
            },
        }
    }
}

impl View for LaunchAction<Vec<String>, Vec<Vec<String>>> {
    type V = LaunchAction<Args, ArgLists>;

    open spec fn view(&self) -> LaunchAction<Args, ArgLists> {
        match *self {
            LaunchAction::Run(args) => LaunchAction::Run(crate::text::views(args@)),
            LaunchAction::List => LaunchAction::List,
            LaunchAction::Spread { names, windows } => LaunchAction::Spread {
                names: crate::text::views(names@),
                windows: crate::text::lists_of_views(windows@),
            },
            LaunchAction::Refuse(e) => LaunchAction::Refuse(e),
            LaunchAction::Fail => LaunchAction::Fail,
        }
    }
}

/// The next phase of a launch, and what is to be done in it. In `Fresh` the start of the servers is
/// claimed; that is where their state changes.
pub open spec fn launch_step(
    state: ServerState,
    socket: Seq<char>,
    phase: LaunchPhase<Args, ArgLists>,
    event: LaunchEvent<Seq<char>, Seq<Option<ServerEntry>>>,
) -> (
    ServerState,
    LaunchPhase<Args, ArgLists>,
    LaunchAction<Args, ArgLists>,
) {
    match (phase, event) {
        (LaunchPhase::Fresh, LaunchEvent::Begin) => match claimed(state) {
            Ok(next) => (next, LaunchPhase::Killing, LaunchAction::Run(kill_session(socket))),
            Err(e) => (state, LaunchPhase::Done, LaunchAction::Refuse(e)),
        },
        (LaunchPhase::Killing, LaunchEvent::Ran) => (
            state,
            LaunchPhase::Listing,
            LaunchAction::List,
        ),
        (LaunchPhase::Listing, LaunchEvent::Listed { root, entries }) => if server_names(
            entries,
        ).len() > 0 {
            let plan = plan_for(root, socket, server_names(entries));
            (
                state,
                LaunchPhase::Opening { names: plan.window_names, windows: plan.windows },
                LaunchAction::Run(plan.session),
            )
        } else {
            (state, LaunchPhase::Done, LaunchAction::Refuse(StartError::NoServers))
        },
        (LaunchPhase::Opening { names, windows }, LaunchEvent::Ran) => (
            state,
            LaunchPhase::Done,
            LaunchAction::Spread { names, windows },
        ),
        _ => (state, LaunchPhase::Done, LaunchAction::Fail),
    }
}

/// Takes one step of launching the servers. It starts in `LaunchPhase::Fresh` with
/// `LaunchEvent::Begin`, and has ended when the phase is `LaunchPhase::Done`.
pub fn launch_servers(
    state: &mut ServerState,
    socket: &str,
    phase: LaunchPhase<Vec<String>, Vec<Vec<String>>>,
    event: LaunchEvent<String, Vec<Option<ServerEntry>>>,
) -> (step: (
    LaunchPhase<Vec<String>, Vec<Vec<String>>>,
    LaunchAction<Vec<String>, Vec<Vec<String>>>,
))
    ensures
        (*final(state), step.0@, step.1@) == launch_step(*old(state), socket@, phase@, event@),
{
    match (phase, event) {
        (LaunchPhase::Fresh, LaunchEvent::Begin) => match begin_start(state) {
            Ok(()) => (LaunchPhase::Killing, LaunchAction::Run(kill_session_args(socket))),
            Err(e) => (LaunchPhase::Done, LaunchAction::Refuse(e)),
        },
        (LaunchPhase::Killing, LaunchEvent::Ran) => (LaunchPhase::Listing, LaunchAction::List),
        (LaunchPhase::Listing, LaunchEvent::Listed { root, entries }) => {
            match start_tmux_windows(root.as_str(), socket, &entries) {
                Ok(plan) => (
                    LaunchPhase::Opening { names: plan.window_names, windows: plan.windows },
                    LaunchAction::Run(plan.session),
                ),
                Err(e) => (LaunchPhase::Done, LaunchAction::Refuse(e)),
            }
        },
        (LaunchPhase::Opening { names, windows }, LaunchEvent::Ran) => (
            LaunchPhase::Done,
            LaunchAction::Spread { names, windows },
        ),
        _ => (LaunchPhase::Done, LaunchAction::Fail),
    }
}

/// The actions of a launch, in order, within a number of steps, where these entries are found below
/// `root`.
pub open spec fn launch_actions(
    state: ServerState,
    socket: Seq<char>,
    root: Seq<char>,
    entries: Seq<Option<ServerEntry>>,
    phase: LaunchPhase<Args, ArgLists>,
    event: LaunchEvent<Seq<char>, Seq<Option<ServerEntry>>>,
    steps: nat,
) -> Seq<LaunchAction<Args, ArgLists>>
    decreases steps,
{
    let (after, next, action) = launch_step(state, socket, phase, event);
    let answer = match action {
        LaunchAction::Run(_) => Some(LaunchEvent::Ran),
        LaunchAction::List => Some(LaunchEvent::Listed { root, entries }),
        _ => None,
    };
    match answer {
        Some(answer) if steps > 0 => seq![action] + launch_actions(
            after,
            socket,
            root,
            entries,
            next,
            answer,
            (steps - 1) as nat,
        ),
        _ => seq![action],
    }
}

/// The commands among some actions, in order.
pub open spec fn commands(
    actions: Seq<LaunchAction<Args, ArgLists>>,
) -> ArgLists
    decreases actions.len(),
{
    if actions.len() == 0 {
        Seq::empty()
    } else {
        let before = commands(actions.drop_last());
        match actions.last() {
            LaunchAction::Run(args) => before.push(args),
            LaunchAction::Spread { names, windows } => before + windows,
            _ => before,
        }
    }
}

/// A launch runs no command where its claim is refused. Otherwise it first ends a session that may
/// be there, whatever comes of that; then, where there are servers, it opens the session with the
/// first of them; and once that has ended it opens the windows of the others. Where there are no
/// servers, nothing follows the end of the old session.
pub proof fn law_launch_runs_in_order(
    state: ServerState,
    socket: Seq<char>,
    root: Seq<char>,
    entries: Seq<Option<ServerEntry>>,
    steps: nat,
)
    requires
        steps >= 3,
    ensures
        ({
            let all = launch_actions(
                state,
                socket,
                root,
                entries,
                LaunchPhase::Fresh,
                LaunchEvent::Begin,
                steps,
            );
            let names = server_names(entries);
            let plan = plan_for(root, socket, names);
            let kill = LaunchAction::<Args, ArgLists>::Run(kill_session(socket));
            if state != ServerState::NotStarted {
                &&& all == seq![
                    LaunchAction::<Args, ArgLists>::Refuse(StartError::AlreadyRunning),
                ]
                &&& commands(all) == Seq::<Args>::empty()
            } else if names.len() == 0 {
                &&& all == seq![
                    kill,
                    LaunchAction::List,
                    LaunchAction::Refuse(StartError::NoServers),
                ]
                &&& commands(all) == seq![kill_session(socket)]
            } else {
                &&& all == seq![
                    kill,
                    LaunchAction::List,
                    LaunchAction::Run(plan.session),
                    LaunchAction::Spread { names, windows: plan.windows },
                ]
                &&& commands(all) == seq![kill_session(socket), plan.session] + plan.windows
            }
        }),
{
    reveal_with_fuel(launch_actions, 5);
    reveal_with_fuel(commands, 5);
    let all = launch_actions(
        state,
        socket,
        root,
        entries,
        LaunchPhase::Fresh,
        LaunchEvent::Begin,
        steps,
    );
    let names = server_names(entries);
    let plan = plan_for(root, socket, names);
    let none = Seq::<Args>::empty();
    let kill = LaunchAction::<Args, ArgLists>::Run(kill_session(socket));
    let list = LaunchAction::<Args, ArgLists>::List;
    let open = LaunchAction::<Args, ArgLists>::Run(plan.session);
    if state != ServerState::NotStarted {
        assert(all =~= seq![LaunchAction::Refuse(StartError::AlreadyRunning)]);
        assert(all.drop_last() =~= Seq::empty());
    } else {
        assert(seq![kill].drop_last() =~= Seq::empty());
        assert(seq![kill, list].drop_last() =~= seq![kill]);
        assert(none.push(kill_session(socket)) =~= seq![kill_session(socket)]);
        assert(commands(seq![kill, list]) == seq![kill_session(socket)]);
        if names.len() == 0 {
            assert(all =~= seq![kill, list, LaunchAction::Refuse(StartError::NoServers)]);
            assert(all.drop_last() =~= seq![kill, list]);
        } else {
            assert(all =~= seq![
                kill,
                list,
                open,
                LaunchAction::Spread { names, windows: plan.windows },
            ]);
            assert(all.drop_last() =~= seq![kill, list, open]);
            assert(seq![kill, list, open].drop_last() =~= seq![kill, list]);
            assert(seq![kill_session(socket)].push(plan.session) =~= seq![
                kill_session(socket),
                plan.session,
            ]);
        }
    }
}

/// The state of the servers changes where their start is claimed, from not started to starting, and
/// in no other step of a launch.
pub proof fn law_launch_changes_the_state_once(
    state: ServerState,
    socket: Seq<char>,
    phase: LaunchPhase<Args, ArgLists>,
    event: LaunchEvent<Seq<char>, Seq<Option<ServerEntry>>>,
)
    ensures
        launch_step(state, socket, phase, event).0 == (if phase == LaunchPhase::<
            Args,
            ArgLists,
        >::Fresh && event is Begin && state == ServerState::NotStarted {
            ServerState::Starting
        } else {
            state
        }),
{
}

/// What follows once the servers have been started or not: their windows are remembered, or the
/// daemon ends with the exit code that is returned.
pub fn start_servers(servers: &mut Vec<String>, outcome: Result<Vec<String>, StartError>) -> (exit:
    Option<i32>)
    ensures
        match outcome {
            Ok(started) => exit is None && final(servers)@ == old(servers)@ + started@,
            Err(_) => exit == Some(1i32) && final(servers)@ == old(servers)@,
        },
{
    match outcome {
        Ok(started) => {
            let mut started = started;
            servers.append(&mut started);
            None
        },
        Err(_) => Some(1),
    }
}

/// Every server is started in one window: the first one, followed by the others, are the servers
/// that there are.
pub proof fn law_every_server_has_one_window(names: Seq<Seq<char>>)
    requires
        names.len() > 0,
    ensures
        0 <= lead(names) < names.len(),
        (seq![names[lead(names)]] + names.remove(lead(names))).to_multiset()
            == names.to_multiset(),
{
    broadcast use vstd::seq_lib::group_to_multiset_ensures;

    lemma_first_proxy_range(names);
    let i = lead(names);
    let rest = names.remove(i);
    assert(rest.insert(0, names[i]) =~= seq![names[i]] + rest);
    vstd::seq_lib::lemma_multiset_commutative(seq![names[i]], rest);
    assert(seq![names[i]] =~= Seq::empty().push(names[i]));
    assert(seq![names[i]].to_multiset() =~= vstd::multiset::Multiset::singleton(names[i]));
    assert(rest.to_multiset() =~= names.to_multiset().remove(names[i]));
    assert(names.to_multiset().count(names[i]) > 0);
    assert((seq![names[i]] + rest).to_multiset() =~= names.to_multiset());
}

/// Where there is a proxy, the server that is started first is one, and the first one listed.
pub proof fn law_proxy_goes_first(names: Seq<Seq<char>>, i: int)
    requires
        0 <= i < names.len(),
        is_proxy_name(names[i]),
    ensures
        0 <= lead(names) <= i,
        is_proxy_name(names[lead(names)]),
        forall|j: int| 0 <= j < lead(names) ==> !is_proxy_name(#[trigger] names[j]),
{
    lemma_first_proxy_range(names);
}

/// How many seconds a server has to end by itself once the proxy has gone.
pub const GRACE_PERIOD: u64 = 10;

/// How many seconds pass after each signal.
pub const SIGNAL_PAUSE: u64 = 10;

/// How many signals ask a process to end, before it is killed.
pub const POLITE_SIGNALS: u8 = 9;

#[derive(Clone, Copy, Debug, PartialEq, Eq, Structural)]
pub enum Signal {
    Term,
    Int,
    Hup,
    Kill,
}

/// How far the end of a server has come.
#[derive(Clone, Copy, Debug, PartialEq, Eq, Structural)]
pub enum CleanupPhase {
    /// The proxy has just gone.
    Fresh,
    /// The server may still end by itself.
    Grace,
    /// So many signals have been sent, and the process is being looked up.
    Checking { sent: u8 },
    /// The last of so many signals is being sent.
    Sending { sent: u8 },
    /// So many signals have been sent, and the last is given time.
    Pausing { sent: u8 },
    /// The process is being killed.
    Killing,
    Done,
}

/// What came of the last action.
#[derive(Clone, Copy, Debug, PartialEq, Eq, Structural)]
pub enum CleanupEvent {
    /// The proxy has gone.
    Begin,
    /// The time has passed.
    Waited,
    /// Whether the process runs.
    Running(bool),
    /// The signal has been sent, with or without success.
    Sent,
}

/// What is to be done next.
#[derive(Clone, Copy, Debug, PartialEq, Eq, Structural)]
pub enum CleanupAction {
    /// Let so many seconds pass.
    Wait(u64),
    /// Find out whether a process runs.
    Probe(i32),
    /// Send a signal to a process.
    Send(i32, Signal),
    /// Nothing more.
    Finish,
}

/// All the signals that a process can get, in order.
pub open spec fn schedule() -> Seq<Signal> {
    seq![
        Signal::Term,
        Signal::Term,
        Signal::Term,
        Signal::Int,
        Signal::Int,
        Signal::Int,
        Signal::Hup,
        Signal::Hup,
        Signal::Hup,
        Signal::Kill,
    ]
}

/// The next phase of the end of a server with the process `pid`, and what is to be done in it.
pub open spec fn cleanup_step(pid: i32, phase: CleanupPhase, event: CleanupEvent) -> (
    CleanupPhase,
    CleanupAction,
) {
    match (phase, event) {
        (CleanupPhase::Fresh, CleanupEvent::Begin) => (
            CleanupPhase::Grace,
            CleanupAction::Wait(GRACE_PERIOD),
        ),
        (CleanupPhase::Grace, CleanupEvent::Waited) => (
            CleanupPhase::Checking { sent: 0 },
            CleanupAction::Probe(pid),
        ),
        (CleanupPhase::Checking { sent }, CleanupEvent::Running(true)) => if sent
            < POLITE_SIGNALS {
            (
                CleanupPhase::Sending { sent: (sent + 1) as u8 },
                CleanupAction::Send(pid, schedule()[sent as int]),
            )
        } else {
            (CleanupPhase::Killing, CleanupAction::Send(pid, Signal::Kill))
        },
        (CleanupPhase::Sending { sent }, CleanupEvent::Sent) => (
            CleanupPhase::Pausing { sent },
            CleanupAction::Wait(SIGNAL_PAUSE),
        ),
        (CleanupPhase::Pausing { sent }, CleanupEvent::Waited) => (
            CleanupPhase::Checking { sent },
            CleanupAction::Probe(pid),
        ),
        _ => (CleanupPhase::Done, CleanupAction::Finish),
    }
}

/// Takes one step of ending the server with the process `pid`. It starts in `CleanupPhase::Fresh`
/// with `CleanupEvent::Begin`, and has ended when the action is `CleanupAction::Finish`.
pub fn cleanup_servers(pid: i32, phase: CleanupPhase, event: CleanupEvent) -> (step: (
    CleanupPhase,
    CleanupAction,
))
    ensures
        step == cleanup_step(pid, phase, event),
{
    match (phase, event) {
        (CleanupPhase::Fresh, CleanupEvent::Begin) => (
            CleanupPhase::Grace,
            CleanupAction::Wait(GRACE_PERIOD),
        ),
        (CleanupPhase::Grace, CleanupEvent::Waited) => (
            CleanupPhase::Checking { sent: 0 },
            CleanupAction::Probe(pid),
        ),
        (CleanupPhase::Checking { sent }, CleanupEvent::Running(true)) => if sent
            < POLITE_SIGNALS {
            let signal = if sent < 3 {
                Signal::Term
            } else if sent < 6 {
                Signal::Int
            } else {
                Signal::Hup
            };
            (CleanupPhase::Sending { sent: sent + 1 }, CleanupAction::Send(pid, signal))
        } else {
            (CleanupPhase::Killing, CleanupAction::Send(pid, Signal::Kill))
        },
        (CleanupPhase::Sending { sent }, CleanupEvent::Sent) => (
            CleanupPhase::Pausing { sent },
            CleanupAction::Wait(SIGNAL_PAUSE),
        ),
        (CleanupPhase::Pausing { sent }, CleanupEvent::Waited) => (
            CleanupPhase::Checking { sent },
            CleanupAction::Probe(pid),
        ),
        _ => (CleanupPhase::Done, CleanupAction::Finish),
    }
}

/// The actions that end the process `pid`, in order, within a number of steps; `alive` tells whether the
/// process runs when it is looked up for the first time, the second, and so on, and `probes` how
/// often it has been looked up.
pub open spec fn cleanup_actions(
    alive: spec_fn(nat) -> bool,
    pid: i32,
    phase: CleanupPhase,
    event: CleanupEvent,
    probes: nat,
    steps: nat,
) -> Seq<CleanupAction>
    decreases steps,
{
    let (next, action) = cleanup_step(pid, phase, event);
    if steps == 0 {
        seq![action]
    } else {
        let more = (steps - 1) as nat;
        seq![action] + match action {
            CleanupAction::Wait(_) => cleanup_actions(
                alive,
                pid,
                next,
                CleanupEvent::Waited,
                probes,
                more,
            ),
            CleanupAction::Probe(_) => cleanup_actions(
                alive,
                pid,
                next,
                CleanupEvent::Running(alive(probes)),
                probes + 1,
                more,
            ),
            CleanupAction::Send(_, _) => cleanup_actions(
                alive,
                pid,
                next,
                CleanupEvent::Sent,
                probes,
                more,
            ),
            CleanupAction::Finish => Seq::empty(),
        }
    }
}

/// The signals among some actions, in order.
pub open spec fn signals(actions: Seq<CleanupAction>) -> Seq<Signal>
    decreases actions.len(),
{
    if actions.len() == 0 {
        Seq::empty()
    } else {
        match actions[0] {
            CleanupAction::Send(_, signal) => seq![signal] + signals(actions.drop_first()),
            _ => signals(actions.drop_first()),
        }
    }
}

/// How many seconds some actions take.
pub open spec fn seconds(actions: Seq<CleanupAction>) -> nat
    decreases actions.len(),
{
    if actions.len() == 0 {
        0
    } else {
        match actions[0] {
            CleanupAction::Wait(secs) => secs as nat + seconds(actions.drop_first()),
            _ => seconds(actions.drop_first()),
        }
    }
}

/// The process is found running `k` times, and not when it is looked up again.
pub open spec fn ends_after(alive: spec_fn(nat) -> bool, k: nat) -> bool {
    &&& k <= 10
    &&& forall|j: nat| j < k ==> #[trigger] alive(j)
    &&& k < 10 ==> !alive(k)
}

proof fn lemma_signals_add(a: Seq<CleanupAction>, b: Seq<CleanupAction>)
    ensures
        signals(a + b) == signals(a) + signals(b),
    decreases a.len(),
{
    if a.len() == 0 {
        assert(a + b =~= b);
        assert(signals(a) + signals(b) =~= signals(b));
    } else {
        lemma_signals_add(a.drop_first(), b);
        assert((a + b).drop_first() =~= a.drop_first() + b);
        if let CleanupAction::Send(_, signal) = a[0] {
            assert(seq![signal] + (signals(a.drop_first()) + signals(b)) =~= (seq![signal]
                + signals(a.drop_first())) + signals(b));
        }
    }
}

proof fn lemma_seconds_add(a: Seq<CleanupAction>, b: Seq<CleanupAction>)
    ensures
        seconds(a + b) == seconds(a) + seconds(b),
    decreases a.len(),
{
    if a.len() == 0 {
        assert(a + b =~= b);
    } else {
        lemma_seconds_add(a.drop_first(), b);
        assert((a + b).drop_first() =~= a.drop_first() + b);
    }
}

/// The actions from the point where a process has been looked up after `n` signals.
spec fn actions_from(alive: spec_fn(nat) -> bool, pid: i32, n: nat, steps: nat) -> Seq<CleanupAction> {
    cleanup_actions(
        alive,
        pid,
        CleanupPhase::Checking { sent: n as u8 },
        CleanupEvent::Running(alive(n)),
        n + 1,
        steps,
    )
}

/// One signal, one pause, one look.
spec fn round(pid: i32, n: nat) -> Seq<CleanupAction> {
    seq![
        CleanupAction::Send(pid, schedule()[n as int]),
        CleanupAction::Wait(SIGNAL_PAUSE),
        CleanupAction::Probe(pid),
    ]
}

proof fn lemma_round(alive: spec_fn(nat) -> bool, pid: i32, n: nat, steps: nat)
    requires
        n < 9,
        alive(n),
        steps >= 3,
    ensures
        actions_from(alive, pid, n, steps) == round(pid, n) + actions_from(alive, pid, n + 1, (steps - 3) as nat),
{
    reveal_with_fuel(cleanup_actions, 4);
    assert(actions_from(alive, pid, n, steps) =~= round(pid, n) + actions_from(
        alive,
        pid,
        n + 1,
        (steps - 3) as nat,
    ));
}

proof fn lemma_round_content(pid: i32, n: nat)
    ensures
        signals(round(pid, n)) == seq![schedule()[n as int]],
        seconds(round(pid, n)) == SIGNAL_PAUSE,
{
    reveal_with_fuel(signals, 4);
    reveal_with_fuel(seconds, 4);
    let r = round(pid, n);
    assert(r.drop_first() =~= seq![CleanupAction::Wait(SIGNAL_PAUSE), CleanupAction::Probe(pid)]);
    assert(r.drop_first().drop_first() =~= seq![CleanupAction::Probe(pid)]);
    assert(r.drop_first().drop_first().drop_first() =~= Seq::empty());
    assert(signals(r) =~= seq![schedule()[n as int]]);
}

proof fn lemma_last_round(alive: spec_fn(nat) -> bool, pid: i32, n: nat, steps: nat)
    requires
        n <= 9,
        !alive(n) || n == 9,
        steps >= 3,
    ensures
        !alive(n) ==> actions_from(alive, pid, n, steps) == seq![CleanupAction::Finish],
        alive(n) ==> actions_from(alive, pid, n, steps) == seq![
            CleanupAction::Send(pid, Signal::Kill),
            CleanupAction::Finish,
        ],
{
    reveal_with_fuel(cleanup_actions, 3);
    if alive(n) {
        assert(actions_from(alive, pid, n, steps) =~= seq![
            CleanupAction::Send(pid, Signal::Kill),
            CleanupAction::Finish,
        ]);
    } else {
        assert(actions_from(alive, pid, n, steps) =~= seq![CleanupAction::Finish]);
    }
}

proof fn lemma_last_round_content(pid: i32)
    ensures
        signals(seq![CleanupAction::Finish]) == Seq::<Signal>::empty(),
        seconds(seq![CleanupAction::Finish]) == 0,
        signals(seq![CleanupAction::Send(pid, Signal::Kill), CleanupAction::Finish]) == seq![
            Signal::Kill,
        ],
        seconds(seq![CleanupAction::Send(pid, Signal::Kill), CleanupAction::Finish]) == 0,
{
    reveal_with_fuel(signals, 3);
    reveal_with_fuel(seconds, 3);
    let one = seq![CleanupAction::Finish];
    let two = seq![CleanupAction::Send(pid, Signal::Kill), CleanupAction::Finish];
    assert(one.drop_first() =~= Seq::empty());
    assert(two.drop_first() =~= one);
    assert(signals(two) =~= seq![Signal::Kill]);
}

proof fn lemma_cleanup_from(alive: spec_fn(nat) -> bool, pid: i32, n: nat, k: nat, steps: nat)
    requires
        ends_after(alive, k),
        n <= k,
        n <= 9,
        steps >= 3 * (10 - n),
    ensures
        actions_from(alive, pid, n, steps).len() > 0,
        actions_from(alive, pid, n, steps).last() == CleanupAction::Finish,
        signals(actions_from(alive, pid, n, steps)) == schedule().subrange(n as int, k as int),
        seconds(actions_from(alive, pid, n, steps)) == SIGNAL_PAUSE * ((if k < 9 {
            k
        } else {
            9
        }) - n),
    decreases 10 - n,
{
    lemma_last_round_content(pid);
    if n == k {
        lemma_last_round(alive, pid, n, steps);
        assert(schedule().subrange(n as int, k as int) =~= Seq::empty());
    } else {
        assert(alive(n));
        if n == 9 {
            lemma_last_round(alive, pid, n, steps);
            assert(schedule().subrange(9, 10) =~= seq![Signal::Kill]);
        } else {
            let m = n + 1;
            let tail = actions_from(alive, pid, m, (steps - 3) as nat);
            lemma_cleanup_from(alive, pid, m, k, (steps - 3) as nat);
            lemma_round(alive, pid, n, steps);
            lemma_round_content(pid, n);
            lemma_signals_add(round(pid, n), tail);
            lemma_seconds_add(round(pid, n), tail);
            assert(schedule().subrange(n as int, k as int) =~= seq![schedule()[n as int]]
                + schedule().subrange(m as int, k as int));
        }
    }
}

/// A process that is found running `k` times gets the first `k` signals of the schedule and no
/// other: it is asked to end three times each by SIGTERM, SIGINT and SIGHUP, is killed only when
/// it has outlived all nine, and gets nothing once it has ended. The whole takes the grace period
/// and one pause for each of the nine that was sent.
pub proof fn law_signals_follow_the_schedule(
    alive: spec_fn(nat) -> bool,
    pid: i32,
    k: nat,
    steps: nat,
)
    requires
        ends_after(alive, k),
        steps >= 32,
    ensures
        ({
            let all = cleanup_actions(
                alive,
                pid,
                CleanupPhase::Fresh,
                CleanupEvent::Begin,
                0,
                steps,
            );
            &&& signals(all) == schedule().take(k as int)
            &&& seconds(all) == GRACE_PERIOD + SIGNAL_PAUSE * (if k < 9 {
                k
            } else {
                9
            })
            &&& all.len() > 0
            &&& all.last() == CleanupAction::Finish
        }),
{
    let all = cleanup_actions(alive, pid, CleanupPhase::Fresh, CleanupEvent::Begin, 0, steps);
    let tail = actions_from(alive, pid, 0, (steps - 2) as nat);
    let head = seq![CleanupAction::Wait(GRACE_PERIOD), CleanupAction::Probe(pid)];
    assert(all =~= head + tail) by {
        reveal_with_fuel(cleanup_actions, 3);
    }
    assert(signals(head) =~= Seq::empty() && seconds(head) == GRACE_PERIOD) by {
        reveal_with_fuel(signals, 3);
        reveal_with_fuel(seconds, 3);
        assert(head.drop_first() =~= seq![CleanupAction::Probe(pid)]);
        assert(head.drop_first().drop_first() =~= Seq::empty());
    }
    lemma_cleanup_from(alive, pid, 0, k, (steps - 2) as nat);
    lemma_signals_add(head, tail);
    lemma_seconds_add(head, tail);
    assert(schedule().take(k as int) =~= schedule().subrange(0, k as int));
    assert(Seq::<Signal>::empty() + signals(tail) =~= signals(tail));
}

/// The `i`-th action of the rounds of signals: a signal, a pause and a look, over and over.
spec fn action_in_rounds(pid: i32, i: int) -> CleanupAction {
    if i % 3 == 0 {
        CleanupAction::Send(
            pid,
            if i < 9 {
                Signal::Term
            } else if i < 18 {
                Signal::Int
            } else {
                Signal::Hup
            },
        )
    } else if i % 3 == 1 {
        CleanupAction::Wait(10)
    } else {
        CleanupAction::Probe(pid)
    }
}

proof fn lemma_rounds_from(alive: spec_fn(nat) -> bool, pid: i32, n: nat, k: nat, steps: nat)
    requires
        ends_after(alive, k),
        n <= k,
        n <= 9,
        steps >= 3 * (10 - n),
    ensures
        actions_from(alive, pid, n, steps) == Seq::new(
            (3 * ((if k < 9 {
                k
            } else {
                9
            }) - n)) as nat,
            |i: int| action_in_rounds(pid, i + 3 * n),
        ) + (if k == 10 {
            seq![CleanupAction::Send(pid, Signal::Kill)]
        } else {
            Seq::empty()
        }) + seq![CleanupAction::Finish],
    decreases 10 - n,
{
    let m: int = if k < 9 {
        k as int
    } else {
        9
    };
    let here = Seq::new((3 * (m - n)) as nat, |i: int| action_in_rounds(pid, i + 3 * n));
    let tail = (if k == 10 {
        seq![CleanupAction::Send(pid, Signal::Kill)]
    } else {
        Seq::empty()
    }) + seq![CleanupAction::Finish];
    if n == k || n == 9 {
        if n < k {
            assert(alive(n));
        }
        lemma_last_round(alive, pid, n, steps);
        assert(actions_from(alive, pid, n, steps) =~= here + tail);
    } else {
        assert(alive(n));
        let next = (n + 1) as nat;
        lemma_round(alive, pid, n, steps);
        lemma_rounds_from(alive, pid, next, k, (steps - 3) as nat);
        let rest = Seq::new((3 * (m - next)) as nat, |i: int| action_in_rounds(pid, i + 3 * next));
        assert(round(pid, n)[0] == action_in_rounds(pid, 3 * (n as int)));
        assert(round(pid, n) + rest =~= here);
        assert(actions_from(alive, pid, n, steps) =~= here + tail);
    }
    assert(here + tail =~= here + (if k == 10 {
        seq![CleanupAction::Send(pid, Signal::Kill)]
    } else {
        Seq::empty()
    }) + seq![CleanupAction::Finish]);
}

/// Everything that is done to a process that is found running `k` times, in order. It is left alone
/// for ten seconds and looked up. Each time that it is found running it gets one signal at once, and
/// then ten seconds before it is looked up again: SIGTERM three times, SIGINT three times, SIGHUP
/// three times. If it is found running after that too, it is killed. Nothing more follows, nor
/// anything once it is found gone.
pub proof fn law_cleanup_actions(alive: spec_fn(nat) -> bool, pid: i32, k: nat, steps: nat)
    requires
        k <= 10,
        forall|j: nat| j < k ==> #[trigger] alive(j),
        k < 10 ==> !alive(k),
        steps >= 32,
    ensures
        cleanup_actions(alive, pid, CleanupPhase::Fresh, CleanupEvent::Begin, 0, steps) == seq![
            CleanupAction::Wait(10),
            CleanupAction::Probe(pid),
        ] + Seq::new(
            3 * (if k < 9 {
                k
            } else {
                9
            }),
            |i: int|
                if i % 3 == 0 {
                    CleanupAction::Send(
                        pid,
                        if i < 9 {
                            Signal::Term
                        } else if i < 18 {
                            Signal::Int
                        } else {
                            Signal::Hup
                        },
                    )
                } else if i % 3 == 1 {
                    CleanupAction::Wait(10)
                } else {
                    CleanupAction::Probe(pid)
                },
        ) + (if k == 10 {
            seq![CleanupAction::Send(pid, Signal::Kill)]
        } else {
            Seq::empty()
        }) + seq![CleanupAction::Finish],
{
    let all = cleanup_actions(alive, pid, CleanupPhase::Fresh, CleanupEvent::Begin, 0, steps);
    let tail = actions_from(alive, pid, 0, (steps - 2) as nat);
    assert(all =~= seq![CleanupAction::Wait(10), CleanupAction::Probe(pid)] + tail) by {
        reveal_with_fuel(cleanup_actions, 3);
    }
    lemma_rounds_from(alive, pid, 0, k, (steps - 2) as nat);
}

/// A signal is sent in answer to one thing only, that the process has just been found running, and
/// every signal but the last is followed at once by a pause.
pub proof fn law_signals_answer_a_look(pid: i32, phase: CleanupPhase, event: CleanupEvent)
    ensures
        ({
            let (next, action) = cleanup_step(pid, phase, event);
            &&& action is Send ==> event == CleanupEvent::Running(true)
            &&& action matches CleanupAction::Send(p, signal) ==> p == pid && (if signal
                == Signal::Kill {
                cleanup_step(pid, next, CleanupEvent::Sent).1 == CleanupAction::Finish
            } else {
                cleanup_step(pid, next, CleanupEvent::Sent).1 == CleanupAction::Wait(10)
            })
        }),
{
}

/// Every process that is looked up or sent a signal by some actions is `pid`.
pub open spec fn concerns_only(actions: Seq<CleanupAction>, pid: i32) -> bool {
    forall|i: int|
        0 <= i < actions.len() ==> match #[trigger] actions[i] {
            CleanupAction::Probe(p) => p == pid,
            CleanupAction::Send(p, _) => p == pid,
            _ => true,
        }
}

/// From whatever point on, the end of a server looks up its own process and sends signals to it,
/// and to no other.
pub proof fn law_no_other_process_is_signalled(
    alive: spec_fn(nat) -> bool,
    pid: i32,
    phase: CleanupPhase,
    event: CleanupEvent,
    probes: nat,
    steps: nat,
)
    ensures
        concerns_only(cleanup_actions(alive, pid, phase, event, probes, steps), pid),
    decreases steps,
{
    let (next, action) = cleanup_step(pid, phase, event);
    if steps > 0 {
        let more = (steps - 1) as nat;
        match action {
            CleanupAction::Wait(_) => {
                law_no_other_process_is_signalled(
                    alive,
                    pid,
                    next,
                    CleanupEvent::Waited,
                    probes,
                    more,
                );
            },
            CleanupAction::Probe(_) => {
                law_no_other_process_is_signalled(
                    alive,
                    pid,
                    next,
                    CleanupEvent::Running(alive(probes)),
                    probes + 1,
                    more,
                );
            },
            CleanupAction::Send(_, _) => {
                law_no_other_process_is_signalled(
                    alive,
                    pid,
                    next,
                    CleanupEvent::Sent,
                    probes,
                    more,
                );
            },
            CleanupAction::Finish => {},
        }
    }
}

} // verus!
