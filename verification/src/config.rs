//! The fixed parameters of the daemon, and the states that its servers go through.
use std::cmp::Ordering;
use vstd::prelude::*;

verus! {

/// Where the servers' directories are, below the home directory.
pub const SRV_DIR: &'static str = ".local/share/srv";

/// What starts a server, in its directory.
pub const SRV_STARTUP_SCRIPT: &'static str = "./run";

/// The tmux session that holds one window for each server.
pub const TMUX_SESSION: &'static str = "fabric-servers";

/// How many seconds the proxy is given to start listening.
pub const BUFFER_TIMEOUT: u64 = 25;

/// After how many seconds without a connection the daemon leaves, while no server has started.
pub const INIT_TIMEOUT: u64 = 60;

/// Where systemd listens for Minecraft clients.
pub const CLIENT_PORT: u16 = 25565;

/// Where systemd listens for BlueMap's HTTP clients.
pub const BLUEMAP_PORT: u16 = 31898;

/// Where the Velocity proxy listens.
pub const PROXY_PORT: u16 = 25564;

/// Where the BlueMap mod listens.
pub const BLUEMAP_MOD_PORT: u16 = 8100;

/// How far the servers are, in the order of these states.
#[derive(Clone, Copy, Debug, PartialEq, Eq, Ord, Structural)]
pub enum ServerState {
    NotStarted,
    Starting,
    Started,
    ShuttingDown,
    ShutDown,
}

impl ServerState {
    /// The place of a state in the order.
    pub open spec fn place(self) -> int {
        match self {
            ServerState::NotStarted => 0,
            ServerState::Starting => 1,
            ServerState::Started => 2,
            ServerState::ShuttingDown => 3,
            ServerState::ShutDown => 4,
        }
    }

    /// The place of a state in the order.
    pub fn rank(self) -> (r: u8)
        ensures
            r == self.place(),
    {
        match self {
            ServerState::NotStarted => 0,
            ServerState::Starting => 1,
            ServerState::Started => 2,
            ServerState::ShuttingDown => 3,
            ServerState::ShutDown => 4,
        }
    }
}

impl PartialOrd for ServerState {
    fn partial_cmp(&self, other: &Self) -> (r: Option<Ordering>) {
        let a: u8 = self.rank();
        let b: u8 = other.rank();
        if a < b {
            Some(Ordering::Less)
        } else if a == b {
            Some(Ordering::Equal)
        } else {
            Some(Ordering::Greater)
        }
    }
}

impl vstd::std_specs::cmp::PartialOrdSpecImpl for ServerState {
    open spec fn obeys_partial_cmp_spec() -> bool {
        true
    }

    open spec fn partial_cmp_spec(&self, other: &Self) -> Option<Ordering> {
        if self.place() < other.place() {
            Some(Ordering::Less)
        } else if self.place() == other.place() {
            Some(Ordering::Equal)
        } else {
            Some(Ordering::Greater)
        }
    }
}

/// The parameters that the daemon promises: the directory and the script of the servers, the
/// session, the ports, the times in seconds, and how many bytes of a request and of a first packet
/// are read.
pub proof fn law_parameters()
    ensures
        SRV_DIR@ == ".local/share/srv"@ && SRV_STARTUP_SCRIPT@ == "./run"@ && TMUX_SESSION@
            == "fabric-servers"@,
        CLIENT_PORT == 25565 && BLUEMAP_PORT == 31898 && PROXY_PORT == 25564 && BLUEMAP_MOD_PORT
            == 8100,
        BUFFER_TIMEOUT == 25 && INIT_TIMEOUT == 60 && crate::bluemap::BACKEND_TIMEOUT == 2
            && crate::monitor::PROXY_PERIOD == 5 && crate::monitor::IDLE_PERIOD == 1
            && crate::tmux::GRACE_PERIOD == 10 && crate::tmux::SIGNAL_PAUSE == 10,
        crate::bluemap::REQUEST_LIMIT == 8192 && crate::connect::PACKET_LIMIT == 4096,
        crate::socket::FIRST_FD == 3,
{
}

/// The states come one after the other: each is below exactly those behind it.
pub proof fn law_order_of_states(a: ServerState, b: ServerState)
    ensures
        ServerState::NotStarted.place() < ServerState::Starting.place()
            < ServerState::Started.place() < ServerState::ShuttingDown.place()
            < ServerState::ShutDown.place(),
        a.place() == b.place() ==> a == b,
{
}

} // verus!
