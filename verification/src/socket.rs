//! The listening sockets that systemd hands over.
use crate::number::parse_i32;
use std::collections::HashMap;
use vstd::prelude::*;

verus! {

/// The first file descriptor that systemd hands over.
pub const FIRST_FD: i32 = 3;

/// How many sockets there are, given the value of `LISTEN_FDS`: none where it is not set or is no
/// number.
pub open spec fn socket_count(listen_fds: Option<Seq<char>>) -> int {
    match listen_fds {
        Some(text) => match crate::number::i32_of(text) {
            Some(n) => n,
            None => 0,
        },
        None => 0,
    }
}

/// The file descriptors from `first` up to, and without, `end`. There are none where `end` is not
/// beyond `first`.
#[derive(Clone, Copy, Debug, PartialEq, Eq, Structural)]
pub struct FdRange {
    pub first: i32,
    pub end: i32,
}

/// The file descriptors that systemd has handed over, given the value of `LISTEN_FDS`.
pub fn listener_fds(listen_fds: Option<&str>) -> (r: FdRange)
    requires
        socket_count(crate::text::opt_view(listen_fds)) <= i32::MAX - FIRST_FD,
    ensures
        r.first == FIRST_FD,
        r.end == FIRST_FD + socket_count(crate::text::opt_view(listen_fds)),
{
    let count: i32 = listen_fds_count(listen_fds);
    FdRange { first: FIRST_FD, end: FIRST_FD + count }
}

/// How many sockets systemd announces, given the value of `LISTEN_FDS`.
pub fn listen_fds_count(listen_fds: Option<&str>) -> (n: i32)
    ensures
        n == socket_count(crate::text::opt_view(listen_fds)),
{
    match listen_fds {
        Some(text) => match parse_i32(text) {
            Some(n) => n,
            None => 0,
        },
        None => 0,
    }
}

/// The last listener on `port` is the one at `i`.
pub open spec fn is_last_on(ports: Seq<Option<u16>>, port: u16, i: int) -> bool {
    &&& 0 <= i < ports.len()
    &&& ports[i] == Some(port)
    &&& forall|j: int| i < j < ports.len() ==> ports[j] != Some(port)
}

/// Files the listeners under their ports. `ports` tells for each listener where it listens, and
/// `None` where that cannot be found out; such a listener is left out. Of two on one port the
/// later one is kept.
pub fn get_systemd_sockets(ports: &Vec<Option<u16>>) -> (sockets: HashMap<u16, usize>)
    ensures
        forall|port: u16| #[trigger]
            sockets@.contains_key(port) <==> ports@.contains(Some(port)),
        forall|port: u16| #[trigger]
            sockets@.contains_key(port) ==> is_last_on(ports@, port, sockets@[port] as int),
        forall|port: u16| #[trigger]
            sockets@.contains_key(port) ==> sockets@[port] < ports@.len()
                && ports@[sockets@[port] as int] == Some(port),
        forall|i: int|
            0 <= i < ports@.len() && (#[trigger] ports@[i]) is Some ==> sockets@.contains_key(
                ports@[i]->0,
            ) && i <= sockets@[ports@[i]->0],
{
    broadcast use vstd::std_specs::hash::group_hash_axioms;

    let mut sockets: HashMap<u16, usize> = HashMap::new();
    for i in 0..ports.len()
        invariant
            forall|port: u16| #[trigger]
                sockets@.contains_key(port) <==> ports@.take(i as int).contains(Some(port)),
            forall|port: u16| #[trigger]
                sockets@.contains_key(port) ==> is_last_on(
                    ports@.take(i as int),
                    port,
                    sockets@[port] as int,
                ),
    {
        let ghost before = sockets@;
        if let Some(port) = ports[i] {
            sockets.insert(port, i);
        }
        proof {
            let old_ports = ports@.take(i as int);
            let new_ports = ports@.take(i + 1);
            assert(new_ports =~= old_ports.push(ports@[i as int]));
            assert forall|port: u16| #[trigger]
                sockets@.contains_key(port) <==> new_ports.contains(Some(port)) by {
                if old_ports.contains(Some(port)) {
                    let k = old_ports.index_of(Some(port));
                    assert(new_ports[k] == Some(port));
                }
                if new_ports.contains(Some(port)) {
                    let k = new_ports.index_of(Some(port));
                    if k < i {
                        assert(old_ports[k] == Some(port));
                    }
                }
                if ports@[i as int] == Some(port) {
                    assert(new_ports[i as int] == Some(port));
                }
                assert(before.contains_key(port) <==> old_ports.contains(Some(port)));
            }
            assert forall|port: u16| #[trigger] sockets@.contains_key(port) implies is_last_on(
                new_ports,
                port,
                sockets@[port] as int,
            ) by {
                if ports@[i as int] != Some(port) {
                    assert(before.contains_key(port));
                    let k = before[port] as int;
                    assert(is_last_on(old_ports, port, k));
                    assert forall|j: int| k < j < new_ports.len() implies new_ports[j] != Some(
                        port,
                    ) by {
                        if j < i {
                            assert(old_ports[j] != Some(port));
                        }
                    }
                }
            }
        }
    }
    assert(ports@.take(ports@.len() as int) =~= ports@);
    sockets
}

/// A number of sockets is read as it is written; where it is not given, or is no number, there are
/// none.
pub proof fn law_socket_count(n: i32, text: Seq<char>)
    ensures
        socket_count(Some(crate::number::signed_decimal(n as int))) == n,
        socket_count(None) == 0,
        crate::number::i32_of(text) is None ==> socket_count(Some(text)) == 0,
        crate::number::i32_of(text) matches Some(count) ==> socket_count(Some(text)) == count,
{
    crate::number::law_signed_decimal_reads_back(n);
}

} // verus!
