//! Minecraft clients: what becomes of each connection, from its first packet to the proxy.
use crate::config::{ServerState, BUFFER_TIMEOUT};
use crate::outside::{
    base64_append, decode_handshake, encode_status, json_from_str, json_number, json_object,
    json_string, json_to_string, next_packet,
};
use vstd::prelude::*;

verus! {

/// How many bytes of a client's first packet are read.
pub const PACKET_LIMIT: usize = 4096;

/// What a client that shakes hands wants next.
#[derive(Clone, Copy, Debug, PartialEq, Eq, Structural)]
pub enum NextState {
    /// To be told about the server.
    Status,
    /// To play.
    Login,
}

/// What the first packet of a client asks for, where it is a handshake.
pub open spec fn handshake_of(bytes: Seq<u8>) -> Option<NextState> {
    match crate::outside::first_packet(bytes) {
        Ok(Some((id, body))) => match crate::outside::handshake_decoded(id, body) {
            Ok(next) => Some(next),
            Err(_) => None,
        },
        _ => None,
    }
}

/// The number of a state in a handshake.
pub open spec fn state_number(next: NextState) -> i32 {
    match next {
        NextState::Status => 1,
        NextState::Login => 2,
    }
}

/// The bytes of a handshake.
pub open spec fn handshake_bytes(
    version: i32,
    address: Seq<char>,
    port: u16,
    next: NextState,
) -> Seq<u8> {
    crate::outside::packet_bytes(0, handshake_body(version, address, port, next))
}

/// The body of a handshake.
pub open spec fn handshake_body(
    version: i32,
    address: Seq<char>,
    port: u16,
    next: NextState,
) -> Seq<u8> {
    crate::outside::handshake_fields(
        version,
        vstd::utf8::encode_utf8(address),
        port,
        state_number(next),
    )
}

/// A handshake that fits into a packet.
pub open spec fn is_handshake(
    version: i32,
    address: Seq<char>,
    port: u16,
    next: NextState,
) -> bool {
    crate::outside::fits(0, handshake_body(version, address, port, next))
}

/// What a packet asks for that holds the fields of a handshake and some bytes behind them.
pub open spec fn asked(host: Seq<u8>, state: i32, extra: Seq<u8>) -> Option<NextState> {
    match crate::outside::handshake_verdict(host, state, extra) {
        Ok(next) => Some(next),
        Err(_) => None,
    }
}

/// `next` is what these bytes ask for. A handshake that is there in full asks for its state,
/// whatever follows it. Nothing is asked for by a handshake with an address that is no text, with a
/// number that stands for no state, with a field cut off, or with bytes left over in its packet; by
/// a packet that is there in part; by one with a number other than 0; nor by a size that no packet
/// has.
pub open spec fn asks_for(bytes: Seq<u8>, next: Option<NextState>) -> bool {
    &&& forall|version: i32, address: Seq<char>, port: u16, state: NextState, rest: Seq<u8>|
        is_handshake(version, address, port, state) && bytes == #[trigger] (handshake_bytes(
            version,
            address,
            port,
            state,
        ) + rest) ==> next == Some(state)
    &&& forall|
        version: i32,
        host: Seq<u8>,
        port: u16,
        state: i32,
        extra: Seq<u8>,
        rest: Seq<u8>,
    |
        crate::outside::fits(
            0,
            crate::outside::handshake_fields(version, host, port, state) + extra,
        ) && bytes == #[trigger] (crate::outside::packet_bytes(
            0,
            crate::outside::handshake_fields(version, host, port, state) + extra,
        ) + rest) ==> next == asked(host, state, extra)
    &&& forall|version: i32, host: Seq<u8>, port: u16, state: i32, n: int, rest: Seq<u8>|
        host.len() <= i32::MAX && 0 <= n < crate::outside::handshake_fields(
            version,
            host,
            port,
            state,
        ).len() && crate::outside::fits(
            0,
            crate::outside::handshake_fields(version, host, port, state).take(n),
        ) && bytes == #[trigger] (crate::outside::packet_bytes(
            0,
            crate::outside::handshake_fields(version, host, port, state).take(n),
        ) + rest) ==> next is None
    &&& forall|id: i32, body: Seq<u8>, n: int|
        crate::outside::fits(id, body) && 0 <= n < crate::outside::packet_bytes(id, body).len()
            && bytes == #[trigger] crate::outside::packet_bytes(id, body).take(n) ==> next is None
    &&& forall|id: i32, body: Seq<u8>, rest: Seq<u8>|
        id != 0 && crate::outside::fits(id, body) && bytes == #[trigger] (
        crate::outside::packet_bytes(id, body) + rest) ==> next is None
    &&& forall|size: nat, rest: Seq<u8>|
        crate::outside::is_bad_size(size) && bytes == #[trigger] (crate::outside::varint(size)
            + rest) ==> next is None
}

/// Reads the handshake that a client has sent.
pub fn read_handshake(bytes: &[u8]) -> (next: Option<NextState>)
    ensures
        next == handshake_of(bytes@),
        asks_for(bytes@, next),
        forall|version: i32, host: Seq<u8>, port: u16, state: i32, rest: Seq<u8>|
            1 + crate::outside::handshake_fields(version, host, port, state).len() <= 2097152
                && bytes@ == #[trigger] (crate::outside::packet_bytes(
                0,
                crate::outside::handshake_fields(version, host, port, state),
            ) + rest) ==> next == (if !vstd::utf8::valid_utf8(host) {
                None
            } else if state == 1 {
                Some(NextState::Status)
            } else if state == 2 {
                Some(NextState::Login)
            } else {
                None
            }),
{
    let r = match next_packet(bytes) {
        Ok(Some(packet)) => {
            match decode_handshake(packet.0, packet.1.as_slice()) {
                Ok(next) => Some(next),
                Err(_) => None,
            }
        },
        _ => None,
    };
    proof {
        assert forall|
            version: i32,
            host: Seq<u8>,
            port: u16,
            state: i32,
            extra: Seq<u8>,
            rest: Seq<u8>,
        |
            crate::outside::fits(
                0,
                crate::outside::handshake_fields(version, host, port, state) + extra,
            ) && bytes@ == #[trigger] (crate::outside::packet_bytes(
                0,
                crate::outside::handshake_fields(version, host, port, state) + extra,
            ) + rest) implies r == asked(host, state, extra) by {
            let fields = crate::outside::handshake_fields(version, host, port, state);
            assert(host.len() <= fields.len());
        }
        assert forall|
            version: i32,
            address: Seq<char>,
            port: u16,
            state: NextState,
            rest: Seq<u8>,
        |
            is_handshake(version, address, port, state) && bytes@ == #[trigger] (handshake_bytes(
                version,
                address,
                port,
                state,
            ) + rest) implies r == Some(state) by {
            broadcast use vstd::utf8::encode_utf8_valid_utf8;

            let host = vstd::utf8::encode_utf8(address);
            let body = handshake_body(version, address, port, state);
            let none = Seq::<u8>::empty();
            assert(body + none =~= body);
            assert(bytes@ == crate::outside::packet_bytes(
                0,
                crate::outside::handshake_fields(version, host, port, state_number(state)) + none,
            ) + rest);
            assert(r == asked(host, state_number(state), none));
        }
        assert forall|version: i32, host: Seq<u8>, port: u16, state: i32, rest: Seq<u8>|
            1 + crate::outside::handshake_fields(version, host, port, state).len() <= 2097152
                && bytes@ == #[trigger] (crate::outside::packet_bytes(
                0,
                crate::outside::handshake_fields(version, host, port, state),
            ) + rest) implies r == asked(host, state, Seq::empty()) by {
            let none = Seq::<u8>::empty();
            let fields = crate::outside::handshake_fields(version, host, port, state);
            assert(fields + none =~= fields);
            assert(crate::outside::fits(0, fields + none));
            assert(bytes@ == crate::outside::packet_bytes(
                0,
                crate::outside::handshake_fields(version, host, port, state) + none,
            ) + rest);
        }
    }
    r
}
/// The version that clients are told, and its number in the protocol.
pub const VERSION_NAME: &'static str = "1.21.1";

pub const VERSION_PROTOCOL: u64 = 763;

/// Why there is no status response.
#[derive(Clone, Copy, Debug, PartialEq, Eq, Structural)]
pub enum StatusError {
    /// The description is no JSON.
    Description,
    /// The response does not fit into a packet.
    TooLarge,
}

/// The favicon as clients expect it.
pub open spec fn favicon_url(favicon: Seq<u8>) -> Seq<char> {
    "data:image/png;base64,"@ + crate::outside::base64_text(favicon)
}

/// The document that a client is sent about the server.
pub open spec fn status_document(
    description: crate::outside::Json,
    favicon: Seq<u8>,
) -> crate::outside::Json {
    let version = Map::empty().insert(
        "name"@,
        crate::outside::Json::Text(VERSION_NAME@),
    ).insert(
        "protocol"@,
        crate::outside::Json::Number(crate::number::decimal(VERSION_PROTOCOL as nat)),
    );
    crate::outside::Json::Object(
        Map::empty().insert("version"@, crate::outside::Json::Object(version)).insert(
            "description"@,
            description,
        ).insert("favicon"@, crate::outside::Json::Text(favicon_url(favicon))),
    )
}

/// The packet that carries a text about the server, where it fits into one.
pub open spec fn status_packet(json: Seq<char>) -> Result<Seq<u8>, StatusError> {
    let body = crate::outside::status_body(json);
    if 1 + body.len() <= crate::outside::MAX_PACKET_SIZE {
        Ok(crate::outside::packet_bytes(0, body))
    } else {
        Err(StatusError::TooLarge)
    }
}

/// The response to a client that asks about the server.
pub open spec fn status_response_of(favicon: Seq<u8>, description: Seq<char>) -> Result<
    Seq<u8>,
    StatusError,
> {
    match crate::outside::json_read(description) {
        Some(d) => status_packet(crate::outside::json_printed(status_document(d, favicon))),
        None => Err(StatusError::Description),
    }
}

/// Bytes or an error, the bytes as a sequence.
pub open spec fn bytes_of(r: Result<Vec<u8>, StatusError>) -> Result<Seq<u8>, StatusError> {
    match r {
        Ok(bytes) => Ok(bytes@),
        Err(e) => Err(e),
    }
}

/// Makes the document that a client is sent about the server.
pub fn status_value(description: serde_json::Value, favicon: &[u8]) -> (v: serde_json::Value)
    ensures
        crate::outside::json_content(v) == status_document(
            crate::outside::json_content(description),
            favicon@,
        ),
{
    let mut url = "data:image/png;base64,".to_owned();
    base64_append(favicon, &mut url);
    let mut version: Vec<(String, serde_json::Value)> = Vec::new();
    version.push(("name".to_owned(), json_string(VERSION_NAME.to_owned())));
    version.push(("protocol".to_owned(), json_number(VERSION_PROTOCOL)));
    let ghost inner = version@;
    proof {
        reveal_strlit("name");
        reveal_strlit("protocol");
        assert("name"@.len() != "protocol"@.len());
    }
    let mut fields: Vec<(String, serde_json::Value)> = Vec::new();
    fields.push(("version".to_owned(), json_object(version)));
    fields.push(("description".to_owned(), description));
    fields.push(("favicon".to_owned(), json_string(url)));
    proof {
        reveal_strlit("version");
        reveal_strlit("description");
        reveal_strlit("favicon");
        assert("version"@.len() != "description"@.len());
        assert("favicon"@.len() != "description"@.len());
        assert("version"@[0] != "favicon"@[0]);
        reveal_with_fuel(crate::outside::json_fields, 4);
        assert(inner.drop_last().drop_last() =~= Seq::empty());
        assert(fields@.drop_last().drop_last().drop_last() =~= Seq::empty());
    }
    json_object(fields)
}

/// Makes the packet that carries a text about the server.
pub fn status_packet_for(json: &str) -> (r: Result<Vec<u8>, StatusError>)
    ensures
        bytes_of(r) == status_packet(json@),
        r is Ok <==> 1 + crate::outside::status_body(json@).len() <= 2097152,
        r matches Ok(bytes) ==> bytes@ == crate::outside::packet_bytes(
            0,
            crate::outside::status_body(json@),
        ),
        r matches Err(e) ==> e == StatusError::TooLarge,
{
    match encode_status(json) {
        Ok(bytes) => Ok(bytes),
        Err(_) => Err(StatusError::TooLarge),
    }
}

/// Makes the response to a client that asks about the server, from the picture and the
/// description that it is shown with.
pub fn status_response(favicon: &[u8], description: &str) -> (r: Result<Vec<u8>, StatusError>)
    ensures
        bytes_of(r) == status_response_of(favicon@, description@),
        r == Err::<Vec<u8>, StatusError>(StatusError::Description) <==> crate::outside::json_read(
            description@,
        ) is None,
        crate::outside::json_read(description@) matches Some(d) ==> {
            let body = crate::outside::status_body(
                crate::outside::json_printed(status_document(d, favicon@)),
            );
            if 1 + body.len() <= 2097152 {
                r matches Ok(bytes) && bytes@ == crate::outside::packet_bytes(0, body)
            } else {
                r == Err::<Vec<u8>, StatusError>(StatusError::TooLarge)
            }
        },
{
    match json_from_str(description) {
        Ok(d) => {
            let text = json_to_string(&status_value(d, favicon));
            status_packet_for(text.as_str())
        },
        Err(_) => Err(StatusError::Description),
    }
}

/// The document about the server is an object with three fields and no other: the version, itself
/// an object with the name and the number of the version and nothing else; the description, as it
/// was read; and the favicon, as a picture in base64.
pub proof fn law_status_document(description: crate::outside::Json, favicon: Seq<u8>)
    ensures
        status_document(description, favicon) is Object,
        ({
            let fields = status_document(description, favicon)->Object_0;
            &&& fields.dom() == set!["version"@, "description"@, "favicon"@]
            &&& fields["description"@] == description
            &&& fields["favicon"@] == crate::outside::Json::Text(
                "data:image/png;base64,"@ + crate::outside::base64_text(favicon),
            )
            &&& fields["version"@] is Object
            &&& fields["version"@]->Object_0.dom() == set!["name"@, "protocol"@]
            &&& fields["version"@]->Object_0["name"@] == crate::outside::Json::Text("1.21.1"@)
            &&& fields["version"@]->Object_0["protocol"@] == crate::outside::Json::Number("763"@)
        }),
{
    reveal_strlit("version");
    reveal_strlit("description");
    reveal_strlit("favicon");
    reveal_strlit("name");
    reveal_strlit("protocol");
    reveal_strlit("763");
    assert("version"@.len() != "description"@.len());
    assert("favicon"@.len() != "description"@.len());
    assert("version"@[0] != "favicon"@[0]);
    assert("name"@.len() != "protocol"@.len());
    crate::number::law_decimal_digits(76, 3, '3');
    crate::number::law_decimal_digits(7, 6, '6');
    crate::number::law_decimal_digits(0, 7, '7');
    assert(crate::number::decimal(763) =~= "763"@);
    let fields = status_document(description, favicon)->Object_0;
    assert(fields.dom() =~= set!["version"@, "description"@, "favicon"@]);
    assert(fields["version"@]->Object_0.dom() =~= set!["name"@, "protocol"@]);
}

/// A question about the server is answered wherever the description is read as a document and the
/// answer fits into a packet, and goes unanswered only where one of these is not so. The answer is
/// the packet with the number 0 that holds the printed document, behind its length in bytes.
pub proof fn law_status_response(favicon: Seq<u8>, description: Seq<char>)
    ensures
        crate::outside::json_read(description) is None <==> status_response_of(
            favicon,
            description,
        ) == Err::<Seq<u8>, StatusError>(StatusError::Description),
        crate::outside::json_read(description) matches Some(d) ==> {
            let text = vstd::utf8::encode_utf8(
                crate::outside::json_printed(status_document(d, favicon)),
            );
            let content = seq![0u8] + crate::outside::varint(text.len()) + text;
            status_response_of(favicon, description) == (if content.len() <= 2097152 {
                Ok::<Seq<u8>, StatusError>(crate::outside::varint(content.len()) + content)
            } else {
                Err(StatusError::TooLarge)
            })
        },
{
    if let Some(d) = crate::outside::json_read(description) {
        let json = crate::outside::json_printed(status_document(d, favicon));
        law_status_packet(json);
    }
}

/// A text about the server is sent in the packet with the number 0, behind its length in bytes,
/// wherever that fits into a packet.
pub proof fn law_status_packet(json: Seq<char>)
    ensures
        ({
            let text = vstd::utf8::encode_utf8(json);
            let content = seq![0u8] + crate::outside::varint(text.len()) + text;
            status_packet(json) == (if content.len() <= 2097152 {
                Ok::<Seq<u8>, StatusError>(crate::outside::varint(content.len()) + content)
            } else {
                Err(StatusError::TooLarge)
            })
        }),
{
    let text = vstd::utf8::encode_utf8(json);
    let content = seq![0u8] + crate::outside::varint(text.len()) + text;
    let body = crate::outside::status_body(json);
    assert(crate::outside::varint(0) =~= seq![0u8]);
    assert(crate::outside::varint(0) + body =~= content);
    assert(crate::outside::packet_bytes(0, body) =~= crate::outside::varint(content.len())
        + content);
}

/// A handshake that a client sends is a packet with the number 0: the protocol's version, the
/// length of the address in bytes, the address, the port with its high byte first, and 1 or 2 for
/// what the client wants.
pub proof fn law_handshake_bytes(version: i32, address: Seq<char>, port: u16, next: NextState)
    ensures
        ({
            let host = vstd::utf8::encode_utf8(address);
            let content = seq![0u8] + crate::outside::varint(crate::outside::bits(version))
                + crate::outside::varint(host.len()) + host + seq![
                (port / 256) as u8,
                (port % 256) as u8,
                if next == NextState::Status {
                    1u8
                } else {
                    2u8
                },
            ];
            &&& handshake_bytes(version, address, port, next) == crate::outside::varint(
                content.len(),
            ) + content
            &&& is_handshake(version, address, port, next) <==> content.len() <= 2097152
        }),
{
    let host = vstd::utf8::encode_utf8(address);
    let content = seq![0u8] + crate::outside::varint(crate::outside::bits(version))
        + crate::outside::varint(host.len()) + host + seq![
        (port / 256) as u8,
        (port % 256) as u8,
        if next == NextState::Status {
            1u8
        } else {
            2u8
        },
    ];
    let body = handshake_body(version, address, port, next);
    assert(crate::outside::varint(0) =~= seq![0u8]);
    assert(crate::outside::varint(1) =~= seq![1u8]);
    assert(crate::outside::varint(2) =~= seq![2u8]);
    assert(crate::outside::varint(0) + body =~= content);
    assert(handshake_bytes(version, address, port, next) =~= crate::outside::varint(content.len())
        + content);
}

/// A client's first bytes ask for what the packet at their start is decoded to, and for nothing
/// where there is no packet or it is no handshake.
pub proof fn law_handshake_is_the_first_packet(bytes: Seq<u8>)
    ensures
        forall|next: NextState|
            handshake_of(bytes) == Some(next) <==> (crate::outside::first_packet(bytes) matches Ok(
                Some(packet),
            ) && crate::outside::handshake_decoded(packet.0, packet.1) == Ok::<NextState, ()>(
                next,
            )),
{
}

/// How far a client's connection has come. `B` is the type of bytes.
#[derive(Debug, PartialEq, Eq)]
pub enum Phase<B> {
    /// It has just come in.
    Fresh,
    /// Its first packet is being read.
    Reading,
    /// The servers are being started for it.
    Launching { packet: B },
    /// The proxy is being waited for.
    Waiting { packet: B },
    /// The proxy is being called.
    Dialing { packet: B },
    Done,
}

/// What came of the last action.
#[derive(Debug, PartialEq, Eq)]
pub enum Event<B> {
    /// How far the servers were when the client came in.
    State(ServerState),
    /// The bytes of the first packet.
    Packet(B),
    /// The servers are starting.
    Launched,
    /// The proxy accepts connections.
    ProxyUp,
    /// The proxy has accepted this connection.
    Connected,
    /// The action could not be performed, or took too long.
    Failed,
}

/// What is to be done next.
#[derive(Debug, PartialEq, Eq)]
pub enum Action<B> {
    /// Read once from the client.
    ReadPacket,
    /// Start the servers.
    StartServers,
    /// Wait until the proxy accepts connections.
    AwaitProxy,
    /// Connect to the proxy.
    Dial,
    /// Send these bytes to the proxy, then pass bytes on in both directions.
    Relay(B),
    /// Send an answer to the client and close.
    Reply(B),
    /// Close without an answer.
    Close,
    /// Give up with an error.
    Fail,
    /// End the daemon with an exit code.
    Exit(i32),
}

impl View for Phase<Vec<u8>> {
    type V = Phase<Seq<u8>>;

    open spec fn view(&self) -> Phase<Seq<u8>> {
        match *self {
            Phase::Fresh => Phase::Fresh,
            Phase::Reading => Phase::Reading,
            Phase::Launching { packet } => Phase::Launching { packet: packet@ },
            Phase::Waiting { packet } => Phase::Waiting { packet: packet@ },
            Phase::Dialing { packet } => Phase::Dialing { packet: packet@ },
            Phase::Done => Phase::Done,
        }
    }
}

impl View for Event<Vec<u8>> {
    type V = Event<Seq<u8>>;

    open spec fn view(&self) -> Event<Seq<u8>> {
        match *self {
            Event::State(state) => Event::State(state),
            Event::Packet(bytes) => Event::Packet(bytes@),
            Event::Launched => Event::Launched,
            Event::ProxyUp => Event::ProxyUp,
            Event::Connected => Event::Connected,
            Event::Failed => Event::Failed,
        }
    }
}

impl View for Action<Vec<u8>> {
    type V = Action<Seq<u8>>;

    open spec fn view(&self) -> Action<Seq<u8>> {
        match *self {
            Action::ReadPacket => Action::ReadPacket,
            Action::StartServers => Action::StartServers,
            Action::AwaitProxy => Action::AwaitProxy,
            Action::Dial => Action::Dial,
            Action::Relay(bytes) => Action::Relay(bytes@),
            Action::Reply(bytes) => Action::Reply(bytes@),
            Action::Close => Action::Close,
            Action::Fail => Action::Fail,
            Action::Exit(code) => Action::Exit(code),
        }
    }
}

/// What the state of the servers means for a client that comes in.
pub open spec fn admitted(state: ServerState) -> (Phase<Seq<u8>>, Action<Seq<u8>>) {
    match state {
        ServerState::Started => (Phase::Dialing { packet: Seq::empty() }, Action::Dial),
        ServerState::Starting => (Phase::Waiting { packet: Seq::empty() }, Action::AwaitProxy),
        ServerState::NotStarted => (Phase::Reading, Action::ReadPacket),
        _ => (Phase::Done, Action::Close),
    }
}

/// What a handshake leads to: a login starts the servers and its packet is kept for the proxy; a
/// question about the server is answered.
pub open spec fn greeted(
    favicon: Seq<u8>,
    description: Seq<char>,
    next: NextState,
    packet: Seq<u8>,
) -> (Phase<Seq<u8>>, Action<Seq<u8>>) {
    match next {
        NextState::Login => (Phase::Launching { packet }, Action::StartServers),
        NextState::Status => match status_response_of(favicon, description) {
            Ok(bytes) => (Phase::Done, Action::Reply(bytes)),
            Err(_) => (Phase::Done, Action::Fail),
        },
    }
}

/// The next phase of a client's connection, and what is to be done in it.
pub open spec fn next_step(
    favicon: Seq<u8>,
    description: Seq<char>,
    phase: Phase<Seq<u8>>,
    event: Event<Seq<u8>>,
) -> (Phase<Seq<u8>>, Action<Seq<u8>>) {
    match (phase, event) {
        (Phase::Fresh, Event::State(state)) => admitted(state),
        (Phase::Reading, Event::Packet(packet)) => match handshake_of(packet) {
            Some(next) => greeted(favicon, description, next, packet),
            None => (Phase::Done, Action::Close),
        },
        (Phase::Launching { packet }, Event::Launched) => (
            Phase::Waiting { packet },
            Action::AwaitProxy,
        ),
        (Phase::Launching { .. }, Event::Failed) => (Phase::Done, Action::Exit(1)),
        (Phase::Waiting { packet }, Event::ProxyUp) => (Phase::Dialing { packet }, Action::Dial),
        (Phase::Waiting { .. }, Event::Failed) => (Phase::Done, Action::Exit(1)),
        (Phase::Dialing { packet }, Event::Connected) => (Phase::Done, Action::Relay(packet)),
        _ => (Phase::Done, Action::Fail),
    }
}

/// Takes one step of a client's connection. It starts in `Phase::Fresh` with `Event::State`, and
/// has ended when the phase is `Phase::Done`. The first packet is answered by what its bytes ask
/// for, in the sense of `asks_for`.
pub fn handle_client(
    favicon: &[u8],
    description: &str,
    phase: Phase<Vec<u8>>,
    event: Event<Vec<u8>>,
) -> (step: (Phase<Vec<u8>>, Action<Vec<u8>>))
    ensures
        (step.0@, step.1@) == next_step(favicon@, description@, phase@, event@),
        phase is Reading && event is Packet ==> asks_for(
            event->Packet_0@,
            handshake_of(event->Packet_0@),
        ),
{
    match (phase, event) {
        (Phase::Fresh, Event::State(state)) => match state {
            ServerState::Started => (Phase::Dialing { packet: Vec::new() }, Action::Dial),
            ServerState::Starting => (Phase::Waiting { packet: Vec::new() }, Action::AwaitProxy),
            ServerState::NotStarted => (Phase::Reading, Action::ReadPacket),
            _ => (Phase::Done, Action::Close),
        },
        (Phase::Reading, Event::Packet(packet)) => match read_handshake(packet.as_slice()) {
            Some(next) => handle_handshake(favicon, description, next, packet),
            None => (Phase::Done, Action::Close),
        },
        (Phase::Launching { packet }, Event::Launched) => (
            Phase::Waiting { packet },
            Action::AwaitProxy,
        ),
        (Phase::Launching { packet: _ }, Event::Failed) => (Phase::Done, Action::Exit(1)),
        (Phase::Waiting { packet }, Event::ProxyUp) => (Phase::Dialing { packet }, Action::Dial),
        (Phase::Waiting { packet: _ }, Event::Failed) => (Phase::Done, Action::Exit(1)),
        (Phase::Dialing { packet }, Event::Connected) => (Phase::Done, Action::Relay(packet)),
        _ => (Phase::Done, Action::Fail),
    }
}

/// Answers a handshake, given the packet that it came in.
pub fn handle_handshake(favicon: &[u8], description: &str, next: NextState, packet: Vec<u8>) -> (
    step: (Phase<Vec<u8>>, Action<Vec<u8>>))
    ensures
        (step.0@, step.1@) == greeted(favicon@, description@, next, packet@),
{
    match next {
        NextState::Login => (Phase::Launching { packet }, Action::StartServers),
        NextState::Status => match status_response(favicon, description) {
            Ok(bytes) => (Phase::Done, Action::Reply(bytes)),
            Err(_) => (Phase::Done, Action::Fail),
        },
    }
}

/// What is learnt while the proxy is waited for.
#[derive(Clone, Copy, Debug, PartialEq, Eq, Structural)]
pub enum WaitEvent {
    /// How many whole seconds the wait has taken.
    Elapsed(u64),
    /// Whether the proxy accepted a connection.
    Accepted(bool),
}

/// What is to be done while the proxy is waited for.
#[derive(Clone, Copy, Debug, PartialEq, Eq, Structural)]
pub enum WaitAction {
    /// Try to connect.
    Connect,
    /// Let other work go on, then look at the clock.
    CheckClock,
    /// The proxy accepts connections: go on.
    Ready,
    /// Stop waiting.
    TimedOut,
}

impl WaitAction {
    /// What is said of a wait that has failed.
    pub open spec fn message_text(self) -> Option<Seq<char>> {
        match self {
            WaitAction::TimedOut => Some("Timed out while waiting for proxy to start."@),
            _ => None,
        }
    }

    /// What is said of a wait that has failed.
    pub fn message(&self) -> (m: Option<&'static str>)
        ensures
            crate::text::opt_view(m) == self.message_text(),
    {
        match self {
            WaitAction::TimedOut => Some("Timed out while waiting for proxy to start."),
            _ => None,
        }
    }
}

/// What is to be done next while the proxy is waited for.
pub open spec fn wait_step(event: WaitEvent) -> WaitAction {
    match event {
        WaitEvent::Elapsed(secs) => if secs >= BUFFER_TIMEOUT {
            WaitAction::TimedOut
        } else {
            WaitAction::Connect
        },
        WaitEvent::Accepted(yes) => if yes {
            WaitAction::Ready
        } else {
            WaitAction::CheckClock
        },
    }
}

/// How far the servers are after a step of waiting for the proxy.
pub open spec fn state_after(state: ServerState, event: WaitEvent) -> ServerState {
    if wait_step(event) == WaitAction::Ready {
        ServerState::Started
    } else {
        state
    }
}

/// Takes one step of waiting for the proxy. It starts with `WaitEvent::Elapsed`. Once the proxy
/// accepts, the servers have started.
pub fn wait_for_proxy(state: &mut ServerState, event: WaitEvent) -> (action: WaitAction)
    ensures
        action == wait_step(event),
        *final(state) == state_after(*old(state), event),
{
    match event {
        WaitEvent::Elapsed(secs) => if secs >= BUFFER_TIMEOUT {
            WaitAction::TimedOut
        } else {
            WaitAction::Connect
        },
        WaitEvent::Accepted(yes) => if yes {
            *state = ServerState::Started;
            WaitAction::Ready
        } else {
            WaitAction::CheckClock
        },
    }
}

/// How a wait for the proxy ends, and how far the servers are then, within a number of steps;
/// `elapsed` tells how many seconds the wait has taken at the first look at the clock, the second,
/// and so on, `accepted` whether the proxy accepts the attempt that follows that look, and `look`
/// which look is the last one.
pub open spec fn wait_result(
    state: ServerState,
    elapsed: spec_fn(nat) -> u64,
    accepted: spec_fn(nat) -> bool,
    event: WaitEvent,
    look: nat,
    steps: nat,
) -> (WaitAction, ServerState)
    decreases steps,
{
    let action = wait_step(event);
    let after = state_after(state, event);
    if steps == 0 {
        (action, after)
    } else {
        let more = (steps - 1) as nat;
        match action {
            WaitAction::Connect => wait_result(
                after,
                elapsed,
                accepted,
                WaitEvent::Accepted(accepted(look)),
                look,
                more,
            ),
            WaitAction::CheckClock => wait_result(
                after,
                elapsed,
                accepted,
                WaitEvent::Elapsed(elapsed(look + 1)),
                look + 1,
                more,
            ),
            _ => (action, after),
        }
    }
}

/// An attempt that is begun in time is accepted.
pub open spec fn accepted_in_time(
    elapsed: spec_fn(nat) -> u64,
    accepted: spec_fn(nat) -> bool,
) -> bool {
    exists|i: nat| #[trigger] elapsed(i) < BUFFER_TIMEOUT && accepted(i)
}

/// The clock does not go back, and at the look `end` the time is up.
pub open spec fn runs_out_at(elapsed: spec_fn(nat) -> u64, end: nat) -> bool {
    &&& forall|i: nat, j: nat| i <= j ==> #[trigger] elapsed(i) <= #[trigger] elapsed(j)
    &&& elapsed(end) >= BUFFER_TIMEOUT
}

proof fn lemma_wait_from(
    state: ServerState,
    elapsed: spec_fn(nat) -> u64,
    accepted: spec_fn(nat) -> bool,
    look: nat,
    end: nat,
    steps: nat,
)
    requires
        runs_out_at(elapsed, end),
        look <= end,
        steps >= 2 * (end - look),
        forall|i: nat| i < look ==> !(#[trigger] elapsed(i) < BUFFER_TIMEOUT && accepted(i)),
    ensures
        wait_result(
            state,
            elapsed,
            accepted,
            WaitEvent::Elapsed(elapsed(look)),
            look,
            steps,
        ) == (if accepted_in_time(elapsed, accepted) {
            (WaitAction::Ready, ServerState::Started)
        } else {
            (WaitAction::TimedOut, state)
        }),
    decreases end - look,
{
    reveal_with_fuel(wait_result, 3);
    if elapsed(look) >= BUFFER_TIMEOUT {
        assert forall|i: nat| !(#[trigger] elapsed(i) < BUFFER_TIMEOUT && accepted(i)) by {
            if i >= look {
                assert(elapsed(look) <= elapsed(i));
            }
        }
    } else {
        assert(look < end);
        if !accepted(look) {
            lemma_wait_from(state, elapsed, accepted, look + 1, end, (steps - 2) as nat);
        }
    }
}

/// A wait for the proxy ends well exactly where the proxy accepts an attempt that is begun in time,
/// and the servers have then started. Otherwise it times out, and leaves their state as it was.
pub proof fn law_wait_outcome(
    state: ServerState,
    elapsed: spec_fn(nat) -> u64,
    accepted: spec_fn(nat) -> bool,
    end: nat,
    steps: nat,
)
    requires
        forall|i: nat, j: nat| i <= j ==> #[trigger] elapsed(i) <= #[trigger] elapsed(j),
        elapsed(end) >= BUFFER_TIMEOUT,
        steps >= 2 * end,
    ensures
        wait_result(state, elapsed, accepted, WaitEvent::Elapsed(elapsed(0)), 0, steps) == (
        if exists|i: nat| #[trigger] elapsed(i) < BUFFER_TIMEOUT && accepted(i) {
            (WaitAction::Ready, ServerState::Started)
        } else {
            (WaitAction::TimedOut, state)
        }),
{
    lemma_wait_from(state, elapsed, accepted, 0, end, steps);
}

/// While the servers are not being ended, neither claiming their start nor waiting for the proxy
/// takes them back to an earlier state.
pub proof fn law_states_move_forward(state: ServerState, event: WaitEvent)
    requires
        state.place() <= ServerState::Started.place(),
    ensures
        state_after(state, event).place() >= state.place(),
        crate::tmux::claimed(state) matches Ok(next) ==> next.place() > state.place(),
{
}

/// The world that a client's connection meets: the state of the servers, what the client sends
/// (nothing where reading fails), and whether starting, waiting and connecting work out.
pub struct World {
    pub state: ServerState,
    pub packet: Option<Seq<u8>>,
    pub launches: bool,
    pub proxy_up: bool,
    pub connects: bool,
}

/// What the world answers to an action, where the connection goes on after it.
pub open spec fn world_answer(world: World, action: Action<Seq<u8>>) -> Option<Event<Seq<u8>>> {
    let if_so = |yes: bool, event: Event<Seq<u8>>|
        if yes {
            Some(event)
        } else {
            Some(Event::Failed)
        };
    match action {
        Action::ReadPacket => match world.packet {
            Some(bytes) => Some(Event::Packet(bytes)),
            None => Some(Event::Failed),
        },
        Action::StartServers => if_so(world.launches, Event::Launched),
        Action::AwaitProxy => if_so(world.proxy_up, Event::ProxyUp),
        Action::Dial => if_so(world.connects, Event::Connected),
        _ => None,
    }
}

/// The actions of a client's connection, in order, within a number of steps.
pub open spec fn actions(
    favicon: Seq<u8>,
    description: Seq<char>,
    world: World,
    phase: Phase<Seq<u8>>,
    event: Event<Seq<u8>>,
    steps: nat,
) -> Seq<Action<Seq<u8>>>
    decreases steps,
{
    let (next, action) = next_step(favicon, description, phase, event);
    match world_answer(world, action) {
        Some(answer) if steps > 0 => seq![action] + actions(
            favicon,
            description,
            world,
            next,
            answer,
            (steps - 1) as nat,
        ),
        _ => seq![action],
    }
}

/// What a connection comes to that is handed to the proxy, with the packet that goes before it.
pub open spec fn forwarded(world: World, packet: Seq<u8>) -> Action<Seq<u8>> {
    if world.connects {
        Action::Relay(packet)
    } else {
        Action::Fail
    }
}

/// What a client's connection comes to.
pub open spec fn outcome(favicon: Seq<u8>, description: Seq<char>, world: World) -> Action<
    Seq<u8>,
> {
    match world.state {
        ServerState::Started => forwarded(world, Seq::empty()),
        ServerState::Starting => if world.proxy_up {
            forwarded(world, Seq::empty())
        } else {
            Action::Exit(1)
        },
        ServerState::NotStarted => match world.packet {
            None => Action::Fail,
            Some(packet) => match handshake_of(packet) {
                None => Action::Close,
                Some(NextState::Status) => match status_response_of(favicon, description) {
                    Ok(bytes) => Action::Reply(bytes),
                    Err(_) => Action::Fail,
                },
                Some(NextState::Login) => if world.launches && world.proxy_up {
                    forwarded(world, packet)
                } else {
                    Action::Exit(1)
                },
            },
        },
        _ => Action::Close,
    }
}

/// Every client's connection ends after at most five steps. A client that logs in reaches the
/// proxy, which is handed the packet that the client sent; a client that comes while the servers
/// run, or are starting, reaches it without one; a question is answered; and the daemon ends
/// where the servers do not start or the proxy does not come up in time.
pub proof fn law_client_outcome(
    favicon: Seq<u8>,
    description: Seq<char>,
    world: World,
    steps: nat,
)
    requires
        steps >= 4,
    ensures
        actions(favicon, description, world, Phase::Fresh, Event::State(world.state), steps).last()
            == outcome(favicon, description, world),
{
    reveal_with_fuel(actions, 6);
}

/// The servers are started for a client that logs in while they have not been started, and for
/// no other client.
pub proof fn law_only_a_login_starts_the_servers(
    favicon: Seq<u8>,
    description: Seq<char>,
    world: World,
    steps: nat,
)
    requires
        steps >= 4,
    ensures
        actions(
            favicon,
            description,
            world,
            Phase::Fresh,
            Event::State(world.state),
            steps,
        ).contains(Action::StartServers) <==> world.state == ServerState::NotStarted
            && world.packet is Some && handshake_of(world.packet->0) == Some(NextState::Login),
{
    reveal_with_fuel(actions, 6);
    let all = actions(
        favicon,
        description,
        world,
        Phase::Fresh,
        Event::State(world.state),
        steps,
    );
    if world.state == ServerState::NotStarted && world.packet is Some && handshake_of(
        world.packet->0,
    ) == Some(NextState::Login) {
        assert(all[1] == Action::<Seq<u8>>::StartServers);
    }
}

/// What is done for a client from first to last. While the servers run it is connected to the proxy,
/// and while they are starting the proxy is waited for first. Before that, its first packet is read:
/// a login starts the servers, waits for the proxy, connects to it and hands it that packet before
/// anything else; a question is answered, or fails with the answer; anything else is closed. While
/// the servers are being ended, and afterwards, it is closed at once.
pub proof fn law_client_actions(
    favicon: Seq<u8>,
    description: Seq<char>,
    world: World,
    steps: nat,
)
    requires
        steps >= 4,
    ensures
        ({
            let all = actions(
                favicon,
                description,
                world,
                Phase::Fresh,
                Event::State(world.state),
                steps,
            );
            let exit = Action::<Seq<u8>>::Exit(1);
            let close = Action::<Seq<u8>>::Close;
            let fail = Action::<Seq<u8>>::Fail;
            let read = Action::<Seq<u8>>::ReadPacket;
            let start = Action::<Seq<u8>>::StartServers;
            let wait = Action::<Seq<u8>>::AwaitProxy;
            let dial = Action::<Seq<u8>>::Dial;
            let none = Action::<Seq<u8>>::Relay(Seq::empty());
            match world.state {
                ServerState::Started => if world.connects {
                    all == seq![dial, none]
                } else {
                    all == seq![dial, fail]
                },
                ServerState::Starting => if !world.proxy_up {
                    all == seq![wait, exit]
                } else if world.connects {
                    all == seq![wait, dial, none]
                } else {
                    all == seq![wait, dial, fail]
                },
                ServerState::NotStarted => if world.packet is None {
                    all == seq![read, fail]
                } else if handshake_of(world.packet->0) == Some(NextState::Login) {
                    if !world.launches {
                        all == seq![read, start, exit]
                    } else if !world.proxy_up {
                        all == seq![read, start, wait, exit]
                    } else if world.connects {
                        all == seq![read, start, wait, dial, Action::Relay(world.packet->0)]
                    } else {
                        all == seq![read, start, wait, dial, fail]
                    }
                } else if handshake_of(world.packet->0) == Some(NextState::Status) {
                    if status_response_of(favicon, description) is Ok {
                        all == seq![
                            read,
                            Action::Reply(status_response_of(favicon, description)->Ok_0),
                        ]
                    } else {
                        all == seq![read, fail]
                    }
                } else {
                    all == seq![read, close]
                },
                _ => all == seq![close],
            }
        }),
{
    reveal_with_fuel(actions, 6);
}

} // verus!
