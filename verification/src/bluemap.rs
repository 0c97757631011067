//! BlueMap's web map: each connection is handed to the live backend, and where that is away it is
//! answered from the files that BlueMap has rendered.
use crate::number::u64_to_decimal;
use crate::path::{extension_of, file_name_of, join, normal_parts_of, visible_part};
use crate::text::{chars_of, contains, first_line, split_on, split_whitespace, starts_with, str_eq, text_from};
use vstd::prelude::*;

verus! {

/// How many seconds the live backend is given to accept a connection.
pub const BACKEND_TIMEOUT: u64 = 2;

/// How many bytes of a request are read.
pub const REQUEST_LIMIT: usize = 8192;

/// `root`, and below it one directory after the other.
pub open spec fn under(root: Seq<char>, parts: Seq<Seq<char>>) -> Seq<char>
    decreases parts.len(),
{
    if parts.len() == 0 {
        root
    } else {
        crate::path::joined(under(root, parts.drop_last()), parts.last())
    }
}

/// The file below `root` that a request asks for.
pub open spec fn sanitized(root: Seq<char>, request: Seq<char>) -> Seq<char> {
    under(root, crate::path::normal_parts(request))
}

/// A target with a name in it. One without leads to the root itself, and no compressed file beside
/// the root is ever served.
pub open spec fn has_name(target: Seq<char>) -> bool {
    crate::path::normal_parts(target).len() > 0
}

/// The compressed file beside a given one.
pub open spec fn gzipped(path: Seq<char>) -> Seq<char> {
    if crate::path::file_name(path) is Some {
        crate::path::visible(path) + ".gz"@
    } else {
        path
    }
}

/// What stands before the first question mark.
pub open spec fn before_query(path: Seq<char>) -> Seq<char> {
    crate::text::split(path, |c: char| c == '?')[0]
}

/// The path that a request asks for: the second word of its first line, without the query, and
/// with the name of the index where it names a directory.
pub open spec fn target_of(request: Seq<char>) -> Option<Seq<char>> {
    let parts = crate::text::words(crate::text::first_line_of(request));
    if parts.len() < 2 {
        None
    } else {
        let path = before_query(parts[1]);
        if path.len() > 0 && path.last() == '/' {
            Some(path + "index.html"@)
        } else {
            Some(path)
        }
    }
}

/// A tile, or live data, of one of the maps. Either may be missing.
pub open spec fn is_optional(target: Seq<char>) -> bool {
    &&& "/maps/"@.is_prefix_of(target)
    &&& crate::text::is_infix("/tiles/"@, target) || crate::text::is_infix("/live/"@, target)
}

/// The media type for a file's extension.
pub open spec fn media_type(ext: Seq<char>) -> Seq<char> {
    if ext == "html"@ {
        "text/html; charset=utf-8"@
    } else if ext == "css"@ {
        "text/css; charset=utf-8"@
    } else if ext == "js"@ {
        "application/javascript"@
    } else if ext == "json"@ {
        "application/json"@
    } else if ext == "png"@ {
        "image/png"@
    } else if ext == "jpg"@ || ext == "jpeg"@ {
        "image/jpeg"@
    } else if ext == "svg"@ {
        "image/svg+xml"@
    } else {
        "application/octet-stream"@
    }
}

/// The media type of the file that a path leads to.
pub open spec fn media_type_of(path: Seq<char>) -> Seq<char> {
    match crate::path::extension(path) {
        Some(ext) => media_type(ext),
        None => media_type(Seq::empty()),
    }
}

/// Joins the parts of a requested path to `root`, leaving out `.`, `..` and empty ones.
pub fn sanitize_path(root: &str, request_path: &str) -> (path: String)
    ensures
        path@ == sanitized(root@, request_path@),
{
    let parts = normal_parts_of(request_path);
    let ghost all = crate::text::views(parts@);
    let mut out = root.to_owned();
    for i in 0..parts.len()
        invariant
            all == crate::text::views(parts@),
            out@ == under(root@, all.take(i as int)),
    {
        assert(all.take(i + 1).drop_last() =~= all.take(i as int));
        assert(all[i as int] == parts@[i as int]@);
        out = join(out.as_str(), parts[i].as_str());
    }
    assert(all.take(all.len() as int) =~= all);
    out
}

/// Whether a target has a name in it.
pub fn names_a_file(target: &str) -> (r: bool)
    ensures
        r == has_name(target@),
{
    let parts = normal_parts_of(target);
    assert(crate::text::views(parts@).len() == parts@.len());
    parts.len() > 0
}

/// The compressed file beside a given one.
pub fn gzip_path(path: &str) -> (gz: String)
    ensures
        gz@ == gzipped(path@),
{
    match file_name_of(path) {
        Some(_) => visible_part(path).to_owned().concat(".gz"),
        None => path.to_owned(),
    }
}

/// The media type of the file that a path leads to.
pub fn mime_from_path(path: &str) -> (mime: &'static str)
    ensures
        mime@ == media_type_of(path@),
{
    let ext = match extension_of(path) {
        Some(e) => e,
        None => String::new(),
    };
    let e = ext.as_str();
    if str_eq(e, "html") {
        "text/html; charset=utf-8"
    } else if str_eq(e, "css") {
        "text/css; charset=utf-8"
    } else if str_eq(e, "js") {
        "application/javascript"
    } else if str_eq(e, "json") {
        "application/json"
    } else if str_eq(e, "png") {
        "image/png"
    } else if str_eq(e, "jpg") || str_eq(e, "jpeg") {
        "image/jpeg"
    } else if str_eq(e, "svg") {
        "image/svg+xml"
    } else {
        "application/octet-stream"
    }
}

/// The path that a request asks for.
pub fn request_target(request: &str) -> (target: Option<String>)
    ensures
        target is Some == target_of(request@) is Some,
        target matches Some(t) ==> target_of(request@) == Some(t@),
{
    let parts = split_whitespace(first_line(request));
    assert(crate::text::views(parts@).len() == parts@.len());
    if parts.len() < 2 {
        return None;
    }
    assert(crate::text::views(parts@)[1] == parts@[1]@);
    let path = first_piece(parts[1].as_str());
    let cs = chars_of(path.as_str());
    if cs.len() > 0 && cs[cs.len() - 1] == '/' {
        Some(path.concat("index.html"))
    } else {
        Some(path)
    }
}

fn first_piece(path: &str) -> (r: String)
    ensures
        r@ == before_query(path@),
{
    let mut list = split_on(path, '?');
    proof {
        crate::text::lemma_split_nonempty(path@, |c: char| c == '?');
        assert(crate::text::views(list@).len() == list@.len());
        assert(crate::text::views(list@)[0] == list@[0]@);
    }
    list.swap_remove(0)
}

/// Whether a target may be missing without that being an error.
pub fn may_be_missing(target: &str) -> (r: bool)
    ensures
        r == is_optional(target@),
{
    starts_with(target, "/maps/") && (contains(target, "/tiles/") || contains(target, "/live/"))
}

/// The head of the answer that carries a file of `len` bytes.
pub open spec fn found_head(mime: Seq<char>, gzip: bool, len: nat) -> Seq<char> {
    "HTTP/1.1 200 OK\r\n"@ + "Content-Type: "@ + mime + "\r\n"@ + (if gzip {
        "Content-Encoding: gzip\r\n"@
    } else {
        Seq::empty()
    }) + "Content-Length: "@ + crate::number::decimal(len) + "\r\n"@
        + "Connection: close\r\n\r\n"@
}

/// The answer that carries a file.
pub open spec fn found_response(file: Seq<char>, gzip: bool, data: Seq<u8>) -> Seq<u8> {
    vstd::utf8::encode_utf8(found_head(media_type_of(file), gzip, data.len())) + data
}

/// The answer where there is no file: success without content for what may be missing, an error
/// for anything else.
pub open spec fn missing_response(target: Seq<char>) -> Seq<u8> {
    vstd::utf8::encode_utf8(
        (if is_optional(target) {
            "HTTP/1.1 204 No Content\r\n"@
        } else {
            "HTTP/1.1 404 Not Found\r\n"@
        }) + "Connection: close\r\n\r\n"@,
    )
}

/// Writes the answer that carries a file.
pub fn file_response(file: &str, gzip: bool, data: &Vec<u8>) -> (bytes: Vec<u8>)
    ensures
        bytes@ == found_response(file@, gzip, data@),
{
    let mut head = "HTTP/1.1 200 OK\r\n".to_owned();
    head.append("Content-Type: ");
    head.append(mime_from_path(file));
    head.append("\r\n");
    if gzip {
        head.append("Content-Encoding: gzip\r\n");
    }
    head.append("Content-Length: ");
    let len = u64_to_decimal(data.len() as u64);
    head.append(len.as_str());
    head.append("\r\n");
    head.append("Connection: close\r\n\r\n");
    assert(head@ =~= found_head(media_type_of(file@), gzip, data@.len()));
    let mut bytes = head.as_str().as_bytes_vec();
    bytes.extend_from_slice(data.as_slice());
    assert(bytes@ =~= found_response(file@, gzip, data@));
    bytes
}

/// Writes the answer where there is no file.
pub fn no_file_response(target: &str) -> (bytes: Vec<u8>)
    ensures
        bytes@ == missing_response(target@),
{
    let mut head = if may_be_missing(target) {
        "HTTP/1.1 204 No Content\r\n".to_owned()
    } else {
        "HTTP/1.1 404 Not Found\r\n".to_owned()
    };
    head.append("Connection: close\r\n\r\n");
    head.as_str().as_bytes_vec()
}

/// How far a connection has come. `S` is the type of its texts.
#[derive(Debug, PartialEq, Eq)]
pub enum Phase<S> {
    /// The live backend is being called.
    Connecting,
    /// The request is being read.
    Reading,
    /// The file that was asked for is being looked up.
    Plain { target: S, plain: S },
    /// The compressed file beside it is being looked up.
    Gzip { target: S, plain: S, packed: S },
    /// The file that was settled on is being looked up once more.
    Confirm { target: S, file: S, gzip: bool },
    /// The file is being read.
    Loading { file: S, gzip: bool },
    Done,
}

/// What came of the last action. `B` is the type of bytes.
#[derive(Debug, PartialEq, Eq)]
pub enum Event<B> {
    /// Whether the live backend accepted within its time.
    Backend(bool),
    /// What was read of the request; nothing where the client has left.
    Request(B),
    /// Whether a regular file was found.
    Probed(bool),
    /// What the file holds.
    Loaded(B),
    /// The action could not be performed.
    Failed,
}

/// What is to be done next.
#[derive(Debug, PartialEq, Eq)]
pub enum Action<S, B> {
    /// Pass bytes on in both directions between client and backend, until either leaves.
    Relay,
    /// Read once from the client.
    ReadRequest,
    /// Look for a regular file.
    Probe(S),
    /// Read a file.
    Load(S),
    /// Send an answer and close.
    Send(B),
    /// Close without an answer.
    Close,
    /// Give up with an error.
    Fail,
}

impl View for Phase<String> {
    type V = Phase<Seq<char>>;

    open spec fn view(&self) -> Phase<Seq<char>> {
        match *self {
            Phase::Connecting => Phase::Connecting,
            Phase::Reading => Phase::Reading,
            Phase::Plain { target, plain } => Phase::Plain { target: target@, plain: plain@ },
            Phase::Gzip { target, plain, packed } => Phase::Gzip {
                target: target@,
                plain: plain@,
                packed: packed@,
            },
            Phase::Confirm { target, file, gzip } => Phase::Confirm {
                target: target@,
                file: file@,
                gzip,
            },
            Phase::Loading { file, gzip } => Phase::Loading { file: file@, gzip },
            Phase::Done => Phase::Done,
        }
    }
}

impl View for Event<Vec<u8>> {
    type V = Event<Seq<u8>>;

    open spec fn view(&self) -> Event<Seq<u8>> {
        match *self {
            Event::Backend(up) => Event::Backend(up),
            Event::Request(bytes) => Event::Request(bytes@),
            Event::Probed(found) => Event::Probed(found),
            Event::Loaded(bytes) => Event::Loaded(bytes@),
            Event::Failed => Event::Failed,
        }
    }
}

impl View for Action<String, Vec<u8>> {
    type V = Action<Seq<char>, Seq<u8>>;

    open spec fn view(&self) -> Action<Seq<char>, Seq<u8>> {
        match *self {
            Action::Relay => Action::Relay,
            Action::ReadRequest => Action::ReadRequest,
            Action::Probe(path) => Action::Probe(path@),
            Action::Load(path) => Action::Load(path@),
            Action::Send(bytes) => Action::Send(bytes@),
            Action::Close => Action::Close,
            Action::Fail => Action::Fail,
        }
    }
}

/// Where a request leads: to its target and the file for it, or nowhere.
pub open spec fn opened(webroot: Seq<char>, request: Seq<u8>) -> (
    Phase<Seq<char>>,
    Action<Seq<char>, Seq<u8>>,
) {
    match target_of(crate::text::text_of(request)) {
        Some(target) if request.len() > 0 => {
            let plain = sanitized(webroot, target);
            (Phase::Plain { target, plain }, Action::Probe(plain))
        },
        _ => (Phase::Done, Action::Close),
    }
}

/// The next phase of a connection, and what is to be done in it.
pub open spec fn next_step(
    webroot: Seq<char>,
    phase: Phase<Seq<char>>,
    event: Event<Seq<u8>>,
) -> (Phase<Seq<char>>, Action<Seq<char>, Seq<u8>>) {
    match (phase, event) {
        (Phase::Connecting, Event::Backend(true)) => (Phase::Done, Action::Relay),
        (Phase::Connecting, Event::Backend(false)) => (Phase::Reading, Action::ReadRequest),
        (Phase::Reading, Event::Request(bytes)) => opened(webroot, bytes),
        (Phase::Plain { target, plain }, Event::Probed(true)) => (
            Phase::Confirm { target, file: plain, gzip: false },
            Action::Probe(plain),
        ),
        (Phase::Plain { target, plain }, Event::Probed(false)) => if has_name(target) {
            (Phase::Gzip { target, plain, packed: gzipped(plain) }, Action::Probe(gzipped(plain)))
        } else {
            (Phase::Done, Action::Send(missing_response(target)))
        },
        (Phase::Gzip { target, plain, packed }, Event::Probed(true)) => (
            Phase::Confirm { target, file: packed, gzip: true },
            Action::Probe(packed),
        ),
        (Phase::Gzip { target, plain, packed }, Event::Probed(false)) => (
            Phase::Confirm { target, file: plain, gzip: false },
            Action::Probe(plain),
        ),
        (Phase::Confirm { target, file, gzip }, Event::Probed(true)) => (
            Phase::Loading { file, gzip },
            Action::Load(file),
        ),
        (Phase::Confirm { target, file, gzip }, Event::Probed(false)) => (
            Phase::Done,
            Action::Send(missing_response(target)),
        ),
        (Phase::Loading { file, gzip }, Event::Loaded(data)) => (
            Phase::Done,
            Action::Send(found_response(file, gzip, data)),
        ),
        _ => (Phase::Done, Action::Fail),
    }
}

/// Takes one step of a connection. It starts in `Phase::Connecting` with `Event::Backend`, and
/// has ended when the phase is `Phase::Done`.
pub fn handle_connection(webroot: &str, phase: Phase<String>, event: Event<Vec<u8>>) -> (step: (
    Phase<String>,
    Action<String, Vec<u8>>,
))
    ensures
        (step.0@, step.1@) == next_step(webroot@, phase@, event@),
{
    match (phase, event) {
        (Phase::Connecting, Event::Backend(up)) => if up {
            (Phase::Done, Action::Relay)
        } else {
            (Phase::Reading, Action::ReadRequest)
        },
        (phase, event) => serve_static(webroot, phase, event),
    }
}

/// Takes one step of a connection that is answered from the files.
fn serve_static(webroot: &str, phase: Phase<String>, event: Event<Vec<u8>>) -> (step: (
    Phase<String>,
    Action<String, Vec<u8>>,
))
    requires
        !(phase is Connecting && event is Backend),
    ensures
        (step.0@, step.1@) == next_step(webroot@, phase@, event@),
{
    match (phase, event) {
        (Phase::Reading, Event::Request(bytes)) => {
            let text = text_from(bytes.as_slice());
            match request_target(text.as_str()) {
                Some(target) => if bytes.len() == 0 {
                    (Phase::Done, Action::Close)
                } else {
                    let plain = sanitize_path(webroot, target.as_str());
                    (Phase::Plain { target, plain: plain.clone() }, Action::Probe(plain))
                },
                None => (Phase::Done, Action::Close),
            }
        },
        (Phase::Plain { target, plain }, Event::Probed(found)) => if found {
            (
                Phase::Confirm { target, file: plain.clone(), gzip: false },
                Action::Probe(plain),
            )
        } else if names_a_file(target.as_str()) {
            let packed = gzip_path(plain.as_str());
            (Phase::Gzip { target, plain, packed: packed.clone() }, Action::Probe(packed))
        } else {
            (Phase::Done, Action::Send(no_file_response(target.as_str())))
        },
        (Phase::Gzip { target, plain, packed }, Event::Probed(found)) => if found {
            (Phase::Confirm { target, file: packed.clone(), gzip: true }, Action::Probe(packed))
        } else {
            (Phase::Confirm { target, file: plain.clone(), gzip: false }, Action::Probe(plain))
        },
        (Phase::Confirm { target, file, gzip }, Event::Probed(found)) => if found {
            (Phase::Loading { file: file.clone(), gzip }, Action::Load(file))
        } else {
            (Phase::Done, Action::Send(no_file_response(target.as_str())))
        },
        (Phase::Loading { file, gzip }, Event::Loaded(data)) => (
            Phase::Done,
            Action::Send(file_response(file.as_str(), gzip, &data)),
        ),
        _ => (Phase::Done, Action::Fail),
    }
}

/// An entry of the directory that holds the servers.
pub struct SrvEntry {
    /// Its name, where that is valid text.
    pub name: Option<String>,
    pub is_dir: bool,
    /// Whether there is a directory at `web_path` for it.
    pub web_is_dir: bool,
}

/// Where a server keeps BlueMap's files.
pub open spec fn web_dir(root: Seq<char>, name: Seq<char>) -> Seq<char> {
    crate::path::joined(crate::path::joined(root, name), "bluemap/web"@)
}

/// A server's directory, not hidden, with BlueMap's files in it. `None` stands for an entry that
/// could not be read.
pub open spec fn has_web_dir(entry: Option<SrvEntry>) -> bool {
    match entry {
        Some(e) => match e.name {
            Some(name) => e.is_dir && e.web_is_dir && !(name@.len() > 0 && name@[0] == '.'),
            None => false,
        },
        None => false,
    }
}

/// The first entry with BlueMap's files is the one at `i`.
pub open spec fn is_first_with_web_dir(entries: Seq<Option<SrvEntry>>, i: int) -> bool {
    &&& 0 <= i < entries.len()
    &&& has_web_dir(entries[i])
    &&& forall|j: int| 0 <= j < i ==> !#[trigger] has_web_dir(entries[j])
}

/// An entry counts exactly where it could be read, is a directory with BlueMap's directory in it,
/// and has a name that does not begin with a dot. A dot further on in the name makes no difference.
pub proof fn law_entries_that_count(entry: SrvEntry)
    ensures
        !has_web_dir(None),
        entry.name is None ==> !has_web_dir(Some(entry)),
        entry.name matches Some(name) ==> (has_web_dir(Some(entry)) <==> entry.is_dir
            && entry.web_is_dir && !(name@.len() > 0 && name@[0] == '.')),
{
}

/// The entry that is settled on counts, and no entry before it does. There is one exactly where any
/// entry counts, and no other.
pub proof fn law_first_entry_that_counts(entries: Seq<Option<SrvEntry>>, i: int)
    requires
        0 <= i < entries.len(),
        has_web_dir(entries[i]),
    ensures
        exists|k: int| #[trigger] is_first_with_web_dir(entries, k) && k <= i,
        forall|k: int| #[trigger]
            is_first_with_web_dir(entries, k) ==> 0 <= k < entries.len() && has_web_dir(entries[k])
                && k <= i,
        forall|k: int, l: int| #[trigger]
            is_first_with_web_dir(entries, k) && #[trigger] is_first_with_web_dir(entries, l)
                ==> k == l,
    decreases i,
{
    if exists|j: int| 0 <= j < i && #[trigger] has_web_dir(entries[j]) {
        let j = choose|j: int| 0 <= j < i && #[trigger] has_web_dir(entries[j]);
        law_first_entry_that_counts(entries, j);
    } else {
        assert(is_first_with_web_dir(entries, i));
    }
}

/// A server's files for BlueMap lie in `bluemap/web`, below the server's name, below the root.
pub proof fn law_web_dir(root: Seq<char>, name: Seq<char>)
    requires
        name.len() > 0,
        !name.contains('/'),
    ensures
        web_dir(root, name) == (if root.len() == 0 || root.last() == '/' {
            root + name
        } else {
            root + seq!['/'] + name
        }) + "/bluemap/web"@,
{
    reveal_strlit("bluemap/web");
    reveal_strlit("/bluemap/web");
    assert(name.contains(name[0]));
    assert(name.contains(name.last()));
    crate::path::law_join(root, name);
    let dir = crate::path::joined(root, name);
    crate::path::law_join(dir, "bluemap/web"@);
    assert(dir + seq!['/'] + "bluemap/web"@ =~= dir + "/bluemap/web"@);
}

/// Where a server keeps BlueMap's files.
pub fn web_path(root: &str, name: &str) -> (path: String)
    ensures
        path@ == web_dir(root@, name@),
{
    join(join(root, name).as_str(), "bluemap/web")
}

/// The directory with BlueMap's files of the first server that has one. The listing is `None`
/// where `root` is no directory or cannot be listed.
pub fn find_bluemap_dir(root: &str, listing: &Option<Vec<Option<SrvEntry>>>) -> (dir: Option<
    String,
>)
    ensures
        match dir {
            Some(path) => listing is Some && exists|i: int| #[trigger]
                is_first_with_web_dir(listing->0@, i) && path@ == web_dir(
                    root@,
                    listing->0@[i]->0.name->0@,
                ),
            None => listing matches Some(entries) ==> forall|i: int|
                0 <= i < entries@.len() ==> !#[trigger] has_web_dir(entries@[i]),
        },
        listing is None ==> dir is None,
        listing is Some ==> (dir is Some <==> exists|i: int|
            0 <= i < listing->0@.len() && (#[trigger] listing->0@[i] matches Some(entry)
                && entry.is_dir && entry.web_is_dir && entry.name is Some && !(entry.name->0@.len()
                > 0 && entry.name->0@[0] == '.'))),
{
    let entries = match listing {
        Some(entries) => entries,
        None => return None,
    };
    for i in 0..entries.len()
        invariant
            *listing == Some(*entries),
            forall|j: int| 0 <= j < i ==> !#[trigger] has_web_dir(entries@[j]),
    {
        if let Some(entry) = &entries[i] {
            if let Some(name) = &entry.name {
                let cs = chars_of(name.as_str());
                let hidden: bool = cs.len() > 0 && cs[0] == '.';
                if entry.is_dir && entry.web_is_dir && !hidden {
                    let path = web_path(root, name.as_str());
                    assert(is_first_with_web_dir(listing->0@, i as int));
                    return Some(path);
                }
            }
        }
    }
    assert(forall|j: int|
        0 <= j < listing->0@.len() ==> !has_web_dir(#[trigger] listing->0@[j]));
    None
}

/// The world that a connection meets: whether the backend is up, what the client asks (nothing
/// where reading fails), and the regular files there are.
pub struct World {
    pub backend: bool,
    pub request: Option<Seq<u8>>,
    pub files: Map<Seq<char>, Seq<u8>>,
}

/// What the world answers to an action, where the connection goes on after it.
pub open spec fn world_answer(world: World, action: Action<Seq<char>, Seq<u8>>) -> Option<
    Event<Seq<u8>>,
> {
    match action {
        Action::ReadRequest => match world.request {
            Some(bytes) => Some(Event::Request(bytes)),
            None => Some(Event::Failed),
        },
        Action::Probe(path) => Some(Event::Probed(world.files.contains_key(path))),
        Action::Load(path) => if world.files.contains_key(path) {
            Some(Event::Loaded(world.files[path]))
        } else {
            Some(Event::Failed)
        },
        _ => None,
    }
}

/// The last action of a connection, within a number of steps.
pub open spec fn last_action(
    webroot: Seq<char>,
    world: World,
    phase: Phase<Seq<char>>,
    event: Event<Seq<u8>>,
    steps: nat,
) -> Action<Seq<char>, Seq<u8>>
    decreases steps,
{
    let (next, action) = next_step(webroot, phase, event);
    match world_answer(world, action) {
        Some(answer) if steps > 0 => last_action(
            webroot,
            world,
            next,
            answer,
            (steps - 1) as nat,
        ),
        _ => action,
    }
}

/// What a connection comes to in a world that does not change meanwhile.
pub open spec fn outcome(webroot: Seq<char>, world: World) -> Action<Seq<char>, Seq<u8>> {
    if world.backend {
        Action::Relay
    } else {
        match world.request {
            None => Action::Fail,
            Some(bytes) => match target_of(crate::text::text_of(bytes)) {
                Some(target) if bytes.len() > 0 => {
                    let plain = sanitized(webroot, target);
                    let gzip = gzipped(plain);
                    if world.files.contains_key(plain) {
                        Action::Send(found_response(plain, false, world.files[plain]))
                    } else if has_name(target) && world.files.contains_key(gzip) {
                        Action::Send(found_response(gzip, true, world.files[gzip]))
                    } else {
                        Action::Send(missing_response(target))
                    }
                },
                _ => Action::Close,
            },
        }
    }
}

/// Every connection ends after at most six steps: at the backend where that is up; with the file
/// that was asked for, or the compressed one beside it; and where there is neither, with success
/// for tiles and live data and an error for anything else.
pub proof fn law_connection_outcome(webroot: Seq<char>, world: World, steps: nat)
    requires
        steps >= 5,
    ensures
        last_action(webroot, world, Phase::Connecting, Event::Backend(world.backend), steps)
            == outcome(webroot, world),
{
    reveal_with_fuel(last_action, 7);
}

/// The actions of a connection, in order, within a number of steps, whatever happens meanwhile:
/// `probed` tells what the first lookup finds, the second, and so on, `loaded` what is read of a
/// file, and `probes` how often the connection has looked.
pub open spec fn connection_actions(
    webroot: Seq<char>,
    request: Option<Seq<u8>>,
    probed: spec_fn(nat) -> bool,
    loaded: Option<Seq<u8>>,
    phase: Phase<Seq<char>>,
    event: Event<Seq<u8>>,
    probes: nat,
    steps: nat,
) -> Seq<Action<Seq<char>, Seq<u8>>>
    decreases steps,
{
    let (next, action) = next_step(webroot, phase, event);
    let answer = match action {
        Action::ReadRequest => match request {
            Some(bytes) => Some(Event::Request(bytes)),
            None => Some(Event::Failed),
        },
        Action::Probe(_) => Some(Event::Probed(probed(probes))),
        Action::Load(_) => match loaded {
            Some(data) => Some(Event::Loaded(data)),
            None => Some(Event::Failed),
        },
        _ => None,
    };
    match answer {
        Some(answer) if steps > 0 => seq![action] + connection_actions(
            webroot,
            request,
            probed,
            loaded,
            next,
            answer,
            if action is Probe {
                probes + 1
            } else {
                probes
            },
            (steps - 1) as nat,
        ),
        _ => seq![action],
    }
}

/// What a connection does from first to last. Where the backend is up it is handed over, without a
/// look at it. Otherwise its request is read, once, and without one that has a target it is closed.
/// The file for the target is looked up first. Where it is not there, the file with `.gz` behind its
/// name is, if the target has a name. The file that was found is looked up once more, the first one
/// where none was, and then read and sent, as compressed exactly where it is the one with `.gz`; or
/// the answer without a file is sent.
pub proof fn law_connection_actions(
    webroot: Seq<char>,
    backend: bool,
    request: Option<Seq<u8>>,
    probed: spec_fn(nat) -> bool,
    loaded: Option<Seq<u8>>,
    steps: nat,
)
    requires
        steps >= 5,
    ensures
        ({
            let all = connection_actions(
                webroot,
                request,
                probed,
                loaded,
                Phase::Connecting,
                Event::Backend(backend),
                0,
                steps,
            );
            let read = Action::<Seq<char>, Seq<u8>>::ReadRequest;
            if backend {
                all == seq![Action::<Seq<char>, Seq<u8>>::Relay]
            } else if request is None {
                all == seq![read, Action::Fail]
            } else if request->0.len() == 0 || target_of(
                crate::text::text_of(request->0),
            ) is None {
                all == seq![read, Action::Close]
            } else {
                let target = target_of(crate::text::text_of(request->0))->0;
                let plain = sanitized(webroot, target);
                let packed = plain + ".gz"@;
                let look = |path: Seq<char>| seq![Action::<Seq<char>, Seq<u8>>::Probe(path)];
                let missing = seq![Action::<Seq<char>, Seq<u8>>::Send(missing_response(target))];
                let settle = |file: Seq<char>, gzip: bool, found: bool|
                    if found {
                        seq![
                            Action::<Seq<char>, Seq<u8>>::Load(file),
                            match loaded {
                                Some(data) => Action::Send(found_response(file, gzip, data)),
                                None => Action::Fail,
                            },
                        ]
                    } else {
                        missing
                    };
                all == seq![read] + look(plain) + (if probed(0) {
                    look(plain) + settle(plain, false, probed(1))
                } else if crate::path::normal_parts(target).len() == 0 {
                    missing
                } else if probed(1) {
                    look(packed) + look(packed) + settle(packed, true, probed(2))
                } else {
                    look(packed) + look(plain) + settle(plain, false, probed(2))
                })
            }
        }),
{
    reveal_with_fuel(connection_actions, 3);
    if !backend && request is Some && request->0.len() > 0 && target_of(
        crate::text::text_of(request->0),
    ) is Some {
        let target = target_of(crate::text::text_of(request->0))->0;
        let s = (steps - 2) as nat;
        lemma_actions_from_plain(webroot, request, probed, loaded, target, s);
        lemma_actions_to_plain(webroot, request->0, probed, loaded, target, s);
    }
}

proof fn lemma_actions_to_plain(
    webroot: Seq<char>,
    bytes: Seq<u8>,
    probed: spec_fn(nat) -> bool,
    loaded: Option<Seq<u8>>,
    target: Seq<char>,
    steps: nat,
)
    requires
        bytes.len() > 0,
        target_of(crate::text::text_of(bytes)) == Some(target),
    ensures
        ({
            let plain = sanitized(webroot, target);
            connection_actions(
                webroot,
                Some(bytes),
                probed,
                loaded,
                Phase::Connecting,
                Event::Backend(false),
                0,
                steps + 2,
            ) == seq![Action::ReadRequest] + seq![Action::Probe(plain)] + connection_actions(
                webroot,
                Some(bytes),
                probed,
                loaded,
                Phase::Plain { target, plain },
                Event::Probed(probed(0)),
                1,
                steps,
            )
        }),
{
    let plain = sanitized(webroot, target);
    let rest = connection_actions(
        webroot,
        Some(bytes),
        probed,
        loaded,
        Phase::Plain { target, plain },
        Event::Probed(probed(0)),
        1,
        steps,
    );
    let read = connection_actions(
        webroot,
        Some(bytes),
        probed,
        loaded,
        Phase::Reading,
        Event::Request(bytes),
        0,
        steps + 1,
    );
    assert(read == seq![Action::Probe(plain)] + rest);
    assert(seq![Action::ReadRequest] + read =~= seq![Action::ReadRequest] + seq![
        Action::Probe(plain),
    ] + rest);
}

/// What follows once a file has been settled on and looked up again.
spec fn from_confirm(
    loaded: Option<Seq<u8>>,
    target: Seq<char>,
    file: Seq<char>,
    gzip: bool,
    found: bool,
) -> Seq<Action<Seq<char>, Seq<u8>>> {
    if found {
        seq![
            Action::Load(file),
            match loaded {
                Some(data) => Action::Send(found_response(file, gzip, data)),
                None => Action::Fail,
            },
        ]
    } else {
        seq![Action::Send(missing_response(target))]
    }
}

proof fn lemma_actions_from_confirm(
    webroot: Seq<char>,
    request: Option<Seq<u8>>,
    probed: spec_fn(nat) -> bool,
    loaded: Option<Seq<u8>>,
    target: Seq<char>,
    file: Seq<char>,
    gzip: bool,
    probes: nat,
    steps: nat,
)
    requires
        steps >= 1,
    ensures
        connection_actions(
            webroot,
            request,
            probed,
            loaded,
            Phase::Confirm { target, file, gzip },
            Event::Probed(probed(probes)),
            probes + 1,
            steps,
        ) == from_confirm(loaded, target, file, gzip, probed(probes)),
{
    reveal_with_fuel(connection_actions, 3);
    assert(connection_actions(
        webroot,
        request,
        probed,
        loaded,
        Phase::Confirm { target, file, gzip },
        Event::Probed(probed(probes)),
        probes + 1,
        steps,
    ) =~= from_confirm(loaded, target, file, gzip, probed(probes)));
}

proof fn lemma_actions_from_plain(
    webroot: Seq<char>,
    request: Option<Seq<u8>>,
    probed: spec_fn(nat) -> bool,
    loaded: Option<Seq<u8>>,
    target: Seq<char>,
    steps: nat,
)
    requires
        steps >= 3,
    ensures
        ({
            let plain = sanitized(webroot, target);
            let packed = plain + ".gz"@;
            connection_actions(
                webroot,
                request,
                probed,
                loaded,
                Phase::Plain { target, plain },
                Event::Probed(probed(0)),
                1,
                steps,
            ) == (if probed(0) {
                seq![Action::Probe(plain)] + from_confirm(loaded, target, plain, false, probed(1))
            } else if crate::path::normal_parts(target).len() == 0 {
                seq![Action::Send(missing_response(target))]
            } else if probed(1) {
                seq![Action::Probe(packed)] + seq![Action::Probe(packed)] + from_confirm(
                    loaded,
                    target,
                    packed,
                    true,
                    probed(2),
                )
            } else {
                seq![Action::Probe(packed)] + seq![Action::Probe(plain)] + from_confirm(
                    loaded,
                    target,
                    plain,
                    false,
                    probed(2),
                )
            })
        }),
{
    let plain = sanitized(webroot, target);
    let packed = plain + ".gz"@;
    let all = connection_actions(
        webroot,
        request,
        probed,
        loaded,
        Phase::Plain { target, plain },
        Event::Probed(probed(0)),
        1,
        steps,
    );
    if has_name(target) {
        law_gzipped_is_beside(webroot, target);
    }
    let (s1, s2) = ((steps - 1) as nat, (steps - 2) as nat);
    if probed(0) {
        lemma_actions_from_confirm(
            webroot,
            request,
            probed,
            loaded,
            target,
            plain,
            false,
            1,
            s1,
        );
    } else if has_name(target) {
        let (file, gzip) = if probed(1) {
            (packed, true)
        } else {
            (plain, false)
        };
        lemma_actions_from_confirm(webroot, request, probed, loaded, target, file, gzip, 2, s2);
        let rest = connection_actions(
            webroot,
            request,
            probed,
            loaded,
            Phase::Gzip { target, plain, packed },
            Event::Probed(probed(1)),
            2,
            s1,
        );
        assert(rest == seq![Action::Probe(file)] + from_confirm(
            loaded,
            target,
            file,
            gzip,
            probed(2),
        ));
        assert(all == seq![Action::Probe(packed)] + rest);
        assert(all =~= seq![Action::Probe(packed)] + seq![Action::Probe(file)] + from_confirm(
            loaded,
            target,
            file,
            gzip,
            probed(2),
        ));
    }
}

/// The answer that carries a file is a text and the file behind it, down to the last byte. Read line
/// by line, the text is the status, the media type, the encoding where the file is compressed, the
/// length of this very file, the end of the connection, and then the first empty line. The length
/// reads back as the number of the file's bytes.
pub proof fn law_answer_carries_the_file(file: Seq<char>, gzip: bool, data: Seq<u8>)
    ensures
        ({
            let answer = found_response(file, gzip, data);
            let length = crate::number::decimal(data.len());
            let coding = if gzip {
                "Content-Encoding: gzip\r\n"@
            } else {
                Seq::empty()
            };
            let head = "HTTP/1.1 200 OK\r\n"@ + "Content-Type: "@ + media_type_of(file) + "\r\n"@
                + coding + "Content-Length: "@ + length + "\r\n"@ + "Connection: close\r\n\r\n"@;
            let coding_line = if gzip {
                seq!["Content-Encoding: gzip"@ + seq!['\r']]
            } else {
                Seq::empty()
            };
            &&& answer == vstd::utf8::encode_utf8(head) + data
            &&& answer.len() >= data.len()
            &&& answer.skip(answer.len() - data.len()) == data
            &&& answer.take(answer.len() - data.len()) == vstd::utf8::encode_utf8(head)
            &&& crate::text::split(head, |c: char| c == '\n') == seq![
                "HTTP/1.1 200 OK"@ + seq!['\r'],
                "Content-Type: "@ + media_type_of(file) + seq!['\r'],
            ] + coding_line + seq![
                "Content-Length: "@ + length + seq!['\r'],
                "Connection: close"@ + seq!['\r'],
                seq!['\r'],
                Seq::empty(),
            ]
            &&& crate::text::is_infix(
                "Content-Length: "@ + length + "\r\n"@,
                found_head(media_type_of(file), gzip, data.len()),
            )
            &&& crate::number::integer_of(length) == Some(data.len() as int)
        }),
{
    let answer = found_response(file, gzip, data);
    let mime = media_type_of(file);
    let length = crate::number::decimal(data.len());
    let coding = if gzip {
        "Content-Encoding: gzip\r\n"@
    } else {
        Seq::empty()
    };
    let none = Seq::<char>::empty();
    reveal_strlit("HTTP/1.1 200 OK\r\n");
    reveal_strlit("HTTP/1.1 200 OK");
    reveal_strlit("Content-Type: ");
    reveal_strlit("Content-Encoding: gzip\r\n");
    reveal_strlit("Content-Encoding: gzip");
    reveal_strlit("Content-Length: ");
    reveal_strlit("Connection: close\r\n\r\n");
    reveal_strlit("Connection: close");
    reveal_strlit("\r\n");
    let head = "HTTP/1.1 200 OK\r\n"@ + "Content-Type: "@ + mime + "\r\n"@ + coding
        + "Content-Length: "@ + length + "\r\n"@ + "Connection: close\r\n\r\n"@;
    assert(answer.skip(answer.len() - data.len()) =~= data);
    assert(answer.take(answer.len() - data.len()) =~= vstd::utf8::encode_utf8(head));
    crate::number::law_decimal_reads_back(data.len());
    lemma_media_type_is_one_line(file);
    let l5 = none + "\r\n"@ + none;
    let l4 = "Connection: close"@ + "\r\n"@ + l5;
    let l3 = "Content-Length: "@ + length + "\r\n"@ + l4;
    let l2 = if gzip {
        "Content-Encoding: gzip"@ + "\r\n"@ + l3
    } else {
        l3
    };
    let l1 = "Content-Type: "@ + mime + "\r\n"@ + l2;
    let l0 = "HTTP/1.1 200 OK"@ + "\r\n"@ + l1;
    assert(head =~= l0);
    lemma_line("HTTP/1.1 200 OK"@, l1);
    lemma_line("Content-Type: "@ + mime, l2);
    lemma_line("Content-Encoding: gzip"@, l3);
    assert(forall|i: int| 0 <= i < length.len() ==> crate::number::is_digit(#[trigger] length[i]));
    lemma_line("Content-Length: "@ + length, l4);
    lemma_line("Connection: close"@, l5);
    lemma_line(none, none);
    let sep = |c: char| c == '\n';
    let lines = seq![
        "HTTP/1.1 200 OK"@ + seq!['\r'],
        "Content-Type: "@ + mime + seq!['\r'],
    ] + (if gzip {
        seq!["Content-Encoding: gzip"@ + seq!['\r']]
    } else {
        Seq::empty()
    }) + seq![
        "Content-Length: "@ + length + seq!['\r'],
        "Connection: close"@ + seq!['\r'],
        seq!['\r'],
        Seq::empty(),
    ];
    assert(none + seq!['\r'] =~= seq!['\r']);
    assert(crate::text::split(none, sep) =~= seq![none]);
    assert(crate::text::split(head, sep) =~= lines);
    let before = "HTTP/1.1 200 OK\r\n"@ + "Content-Type: "@ + mime + "\r\n"@ + coding;
    let part = "Content-Length: "@ + length + "\r\n"@;
    assert(head =~= before + part + "Connection: close\r\n\r\n"@);
    crate::text::law_infix(part, head);
}

proof fn lemma_line(line: Seq<char>, rest: Seq<char>)
    requires
        forall|i: int| 0 <= i < line.len() ==> #[trigger] line[i] != '\n',
    ensures
        crate::text::split(line + "\r\n"@ + rest, |c: char| c == '\n') == seq![
            line + seq!['\r'],
        ] + crate::text::split(rest, |c: char| c == '\n'),
{
    reveal_strlit("\r\n");
    let a = line + seq!['\r'];
    crate::text::law_split_at_first(a, '\n', rest, |c: char| c == '\n');
    assert(line + "\r\n"@ + rest =~= a.push('\n') + rest);
}

proof fn lemma_media_type_is_one_line(file: Seq<char>)
    ensures
        forall|i: int|
            0 <= i < media_type_of(file).len() ==> #[trigger] media_type_of(file)[i] != '\n',
{
    reveal_strlit("text/html; charset=utf-8");
    reveal_strlit("text/css; charset=utf-8");
    reveal_strlit("application/javascript");
    reveal_strlit("application/json");
    reveal_strlit("image/png");
    reveal_strlit("image/jpeg");
    reveal_strlit("image/svg+xml");
    reveal_strlit("application/octet-stream");
}

/// Where there is no file, the answer is a head alone: success without content for the tiles and
/// the live data of maps, and an error for anything else.
pub proof fn law_answer_without_a_file(target: Seq<char>)
    ensures
        missing_response(target) == vstd::utf8::encode_utf8(
            (if is_optional(target) {
                "HTTP/1.1 204 No Content\r\n"@
            } else {
                "HTTP/1.1 404 Not Found\r\n"@
            }) + "Connection: close\r\n\r\n"@,
        ),
        is_optional(target) <==> {
            &&& exists|behind: Seq<char>| target == #[trigger] ("/maps/"@ + behind)
            &&& {
                ||| exists|before: Seq<char>, behind: Seq<char>|
                    target == #[trigger] (before + "/tiles/"@ + behind)
                ||| exists|before: Seq<char>, behind: Seq<char>|
                    target == #[trigger] (before + "/live/"@ + behind)
            }
        },
{
    crate::text::law_infix("/tiles/"@, target);
    crate::text::law_infix("/live/"@, target);
    let n = "/maps/"@.len() as int;
    if "/maps/"@.is_prefix_of(target) {
        assert(target =~= "/maps/"@ + target.skip(n));
    }
    if exists|behind: Seq<char>| target == #[trigger] ("/maps/"@ + behind) {
        let behind = choose|behind: Seq<char>| target == #[trigger] ("/maps/"@ + behind);
        assert(("/maps/"@ + behind).subrange(0, n) =~= "/maps/"@);
    }
}

/// The media type goes by what stands behind the last dot of a file's name.
pub proof fn law_media_types(dir: Seq<char>, stem: Seq<char>, ext: Seq<char>, path: Seq<char>)
    requires
        dir.len() == 0 || dir.last() == '/',
        stem.len() > 0,
        !stem.contains('/'),
        !ext.contains('/'),
        !ext.contains('.'),
        stem + seq!['.'] + ext != seq!['.', '.'],
        path == dir + stem + seq!['.'] + ext,
    ensures
        ext == "html"@ ==> media_type_of(path) == "text/html; charset=utf-8"@,
        ext == "css"@ ==> media_type_of(path) == "text/css; charset=utf-8"@,
        ext == "js"@ ==> media_type_of(path) == "application/javascript"@,
        ext == "json"@ ==> media_type_of(path) == "application/json"@,
        ext == "png"@ ==> media_type_of(path) == "image/png"@,
        ext == "jpg"@ ==> media_type_of(path) == "image/jpeg"@,
        ext == "jpeg"@ ==> media_type_of(path) == "image/jpeg"@,
        ext == "svg"@ ==> media_type_of(path) == "image/svg+xml"@,
        ext != "html"@ && ext != "css"@ && ext != "js"@ && ext != "json"@ && ext != "png"@ && ext
            != "jpg"@ && ext != "jpeg"@ && ext != "svg"@ ==> media_type_of(path)
            == "application/octet-stream"@,
{
    crate::path::law_extension(dir, stem, ext);
    lemma_extension_names();
}

/// A file without an extension is a row of bytes.
pub proof fn law_media_type_without_extension(path: Seq<char>)
    requires
        crate::path::extension(path) is None,
    ensures
        media_type_of(path) == "application/octet-stream"@,
{
    lemma_extension_names();
}

proof fn lemma_extension_names()
    ensures
        "html"@.len() == 4,
        "css"@.len() == 3,
        "js"@.len() == 2,
        "json"@.len() == 4,
        "png"@.len() == 3,
        "jpg"@.len() == 3,
        "jpeg"@.len() == 4,
        "svg"@.len() == 3,
        "html"@[0] == 'h',
        "css"@[0] == 'c',
        "json"@[1] == 's',
        "png"@[0] == 'p',
        "jpg"@[0] == 'j',
        "jpeg"@[1] == 'p',
        "svg"@[0] == 's',
        "json"@[0] == 'j',
        "jpeg"@[0] == 'j',
{
    reveal_strlit("html");
    reveal_strlit("css");
    reveal_strlit("js");
    reveal_strlit("json");
    reveal_strlit("png");
    reveal_strlit("jpg");
    reveal_strlit("jpeg");
    reveal_strlit("svg");
}

/// A further part of a request leads one directory further down, unless it is nothing, `.` or `..`,
/// which lead nowhere.
pub proof fn law_sanitized_parts(root: Seq<char>, request: Seq<char>, part: Seq<char>)
    requires
        !part.contains('/'),
    ensures
        sanitized(root, Seq::empty()) == root,
        part.len() == 0 || part == seq!['.'] || part == seq!['.', '.'] ==> {
            &&& sanitized(root, part) == root
            &&& sanitized(root, request + seq!['/'] + part) == sanitized(root, request)
        },
        part.len() > 0 && part != seq!['.'] && part != seq!['.', '.'] ==> {
            let before = sanitized(root, request);
            &&& sanitized(root, part) == (if root.len() == 0 || root.last() == '/' {
                root + part
            } else {
                root + seq!['/'] + part
            })
            &&& sanitized(root, request + seq!['/'] + part) == (if before.len() == 0
                || before.last() == '/' {
                before + part
            } else {
                before + seq!['/'] + part
            })
        },
{
    let none = Seq::<char>::empty();
    crate::path::law_normal_parts(request, part);
    crate::path::law_normal_parts(request, none);
    let parts = crate::path::normal_parts(request);
    assert(parts.push(part).drop_last() =~= parts);
    assert(seq![part].drop_last() =~= Seq::<Seq<char>>::empty());
    if part.len() > 0 {
        assert(part.contains(part[0]));
    }
    crate::path::law_join(sanitized(root, request), part);
    crate::path::law_join(root, part);
    reveal_with_fuel(under, 2);
}

/// The compressed file beside a file has the file's name with `.gz` behind it.
pub proof fn law_gzip_is_beside(dir: Seq<char>, name: Seq<char>)
    requires
        dir.len() == 0 || dir.last() == '/',
        name.len() > 0,
        !name.contains('/'),
        name != seq!['.'],
        name != seq!['.', '.'],
    ensures
        gzipped(dir + name) == dir + name + ".gz"@,
{
    crate::path::law_file_name(dir, name);
}

/// A request's target is its second word, up to the first question mark, whatever follows that
/// word; behind a slash at its end stands the name of the index.
pub proof fn law_target_of_request(
    method: Seq<char>,
    path: Seq<char>,
    query: Seq<char>,
    tail: Seq<char>,
)
    requires
        method.len() > 0,
        (path + query).len() > 0,
        forall|i: int| 0 <= i < method.len() ==> !crate::text::is_space(#[trigger] method[i]),
        forall|i: int| 0 <= i < path.len() ==> !crate::text::is_space(#[trigger] path[i]),
        forall|i: int| 0 <= i < query.len() ==> !crate::text::is_space(#[trigger] query[i]),
        !path.contains('?'),
        query.len() > 0 ==> query[0] == '?',
        tail.len() > 0 ==> crate::text::is_space(tail[0]),
    ensures
        target_of(method + seq![' '] + path + query + tail) == Some(
            if path.len() > 0 && path.last() == '/' {
                path + "index.html"@
            } else {
                path
            },
        ),
{
    let whole = method + seq![' '] + path + query + tail;
    let word = path + query;
    assert(whole =~= method + seq![' '] + word + tail);
    assert(forall|i: int| 0 <= i < word.len() ==> !crate::text::is_space(#[trigger] word[i]));
    lemma_second_word(method, word, tail);
    law_target_is_the_second_word(whole, path, query);
}

proof fn lemma_before_query(path: Seq<char>, query: Seq<char>)
    requires
        !path.contains('?'),
        query.len() > 0 ==> query[0] == '?',
    ensures
        before_query(path + query) == path,
{
    let sep = |c: char| c == '?';
    assert(forall|i: int| 0 <= i < path.len() ==> path.contains(#[trigger] path[i]));
    if query.len() > 0 {
        let rest = query.drop_first();
        crate::text::law_split_at_first(path, '?', rest, sep);
        assert(path + query =~= path.push('?') + rest);
        assert((seq![path] + crate::text::split(rest, sep))[0] == path);
    } else {
        crate::text::law_split_at_first(path, '?', path, sep);
        assert(path + query =~= path);
    }
}

proof fn lemma_second_word(method: Seq<char>, word: Seq<char>, tail: Seq<char>)
    requires
        method.len() > 0,
        word.len() > 0,
        forall|i: int| 0 <= i < method.len() ==> !crate::text::is_space(#[trigger] method[i]),
        forall|i: int| 0 <= i < word.len() ==> !crate::text::is_space(#[trigger] word[i]),
        tail.len() > 0 ==> crate::text::is_space(tail[0]),
    ensures
        ({
            let list = crate::text::words(
                crate::text::first_line_of(method + seq![' '] + word + tail),
            );
            list.len() >= 2 && list[1] == word
        }),
{
    lemma_first_line_of_request(method, word, tail);
    let line = crate::text::first_line_of(method + seq![' '] + word + tail);
    let start = method + seq![' '] + word;
    let n = start.len() as int;
    let behind = line.skip(n);
    assert(start == line.subrange(0, n));
    assert(line =~= start + behind);
    assert(line =~= method.push(' ') + (word + behind));
    crate::text::law_words(method, ' ', word + behind);
    if behind.len() > 0 {
        let rest = behind.drop_first();
        crate::text::law_words(word, behind[0], rest);
        assert(word + behind =~= word.push(behind[0]) + rest);
        assert((seq![method] + (seq![word] + crate::text::words(rest)))[1] == word);
    } else {
        crate::text::law_words(word, ' ', word);
        assert(word + behind =~= word);
        assert((seq![method] + seq![word])[1] == word);
    }
}

/// The target goes by the second word of the first line and by nothing else: it is that word up to
/// the first question mark, with the name of the index behind a slash at its end.
pub proof fn law_target_is_the_second_word(
    request: Seq<char>,
    path: Seq<char>,
    query: Seq<char>,
)
    requires
        crate::text::words(crate::text::first_line_of(request)).len() >= 2,
        crate::text::words(crate::text::first_line_of(request))[1] == path + query,
        !path.contains('?'),
        query.len() > 0 ==> query[0] == '?',
    ensures
        target_of(request) == Some(
            if path.len() > 0 && path.last() == '/' {
                path + "index.html"@
            } else {
                path
            },
        ),
{
    lemma_before_query(path, query);
}

/// There is a target exactly where the first line has two words or more.
pub proof fn law_target_needs_two_words(request: Seq<char>)
    ensures
        target_of(request) is Some <==> crate::text::words(
            crate::text::first_line_of(request),
        ).len() >= 2,
{
}

/// The first line of a request begins with its first two words, and goes on with white space if it
/// goes on.
proof fn lemma_first_line_of_request(method: Seq<char>, word: Seq<char>, tail: Seq<char>)
    requires
        word.len() > 0,
        forall|i: int| 0 <= i < method.len() ==> !crate::text::is_space(#[trigger] method[i]),
        forall|i: int| 0 <= i < word.len() ==> !crate::text::is_space(#[trigger] word[i]),
        tail.len() > 0 ==> crate::text::is_space(tail[0]),
    ensures
        ({
            let line = crate::text::first_line_of(method + seq![' '] + word + tail);
            let start = method + seq![' '] + word;
            &&& start.is_prefix_of(line)
            &&& line.len() > start.len() ==> crate::text::is_space(line[start.len() as int])
        }),
{
    let start = method + seq![' '] + word;
    let whole = start + tail;
    assert forall|i: int| 0 <= i < start.len() implies #[trigger] start[i] != '\n' && (i
        == start.len() - 1 ==> start[i] != '\r') by {
        if i < method.len() {
            assert(start[i] == method[i]);
        } else if i > method.len() {
            assert(start[i] == word[i - method.len() - 1]);
        }
    }
    if tail.contains('\n') {
        let k = tail.index_of_first('\n').unwrap();
        tail.index_of_first_ensures('\n');
        let a = start + tail.take(k);
        let b = tail.skip(k + 1);
        assert(whole =~= a.push('\n') + b);
        assert(!a.contains('\n')) by {
            if a.contains('\n') {
                let i = a.index_of('\n');
                if i < start.len() {
                    assert(start[i] == '\n');
                } else {
                    assert(tail[i - start.len()] == '\n');
                }
            }
        }
        crate::text::law_first_line(a, b);
        if a.last() == '\r' {
            assert(k > 0) by {
                if k == 0 {
                    assert(a =~= start);
                }
            }
        }
        let line = crate::text::first_line_of(whole);
        assert(line.subrange(0, start.len() as int) =~= start);
    } else {
        assert(!whole.contains('\n')) by {
            if whole.contains('\n') {
                let i = whole.index_of('\n');
                if i < start.len() {
                    assert(start[i] == '\n');
                } else {
                    assert(tail[i - start.len()] == '\n');
                }
            }
        }
        crate::text::law_first_line(whole, whole);
        assert(whole.subrange(0, start.len() as int) =~= start);
    }
}

/// No part of a path is `.` or `..`, and none holds a slash.
spec fn clean(parts: Seq<Seq<char>>) -> bool {
    forall|i: int|
        0 <= i < parts.len() ==> crate::path::is_normal(#[trigger] parts[i])
            && !parts[i].contains('/')
}

proof fn lemma_pieces_hold_no_slash(s: Seq<char>)
    ensures
        forall|i: int|
            0 <= i < crate::path::pieces(s).len() ==> !(#[trigger] crate::path::pieces(
                s,
            )[i]).contains('/'),
    decreases s.len(),
{
    if s.len() > 0 {
        let sep = |c: char| c == '/';
        let before = crate::path::pieces(s.drop_last());
        lemma_pieces_hold_no_slash(s.drop_last());
        crate::text::lemma_split_nonempty(s.drop_last(), sep);
        let all = crate::path::pieces(s);
        assert forall|i: int| 0 <= i < all.len() implies !(#[trigger] all[i]).contains('/') by {
            if !sep(s.last()) && i == all.len() - 1 {
                let old_last = before.last();
                assert(all[i] == old_last.push(s.last()));
                assert(before[before.len() - 1] == old_last);
                if all[i].contains('/') {
                    let k = all[i].index_of('/');
                    assert(old_last.push(s.last())[k] == '/');
                    assert(k < old_last.len());
                    assert(old_last[k] == '/');
                }
            } else if i < before.len() {
                assert(all[i] == before[i]);
            }
        }
    }
}

proof fn lemma_normal_parts_clean(s: Seq<char>)
    ensures
        clean(crate::path::normal_parts(s)),
{
    let keep = |p: Seq<char>| crate::path::is_normal(p);
    let all = crate::path::pieces(s);
    lemma_pieces_hold_no_slash(s);
    broadcast use vstd::seq_lib::group_filter_ensures;

    let kept = all.filter(keep);
    assert forall|i: int| 0 <= i < kept.len() implies crate::path::is_normal(#[trigger] kept[i])
        && !kept[i].contains('/') by {
        assert(keep(kept[i]));
        all.lemma_filter_contains_rev(keep, kept[i]);
        let k = all.index_of(kept[i]);
        assert(all[k] == kept[i]);
    }
}

/// Text without a slash goes to the last piece.
proof fn lemma_pieces_append(a: Seq<char>, b: Seq<char>)
    requires
        !b.contains('/'),
    ensures
        crate::path::pieces(a + b) == crate::path::pieces(a).drop_last().push(
            crate::path::pieces(a).last() + b,
        ),
    decreases b.len(),
{
    crate::text::lemma_split_nonempty(a, |c: char| c == '/');
    if b.len() == 0 {
        assert(a + b =~= a);
        assert(crate::path::pieces(a).last() + b =~= crate::path::pieces(a).last());
        assert(crate::path::pieces(a).drop_last().push(crate::path::pieces(a).last())
            =~= crate::path::pieces(a));
    } else {
        let front = b.drop_last();
        assert(b[b.len() - 1] == b.last());
        assert(!front.contains('/')) by {
            if front.contains('/') {
                let k = front.index_of('/');
                assert(b[k] == '/');
            }
        }
        lemma_pieces_append(a, front);
        assert((a + b).drop_last() =~= a + front);
        let p = crate::path::pieces(a).drop_last();
        let l = crate::path::pieces(a).last();
        assert((l + front).push(b.last()) =~= l + b);
        assert(p.push(l + front).drop_last() =~= p);
    }
}

/// A slash and a part after it make one more piece.
proof fn lemma_pieces_slash(a: Seq<char>, part: Seq<char>)
    requires
        !part.contains('/'),
    ensures
        crate::path::pieces(a.push('/') + part) == crate::path::pieces(a).push(part),
{
    lemma_pieces_append(a.push('/'), part);
    assert(a.push('/').drop_last() =~= a);
    let p = crate::path::pieces(a);
    assert(p.push(Seq::<char>::empty()).drop_last() =~= p);
    assert(Seq::<char>::empty() + part =~= part);
}

proof fn lemma_clean_filter(parts: Seq<Seq<char>>)
    requires
        clean(parts),
    ensures
        parts.filter(|p: Seq<char>| crate::path::is_normal(p)) == parts,
    decreases parts.len(),
{
    reveal(Seq::filter);
    if parts.len() > 0 {
        let front = parts.drop_last();
        assert forall|i: int| 0 <= i < front.len() implies crate::path::is_normal(
            #[trigger] front[i],
        ) && !front[i].contains('/') by {
            assert(front[i] == parts[i]);
        }
        lemma_clean_filter(front);
        assert(parts[parts.len() - 1] == parts.last());
        assert(front.push(parts.last()) =~= parts);
    }
}

/// What stands behind `root` when clean parts are joined to it.
proof fn lemma_under(root: Seq<char>, parts: Seq<Seq<char>>)
    requires
        clean(parts),
    ensures
        root.is_prefix_of(under(root, parts)),
        ({
            let rest = under(root, parts).skip(root.len() as int);
            let lead = root.len() > 0 && root.last() != '/';
            &&& parts.len() == 0 ==> rest.len() == 0
            &&& parts.len() > 0 && lead ==> rest.len() > 0 && rest[0] == '/'
            &&& parts.len() > 0 ==> crate::path::pieces(rest) == (if lead {
                seq![Seq::<char>::empty()] + parts
            } else {
                parts
            })
            &&& parts.len() > 0 ==> under(root, parts).last() != '/' && under(root, parts).len() > 0
        }),
    decreases parts.len(),
{
    let whole = under(root, parts);
    let rest = whole.skip(root.len() as int);
    let lead = root.len() > 0 && root.last() != '/';
    if parts.len() == 0 {
        assert(root.subrange(0, root.len() as int) =~= root);
    } else {
        let front = parts.drop_last();
        let p = parts.last();
        assert forall|i: int| 0 <= i < front.len() implies crate::path::is_normal(
            #[trigger] front[i],
        ) && !front[i].contains('/') by {
            assert(front[i] == parts[i]);
        }
        assert(parts[parts.len() - 1] == p);
        lemma_under(root, front);
        let u = under(root, front);
        let before = u.skip(root.len() as int);
        assert(p.contains(p[0]));
        assert(p.contains(p.last()));
        assert(p[0] != '/' && p.last() != '/');
        assert(whole == crate::path::joined(u, p));
        assert(whole.last() == p.last());
        assert(u =~= root + before);
        if front.len() == 0 {
            assert(before =~= Seq::<char>::empty());
            assert(u =~= root);
            assert(parts =~= seq![p]);
            let none = Seq::<char>::empty();
            assert(crate::path::pieces(none) =~= seq![none]);
            if lead {
                assert(rest =~= none.push('/') + p);
                lemma_pieces_slash(none, p);
                assert(seq![none].push(p) =~= seq![none] + parts);
            } else {
                assert(rest =~= none + p);
                lemma_pieces_append(none, p);
                assert(none + p =~= p);
                assert(seq![none].drop_last().push(p) =~= parts);
            }
        } else {
            assert(whole =~= u.push('/') + p);
            assert(rest =~= before.push('/') + p);
            lemma_pieces_slash(before, p);
            assert(front.push(p) =~= parts);
            if lead {
                assert((seq![Seq::<char>::empty()] + front).push(p)
                    =~= seq![Seq::<char>::empty()] + parts);
            }
        }
        assert(whole.subrange(0, root.len() as int) =~= root);
    }
}

/// A path is the root, with nothing behind it but names, each set off by a slash, none of them `.`
/// or `..`.
pub open spec fn stays_under(root: Seq<char>, path: Seq<char>) -> bool {
    let rest = path.skip(root.len() as int);
    &&& root.is_prefix_of(path)
    &&& rest.len() > 0 && root.len() > 0 && root.last() != '/' ==> rest[0] == '/'
    &&& forall|i: int|
        0 <= i < crate::path::pieces(rest).len() ==> (#[trigger] crate::path::pieces(
            rest,
        )[i]).len() == 0 || crate::path::is_normal(crate::path::pieces(rest)[i])
}

/// Whatever is requested, the path stays below the root, and the names behind the root are those of
/// the request, in order.
pub proof fn law_sanitized_path_stays_under_root(root: Seq<char>, request: Seq<char>)
    ensures
        stays_under(root, sanitized(root, request)),
        crate::path::normal_parts(sanitized(root, request).skip(root.len() as int))
            == crate::path::normal_parts(request),
{
    let parts = crate::path::normal_parts(request);
    let keep = |p: Seq<char>| crate::path::is_normal(p);
    lemma_normal_parts_clean(request);
    lemma_under(root, parts);
    lemma_clean_filter(parts);
    let rest = sanitized(root, request).skip(root.len() as int);
    let none = seq![Seq::<char>::empty()];
    reveal(Seq::filter);
    crate::text::lemma_filter_push(Seq::<Seq<char>>::empty(), Seq::<char>::empty(), keep);
    assert(Seq::<Seq<char>>::empty().push(Seq::<char>::empty()) =~= none);
    if parts.len() == 0 {
        assert(rest =~= Seq::<char>::empty());
        assert(crate::path::pieces(rest) =~= none);
        assert(parts =~= Seq::<Seq<char>>::empty());
    } else if root.len() > 0 && root.last() != '/' {
        Seq::filter_distributes_over_add(none, parts, keep);
        assert(Seq::<Seq<char>>::empty() + parts =~= parts);
    }
}

/// The compressed file beside a requested one has its name with `.gz` behind it.
pub proof fn law_gzipped_is_beside(root: Seq<char>, request: Seq<char>)
    requires
        has_name(request),
    ensures
        gzipped(sanitized(root, request)) == sanitized(root, request) + ".gz"@,
{
    let parts = crate::path::normal_parts(request);
    lemma_normal_parts_clean(request);
    let front = parts.drop_last();
    let p = parts.last();
    assert(parts[parts.len() - 1] == p);
    let u = under(root, front);
    let path = sanitized(root, request);
    assert(p.contains(p[0]));
    assert(p.contains(p.last()));
    let x = if u.len() == 0 || u.last() == '/' {
        u
    } else {
        u.push('/')
    };
    assert(path == x + p);
    assert(path.last() == p.last());
    if p.len() == 1 {
        assert(p =~= seq![p[0]]);
        assert(path.last() != '.');
    } else {
        assert(p.contains(p[p.len() - 2]));
        assert(path[path.len() - 2] == p[p.len() - 2]);
    }
    assert(crate::path::visible(path) == path);
    lemma_pieces_append(x, p);
    crate::text::lemma_split_nonempty(x, |c: char| c == '/');
    assert(crate::path::pieces(x).last() =~= Seq::<char>::empty());
    assert(Seq::<char>::empty() + p =~= p);
}

/// The file for a target, or the compressed one beside it where the target has a name.
pub open spec fn is_path_for(webroot: Seq<char>, target: Seq<char>, path: Seq<char>) -> bool {
    ||| path == sanitized(webroot, target)
    ||| has_name(target) && path == sanitized(webroot, target) + ".gz"@
}

/// A path that stands for some target.
pub open spec fn is_own_path(webroot: Seq<char>, path: Seq<char>) -> bool {
    exists|target: Seq<char>| #[trigger] is_path_for(webroot, target, path)
}

/// The paths that a phase holds were all made from a target of the request.
pub open spec fn holds_own_paths(webroot: Seq<char>, phase: Phase<Seq<char>>) -> bool {
    match phase {
        Phase::Plain { target, plain } => plain == sanitized(webroot, target),
        Phase::Gzip { target, plain, packed } => has_name(target) && plain == sanitized(
            webroot,
            target,
        ) && packed == plain + ".gz"@,
        Phase::Confirm { target, file, gzip } => is_path_for(webroot, target, file),
        Phase::Loading { file, gzip } => is_own_path(webroot, file),
        _ => true,
    }
}

/// Whatever comes in, a connection only ever looks up and reads the files for some targets, and
/// the compressed ones beside those whose target has a name.
pub proof fn law_lookups_are_sanitized(
    webroot: Seq<char>,
    phase: Phase<Seq<char>>,
    event: Event<Seq<u8>>,
)
    requires
        holds_own_paths(webroot, phase),
    ensures
        holds_own_paths(webroot, next_step(webroot, phase, event).0),
        next_step(webroot, phase, event).1 matches Action::Probe(path) ==> is_own_path(
            webroot,
            path,
        ),
        next_step(webroot, phase, event).1 matches Action::Load(path) ==> is_own_path(
            webroot,
            path,
        ),
{
    let (next, action) = next_step(webroot, phase, event);
    if let Phase::Plain { target, plain } = phase {
        if has_name(target) {
            law_gzipped_is_beside(webroot, target);
        }
    }
    match next {
        Phase::Plain { target, plain } => {
            assert(is_path_for(webroot, target, plain));
        },
        Phase::Gzip { target, plain, packed } => {
            assert(is_path_for(webroot, target, packed));
        },
        Phase::Confirm { target, file, gzip } => {
            assert(is_path_for(webroot, target, file));
        },
        _ => {},
    }
}

/// No file that a connection can look up or read lies outside the root.
pub proof fn law_own_paths_stay_under_root(webroot: Seq<char>, path: Seq<char>)
    requires
        is_own_path(webroot, path),
    ensures
        stays_under(webroot, path),
{
    let target = choose|target: Seq<char>| #[trigger] is_path_for(webroot, target, path);
    let plain = sanitized(webroot, target);
    law_sanitized_path_stays_under_root(webroot, target);
    if path != plain {
        lemma_normal_parts_clean(target);
        lemma_under(webroot, crate::path::normal_parts(target));
        reveal_strlit(".gz");
        let rest = plain.skip(webroot.len() as int);
        assert(path.skip(webroot.len() as int) =~= rest + ".gz"@);
        assert(path.subrange(0, webroot.len() as int) =~= plain.subrange(
            0,
            webroot.len() as int,
        ));
        assert(!".gz"@.contains('/'));
        lemma_pieces_append(rest, ".gz"@);
    }
}

} // verus!
