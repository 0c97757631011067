use fabric_servers::bluemap::{
    file_response, find_bluemap_dir, gzip_path, handle_connection, may_be_missing, mime_from_path,
    names_a_file, no_file_response, request_target, sanitize_path, web_path, Action, Event, Phase, SrvEntry,
    BACKEND_TIMEOUT, REQUEST_LIMIT,
};
use std::collections::BTreeMap;
use std::path::{Component, Path, PathBuf};

const REQUESTS: [&str; 16] = [
    "/",
    "",
    "/index.html",
    "/maps/world/tiles/0/x1/z2.prbm",
    "/../../etc/passwd",
    "..",
    "/..",
    "//a//b/",
    "/./a/./b",
    "a/../b",
    "/.hidden/x",
    "/...",
    "/a b/c.d.e",
    "/..a/b..",
    "/a/.",
    "/x.",
];

const ROOTS: [&str; 7] = ["", "/", "web", "/srv/web", "/srv/web/", ".local/share/srv/x/bluemap/web", ".."];

fn std_sanitize(root: &str, request: &str) -> PathBuf {
    let mut out = PathBuf::from(root);
    for part in Path::new(request).components() {
        if let Component::Normal(p) = part {
            out.push(p);
        }
    }
    out
}

fn std_gzip(path: &Path) -> PathBuf {
    path.with_extension(match path.extension() {
        Some(e) => format!("{}.gz", e.to_string_lossy()),
        None => "gz".to_string(),
    })
}

#[test]
fn sanitized_paths_agree_with_std() {
    for root in ROOTS {
        for request in REQUESTS {
            let path = sanitize_path(root, request);
            let expected = std_sanitize(root, request);
            assert_eq!(path, expected.to_str().unwrap(), "{:?} {:?}", root, request);
            assert_eq!(
                gzip_path(&path),
                std_gzip(&expected).to_str().unwrap(),
                "{:?} {:?}",
                root,
                request
            );
        }
    }
}

#[test]
fn sanitized_path_cannot_climb() {
    assert_eq!(sanitize_path("/srv/web", "/../../etc/passwd"), "/srv/web/etc/passwd");
    assert_eq!(sanitize_path("/srv/web", ".."), "/srv/web");
    assert_eq!(sanitize_path("/srv/web", "/"), "/srv/web");
    for root in ROOTS {
        for request in REQUESTS {
            let path = sanitize_path(root, request);
            assert!(path.starts_with(root));
            assert!(!path[root.len()..].split('/').any(|p| p == ".." || p == "."));
        }
    }
}

#[test]
fn targets_with_a_name() {
    assert!(names_a_file("/a"));
    assert!(names_a_file("/../a"));
    assert!(names_a_file("..."));
    for target in ["", "/", "//", ".", "..", "/../.", "/./.."] {
        assert!(!names_a_file(target));
    }
}

#[test]
fn gzip_is_beside_the_file() {
    assert_eq!(gzip_path("/srv/web/a.prbm"), "/srv/web/a.prbm.gz");
    assert_eq!(gzip_path("/srv/web/plain"), "/srv/web/plain.gz");
    assert_eq!(gzip_path("/srv/web/.hidden"), "/srv/web/.hidden.gz");
    assert_eq!(gzip_path("/"), "/");
    assert_eq!(gzip_path(""), "");
    assert_eq!(gzip_path("a.b/"), "a.b.gz");
}

#[test]
fn media_types() {
    assert_eq!(mime_from_path("/x/index.html"), "text/html; charset=utf-8");
    assert_eq!(mime_from_path("a.css"), "text/css; charset=utf-8");
    assert_eq!(mime_from_path("a.js"), "application/javascript");
    assert_eq!(mime_from_path("a.json"), "application/json");
    assert_eq!(mime_from_path("a.png"), "image/png");
    assert_eq!(mime_from_path("a.jpg"), "image/jpeg");
    assert_eq!(mime_from_path("a.jpeg"), "image/jpeg");
    assert_eq!(mime_from_path("a.svg"), "image/svg+xml");
    assert_eq!(mime_from_path("a.json.gz"), "application/octet-stream");
    assert_eq!(mime_from_path("a.HTML"), "application/octet-stream");
    assert_eq!(mime_from_path("html"), "application/octet-stream");
    assert_eq!(mime_from_path(".html"), "application/octet-stream");
    assert_eq!(mime_from_path(""), "application/octet-stream");
}

#[test]
fn targets_of_requests() {
    let t = |s: &str| request_target(s);
    assert_eq!(t("GET /a/b.js HTTP/1.1\r\nHost: x\r\n\r\n"), Some("/a/b.js".to_string()));
    assert_eq!(t("GET /a/b.js?v=1?w HTTP/1.1\r\n"), Some("/a/b.js".to_string()));
    assert_eq!(t("GET / HTTP/1.1"), Some("/index.html".to_string()));
    assert_eq!(t("GET /maps/?x HTTP/1.1"), Some("/maps/index.html".to_string()));
    assert_eq!(t("GET ?x"), Some("".to_string()));
    assert_eq!(t("  GET \t /x"), Some("/x".to_string()));
    assert_eq!(t("GET"), None);
    assert_eq!(t(""), None);
    assert_eq!(t("GET\r\n/next line"), None);
}

#[test]
fn what_may_be_missing() {
    assert!(may_be_missing("/maps/world/tiles/0/x.prbm"));
    assert!(may_be_missing("/maps/world/live/players.json"));
    assert!(!may_be_missing("/maps/world/settings.json"));
    assert!(!may_be_missing("/tiles/x"));
    assert!(!may_be_missing("maps/world/tiles/x"));
    assert!(may_be_missing("/maps/tiles/x"));
    assert!(!may_be_missing("/maps/tiles"));
}

#[test]
fn responses() {
    assert_eq!(
        file_response("/w/a.json", false, &b"{}".to_vec()),
        b"HTTP/1.1 200 OK\r\nContent-Type: application/json\r\nContent-Length: 2\r\nConnection: close\r\n\r\n{}"
            .to_vec()
    );
    assert_eq!(
        file_response("/w/a.json.gz", true, &vec![7u8; 12]),
        [
            &b"HTTP/1.1 200 OK\r\nContent-Type: application/octet-stream\r\nContent-Encoding: gzip\r\nContent-Length: 12\r\nConnection: close\r\n\r\n"[..],
            &[7u8; 12][..]
        ]
        .concat()
    );
    assert_eq!(
        no_file_response("/maps/w/tiles/x"),
        b"HTTP/1.1 204 No Content\r\nConnection: close\r\n\r\n".to_vec()
    );
    assert_eq!(
        no_file_response("/favicon.ico"),
        b"HTTP/1.1 404 Not Found\r\nConnection: close\r\n\r\n".to_vec()
    );
}

fn run(
    backend: bool,
    request: Option<&[u8]>,
    files: &BTreeMap<String, Vec<u8>>,
) -> (Action<String, Vec<u8>>, Vec<String>) {
    let mut phase: Phase<String> = Phase::Connecting;
    let mut event = Event::Backend(backend);
    let mut asked = Vec::new();
    for _ in 0..6 {
        let (next, action) = handle_connection("/web", phase, event);
        phase = next;
        event = match action {
            Action::ReadRequest => match request {
                Some(bytes) => Event::Request(bytes.to_vec()),
                None => Event::Failed,
            },
            Action::Probe(path) => {
                asked.push(path.clone());
                Event::Probed(files.contains_key(&path))
            }
            Action::Load(path) => Event::Loaded(files[&path].clone()),
            last => {
                assert_eq!(phase, Phase::Done);
                return (last, asked);
            }
        };
    }
    panic!("did not end")
}

#[test]
fn connections_come_to_their_outcome() {
    let mut files = BTreeMap::new();
    files.insert("/web/index.html".to_string(), b"hi".to_vec());
    files.insert("/web/maps/w/tiles/0.prbm.gz".to_string(), b"zz".to_vec());
    let get = |path: &str| format!("GET {} HTTP/1.1\r\n\r\n", path).into_bytes();

    assert_eq!(run(true, None, &files).0, Action::Relay);
    assert_eq!(run(false, None, &files).0, Action::Fail);
    assert_eq!(run(false, Some(b""), &files).0, Action::Close);
    assert_eq!(run(false, Some(b"nonsense\r\n"), &files).0, Action::Close);
    assert_eq!(
        run(false, Some(&get("/?q")), &files),
        (
            Action::Send(file_response("/web/index.html", false, &b"hi".to_vec())),
            vec!["/web/index.html".to_string(), "/web/index.html".to_string()]
        )
    );
    assert_eq!(
        run(false, Some(&get("/maps/w/tiles/0.prbm")), &files).0,
        Action::Send(file_response("/web/maps/w/tiles/0.prbm.gz", true, &b"zz".to_vec()))
    );
    assert_eq!(
        run(false, Some(&get("/maps/w/live/players.json")), &files),
        (
            Action::Send(no_file_response("/maps/w/live/x")),
            vec![
                "/web/maps/w/live/players.json".to_string(),
                "/web/maps/w/live/players.json.gz".to_string(),
                "/web/maps/w/live/players.json".to_string()
            ]
        )
    );
    assert_eq!(
        run(false, Some(&get("/../secret")), &files).0,
        Action::Send(no_file_response("/secret"))
    );
    files.insert("/web.gz".to_string(), b"outside".to_vec());
    for target in ["/..", "/.", "..", "/../.", "?x"] {
        assert_eq!(
            run(false, Some(&get(target)), &files),
            (
                Action::Send(b"HTTP/1.1 404 Not Found\r\nConnection: close\r\n\r\n".to_vec()),
                vec!["/web".to_string()]
            )
        );
    }
    assert_eq!(
        run(false, Some(b"GET /a\xff HTTP/1.1"), &files).1[0],
        "/web/a\u{fffd}"
    );
}

#[test]
fn out_of_order_events_fail() {
    let (phase, action) = handle_connection("/web", Phase::Reading, Event::Probed(true));
    assert_eq!((phase, action), (Phase::Done, Action::Fail));
    let (phase, action) = handle_connection(
        "/web",
        Phase::Loading { file: "/web/x".to_string(), gzip: false },
        Event::Failed,
    );
    assert_eq!((phase, action), (Phase::Done, Action::Fail));
    assert_eq!((BACKEND_TIMEOUT, REQUEST_LIMIT), (2, 8192));
}

fn entry(name: Option<&str>, is_dir: bool, web_is_dir: bool) -> Option<SrvEntry> {
    Some(SrvEntry { name: name.map(|n| n.to_string()), is_dir, web_is_dir })
}

#[test]
fn the_first_server_with_a_map_is_found() {
    assert_eq!(web_path(".local/share/srv", "lobby"), ".local/share/srv/lobby/bluemap/web");
    let root = ".local/share/srv";
    assert_eq!(find_bluemap_dir(root, &None), None);
    assert_eq!(find_bluemap_dir(root, &Some(vec![])), None);
    let listing = Some(vec![
        None,
        entry(None, true, true),
        entry(Some(".git"), true, true),
        entry(Some("file"), false, true),
        entry(Some("lobby"), true, false),
        entry(Some("world1"), true, true),
        entry(Some("world2"), true, true),
    ]);
    assert_eq!(
        find_bluemap_dir(root, &listing),
        Some(".local/share/srv/world1/bluemap/web".to_string())
    );
}
