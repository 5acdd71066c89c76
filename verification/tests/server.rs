use loob::{
    file_plan, hex, response_headers, route_request, MediaRegistry, RequestMethod, ResponseBody,
};
use std::path::PathBuf;

fn pairs(headers: &[(String, String)]) -> Vec<(&str, &str)> {
    headers.iter().map(|(n, v)| (n.as_str(), v.as_str())).collect()
}

const BASE: [(&str, &str); 3] = [
    ("cache-control", "no-store"),
    ("cross-origin-resource-policy", "cross-origin"),
    ("x-content-type-options", "nosniff"),
];

#[test]
fn cors_is_granted_only_to_the_webview() {
    assert_eq!(pairs(&response_headers(None)), BASE.to_vec());
    assert_eq!(pairs(&response_headers(Some("http://evil.example"))), BASE.to_vec());
    let mut expected = BASE.to_vec();
    expected.push(("access-control-allow-origin", "tauri://localhost"));
    expected.push(("vary", "Origin"));
    assert_eq!(pairs(&response_headers(Some("tauri://localhost"))), expected);
}

#[test]
fn requests_are_routed_by_host_method_and_path() {
    let host = "127.0.0.1:4000";
    let misdirected = route_request(Some("localhost:4000"), host, RequestMethod::Get, true, None).unwrap();
    assert_eq!(misdirected.status, 421);
    assert_eq!(misdirected.body, ResponseBody::Empty);
    assert_eq!(
        pairs(&misdirected.headers).last().copied(),
        Some(("content-length", "0"))
    );
    assert_eq!(route_request(None, host, RequestMethod::Get, true, None).unwrap().status, 421);
    let post = route_request(Some(host), host, RequestMethod::Other, true, None).unwrap();
    assert_eq!(post.status, 405);
    assert_eq!(pairs(&post.headers).last().copied(), Some(("allow", "GET, HEAD")));
    assert_eq!(
        route_request(Some(host), host, RequestMethod::Head, false, None).unwrap().status,
        404
    );
    assert!(route_request(Some(host), host, RequestMethod::Get, true, None).is_none());
}

#[test]
fn whole_files_and_ranges_are_planned() {
    let whole = file_plan(1000, "audio/wav", None, RequestMethod::Get, None);
    assert_eq!(whole.status, 200);
    assert_eq!(whole.body, ResponseBody::FileRegion { start: 0, len: 1000 });
    assert_eq!(
        pairs(&whole.headers)[3..].to_vec(),
        vec![
            ("content-type", "audio/wav"),
            ("accept-ranges", "bytes"),
            ("content-length", "1000")
        ]
    );
    let head = file_plan(1000, "audio/wav", None, RequestMethod::Head, None);
    assert_eq!(head.body, ResponseBody::Empty);
    assert_eq!(head.headers, whole.headers);

    let part = file_plan(1000, "audio/mpeg", Some("bytes=100-"), RequestMethod::Get, None);
    assert_eq!(part.status, 206);
    assert_eq!(part.body, ResponseBody::FileRegion { start: 100, len: 900 });
    assert_eq!(
        pairs(&part.headers)[3..].to_vec(),
        vec![
            ("content-type", "audio/mpeg"),
            ("accept-ranges", "bytes"),
            ("content-range", "bytes 100-999/1000"),
            ("content-length", "900")
        ]
    );

    let refused = file_plan(1000, "audio/wav", Some("bytes=2000-"), RequestMethod::Get, None);
    assert_eq!(refused.status, 416);
    assert_eq!(refused.body, ResponseBody::Empty);
    assert_eq!(
        pairs(&refused.headers)[3..].to_vec(),
        vec![
            ("content-range", "bytes */1000"),
            ("accept-ranges", "bytes"),
            ("content-length", "0")
        ]
    );
}

#[test]
fn large_open_range_plans_the_complete_remainder() {
    let length: u64 = 1024 * 1024 + 4096;
    let plan = file_plan(length, "audio/mpeg", Some("bytes=0-"), RequestMethod::Get, None);
    assert_eq!(plan.status, 206);
    assert_eq!(plan.body, ResponseBody::FileRegion { start: 0, len: length });
    assert!(pairs(&plan.headers).contains(&("content-range", "bytes 0-1052671/1052672")));
    assert!(pairs(&plan.headers).contains(&("content-length", "1052672")));
}

#[test]
fn published_urls_resolve_until_the_next_result() {
    let secret = [9u8; 32];
    let session = hex(&secret);
    let mut registry = MediaRegistry::new(secret, "127.0.0.1:4000".to_string());
    let files = vec![
        (PathBuf::from("/music/a.wav"), b"/music/a.wav".to_vec()),
        (PathBuf::from("/music/b.m4a"), b"/music/b.m4a".to_vec()),
    ];
    let urls = registry.replace(files);
    assert_eq!(urls.len(), 2);
    let prefix = format!("http://127.0.0.1:4000/media/{session}/1/");
    assert!(urls[0].starts_with(&prefix));
    let path_of = |url: &str| url["http://127.0.0.1:4000".len()..].to_string();
    assert_eq!(
        registry.resolve_request_path(&path_of(&urls[0])),
        Some(&PathBuf::from("/music/a.wav"))
    );
    assert_eq!(
        registry.resolve_request_path(&path_of(&urls[1])),
        Some(&PathBuf::from("/music/b.m4a"))
    );
    let other_session = path_of(&urls[0]).replace(&session, &hex(&[7u8; 32]));
    assert_eq!(registry.resolve_request_path(&other_session), None);

    let old = path_of(&urls[0]);
    let newer = registry.replace(vec![(PathBuf::from("/music/c.wav"), b"/music/c.wav".to_vec())]);
    assert!(newer[0].starts_with(&format!("http://127.0.0.1:4000/media/{session}/2/")));
    assert_eq!(registry.resolve_request_path(&old), None);
    assert_eq!(
        registry.resolve_request_path(&path_of(&newer[0])),
        Some(&PathBuf::from("/music/c.wav"))
    );
    registry.invalidate();
    assert_eq!(registry.resolve_request_path(&path_of(&newer[0])), None);
}
