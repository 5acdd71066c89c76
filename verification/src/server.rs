//! The loopback media server: which status, headers and byte region answer
//! a request, and the registry of published media, which tells the file
//! that a media URL of the current result names.
use std::path::PathBuf;
use vstd::prelude::*;

use crate::media::{
    allowed_origin, decimal_digits, decimal_text, hex, hex_text, is_allowed_origin, lemma_hex_text_shape, media_path,
    media_path_text, media_request_target, media_target, media_token, next_generation,
    next_generation_of, parse_range, requested_range, sha256_of, token_message,
};
use crate::text::{chars_of, extend_chars, same_chars, string_from_chars};

verus! {

broadcast use vstd::string::group_string_axioms;

/// The method of an HTTP request, as far as the server tells them apart.
#[derive(Debug, Clone, Copy, PartialEq, Eq, Structural)]
pub enum RequestMethod {
    Get,
    Head,
    Other,
}

/// What a response sends as its body.
#[derive(Debug, Clone, Copy, PartialEq, Eq)]
pub enum ResponseBody {
    Empty,
    /// `len` bytes of the file, from byte `start` on.
    FileRegion { start: u64, len: u64 },
}

/// A response: its status, its headers in order (names in lower case) and
/// its body.
#[derive(Debug, Clone, PartialEq, Eq)]
pub struct ResponsePlan {
    pub status: u16,
    pub headers: Vec<(String, String)>,
    pub body: ResponseBody,
}

/// The headers as character sequences.
pub open spec fn headers_view(headers: Seq<(String, String)>) -> Seq<(Seq<char>, Seq<char>)> {
    headers.map_values(|h: (String, String)| (h.0@, h.1@))
}

/// The headers every response carries: no caching, readable across origins,
/// no type sniffing, and for the desktop webview's origins the CORS grant.
pub open spec fn base_headers(origin: Option<Seq<char>>) -> Seq<(Seq<char>, Seq<char>)> {
    let fixed = seq![
        ("cache-control"@, "no-store"@),
        ("cross-origin-resource-policy"@, "cross-origin"@),
        ("x-content-type-options"@, "nosniff"@),
    ];
    match origin {
        Some(o) => if is_allowed_origin(o) {
            fixed + seq![("access-control-allow-origin"@, o), ("vary"@, "Origin"@)]
        } else {
            fixed
        },
        None => fixed,
    }
}

fn push_header(headers: &mut Vec<(String, String)>, name: &str, value: &str)
    ensures
        headers_view(final(headers)@) == headers_view(old(headers)@).push((name@, value@)),
{
    let ghost before = headers_view(headers@);
    let pair = (String::from_str(name), String::from_str(value));
    headers.push(pair);
    assert(headers_view(headers@) =~= before.push((name@, value@)));
}

fn push_header_chars(headers: &mut Vec<(String, String)>, name: &str, value: &[char])
    ensures
        headers_view(final(headers)@) == headers_view(old(headers)@).push((name@, value@)),
{
    let ghost before = headers_view(headers@);
    let pair = (String::from_str(name), string_from_chars(value));
    headers.push(pair);
    assert(headers_view(headers@) =~= before.push((name@, value@)));
}

/// The headers every response carries, given the request's `Origin`.
pub fn response_headers(origin: Option<&str>) -> (headers: Vec<(String, String)>)
    ensures
        headers_view(headers@) == base_headers(
            match origin {
                Some(o) => Some(o@),
                None => None,
            },
        ),
{
    let mut headers: Vec<(String, String)> = Vec::new();
    push_header(&mut headers, "cache-control", "no-store");
    push_header(&mut headers, "cross-origin-resource-policy", "cross-origin");
    push_header(&mut headers, "x-content-type-options", "nosniff");
    match origin {
        Some(o) => {
            if allowed_origin(o) {
                push_header(&mut headers, "access-control-allow-origin", o);
                push_header(&mut headers, "vary", "Origin");
            }
        },
        None => {},
    }
    proof {
        reveal_strlit("cache-control");
        reveal_strlit("no-store");
    }
    assert(headers_view(headers@) =~= base_headers(
        match origin {
            Some(o) => Some(o@),
            None => None,
        },
    ));
    headers
}

/// The request as the router sees it: whether its `Host` header names this
/// server, its method, and whether its path names a published file.
pub open spec fn route_status(host_matches: bool, method: RequestMethod, resolved: bool) -> Option<u16> {
    if !host_matches {
        Some(421)
    } else if method == RequestMethod::Other {
        Some(405)
    } else if !resolved {
        Some(404)
    } else {
        None
    }
}

/// The answer to a request that does not reach a file: a misdirected
/// request (421), a method other than GET and HEAD (405, with `allow`), or
/// an unknown media path (404); `None` when the file is to be served.
pub fn route_request(
    host: Option<&str>,
    expected_host: &str,
    method: RequestMethod,
    resolved: bool,
    origin: Option<&str>,
) -> (plan: Option<ResponsePlan>)
    ensures
        match route_status(
            host matches Some(h) && h@ == expected_host@,
            method,
            resolved,
        ) {
            None => plan is None,
            Some(status) => plan matches Some(p) && p.status == status && p.body == ResponseBody::Empty
                && headers_view(p.headers@) == base_headers(
                match origin {
                    Some(o) => Some(o@),
                    None => None,
                },
            ) + if status == 405 {
                seq![("allow"@, "GET, HEAD"@)]
            } else {
                seq![("content-length"@, "0"@)]
            },
        },
{
    let host_matches = match host {
        Some(h) => same_chars(chars_of(h).as_slice(), chars_of(expected_host).as_slice()),
        None => false,
    };
    let status: u16 = if !host_matches {
        421
    } else if method == RequestMethod::Other {
        405
    } else if !resolved {
        404
    } else {
        return None;
    };
    let mut headers = response_headers(origin);
    if status == 405 {
        push_header(&mut headers, "allow", "GET, HEAD");
    } else {
        push_header(&mut headers, "content-length", "0");
    }
    Some(ResponsePlan { status, headers, body: ResponseBody::Empty })
}

/// The headers and body that serve a file of `length` bytes with the given
/// media type, honouring one satisfiable `Range`.
pub open spec fn file_plan_view(
    length: u64,
    content_type: Seq<char>,
    range: Option<Seq<char>>,
    method: RequestMethod,
    origin: Option<Seq<char>>,
) -> (u16, Seq<(Seq<char>, Seq<char>)>, ResponseBody) {
    let base = base_headers(origin);
    match range {
        Some(value) => match requested_range(value, length) {
            None => (
                416,
                base + seq![
                    ("content-range"@, "bytes */"@ + decimal_digits(length as nat)),
                    ("accept-ranges"@, "bytes"@),
                    ("content-length"@, "0"@),
                ],
                ResponseBody::Empty,
            ),
            Some((start, end)) => (
                206,
                base + seq![
                    ("content-type"@, content_type),
                    ("accept-ranges"@, "bytes"@),
                    (
                        "content-range"@,
                        "bytes "@ + decimal_digits(start as nat) + "-"@ + decimal_digits(end as nat)
                            + "/"@ + decimal_digits(length as nat),
                    ),
                    ("content-length"@, decimal_digits((end - start + 1) as nat)),
                ],
                if method == RequestMethod::Get {
                    ResponseBody::FileRegion { start, len: (end - start + 1) as u64 }
                } else {
                    ResponseBody::Empty
                },
            ),
        },
        None => (
            200,
            base + seq![
                ("content-type"@, content_type),
                ("accept-ranges"@, "bytes"@),
                ("content-length"@, decimal_digits(length as nat)),
            ],
            if method == RequestMethod::Get {
                ResponseBody::FileRegion { start: 0, len: length }
            } else {
                ResponseBody::Empty
            },
        ),
    }
}

/// How a published file of `length` bytes is served: whole (200), one
/// satisfiable range of it (206), or an unsatisfiable range (416).  A HEAD
/// request gets the same headers and no body.
pub fn file_plan(
    length: u64,
    content_type: &str,
    range: Option<&str>,
    method: RequestMethod,
    origin: Option<&str>,
) -> (plan: ResponsePlan)
    requires
        method != RequestMethod::Other,
    ensures
        (plan.status, headers_view(plan.headers@), plan.body) == file_plan_view(
            length,
            content_type@,
            match range {
                Some(r) => Some(r@),
                None => None,
            },
            method,
            match origin {
                Some(o) => Some(o@),
                None => None,
            },
        ),
{
    let mut headers = response_headers(origin);
    match range {
        Some(value) => match parse_range(value, length) {
            None => {
                let mut text = chars_of("bytes */");
                extend_chars(&mut text, decimal_text(length).as_slice());
                push_header_chars(&mut headers, "content-range", text.as_slice());
                push_header(&mut headers, "accept-ranges", "bytes");
                push_header(&mut headers, "content-length", "0");
                ResponsePlan { status: 416, headers, body: ResponseBody::Empty }
            },
            Some((start, end)) => {
                let count = end - start + 1;
                push_header(&mut headers, "content-type", content_type);
                push_header(&mut headers, "accept-ranges", "bytes");
                let mut text = chars_of("bytes ");
                extend_chars(&mut text, decimal_text(start).as_slice());
                extend_chars(&mut text, chars_of("-").as_slice());
                extend_chars(&mut text, decimal_text(end).as_slice());
                extend_chars(&mut text, chars_of("/").as_slice());
                extend_chars(&mut text, decimal_text(length).as_slice());
                push_header_chars(&mut headers, "content-range", text.as_slice());
                push_header_chars(&mut headers, "content-length", decimal_text(count).as_slice());
                let body = if method == RequestMethod::Get {
                    ResponseBody::FileRegion { start, len: count }
                } else {
                    ResponseBody::Empty
                };
                ResponsePlan { status: 206, headers, body }
            },
        },
        None => {
            push_header(&mut headers, "content-type", content_type);
            push_header(&mut headers, "accept-ranges", "bytes");
            push_header_chars(&mut headers, "content-length", decimal_text(length).as_slice());
            let body = if method == RequestMethod::Get {
                ResponseBody::FileRegion { start: 0, len: length }
            } else {
                ResponseBody::Empty
            };
            ResponsePlan { status: 200, headers, body }
        },
    }
}


/// `i` is the last entry published under `token`.
pub open spec fn is_last_entry(entries: Seq<(Seq<char>, PathBuf)>, token: Seq<char>, i: int) -> bool {
    &&& 0 <= i < entries.len()
    &&& entries[i].0 == token
    &&& forall|k: int| i < k < entries.len() ==> #[trigger] entries[k].0 != token
}

/// The file published under `token`: the last one, as a map keeps the last
/// value inserted under a key.
pub open spec fn lookup(entries: Seq<(Seq<char>, PathBuf)>, token: Seq<char>) -> Option<PathBuf> {
    if exists|i: int| is_last_entry(entries, token, i) {
        Some(entries[choose|i: int| is_last_entry(entries, token, i)].1)
    } else {
        None
    }
}

/// The token of the file at `index` of a result published as `generation`.
pub open spec fn published_token(secret: Seq<u8>, generation: u64, index: int, path: Seq<u8>) -> Seq<char> {
    hex_text(sha256_of(token_message(secret, generation, index as usize, path)))
}

/// The media of the current result, as the loopback server publishes it:
/// the session's secret and the server's address, the session path (the
/// secret in hexadecimal), and the files of the result, each under the
/// token of its media URL, with the result's generation.
#[derive(Debug)]
pub struct MediaRegistry {
    generation: u64,
    entries: Vec<(String, PathBuf)>,
    session_secret: [u8; 32],
    address: String,
    session_path: String,
}

impl MediaRegistry {
    /// The current result's generation.
    pub closed spec fn generation(&self) -> u64 {
        self.generation
    }

    /// The published files in order, each with its token.
    pub closed spec fn entries(&self) -> Seq<(Seq<char>, PathBuf)> {
        self.entries@.map_values(|e: (String, PathBuf)| (e.0@, e.1))
    }

    /// The secret that the session's tokens are derived from.
    pub closed spec fn session_secret(&self) -> Seq<u8> {
        self.session_secret@
    }

    /// The `host:port` the server listens on.
    pub closed spec fn address(&self) -> Seq<char> {
        self.address@
    }

    /// The path segment that names the session in every media URL.
    pub closed spec fn session_path(&self) -> Seq<char> {
        self.session_path@
    }

    /// The file that a request path names, if the path is a media URL of
    /// this session and of the current generation with a published token.
    pub open spec fn resolves_to(&self, request_path: Seq<char>) -> Option<PathBuf> {
        match media_target(request_path, self.session_path()) {
            Some((generation, token)) => if generation == self.generation() {
                lookup(self.entries(), token)
            } else {
                None
            },
            None => None,
        }
    }

    /// The media URL of `token` in the current generation.
    pub open spec fn media_url(&self, token: Seq<char>) -> Seq<char> {
        "http://"@ + self.address() + media_path_text(self.session_path(), self.generation(), token)
    }

    /// A registry with nothing published, for the server at `address`
    /// whose session is named by the hexadecimal text of its secret.
    pub fn new(session_secret: [u8; 32], address: String) -> (registry: MediaRegistry)
        ensures
            registry.generation() == 0,
            registry.entries() == Seq::<(Seq<char>, PathBuf)>::empty(),
            registry.session_secret() == session_secret@,
            registry.address() == address@,
            registry.session_path() == hex_text(session_secret@),
            crate::media::is_token_text(registry.session_path()),
    {
        let session_path = hex(session_secret.as_slice());
        proof {
            lemma_hex_text_shape(session_secret@);
        }
        let registry = MediaRegistry {
            generation: 0,
            entries: Vec::new(),
            session_secret,
            address,
            session_path,
        };
        assert(registry.entries() =~= Seq::<(Seq<char>, PathBuf)>::empty());
        registry
    }

    /// Withdraws every published file: the generation moves on, so earlier
    /// media URLs no longer resolve.
    pub fn invalidate(&mut self)
        ensures
            final(self).generation() == next_generation_of(old(self).generation()),
            final(self).entries() == Seq::<(Seq<char>, PathBuf)>::empty(),
            final(self).session_secret() == old(self).session_secret(),
            final(self).address() == old(self).address(),
            final(self).session_path() == old(self).session_path(),
    {
        self.generation = next_generation(self.generation);
        self.entries = Vec::new();
        assert(self.entries() =~= Seq::<(Seq<char>, PathBuf)>::empty());
    }

    /// Publishes a new result: the generation moves on and each file, given
    /// with the bytes of its path, gets the media URL
    /// `http://<address>/media/<session>/<generation>/<token>`.
    pub fn replace(&mut self, files: Vec<(PathBuf, Vec<u8>)>) -> (urls: Vec<String>)
        ensures
            final(self).generation() == next_generation_of(old(self).generation()),
            final(self).session_secret() == old(self).session_secret(),
            final(self).address() == old(self).address(),
            final(self).session_path() == old(self).session_path(),
            final(self).entries().len() == files@.len(),
            urls@.len() == files@.len(),
            forall|i: int|
                0 <= i < files@.len() ==> #[trigger] final(self).entries()[i] == (
                    published_token(final(self).session_secret(), final(self).generation(), i, files@[i].1@),
                    files@[i].0,
                ),
            forall|i: int|
                0 <= i < files@.len() ==> #[trigger] urls@[i]@ == final(self).media_url(
                    published_token(final(self).session_secret(), final(self).generation(), i, files@[i].1@),
                ),
            forall|i: int|
                0 <= i < files@.len() ==> crate::media::is_token_text(
                    #[trigger] published_token(final(self).session_secret(), final(self).generation(), i, files@[i].1@),
                ),
    {
        let generation = next_generation(self.generation);
        self.generation = generation;
        self.entries = Vec::new();
        let ghost secret = self.session_secret@;
        let ghost given = files@;
        let total = files.len();
        assert(given.len() == total);
        let mut files = files;
        let mut urls: Vec<String> = Vec::new();
        let mut i: usize = 0;
        while files.len() > 0
            invariant
                self.generation == generation,
                self.session_secret@ == secret,
                self.address@ == old(self).address@,
                self.session_path@ == old(self).session_path@,
                files@ == given.skip(i as int),
                0 <= i <= given.len(),
                given.len() <= usize::MAX,
                self.entries@.len() == i,
                urls@.len() == i,
                forall|k: int|
                    0 <= k < i ==> #[trigger] self.entries()[k] == (
                        published_token(secret, generation, k, given[k].1@),
                        given[k].0,
                    ),
                forall|k: int|
                    0 <= k < i ==> #[trigger] urls@[k]@ == self.media_url(
                        published_token(secret, generation, k, given[k].1@),
                    ),
                forall|k: int|
                    0 <= k < i ==> crate::media::is_token_text(
                        #[trigger] published_token(secret, generation, k, given[k].1@),
                    ),
            decreases files.len(),
        {
            assert(i < given.len());
            assert(files@[0] == given[i as int]);
            let (path, bytes) = files.remove(0);
            assert(files@ =~= given.skip(i + 1));
            let token = media_token(&self.session_secret, generation, i, bytes.as_slice());
            let mut url = chars_of("http://");
            extend_chars(&mut url, chars_of(self.address.as_str()).as_slice());
            let tail = media_path(self.session_path.as_str(), generation, token.as_str());
            extend_chars(&mut url, chars_of(tail.as_str()).as_slice());
            urls.push(string_from_chars(url.as_slice()));
            let ghost before = self.entries();
            self.entries.push((token, path));
            assert(self.entries() =~= before.push(
                (published_token(secret, generation, i as int, given[i as int].1@), given[i as int].0),
            ));
            i = i + 1;
        }
        urls
    }

    /// The file a request path names, if it is a media URL of the current
    /// result in this session.
    pub fn resolve_request_path(&self, request_path: &str) -> (file: Option<&PathBuf>)
        ensures
            match self.resolves_to(request_path@) {
                Some(p) => file matches Some(f) && *f == p,
                None => file is None,
            },
    {
        let (generation, token) = match media_request_target(request_path, self.session_path.as_str()) {
            Some(target) => target,
            None => {
                return None;
            },
        };
        if generation != self.generation {
            return None;
        }
        let key = chars_of(token.as_str());
        let ghost entries = self.entries();
        let mut i: usize = self.entries.len();
        while i > 0
            invariant
                entries == self.entries(),
                i <= self.entries@.len(),
                key@ == token@,
                media_target(request_path@, self.session_path()) == Some((generation, token@)),
                generation == self.generation,
                forall|k: int| i <= k < entries.len() ==> #[trigger] entries[k].0 != token@,
            decreases i,
        {
            let candidate = chars_of(self.entries[i - 1].0.as_str());
            assert(entries[i - 1].0 == self.entries@[i - 1].0@);
            if same_chars(candidate.as_slice(), key.as_slice()) {
                proof {
                    assert(is_last_entry(entries, token@, i - 1));
                    let c = choose|c: int| is_last_entry(entries, token@, c);
                    if c < i - 1 {
                        assert(entries[i - 1].0 != token@);
                    } else if c > i - 1 {
                        assert(entries[c].0 != token@);
                    }
                }
                return Some(&self.entries[i - 1].1);
            }
            i = i - 1;
        }
        None
    }
}

/// Every media URL handed out for a result names back its own file, as long
/// as the tokens of the result differ from one another (equal tokens would
/// take SHA-256 digests of different messages to coincide).
pub proof fn lemma_published_urls_resolve(
    registry: MediaRegistry,
    paths: Seq<PathBuf>,
    path_bytes: Seq<Seq<u8>>,
    i: int,
)
    requires
        crate::media::is_token_text(registry.session_path()),
        paths.len() == path_bytes.len(),
        registry.entries().len() == paths.len(),
        0 <= i < paths.len(),
        forall|k: int|
            0 <= k < paths.len() ==> #[trigger] registry.entries()[k] == (
                published_token(registry.session_secret(), registry.generation(), k, path_bytes[k]),
                paths[k],
            ),
        crate::media::is_token_text(
            published_token(registry.session_secret(), registry.generation(), i, path_bytes[i]),
        ),
        forall|j: int, k: int|
            0 <= j < k < paths.len() ==> #[trigger] published_token(
                registry.session_secret(),
                registry.generation(),
                j,
                path_bytes[j],
            ) != #[trigger] published_token(
                registry.session_secret(),
                registry.generation(),
                k,
                path_bytes[k],
            ),
    ensures
        registry.resolves_to(
            media_path_text(
                registry.session_path(),
                registry.generation(),
                published_token(registry.session_secret(), registry.generation(), i, path_bytes[i]),
            ),
        ) == Some(paths[i]),
{
    let g = registry.generation();
    let secret = registry.session_secret();
    let token = published_token(secret, g, i, path_bytes[i]);
    crate::media::lemma_media_path_resolves(registry.session_path(), g, token);
    let entries = registry.entries();
    assert(entries[i] == (token, paths[i]));
    assert(is_last_entry(entries, token, i)) by {
        assert forall|k: int| i < k < entries.len() implies #[trigger] entries[k].0 != token by {
            assert(entries[k] == (published_token(secret, g, k, path_bytes[k]), paths[k]));
        }
    }
    let c = choose|c: int| is_last_entry(entries, token, c);
    if c != i {
        if c < i {
            assert(entries[c] == (published_token(secret, g, c, path_bytes[c]), paths[c]));
        }
    }
}

/// Once a new result is published or the registry is invalidated, the
/// media URLs of the previous generation no longer resolve.
pub proof fn lemma_previous_urls_expire(registry: MediaRegistry, previous: u64, request_path: Seq<char>)
    requires
        registry.generation() == next_generation_of(previous),
        media_target(request_path, registry.session_path()) matches Some((g, _)) && g == previous,
    ensures
        registry.resolves_to(request_path) is None,
{
}

/// An invalidated registry resolves nothing.
pub proof fn lemma_invalidated_registry_resolves_nothing(registry: MediaRegistry, request_path: Seq<char>)
    requires
        registry.entries().len() == 0,
    ensures
        registry.resolves_to(request_path) is None,
{
}

} // verus!
