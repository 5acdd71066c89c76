//! Decisions of the loopback media server: byte ranges, media types, request
//! paths, allowed origins and the bearer tokens of media URLs.
use sha2::Digest;
use vstd::prelude::*;

use crate::paths::{extension, path_extension};
use crate::text::{
    ascii_lower, char_lines_view, chars_of, extend_chars, has_substring, parse_decimal_u64,
    parse_u64, same_chars, split_at_char, split_chars, starts_with, contains_text, has_prefix,
    is_decimal, decimal_value,
};

verus! {

broadcast use vstd::string::group_string_axioms;

/// `c` first occurs in the text at position `i`.
pub open spec fn is_first_occurrence(s: Seq<char>, c: char, i: int) -> bool {
    &&& 0 <= i < s.len()
    &&& s[i] == c
    &&& forall|k: int| 0 <= k < i ==> #[trigger] s[k] != c
}

/// The smaller of two numbers.
pub open spec fn min_u64(a: u64, b: u64) -> u64 {
    if a < b {
        a
    } else {
        b
    }
}

/// The inclusive byte range that an HTTP `Range` header selects from a body
/// of `length` bytes: one `bytes=` range, open-ended or a suffix, clipped to
/// the body, and nothing when it is malformed, lists several ranges or
/// cannot be satisfied.
pub open spec fn requested_range(value: Seq<char>, length: u64) -> Option<(u64, u64)> {
    if length == 0 || !starts_with(value, "bytes="@) {
        None
    } else {
        let spec_text = value.skip(6);
        if contains_text(spec_text, ","@) {
            None
        } else if !(exists|i: int| is_first_occurrence(spec_text, '-', i)) {
            None
        } else {
            let dash = choose|i: int| is_first_occurrence(spec_text, '-', i);
            let first = spec_text.take(dash);
            let second = spec_text.skip(dash + 1);
            if first.len() == 0 {
                match parse_u64(second) {
                    None => None,
                    Some(count) => {
                        let suffix = min_u64(count, length);
                        if suffix > 0 {
                            Some(((length - suffix) as u64, (length - 1) as u64))
                        } else {
                            None
                        }
                    },
                }
            } else {
                match parse_u64(first) {
                    None => None,
                    Some(start) => if start >= length {
                        None
                    } else {
                        let end = if second.len() == 0 {
                            Some((length - 1) as u64)
                        } else {
                            match parse_u64(second) {
                                None => None,
                                Some(end) => Some(min_u64(end, (length - 1) as u64)),
                            }
                        };
                        match end {
                            None => None,
                            Some(end) => if end >= start {
                                Some((start, end))
                            } else {
                                None
                            },
                        }
                    },
                }
            }
        }
    }
}

fn copy_range(chars: &[char], from: usize, to: usize) -> (piece: Vec<char>)
    requires
        from <= to <= chars@.len(),
    ensures
        piece@ == chars@.subrange(from as int, to as int),
{
    let mut out: Vec<char> = Vec::new();
    let mut i: usize = from;
    while i < to
        invariant
            from <= i <= to <= chars@.len(),
            out@ == chars@.subrange(from as int, i as int),
        decreases to - i,
    {
        assert(chars@.subrange(from as int, i + 1) =~= out@.push(chars@[i as int]));
        out.push(chars[i]);
        i = i + 1;
    }
    out
}

fn first_occurrence(chars: &[char], c: char) -> (index: Option<usize>)
    ensures
        index is Some ==> is_first_occurrence(chars@, c, index->0 as int),
        index is None ==> !(exists|i: int| is_first_occurrence(chars@, c, i)),
{
    let mut i: usize = 0;
    while i < chars.len()
        invariant
            0 <= i <= chars@.len(),
            forall|k: int| 0 <= k < i ==> #[trigger] chars@[k] != c,
        decreases chars.len() - i,
    {
        if chars[i] == c {
            return Some(i);
        }
        i = i + 1;
    }
    proof {
        assert forall|i: int| !is_first_occurrence(chars@, c, i) by {
            if 0 <= i < chars@.len() {
                assert(chars@[i] != c);
            }
        }
    }
    None
}

/// The byte range selected by a `Range` header value.
pub fn parse_range(value: &str, length: u64) -> (range: Option<(u64, u64)>)
    ensures
        range == requested_range(value@, length),
        // A selected range lies inside the body.
        range matches Some(r) ==> r.0 <= r.1 < length,
{
    if length == 0 {
        return None;
    }
    let text = chars_of(value);
    let prefix = chars_of("bytes=");
    proof {
        reveal_strlit("bytes=");
    }
    if !has_prefix(text.as_slice(), prefix.as_slice()) {
        return None;
    }
    let rest = copy_range(text.as_slice(), 6, text.len());
    assert(rest@ =~= value@.skip(6));
    if has_substring(rest.as_slice(), chars_of(",").as_slice()) {
        return None;
    }
    let dash = match first_occurrence(rest.as_slice(), '-') {
        Some(dash) => dash,
        None => {
            return None;
        },
    };
    proof {
        let c = choose|i: int| is_first_occurrence(rest@, '-', i);
        if c < dash {
            assert(rest@[c] != '-');
        }
        if dash < c {
            assert(rest@[dash as int] != '-');
        }
    }
    let first = copy_range(rest.as_slice(), 0, dash);
    let second = copy_range(rest.as_slice(), dash + 1, rest.len());
    assert(first@ =~= rest@.take(dash as int));
    assert(second@ =~= rest@.skip(dash + 1));
    if first.len() == 0 {
        let count = match parse_decimal_u64(second.as_slice()) {
            Some(count) => count,
            None => {
                return None;
            },
        };
        let suffix = if count < length {
            count
        } else {
            length
        };
        return if suffix > 0 {
            Some((length - suffix, length - 1))
        } else {
            None
        };
    }
    let start = match parse_decimal_u64(first.as_slice()) {
        Some(start) => start,
        None => {
            return None;
        },
    };
    if start >= length {
        return None;
    }
    let end = if second.len() == 0 {
        length - 1
    } else {
        match parse_decimal_u64(second.as_slice()) {
            Some(end) => if end < length - 1 {
                end
            } else {
                length - 1
            },
            None => {
                return None;
            },
        }
    };
    if end >= start {
        Some((start, end))
    } else {
        None
    }
}

/// The media type served for a file extension (compared without regard to
/// ASCII case).
pub open spec fn media_type_for(extension: Option<Seq<u8>>) -> Seq<char> {
    let lowered = match extension {
        Some(ext) => ascii_lower_bytes(ext),
        None => seq![],
    };
    if lowered == seq![119u8, 97u8, 118u8] {
        "audio/wav"@
    } else if lowered == seq![109u8, 112u8, 51u8] {
        "audio/mpeg"@
    } else if lowered == seq![102u8, 108u8, 97u8, 99u8] {
        "audio/flac"@
    } else if lowered == seq![109u8, 52u8, 97u8] {
        "audio/mp4"@
    } else if lowered == seq![97u8, 97u8, 99u8] {
        "audio/aac"@
    } else if lowered == seq![111u8, 103u8, 103u8] || lowered == seq![111u8, 103u8, 97u8] {
        "audio/ogg"@
    } else {
        "application/octet-stream"@
    }
}

/// ASCII letters lowered, other bytes kept.
pub open spec fn ascii_lower_bytes(bytes: Seq<u8>) -> Seq<u8> {
    Seq::new(
        bytes.len(),
        |i: int|
            if 65 <= bytes[i] <= 90 {
                (bytes[i] + 32) as u8
            } else {
                bytes[i]
            },
    )
}

pub(crate) fn lower_bytes(bytes: &[u8]) -> (lower: Vec<u8>)
    ensures
        lower@ == ascii_lower_bytes(bytes@),
{
    let mut out: Vec<u8> = Vec::new();
    let mut i: usize = 0;
    while i < bytes.len()
        invariant
            0 <= i <= bytes@.len(),
            out@ == ascii_lower_bytes(bytes@).take(i as int),
        decreases bytes.len() - i,
    {
        let b = bytes[i];
        let lowered = if 65 <= b && b <= 90 {
            b + 32
        } else {
            b
        };
        assert(ascii_lower_bytes(bytes@).take(i + 1) =~= out@.push(lowered));
        out.push(lowered);
        i = i + 1;
    }
    assert(ascii_lower_bytes(bytes@).take(bytes@.len() as int) =~= ascii_lower_bytes(bytes@));
    out
}

pub(crate) fn bytes_are(bytes: &[u8], expected: &[u8]) -> (eq: bool)
    ensures
        eq == (bytes@ == expected@),
{
    if bytes.len() != expected.len() {
        return false;
    }
    let mut i: usize = 0;
    while i < bytes.len()
        invariant
            bytes@.len() == expected@.len(),
            0 <= i <= bytes@.len(),
            forall|j: int| 0 <= j < i ==> bytes@[j] == expected@[j],
        decreases bytes.len() - i,
    {
        if bytes[i] != expected[i] {
            return false;
        }
        i = i + 1;
    }
    assert(bytes@ =~= expected@);
    true
}

/// The media type served for a file, given the bytes of its path.
pub fn media_content_type(path: &[u8]) -> (content_type: &'static str)
    ensures
        content_type@ == media_type_for(path_extension(path@)),
{
    let lowered = match extension(path) {
        Some(ext) => lower_bytes(ext.as_slice()),
        None => Vec::new(),
    };
    let l = lowered.as_slice();
    let wav: [u8; 3] = [119u8, 97u8, 118u8];
    let mp3: [u8; 3] = [109u8, 112u8, 51u8];
    let flac: [u8; 4] = [102u8, 108u8, 97u8, 99u8];
    let m4a: [u8; 3] = [109u8, 52u8, 97u8];
    let aac: [u8; 3] = [97u8, 97u8, 99u8];
    let ogg: [u8; 3] = [111u8, 103u8, 103u8];
    let oga: [u8; 3] = [111u8, 103u8, 97u8];
    assert(wav@ =~= seq![119u8, 97u8, 118u8]);
    assert(mp3@ =~= seq![109u8, 112u8, 51u8]);
    assert(flac@ =~= seq![102u8, 108u8, 97u8, 99u8]);
    assert(m4a@ =~= seq![109u8, 52u8, 97u8]);
    assert(aac@ =~= seq![97u8, 97u8, 99u8]);
    assert(ogg@ =~= seq![111u8, 103u8, 103u8]);
    assert(oga@ =~= seq![111u8, 103u8, 97u8]);
    if bytes_are(l, &wav) {
        "audio/wav"
    } else if bytes_are(l, &mp3) {
        "audio/mpeg"
    } else if bytes_are(l, &flac) {
        "audio/flac"
    } else if bytes_are(l, &m4a) {
        "audio/mp4"
    } else if bytes_are(l, &aac) {
        "audio/aac"
    } else if bytes_are(l, &ogg) || bytes_are(l, &oga) {
        "audio/ogg"
    } else {
        "application/octet-stream"
    }
}

/// An ASCII hexadecimal digit of either case.
pub open spec fn is_hex_digit(c: char) -> bool {
    '0' <= c <= '9' || 'a' <= c <= 'f' || 'A' <= c <= 'F'
}

/// Sixty-four hexadecimal digits: the shape of a media token.
pub open spec fn is_token_text(token: Seq<char>) -> bool {
    token.len() == 64 && forall|i: int| 0 <= i < token.len() ==> is_hex_digit(#[trigger] token[i])
}

/// `n` leading slashes open the text and no more.
pub open spec fn is_leading_slash_count(s: Seq<char>, n: int) -> bool {
    &&& 0 <= n <= s.len()
    &&& forall|i: int| 0 <= i < n ==> #[trigger] s[i] == '/'
    &&& n < s.len() ==> s[n] != '/'
}

/// The text without its leading slashes (`trim_start_matches('/')`).
pub open spec fn without_leading_slashes(s: Seq<char>) -> Seq<char> {
    s.skip(choose|n: int| is_leading_slash_count(s, n))
}

/// The generation and token that a request path names, when it has exactly
/// the form `/media/<session>/<generation>/<token>` for this session and
/// holds no percent sign, no `..` and no backslash.
pub open spec fn media_target(path: Seq<char>, session: Seq<char>) -> Option<(u64, Seq<char>)> {
    if contains_text(path, "%"@) || contains_text(path, ".."@) || contains_text(path, "\\"@) {
        None
    } else {
        let segments = split_at_char(without_leading_slashes(path), '/');
        if segments.len() == 4 && segments[0] == "media"@ && segments[1] == session && parse_u64(
            segments[2],
        ) is Some && is_token_text(segments[3]) {
            Some((parse_u64(segments[2])->0, segments[3]))
        } else {
            None
        }
    }
}

fn token_text(token: &[char]) -> (b: bool)
    ensures
        b == is_token_text(token@),
{
    if token.len() != 64 {
        return false;
    }
    let mut i: usize = 0;
    while i < token.len()
        invariant
            token@.len() == 64,
            0 <= i <= 64,
            forall|j: int| 0 <= j < i ==> is_hex_digit(#[trigger] token@[j]),
        decreases 64 - i,
    {
        let c = token[i];
        if !(('0' <= c && c <= '9') || ('a' <= c && c <= 'f') || ('A' <= c && c <= 'F')) {
            assert(!is_hex_digit(token@[i as int]));
            return false;
        }
        i = i + 1;
    }
    true
}

/// The generation and token named by a media request path for this session.
pub fn media_request_target(request_path: &str, session_path: &str) -> (target: Option<(u64, String)>)
    ensures
        match target {
            Some((generation, token)) => media_target(request_path@, session_path@) == Some(
                (generation, token@),
            ),
            None => media_target(request_path@, session_path@) is None,
        },
{
    let path = chars_of(request_path);
    if has_substring(path.as_slice(), chars_of("%").as_slice()) || has_substring(
        path.as_slice(),
        chars_of("..").as_slice(),
    ) || has_substring(path.as_slice(), chars_of("\\").as_slice()) {
        return None;
    }
    let mut n: usize = 0;
    while n < path.len() && path[n] == '/'
        invariant
            0 <= n <= path@.len(),
            forall|i: int| 0 <= i < n ==> #[trigger] path@[i] == '/',
        decreases path.len() - n,
    {
        n = n + 1;
    }
    proof {
        assert(is_leading_slash_count(path@, n as int));
        let c = choose|c: int| is_leading_slash_count(path@, c);
        if c < n {
            assert(path@[c] == '/');
        }
        if n < c {
            assert(path@[n as int] == '/');
        }
    }
    let rest = copy_range(path.as_slice(), n, path.len());
    assert(rest@ =~= without_leading_slashes(request_path@));
    let segments = split_chars(rest.as_slice(), '/');
    let ghost view = char_lines_view(segments@);
    if segments.len() != 4 {
        return None;
    }
    assert(segments@[0]@ == view[0]);
    assert(segments@[1]@ == view[1]);
    assert(segments@[2]@ == view[2]);
    assert(segments@[3]@ == view[3]);
    if !same_chars(segments[0].as_slice(), chars_of("media").as_slice()) {
        return None;
    }
    if !same_chars(segments[1].as_slice(), chars_of(session_path).as_slice()) {
        return None;
    }
    let generation = match parse_decimal_u64(segments[2].as_slice()) {
        Some(generation) => generation,
        None => {
            return None;
        },
    };
    if !token_text(segments[3].as_slice()) {
        return None;
    }
    Some((generation, crate::text::string_from_chars(segments[3].as_slice())))
}

/// The lowercase hexadecimal digit of a value below sixteen.
pub open spec fn hex_char(value: nat) -> char {
    if value < 10 {
        (('0' as nat) + value) as char
    } else {
        (('a' as nat) + value - 10) as char
    }
}

/// Lowercase hexadecimal text of bytes, two digits per byte.
pub open spec fn hex_text(bytes: Seq<u8>) -> Seq<char>
    decreases bytes.len(),
{
    if bytes.len() == 0 {
        seq![]
    } else {
        hex_text(bytes.drop_last()) + seq![
            hex_char(bytes.last() as nat / 16),
            hex_char(bytes.last() as nat % 16),
        ]
    }
}

fn hex_digit(value: u8) -> (c: char)
    requires
        value < 16,
    ensures
        c == hex_char(value as nat),
{
    if value < 10 {
        (48u8 + value) as char
    } else {
        (87u8 + value) as char
    }
}

/// Lowercase hexadecimal text of bytes.
pub fn hex(bytes: &[u8]) -> (text: String)
    ensures
        text@ == hex_text(bytes@),
{
    let mut out: Vec<char> = Vec::new();
    let mut i: usize = 0;
    while i < bytes.len()
        invariant
            0 <= i <= bytes@.len(),
            out@ == hex_text(bytes@.take(i as int)),
        decreases bytes.len() - i,
    {
        let b = bytes[i];
        assert(bytes@.take(i + 1).drop_last() =~= bytes@.take(i as int));
        assert(bytes@.take(i + 1).last() == b);
        let high = hex_digit(b / 16);
        let low = hex_digit(b % 16);
        out.push(high);
        out.push(low);
        assert(out@ =~= hex_text(bytes@.take(i + 1)));
        i = i + 1;
    }
    assert(bytes@.take(bytes@.len() as int) =~= bytes@);
    crate::text::string_from_chars(out.as_slice())
}

/// The SHA-256 digest of the data.
pub uninterp spec fn sha256_of(data: Seq<u8>) -> Seq<u8>;

/// `sha2::Sha256::digest`: the 32-byte SHA-256 digest of the data, a
/// function of the data alone.
#[verifier::external_body]
pub(crate) fn sha256_digest(data: &[u8]) -> (digest: Vec<u8>)
    ensures
        digest@ == sha256_of(data@),
        digest@.len() == 32,
{
    sha2::Sha256::digest(data).to_vec()
}

/// A SHA-256 computation fed its data piece by piece.
#[verifier::external_body]
#[derive(Debug)]
pub struct ContentHasher {
    hasher: sha2::Sha256,
}

/// The bytes a hasher has been fed so far, in order.
pub uninterp spec fn hasher_input(hasher: ContentHasher) -> Seq<u8>;

/// `sha2::Sha256::new`: a hasher that has been fed nothing.
#[verifier::external_body]
fn hasher_start() -> (hasher: ContentHasher)
    ensures
        hasher_input(hasher) == Seq::<u8>::empty(),
{
    ContentHasher { hasher: sha2::Sha256::new() }
}

/// `Digest::update` on `sha2::Sha256`: the data is appended to what the
/// hasher was fed.
#[verifier::external_body]
fn hasher_feed(hasher: &mut ContentHasher, data: &[u8])
    ensures
        hasher_input(*final(hasher)) == hasher_input(*old(hasher)) + data@,
{
    hasher.hasher.update(data);
}

/// `Digest::finalize` on `sha2::Sha256`: the 32-byte digest of everything
/// fed, the same as the SHA-256 digest of those bytes taken at once.
#[verifier::external_body]
fn hasher_finish(hasher: ContentHasher) -> (digest: Vec<u8>)
    ensures
        digest@ == sha256_of(hasher_input(hasher)),
        digest@.len() == 32,
{
    hasher.hasher.finalize().to_vec()
}

impl ContentHasher {
    /// The bytes fed so far.
    pub open spec fn fed(&self) -> Seq<u8> {
        hasher_input(*self)
    }

    /// A hasher fed nothing yet.
    pub fn new() -> (hasher: ContentHasher)
        ensures
            hasher.fed() == Seq::<u8>::empty(),
    {
        hasher_start()
    }

    /// Feeds the next piece of the content.
    pub fn update(&mut self, chunk: &[u8])
        ensures
            final(self).fed() == old(self).fed() + chunk@,
    {
        hasher_feed(self, chunk);
    }

    /// The lowercase hexadecimal SHA-256 digest of everything fed.
    pub fn finish_hex(self) -> (text: String)
        ensures
            text@ == hex_text(sha256_of(self.fed())),
            crate::youtube::is_lower_sha256(text@),
    {
        let digest = hasher_finish(self);
        proof {
            lemma_hex_text_shape(digest@);
            lemma_hex_text_is_lowercase(digest@);
        }
        hex(digest.as_slice())
    }
}

/// Hexadecimal text of bytes uses lowercase digits only.
pub proof fn lemma_hex_text_is_lowercase(bytes: Seq<u8>)
    ensures
        forall|i: int|
            0 <= i < hex_text(bytes).len() ==> crate::youtube::is_lower_hex_char(#[trigger] hex_text(bytes)[i]),
    decreases bytes.len(),
{
    if bytes.len() > 0 {
        lemma_hex_text_is_lowercase(bytes.drop_last());
        let prefix = hex_text(bytes.drop_last());
        let b = bytes.last() as nat;
        assert(b / 16 < 16 && b % 16 < 16);
        assert forall|i: int| 0 <= i < hex_text(bytes).len() implies crate::youtube::is_lower_hex_char(
            #[trigger] hex_text(bytes)[i],
        ) by {
            if i >= prefix.len() {
                let v = if i == prefix.len() { b / 16 } else { b % 16 };
                assert(hex_text(bytes)[i] == hex_char(v));
            } else {
                assert(hex_text(bytes)[i] == prefix[i]);
            }
        }
    }
}

/// Hexadecimal text of bytes has two digits per byte, each a hexadecimal
/// digit.
pub proof fn lemma_hex_text_shape(bytes: Seq<u8>)
    ensures
        hex_text(bytes).len() == 2 * bytes.len(),
        forall|i: int| 0 <= i < hex_text(bytes).len() ==> is_hex_digit(#[trigger] hex_text(bytes)[i]),
    decreases bytes.len(),
{
    if bytes.len() > 0 {
        lemma_hex_text_shape(bytes.drop_last());
        let prefix = hex_text(bytes.drop_last());
        let b = bytes.last() as nat;
        assert(b / 16 < 16 && b % 16 < 16);
        assert forall|i: int| 0 <= i < hex_text(bytes).len() implies is_hex_digit(
            #[trigger] hex_text(bytes)[i],
        ) by {
            if i >= prefix.len() {
                let v = if i == prefix.len() { b / 16 } else { b % 16 };
                assert(hex_text(bytes)[i] == hex_char(v));
            } else {
                assert(hex_text(bytes)[i] == prefix[i]);
            }
        }
    }
}

/// The first `count` little-endian bytes of `value`.
pub open spec fn le_bytes(value: nat, count: nat) -> Seq<u8>
    decreases count,
{
    if count == 0 {
        seq![]
    } else {
        seq![(value % 256) as u8] + le_bytes(value / 256, (count - 1) as nat)
    }
}

fn push_le_u64(out: &mut Vec<u8>, value: u64)
    ensures
        final(out)@ == old(out)@ + le_bytes(value as nat, 8),
{
    let ghost start = old(out)@;
    let mut v = value;
    let mut i: usize = 0;
    while i < 8
        invariant
            0 <= i <= 8,
            start + le_bytes(value as nat, 8) == out@ + le_bytes(v as nat, (8 - i) as nat),
        decreases 8 - i,
    {
        let ghost before = out@;
        out.push((v % 256) as u8);
        assert(le_bytes(v as nat, (8 - i) as nat) =~= seq![(v % 256) as u8] + le_bytes(
            (v / 256) as nat,
            (8 - i - 1) as nat,
        ));
        assert(before + le_bytes(v as nat, (8 - i) as nat) =~= out@ + le_bytes(
            (v / 256) as nat,
            (8 - i - 1) as nat,
        ));
        v = v / 256;
        i = i + 1;
    }
    assert(le_bytes(v as nat, 0) =~= seq![]);
    assert(out@ + seq![] =~= out@);
}

/// The message that a media token authenticates: the session secret, the
/// generation and the track's position as little-endian 64-bit numbers, and
/// the bytes of the track's path.
pub open spec fn token_message(secret: Seq<u8>, generation: u64, index: usize, path: Seq<u8>) -> Seq<u8> {
    secret + le_bytes(generation as nat, 8) + le_bytes(index as nat, 8) + path
}

/// The bearer token of one media URL: the hexadecimal SHA-256 digest of the
/// token message.
pub fn media_token(secret: &[u8; 32], generation: u64, index: usize, path: &[u8]) -> (token: String)
    ensures
        token@ == hex_text(sha256_of(token_message(secret@, generation, index, path@))),
        is_token_text(token@),
{
    let mut message: Vec<u8> = Vec::new();
    let mut i: usize = 0;
    while i < 32
        invariant
            0 <= i <= 32,
            message@ == secret@.take(i as int),
        decreases 32 - i,
    {
        assert(secret@.take(i + 1) =~= message@.push(secret@[i as int]));
        message.push(secret[i]);
        i = i + 1;
    }
    assert(secret@.take(32) =~= secret@);
    push_le_u64(&mut message, generation);
    push_le_u64(&mut message, index as u64);
    let mut k: usize = 0;
    let ghost prefix = message@;
    while k < path.len()
        invariant
            0 <= k <= path@.len(),
            message@ == prefix + path@.take(k as int),
        decreases path.len() - k,
    {
        assert(prefix + path@.take(k + 1) =~= message@.push(path@[k as int]));
        message.push(path[k]);
        k = k + 1;
    }
    assert(path@.take(path@.len() as int) =~= path@);
    assert(message@ =~= token_message(secret@, generation, index, path@));
    let digest = sha256_digest(message.as_slice());
    proof {
        lemma_hex_text_shape(digest@);
    }
    hex(digest.as_slice())
}

/// The generation after an invalidation: the next one, wrapping past the
/// largest to one, so that zero never names a live result.
pub open spec fn next_generation_of(generation: u64) -> u64 {
    if generation == u64::MAX {
        1
    } else {
        (generation + 1) as u64
    }
}

pub fn next_generation(generation: u64) -> (next: u64)
    ensures
        next == next_generation_of(generation),
        next >= 1,
        next != generation,
{
    let next = generation.wrapping_add(1);
    if next < 1 {
        1
    } else {
        next
    }
}

/// Origins of the desktop webview, the only ones granted cross-origin reads.
pub open spec fn is_allowed_origin(origin: Seq<char>) -> bool {
    origin == "tauri://localhost"@ || origin == "http://tauri.localhost"@ || origin
        == "https://tauri.localhost"@
}

pub fn allowed_origin(origin: &str) -> (allowed: bool)
    ensures
        allowed == is_allowed_origin(origin@),
{
    let text = chars_of(origin);
    same_chars(text.as_slice(), chars_of("tauri://localhost").as_slice()) || same_chars(
        text.as_slice(),
        chars_of("http://tauri.localhost").as_slice(),
    ) || same_chars(text.as_slice(), chars_of("https://tauri.localhost").as_slice())
}

/// The decimal digit of a value below ten.
pub open spec fn digit_char(value: nat) -> char {
    (('0' as nat) + value) as char
}

/// The decimal text of a number, without leading zeros.
pub open spec fn decimal_digits(n: nat) -> Seq<char>
    decreases n,
{
    if n < 10 {
        seq![digit_char(n)]
    } else {
        decimal_digits(n / 10).push(digit_char(n % 10))
    }
}

/// The decimal text of a number.
pub fn decimal_text(n: u64) -> (digits: Vec<char>)
    ensures
        digits@ == decimal_digits(n as nat),
    decreases n,
{
    let digit = ((n % 10) as u8 + 48u8) as char;
    if n < 10 {
        let mut single: Vec<char> = Vec::new();
        single.push(digit);
        assert(single@ =~= decimal_digits(n as nat));
        single
    } else {
        let mut digits = decimal_text(n / 10);
        digits.push(digit);
        digits
    }
}

/// Decimal text reads back as the number it was written from.
pub proof fn lemma_decimal_roundtrip(n: nat)
    ensures
        is_decimal(decimal_digits(n)),
        decimal_value(decimal_digits(n)) == n,
        decimal_digits(n)[0] != '+',
    decreases n,
{
    let last = digit_char(n % 10);
    assert((last as nat) == ('0' as nat) + n % 10);
    if n < 10 {
        let d = decimal_digits(n);
        assert(d.drop_last() =~= seq![]);
        assert(decimal_value(d) == decimal_value(d.drop_last()) * 10 + ((d.last() as nat) - ('0' as nat)) as nat);
    } else {
        lemma_decimal_roundtrip(n / 10);
        let d = decimal_digits(n);
        assert(d.drop_last() =~= decimal_digits(n / 10));
        assert(d.last() == last);
        assert((n / 10) * 10 + n % 10 == n) by (nonlinear_arith);
        assert forall|i: int| 0 <= i < d.len() implies '0' <= #[trigger] d[i] <= '9' by {
            if i < d.len() - 1 {
                assert(d[i] == decimal_digits(n / 10)[i]);
            }
        }
    }
}

/// The path of a media URL: `/media/<session>/<generation>/<token>`.
pub open spec fn media_path_text(session: Seq<char>, generation: u64, token: Seq<char>) -> Seq<char> {
    "/media/"@ + session + "/"@ + decimal_digits(generation as nat) + "/"@ + token
}

/// The path of the media URL for one track of the current result.
pub fn media_path(session: &str, generation: u64, token: &str) -> (path: String)
    ensures
        path@ == media_path_text(session@, generation, token@),
{
    let mut out = chars_of("/media/");
    extend_chars(&mut out, chars_of(session).as_slice());
    extend_chars(&mut out, chars_of("/").as_slice());
    extend_chars(&mut out, decimal_text(generation).as_slice());
    extend_chars(&mut out, chars_of("/").as_slice());
    extend_chars(&mut out, chars_of(token).as_slice());
    crate::text::string_from_chars(out.as_slice())
}

proof fn lemma_split_skips_plain_text(text: Seq<char>, rest: Seq<char>, separator: char, current: Seq<char>)
    requires
        forall|i: int| 0 <= i < text.len() ==> #[trigger] text[i] != separator,
    ensures
        split_text(text + rest, separator, current) == split_text(rest, separator, current + text),
    decreases text.len(),
{
    if text.len() > 0 {
        assert((text + rest)[0] == text[0]);
        assert((text + rest).drop_first() =~= text.drop_first() + rest);
        lemma_split_skips_plain_text(text.drop_first(), rest, separator, current.push(text[0]));
        assert(current.push(text[0]) + text.drop_first() =~= current + text);
    } else {
        assert(text + rest =~= rest);
        assert(current + text =~= current);
    }
}

proof fn lemma_absent_char_not_contained(s: Seq<char>, pattern: Seq<char>)
    requires
        pattern.len() > 0,
        forall|i: int| 0 <= i < s.len() ==> #[trigger] s[i] != pattern[0],
    ensures
        !contains_text(s, pattern),
{
    assert forall|i: int| !#[trigger] occurs_at(s, pattern, i) by {
        if occurs_at(s, pattern, i) {
            assert(s.subrange(i, i + pattern.len())[0] == s[i]);
        }
    }
}

use crate::text::{occurs_at, split_text};

/// A media URL that the registry hands out names back exactly its
/// generation and token when its path is requested in the same session.
pub proof fn lemma_media_path_resolves(session: Seq<char>, generation: u64, token: Seq<char>)
    requires
        is_token_text(session),
        is_token_text(token),
    ensures
        media_target(media_path_text(session, generation, token), session) == Some(
            (generation, token),
        ),
{
    reveal_strlit("/media/");
    reveal_strlit("/");
    reveal_strlit("media");
    reveal_strlit("%");
    reveal_strlit("..");
    reveal_strlit("\\");
    let digits = decimal_digits(generation as nat);
    lemma_decimal_roundtrip(generation as nat);
    let path = media_path_text(session, generation, token);
    let slash: Seq<char> = seq!['/'];
    let media: Seq<char> = seq!['m', 'e', 'd', 'i', 'a'];
    assert("/media/"@ =~= slash + media + slash);
    assert("/"@ =~= slash);
    let body = media + (slash + (session + (slash + (digits + (slash + token)))));
    assert(path =~= slash + body);
    // Every character is a letter, a digit or a slash.
    assert forall|i: int| 0 <= i < path.len() implies #[trigger] path[i] != '%' && path[i] != '.'
        && path[i] != '\\' by {
        let a = 7int;
        let b = a + session.len();
        let c = b + 1;
        let d = c + digits.len();
        let e = d + 1;
        if i < a {
        } else if i < b {
            assert(path[i] == session[i - a]);
        } else if i < c {
        } else if i < d {
            assert(path[i] == digits[i - c]);
        } else if i < e {
        } else {
            assert(path[i] == token[i - e]);
        }
    }
    lemma_absent_char_not_contained(path, "%"@);
    lemma_absent_char_not_contained(path, ".."@);
    lemma_absent_char_not_contained(path, "\\"@);
    // One leading slash.
    assert(is_leading_slash_count(path, 1));
    let n = choose|n: int| is_leading_slash_count(path, n);
    if n > 1 {
        assert(path[1] == '/');
    }
    assert(without_leading_slashes(path) =~= body);
    // The four segments.
    assert forall|i: int| 0 <= i < media.len() implies #[trigger] media[i] != '/' by {}
    assert forall|i: int| 0 <= i < session.len() implies #[trigger] session[i] != '/' by {
        assert(is_hex_digit(session[i]));
    }
    assert forall|i: int| 0 <= i < digits.len() implies #[trigger] digits[i] != '/' by {
        assert('0' <= digits[i] <= '9');
    }
    assert forall|i: int| 0 <= i < token.len() implies #[trigger] token[i] != '/' by {
        assert(is_hex_digit(token[i]));
    }
    let empty: Seq<char> = seq![];
    lemma_split_skips_plain_text(media, slash + (session + (slash + (digits + (slash + token)))), '/', empty);
    assert(empty + media =~= media);
    assert((slash + (session + (slash + (digits + (slash + token))))).drop_first() =~= session + (slash + (digits + (slash + token))));
    lemma_split_skips_plain_text(session, slash + (digits + (slash + token)), '/', empty);
    assert(empty + session =~= session);
    assert((slash + (digits + (slash + token))).drop_first() =~= digits + (slash + token));
    lemma_split_skips_plain_text(digits, slash + token, '/', empty);
    assert(empty + digits =~= digits);
    assert((slash + token).drop_first() =~= token);
    assert(token =~= token + empty);
    lemma_split_skips_plain_text(token, empty, '/', empty);
    assert(empty + token =~= token);
    let segments = split_at_char(body, '/');
    assert(segments =~= seq![media, session, digits, token]);
    assert(media =~= "media"@);
}


/// Any closed range `bytes=<start>-<end>` whose start lies inside a nonempty
/// body and does not pass its end selects exactly the bytes from `start` to
/// `end`, clipped to the body's last byte; in particular `bytes=k-k` selects
/// the single byte `k`.
pub proof fn lemma_closed_range_is_selected(start: u64, end: u64, length: u64)
    requires
        0 < length,
        start < length,
        start <= end,
    ensures
        requested_range("bytes="@ + decimal_digits(start as nat) + "-"@ + decimal_digits(end as nat), length)
            == Some((start, min_u64(end, (length - 1) as u64))),
{
    reveal_strlit("bytes=");
    reveal_strlit("-");
    reveal_strlit(",");
    lemma_decimal_roundtrip(start as nat);
    lemma_decimal_roundtrip(end as nat);
    let d1 = decimal_digits(start as nat);
    let d2 = decimal_digits(end as nat);
    let value = "bytes="@ + d1 + "-"@ + d2;
    assert(value.take(6) =~= "bytes="@);
    let spec_text = value.skip(6);
    assert(spec_text =~= d1 + "-"@ + d2);
    let k = d1.len() as int;
    assert forall|i: int| 0 <= i < spec_text.len() && i != k implies '0' <= #[trigger] spec_text[i] <= '9' by {
        if i < k {
            assert(spec_text[i] == d1[i]);
        } else {
            assert(spec_text[i] == d2[i - k - 1]);
        }
    }
    assert(!contains_text(spec_text, ","@)) by {
        if contains_text(spec_text, ","@) {
            let i = choose|i: int| occurs_at(spec_text, ","@, i);
            assert(spec_text.subrange(i, i + 1)[0] == spec_text[i]);
            assert(spec_text[i] == ',');
        }
    }
    assert(spec_text[k] == '-');
    assert(is_first_occurrence(spec_text, '-', k));
    let dash = choose|i: int| is_first_occurrence(spec_text, '-', i);
    assert(dash == k) by {
        if dash < k {
            assert(spec_text[dash] == '-');
        }
        if dash > k {
            assert(spec_text[k] != '-');
        }
    }
    assert(spec_text.take(dash) =~= d1);
    assert(spec_text.skip(dash + 1) =~= d2);
    assert(parse_u64(d1) == Some(start));
    assert(parse_u64(d2) == Some(end));
}

} // verus!
