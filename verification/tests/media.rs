use sha2::{Digest, Sha256};

use loob::{
    allowed_origin, hex, media_content_type, ContentHasher, media_path, media_request_target, media_token,
    next_generation, parse_range,
};

#[test]
fn compact_cached_formats_have_specific_media_types() {
    assert_eq!(media_content_type(b"track.m4a"), "audio/mp4");
    assert_eq!(media_content_type(b"track.aac"), "audio/aac");
    assert_eq!(media_content_type(b"legacy.wav"), "audio/wav");
}

#[test]
fn every_known_extension_has_its_media_type() {
    assert_eq!(media_content_type(b"/a/b/song.MP3"), "audio/mpeg");
    assert_eq!(media_content_type(b"x.flac"), "audio/flac");
    assert_eq!(media_content_type(b"x.ogg"), "audio/ogg");
    assert_eq!(media_content_type(b"x.OGA"), "audio/ogg");
    assert_eq!(media_content_type(b"x.txt"), "application/octet-stream");
    assert_eq!(media_content_type(b"noextension"), "application/octet-stream");
    assert_eq!(media_content_type(b".wav"), "application/octet-stream");
    assert_eq!(media_content_type(b"dir.wav/"), "audio/wav");
}

#[test]
fn ranges_are_clipped_to_the_body() {
    assert_eq!(parse_range("bytes=0-", 100), Some((0, 99)));
    assert_eq!(parse_range("bytes=10-19", 100), Some((10, 19)));
    assert_eq!(parse_range("bytes=10-500", 100), Some((10, 99)));
    assert_eq!(parse_range("bytes=-30", 100), Some((70, 99)));
    assert_eq!(parse_range("bytes=-300", 100), Some((0, 99)));
}

#[test]
fn unsatisfiable_or_malformed_ranges_are_refused() {
    assert_eq!(parse_range("bytes=0-", 0), None);
    assert_eq!(parse_range("bytes=100-", 100), None);
    assert_eq!(parse_range("bytes=20-10", 100), None);
    assert_eq!(parse_range("bytes=-0", 100), None);
    assert_eq!(parse_range("bytes=0-1,5-6", 100), None);
    assert_eq!(parse_range("items=0-1", 100), None);
    assert_eq!(parse_range("bytes=a-1", 100), None);
    assert_eq!(parse_range("bytes=5", 100), None);
    assert_eq!(parse_range("bytes=", 100), None);
}

#[test]
fn hex_is_lowercase_two_digits_per_byte() {
    assert_eq!(hex(&[]), "");
    assert_eq!(hex(&[0x00, 0x0f, 0xa5, 0xff]), "000fa5ff");
}

#[test]
fn media_token_is_the_digest_of_secret_generation_index_and_path() {
    let secret = [7u8; 32];
    let path = b"/music/a.wav";
    let mut message = secret.to_vec();
    message.extend_from_slice(&3u64.to_le_bytes());
    message.extend_from_slice(&2u64.to_le_bytes());
    message.extend_from_slice(path);
    let expected: String = Sha256::digest(&message)
        .iter()
        .map(|b| format!("{b:02x}"))
        .collect();
    let token = media_token(&secret, 3, 2, path);
    assert_eq!(token, expected);
    assert_ne!(token, media_token(&secret, 4, 2, path));
    assert_ne!(token, media_token(&secret, 3, 1, path));
    assert_ne!(token, media_token(&secret, 3, 2, b"/music/b.wav"));
}

#[test]
fn generations_skip_zero_when_they_wrap() {
    assert_eq!(next_generation(0), 1);
    assert_eq!(next_generation(41), 42);
    assert_eq!(next_generation(u64::MAX), 1);
}

#[test]
fn only_the_desktop_webview_origins_are_allowed() {
    assert!(allowed_origin("tauri://localhost"));
    assert!(allowed_origin("http://tauri.localhost"));
    assert!(allowed_origin("https://tauri.localhost"));
    assert!(!allowed_origin("http://localhost"));
    assert!(!allowed_origin("https://tauri.localhost/"));
    assert!(!allowed_origin(""));
}

#[test]
fn request_paths_name_generation_and_token() {
    let token = "ab".repeat(32);
    let path = media_path("session", 7, &token);
    assert_eq!(path, format!("/media/session/7/{token}"));
    assert_eq!(media_request_target(&path, "session"), Some((7, token.clone())));
    assert_eq!(
        media_request_target(&format!("//media/session/7/{token}"), "session"),
        Some((7, token.clone()))
    );
    assert_eq!(media_request_target(&path, "other"), None);
    assert_eq!(
        media_request_target(&format!("/media/session/7/{token}/x"), "session"),
        None
    );
    assert_eq!(
        media_request_target(&format!("/media/session/x/{token}"), "session"),
        None
    );
    assert_eq!(
        media_request_target("/media/session/7/abc", "session"),
        None
    );
    assert_eq!(
        media_request_target(&format!("/media/session/7/{}%41", &token[..62]), "session"),
        None
    );
    assert_eq!(
        media_request_target(&format!("/media/../7/{token}"), "session"),
        None
    );
}

#[test]
fn content_hashes_are_lowercase_sha256_of_everything_fed() {
    let mut hasher = ContentHasher::new();
    hasher.update(b"ab");
    hasher.update(b"");
    hasher.update(b"c");
    assert_eq!(
        hasher.finish_hex(),
        "ba7816bf8f01cfea414140de5dae2223b00361a396177a9cb410ff61f20015ad"
    );
    assert_eq!(
        ContentHasher::new().finish_hex(),
        "e3b0c44298fc1c149afbf4c8996fb92427ae41e4649b934ca495991b7852b855"
    );
    let bytes = vec![7u8; 200_000];
    let mut chunked = ContentHasher::new();
    for chunk in bytes.chunks(65_536) {
        chunked.update(chunk);
    }
    assert_eq!(chunked.finish_hex(), format!("{:x}", Sha256::digest(&bytes)));
}
