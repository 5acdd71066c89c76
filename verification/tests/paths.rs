use loob::{extension, file_name, file_stem, path_starts_with, safe_object_reference};

#[test]
fn object_references_are_exactly_one_object_below_objects() {
    assert!(safe_object_reference("objects/abc.wav"));
    assert!(safe_object_reference("objects//abc.wav"));
    assert!(safe_object_reference("objects/./abc.wav"));
    assert!(!safe_object_reference("objects/../abc.wav"));
    assert!(!safe_object_reference("/objects/abc.wav"));
    assert!(!safe_object_reference("./objects/abc.wav"));
    assert!(!safe_object_reference("objects/a/b.wav"));
    assert!(!safe_object_reference("other/abc.wav"));
    assert!(!safe_object_reference("objects"));
    assert!(!safe_object_reference(""));
}

#[test]
fn file_names_stems_and_extensions_follow_std_paths() {
    assert_eq!(file_name(b"/music/song.m4a"), Some(b"song.m4a".to_vec()));
    assert_eq!(file_name(b"/music/"), Some(b"music".to_vec()));
    assert_eq!(file_name(b"/music/.."), None);
    assert_eq!(file_name(b"/"), None);
    assert_eq!(file_stem(b"/music/song.m4a"), Some(b"song".to_vec()));
    assert_eq!(file_stem(b"archive.tar.gz"), Some(b"archive.tar".to_vec()));
    assert_eq!(file_stem(b".hidden"), Some(b".hidden".to_vec()));
    assert_eq!(extension(b"archive.tar.gz"), Some(b"gz".to_vec()));
    assert_eq!(extension(b".hidden"), None);
    assert_eq!(extension(b"trailing."), Some(b"".to_vec()));
}

#[test]
fn starts_with_compares_whole_components() {
    assert!(path_starts_with(b"/cache/staging/x/a.wav", b"/cache/staging/x"));
    assert!(path_starts_with(b"/cache/staging/x/", b"/cache/staging/x"));
    assert!(path_starts_with(b"/cache//staging/./x/a.wav", b"/cache/staging/x/"));
    assert!(!path_starts_with(b"/cache/staging/xy/a.wav", b"/cache/staging/x"));
    assert!(!path_starts_with(b"cache/staging/x/a.wav", b"/cache/staging/x"));
    assert!(!path_starts_with(b"/cache", b"/cache/staging"));
    assert!(path_starts_with(b"/anything", b"/"));
    assert!(path_starts_with(b"a/b", b""));
}
