use repoharbor::folder_picker::{file_uri_to_path, from_hex, percent_decode};

#[test]
fn decodes_plain_file_uri() {
    assert_eq!(
        file_uri_to_path("file:///home/user/Projects/RepoHarbor"),
        Some("/home/user/Projects/RepoHarbor".to_string())
    );
}

#[test]
fn decodes_percent_encoded_spaces() {
    assert_eq!(percent_decode("/home/user/My%20Projects"), "/home/user/My Projects");
    assert_eq!(
        file_uri_to_path("file:///home/user/My%20Projects"),
        Some("/home/user/My Projects".to_string())
    );
}

#[test]
fn rejects_non_file_uri() {
    assert_eq!(file_uri_to_path("https://example.com"), None);
}

#[test]
fn percent_decode_keeps_malformed_escapes_literally() {
    assert_eq!(percent_decode("100%"), "100%");
    assert_eq!(percent_decode("a%zzb"), "a%zzb");
    assert_eq!(percent_decode("caf%C3%A9"), "café");
    assert_eq!(from_hex(b'a'), Some(10));
    assert_eq!(from_hex(b'F'), Some(15));
    assert_eq!(from_hex(b'g'), None);
}
