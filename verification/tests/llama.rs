use repoharbor::llama::{
    installed_models_in, is_executable_mode, is_gguf_name, model_file_name, models_dir,
    models_dir_under, valid_gguf_header, GGUF_HEADER_LEN,
};

#[test]
fn valid_gguf_accepts_gguf_header() {
    let mut bytes = b"GGUF".to_vec();
    bytes.extend_from_slice(&3u32.to_le_bytes());
    bytes.extend_from_slice(&0u64.to_le_bytes());
    bytes.extend_from_slice(&0u64.to_le_bytes());
    assert!(valid_gguf_header(bytes.len() as u64, &bytes[..4]));
}

#[test]
fn valid_gguf_rejects_wrong_magic() {
    let bytes = vec![0u8; GGUF_HEADER_LEN as usize];
    assert!(!valid_gguf_header(bytes.len() as u64, &bytes[..4]));
}

#[test]
fn valid_gguf_rejects_truncated_and_missing() {
    assert!(!valid_gguf_header(4, b"GGUF"));
    assert!(!valid_gguf_header(0, b""));
}

#[test]
fn is_executable_tracks_mode_bits() {
    assert!(!is_executable_mode(0o644));
    assert!(is_executable_mode(0o755));
    assert!(is_executable_mode(0o100));
    assert!(is_executable_mode(0o001));
    assert!(!is_executable_mode(0o666));
}

#[test]
fn installed_models_lists_only_gguf() {
    let listing = vec![
        ("a.gguf".to_string(), 10),
        ("notes.txt".to_string(), 3),
        (".gguf".to_string(), 1),
        ("b.GGUF".to_string(), 2),
    ];
    let found = installed_models_in(&listing);
    assert_eq!(found, vec![("a.gguf".to_string(), 10)]);
    assert!(is_gguf_name("x.y.gguf"));
    assert!(!is_gguf_name("gguf"));
}

#[test]
fn model_file_names_come_from_the_url_path() {
    assert_eq!(
        model_file_name("https://hf.co/org/repo/resolve/main/qwen-0.5b.Q4.gguf?download=true").unwrap(),
        "qwen-0.5b.Q4.gguf"
    );
    assert_eq!(model_file_name("https://x/y/Model.GGUF#frag").unwrap(), "Model.GGUF");
    assert_eq!(model_file_name("https://x/y/").unwrap_err(), "could not derive a filename from the URL");
    assert_eq!(model_file_name("https://x/y/model.bin").unwrap_err(), "URL must point to a .gguf file");
}

#[test]
fn models_live_under_the_data_dir() {
    assert_eq!(models_dir_under("/home/u/.local/share/repoharbor"), "/home/u/.local/share/repoharbor/models");
    if let Some(d) = models_dir() {
        assert!(d.ends_with("/repoharbor/models"), "{d}");
    }
}
