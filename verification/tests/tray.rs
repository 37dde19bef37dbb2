use repoharbor::tray::{argb_from, decode_argb};
use repoharbor::model::{Activity, GitStatus, Repo};
use repoharbor::tray::{
    attention_line, header_line, need, needs_attention, recent_label, recent_repos, top_item_label,
    TrayAttention,
};

fn repo(id: &str, name: &str, last: i64) -> Repo {
    Repo {
        id: id.into(),
        display_name: name.into(),
        slug: None,
        path: id.into(),
        description: None,
        language: None,
        git: GitStatus::default(),
        last_commit_unix: last,
        activity: Activity::Active,
        root: "~".into(),
        host: None,
        remote_host: None,
        stars: 0,
        topics: vec![],
        open_issues: 0,
        latest_release: None,
        private: false,
        favorite: false,
        ai_summary: None,
        parent_id: None,
        submodule_path: None,
    }
}

#[test]
fn attention_line_reads_counts() {
    let a = |total, urgent| TrayAttention { total, urgent, top: Vec::new() };
    assert_eq!(attention_line(&a(0, 0)), None);
    assert_eq!(attention_line(&a(1, 0)).as_deref(), Some("1 needs attention"));
    assert_eq!(attention_line(&a(3, 2)).as_deref(), Some("3 need attention · 2 urgent"));
}

#[test]
fn header_and_icon_state_follow_the_counts() {
    let clear = TrayAttention::default();
    assert_eq!(header_line(&clear), "All clear");
    assert!(!needs_attention(&clear));
    let busy = TrayAttention { total: 2, urgent: 1, top: vec![] };
    assert_eq!(header_line(&busy), "2 need attention · 1 urgent");
    assert!(needs_attention(&busy));
    assert_eq!(need(1), "needs");
    assert_eq!(need(0), "need");
    assert_eq!(top_item_label("CI failing"), "● CI failing");
    assert_eq!(recent_label("app"), "  app");
}

#[test]
fn recent_repos_lists_the_five_most_recent() {
    let repos: Vec<Repo> = (0..7).map(|i| repo(&format!("/r{i}"), &format!("r{i}"), i * 10)).collect();
    let recent = recent_repos(&repos);
    let ids: Vec<&str> = recent.iter().map(|(id, _)| id.as_str()).collect();
    assert_eq!(ids, vec!["/r6", "/r5", "/r4", "/r3", "/r2"]);
    let tie = vec![repo("/a", "a", 5), repo("/b", "b", 5)];
    let ids: Vec<String> = recent_repos(&tie).into_iter().map(|(id, _)| id).collect();
    assert_eq!(ids, vec!["/a", "/b"]);
}

fn png_bytes(width: u32, height: u32, color: png::ColorType, pixels: &[u8]) -> Vec<u8> {
    let mut out = Vec::new();
    {
        let mut enc = png::Encoder::new(&mut out, width, height);
        enc.set_color(color);
        enc.set_depth(png::BitDepth::Eight);
        let mut writer = enc.write_header().unwrap();
        writer.write_image_data(pixels).unwrap();
    }
    out
}

#[test]
fn rgba_glyphs_become_argb() {
    let png = png_bytes(2, 1, png::ColorType::Rgba, &[10, 20, 30, 40, 50, 60, 70, 80]);
    let (w, h, data) = decode_argb(&png).unwrap();
    assert_eq!((w, h), (2, 1));
    assert_eq!(data, vec![40, 10, 20, 30, 80, 50, 60, 70]);
}

#[test]
fn rgb_glyphs_become_opaque_argb() {
    let png = png_bytes(1, 2, png::ColorType::Rgb, &[1, 2, 3, 4, 5, 6]);
    let (w, h, data) = decode_argb(&png).unwrap();
    assert_eq!((w, h), (1, 2));
    assert_eq!(data, vec![255, 1, 2, 3, 255, 4, 5, 6]);
}

#[test]
fn non_png_or_grayscale_glyphs_are_rejected() {
    assert!(decode_argb(b"not a png").is_none());
    let gray = png_bytes(1, 1, png::ColorType::Grayscale, &[7]);
    assert!(decode_argb(&gray).is_none());
}

#[test]
fn argb_reordering_drops_partial_pixels() {
    assert_eq!(argb_from(4, &[1, 2, 3, 4, 9]), Some(vec![4, 1, 2, 3]));
    assert_eq!(argb_from(3, &[1, 2, 3, 9]), Some(vec![255, 1, 2, 3]));
    assert_eq!(argb_from(2, &[1, 2]), None);
}
