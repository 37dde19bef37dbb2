use repoharbor::appearance::{
    color_scheme_name, kdeglobals_appearance, merge_appearance, parse_kdeglobals, parse_rgb_triplet,
    KdeColors, Rgb,
};

#[test]
fn parse_rgb_triplet_accepts_well_formed_and_rejects_junk() {
    let c = parse_rgb_triplet("61, 174, 233").unwrap();
    assert_eq!((c.r, c.g, c.b), (61, 174, 233));
    assert!(parse_rgb_triplet("61,174").is_none(), "too few components");
    assert!(parse_rgb_triplet("300,0,0").is_none(), "out of u8 range");
    assert!(parse_rgb_triplet("a,b,c").is_none(), "non-numeric");
    assert!(parse_rgb_triplet("").is_none());
}

#[test]
fn parse_kdeglobals_reads_sectioned_colours() {
    let body = "\
[General]
AccentColor=61,174,233

[Colors:Window]
BackgroundNormal=27,30,32
ForegroundNormal=239,240,241

[Colors:View]
BackgroundNormal=35,38,41
";
    let k = parse_kdeglobals(body);
    assert_eq!(k.accent.map(|c| (c.r, c.g, c.b)), Some((61, 174, 233)));
    assert_eq!(k.window_bg.map(|c| (c.r, c.g, c.b)), Some((27, 30, 32)));
    assert_eq!(k.window_fg.map(|c| (c.r, c.g, c.b)), Some((239, 240, 241)));
    assert_eq!(k.base_bg.map(|c| (c.r, c.g, c.b)), Some((35, 38, 41)));
    assert!(parse_kdeglobals("BackgroundNormal=1,2,3").window_bg.is_none());
}

#[test]
fn color_scheme_values_map_to_names() {
    assert_eq!(color_scheme_name(Some(1)).as_deref(), Some("dark"));
    assert_eq!(color_scheme_name(Some(2)).as_deref(), Some("light"));
    assert_eq!(color_scheme_name(Some(0)), None);
    assert_eq!(color_scheme_name(None), None);
}

#[test]
fn kde_accent_wins_over_the_portal_accent() {
    let portal = Rgb { r: 1, g: 2, b: 3 };
    let kde = KdeColors { accent: Some(Rgb { r: 9, g: 9, b: 9 }), ..KdeColors::default() };
    let a = merge_appearance(Some("dark".into()), Some(portal), kde);
    assert_eq!(a.accent, Some(Rgb { r: 9, g: 9, b: 9 }));
    assert_eq!(a.color_scheme.as_deref(), Some("dark"));
    let a = merge_appearance(None, Some(portal), KdeColors::default());
    assert_eq!(a.accent, Some(portal));
    let a = kdeglobals_appearance(kde);
    assert!(a.color_scheme.is_none());
    assert_eq!(a.accent, kde.accent);
}
