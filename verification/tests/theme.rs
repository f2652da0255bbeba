use omarchy_dock::theme::{icon_theme_name, Mode, Palette, Rgb};

fn rgb(r: u8, g: u8, b: u8) -> Rgb {
    Rgb { r, g, b }
}

#[test]
fn colours_parse_in_every_form_the_themes_use() {
    assert_eq!(Rgb::parse("#1a2B3c"), Some(rgb(0x1a, 0x2b, 0x3c)));
    assert_eq!(Rgb::parse(" 1a2b3c "), Some(rgb(0x1a, 0x2b, 0x3c)));
    assert_eq!(Rgb::parse("rgb(ffffff)"), Some(rgb(255, 255, 255)));
    // Hyprland's alpha is dropped.
    assert_eq!(Rgb::parse("rgba(798186ee)"), Some(rgb(0x79, 0x81, 0x86)));
    assert_eq!(Rgb::parse("##000000"), Some(rgb(0, 0, 0)));
    assert_eq!(Rgb::parse("rgba(798186ee"), None);
    assert_eq!(Rgb::parse("#12345"), None);
    assert_eq!(Rgb::parse("rgba(798186ee) rgba(000000ff)"), None);
    assert_eq!(Rgb::parse("zzzzzz"), None);
    assert_eq!(rgb(0x0a, 0xb0, 0xff).to_css(), "#0ab0ff");
}

#[test]
fn the_fallback_palette() {
    let p = Palette::default();
    assert_eq!(p.name, "fallback");
    assert!(p.is_dark());
    assert_eq!(p.background(), rgb(0x14, 0x15, 0x1e));
    assert_eq!(p.accent(), rgb(0x7a, 0xa2, 0xf7));
    // No red in the fallback: urgency uses the accent.
    assert_eq!(p.urgent(), rgb(0x7a, 0xa2, 0xf7));
    assert_eq!(p.iter().len(), 3);
    assert_eq!(Palette::current(None).name, "fallback");
}

#[test]
fn a_colors_toml_becomes_a_palette() {
    let text = "mode = \"light\"\nbackground = \"#ffffff\"\nforeground = \"#000000\"\nblue = \"#0000ff\"\nred = \"rgb(ff0000)\"\nactive_border_color = \"rgba(33ccffee) rgba(00ff99ee) 45deg\"\nnumber = 3\n";
    let p = Palette::parse("Solitude".into(), text).unwrap();
    assert_eq!(p.name, "Solitude");
    assert_eq!(p.mode, Mode::Light);
    assert!(!p.is_dark());
    assert_eq!(p.background(), rgb(255, 255, 255));
    // No accent: blue stands in.
    assert_eq!(p.accent(), rgb(0, 0, 255));
    assert_eq!(p.urgent(), rgb(255, 0, 0));
    assert_eq!(p.get(&["bright_red", "orange"], rgb(1, 2, 3)), rgb(1, 2, 3));
    // The two-value border and the number are not colours.
    assert_eq!(p.iter().len(), 4);
    assert!(Palette::parse("x".into(), "not = [toml").is_none());
    let dark = Palette::parse("x".into(), "mode = \"dark\"").unwrap();
    assert!(dark.is_dark());
}

#[test]
fn entries_with_later_names_override_earlier_ones() {
    let p = Palette::from_entries(
        "t".into(),
        &vec![
            ("accent".to_string(), Some("#111111".to_string())),
            ("accent".to_string(), Some("#222222".to_string())),
            ("accent".to_string(), Some("bogus".to_string())),
            ("mode".to_string(), Some("light".to_string())),
            ("mode".to_string(), None),
        ],
    );
    assert_eq!(p.accent(), rgb(0x22, 0x22, 0x22));
    assert_eq!(p.iter().len(), 1);
    assert!(p.is_dark());
}

#[test]
fn the_icon_theme_file_names_a_theme_or_nothing() {
    assert_eq!(icon_theme_name(" Papirus-Dark\n").as_deref(), Some("Papirus-Dark"));
    assert_eq!(icon_theme_name("\n"), None);
}

#[test]
fn a_colour_reads_back_from_its_css() {
    for c in [rgb(0, 0, 0), rgb(0xff, 0xff, 0xff), rgb(0x0a, 0xb0, 0xff), rgb(0x7a, 0xa2, 0xf7)] {
        assert_eq!(Rgb::parse(&c.to_css()), Some(c));
    }
}

#[test]
fn hyprlands_rgba_form_drops_the_alpha() {
    for c in [rgb(0, 0, 0), rgb(0x79, 0x81, 0x86), rgb(0xff, 0x10, 0x0a)] {
        for a in [0u8, 0x7f, 0xee, 0xff] {
            let text = format!("rgba({}{:02x})", &c.to_css()[1..], a);
            assert_eq!(Rgb::parse(&text), Some(c));
        }
    }
}
