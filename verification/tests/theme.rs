use shrinkz::{ActiveTheme, ThemeId};

#[test]
fn cycling_themes_visits_every_built_in_palette() {
    let mut theme = ActiveTheme::default();
    assert_eq!(theme.id, ThemeId::Midnight);
    let mut seen = vec![theme.id];
    for _ in 0..ThemeId::ALL.len() {
        theme.cycle();
        seen.push(theme.id);
    }
    // Full cycle returns to start
    assert_eq!(theme.id, ThemeId::Midnight);
    for id in ThemeId::ALL {
        assert!(seen.contains(&id), "missing theme {id:?}");
        let _ = id.display_name();
    }
}
