use amcli::artwork::{recolor, ArtworkManager, Bitmap, Rgb};
use amcli::config::{default_album, default_mosaic, Config, Language};
use amcli::display::{format_duration, format_duration_seconds, scroll_text, ScrollCache};
use amcli::player::{artwork_key, next_theme_index, track_changed, RepeatMode, Track, Volume};
use amcli::settings::{SettingsChange, SettingsItem, SettingsMenu};

#[test]
fn short_text_is_unchanged() {
    assert_eq!(scroll_text("hello", 5, 7), "hello");
    assert_eq!(scroll_text("", 0, 0), "");
}

#[test]
fn long_text_scrolls_with_gap() {
    assert_eq!(scroll_text("abcdef", 4, 0), "abcd");
    assert_eq!(scroll_text("abcdef", 4, 2), "bcde");
    assert_eq!(scroll_text("abcdef", 4, 8), "ef  ");
    assert_eq!(scroll_text("abcdef", 4, 12), "   a");
    assert_eq!(scroll_text("abcdef", 4, 14), "  ab");
    assert_eq!(scroll_text("abcdef", 4, 18), "abcd");
}

#[test]
fn scroll_cache_matches_scroll_text() {
    let mut c = ScrollCache::new();
    assert_eq!(c.get("abcdef", 4, 2, 0), "bcde");
    assert_eq!(c.get("abcdef", 4, 2, 0), "bcde");
    assert_eq!(c.get("uvwxyz", 4, 2, 0), "vwxy");
    assert_eq!(c.get("uvwxyz", 4, 4, 0), "wxyz");
    assert_eq!(c.get("hi", 4, 4, 1), "hi");
}

#[test]
fn durations_format() {
    assert_eq!(format_duration(0), "00:00");
    assert_eq!(format_duration(65_000), "01:05");
    assert_eq!(format_duration(6_000_999), "100:00");
    assert_eq!(format_duration_seconds(42_900), "42s");
}

#[test]
fn recolor_blends_by_brightness() {
    let b = Bitmap { width: 2, height: 1, pixels: vec![0, 0, 0, 7, 255, 255, 255, 9, 1] };
    let dark = Rgb { r: 10, g: 20, b: 30 };
    let light = Rgb { r: 200, g: 100, b: 0 };
    let r = recolor(&b, dark, light);
    assert_eq!(r.pixels, vec![10, 20, 30, 7, 200, 100, 0, 9, 1]);
    let g = Bitmap { width: 1, height: 1, pixels: vec![30, 60, 90, 255] };
    let r = recolor(&g, Rgb { r: 0, g: 0, b: 0 }, Rgb { r: 255, g: 255, b: 255 });
    assert_eq!(r.pixels, vec![60, 60, 60, 255]);
    let m = ArtworkManager::new();
    let t = m.themed(&b, light, dark, true);
    assert_eq!(t.pixels, vec![10, 20, 30, 7, 200, 100, 0, 9, 1]);
}

#[test]
fn settings_menu_navigation() {
    let mut s = SettingsMenu::new(Language::English, 0, 6, true);
    assert!(!s.is_open);
    s.toggle();
    assert!(s.is_open);
    s.navigate_up();
    assert_eq!(s.selected_index, 0);
    for _ in 0..10 {
        s.navigate_down();
    }
    assert_eq!(s.selected_index, 3);
    assert_eq!(s.get_selected_item(), Some(&SettingsItem::Close));
    s.update_theme(4);
    assert_eq!(s.items[1], SettingsItem::Theme { current_index: 4, total_themes: 6 });
    s.update_language(Language::English.toggle());
    assert_eq!(s.items[0], SettingsItem::Language { current: Language::Japanese });
    s.update_mosaic(false);
    assert_eq!(s.items[2], SettingsItem::Mosaic { enabled: false });
    s.close();
    assert!(!s.is_open);
    s.open();
    assert_eq!(s.selected_index, 0);
}

#[test]
fn config_defaults() {
    let c = Config::default();
    assert_eq!(c.artwork.cache_size, 100);
    assert_eq!(c.artwork.mode, "auto");
    assert_eq!(c.ui.color_theme, "default");
    assert_eq!(c.general.language.as_str(), "en");
    assert_eq!(Language::Japanese.as_str(), "jp");
    assert!(default_album() && default_mosaic());
}

#[test]
fn volume_controls() {
    let mut v = Volume::new(98);
    v.up();
    assert_eq!(v.level, 100);
    v.toggle_mute();
    assert_eq!((v.level, v.muted), (0, true));
    v.toggle_mute();
    assert_eq!((v.level, v.muted), (100, false));
    let mut v = Volume::new(3);
    v.down();
    assert_eq!(v.level, 0);
    v.sync(Some(70));
    assert_eq!(v.level, 70);
    v.sync(None);
    assert_eq!(v.level, 70);
}

#[test]
fn repeat_and_theme_cycles() {
    assert_eq!(RepeatMode::Off.next(), RepeatMode::All);
    assert_eq!(RepeatMode::All.next(), RepeatMode::One);
    assert_eq!(RepeatMode::One.next(), RepeatMode::Off);
    assert_eq!(next_theme_index(5, 6), 0);
    assert_eq!(next_theme_index(2, 6), 3);
}

#[test]
fn track_change_detection() {
    let t = |n: &str, a: &str| Track {
        name: n.into(),
        artist: a.into(),
        album: "x".into(),
        duration: 1,
        position: 0,
    };
    assert!(track_changed(&None, &Some(t("a", "b"))));
    assert!(!track_changed(&Some(t("a", "b")), &Some(t("a", "b"))));
    assert!(track_changed(&Some(t("a", "b")), &Some(t("a", "c"))));
    assert!(!track_changed(&Some(t("a", "b")), &None));
    assert_eq!(artwork_key(&Some("u".into()), 3).unwrap().variant, 3);
}

#[test]
fn settings_selection_applies_changes() {
    let mut s = SettingsMenu::new(Language::English, 5, 6, true);
    s.open();
    assert_eq!(s.apply_selection(), SettingsChange::Language(Language::Japanese));
    assert_eq!(s.items[0], SettingsItem::Language { current: Language::Japanese });
    s.navigate_down();
    assert_eq!(s.apply_selection(), SettingsChange::Theme(0));
    assert_eq!(s.items[1], SettingsItem::Theme { current_index: 0, total_themes: 6 });
    s.navigate_down();
    assert_eq!(s.apply_selection(), SettingsChange::Mosaic(false));
    s.navigate_down();
    assert_eq!(s.apply_selection(), SettingsChange::Closed);
    assert!(!s.is_open);
}

#[test]
fn settings_click_selects_row() {
    let mut s = SettingsMenu::new(Language::English, 0, 6, true);
    assert_eq!(s.click_at(13, 10), Some(1));
    assert_eq!(s.selected_index, 1);
    assert_eq!(s.click_at(11, 10), None);
    assert_eq!(s.click_at(16, 10), None);
    assert_eq!(s.click_at(15, 10), Some(3));
    assert_eq!(s.click_at(1, u16::MAX), None);
}
