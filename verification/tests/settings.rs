use bangs::settings::{clean_tab_order, Settings, SettingsState, StoredSettings};
use serde_json::Value;

fn flag(document: &Value, name: &str) -> Option<bool> {
    document.get(name).and_then(Value::as_bool)
}

fn text(document: &Value, name: &str) -> Option<String> {
    document.get(name).and_then(Value::as_str).map(str::to_string)
}

fn read(raw: &str) -> Settings {
    let document: Value = serde_json::from_str(raw).unwrap();
    StoredSettings {
        visible: flag(&document, "visible"),
        expand_on_hover: flag(&document, "expandOnHover"),
        idle_handle: flag(&document, "idleHandle"),
        notify_claude_idle: flag(&document, "notifyClaudeIdle"),
        lyrics_enabled: flag(&document, "lyricsEnabled"),
        lyrics_translation_enabled: flag(&document, "lyricsTranslationEnabled"),
        clipboard_history: flag(&document, "clipboardHistory"),
        display: text(&document, "display"),
        language: text(&document, "language"),
        tab_order: document.get("tabOrder").and_then(Value::as_array).map(|ids| {
            ids.iter().filter_map(Value::as_str).map(str::to_string).collect()
        }),
    }
    .restore()
}

fn ids(names: &[&str]) -> Vec<String> {
    names.iter().map(|name| name.to_string()).collect()
}

#[test]
fn old_settings_keep_the_default_tab_order() {
    let settings: Settings = read(r#"{"lyricsEnabled":true}"#);
    assert!(settings.tab_order.is_empty());
}

#[test]
fn old_settings_enable_lyric_translations_by_default() {
    let settings: Settings = read(r#"{"lyricsEnabled":true}"#);
    assert!(settings.lyrics_translation_enabled);
}

#[test]
fn written_settings_outweigh_the_defaults() {
    let settings = read(
        r#"{"visible":false,"expandOnHover":false,"idleHandle":false,"notifyClaudeIdle":false,
            "lyricsEnabled":false,"lyricsTranslationEnabled":false,"clipboardHistory":false,
            "display":"Studio","language":"zh","tabOrder":["music","dev"]}"#,
    );
    assert!(!settings.visible && !settings.expand_on_hover && !settings.idle_handle);
    assert!(!settings.notify_claude_idle && !settings.lyrics_enabled);
    assert!(!settings.lyrics_translation_enabled && !settings.clipboard_history);
    assert_eq!(settings.display.as_deref(), Some("Studio"));
    assert_eq!(settings.language.as_deref(), Some("zh"));
    assert_eq!(settings.tab_order, ids(&["music", "dev"]));
}

#[test]
fn everything_is_on_by_default() {
    let settings = SettingsState::new(None).get();
    assert_eq!(settings, Settings::default());
    assert!(settings.visible && settings.expand_on_hover && settings.idle_handle);
    assert!(settings.notify_claude_idle && settings.lyrics_enabled);
    assert!(settings.lyrics_translation_enabled && settings.clipboard_history);
    assert_eq!(settings.display, None);
    assert_eq!(settings.language, None);
}

#[test]
fn updates_hand_back_both_settings() {
    let mut state = SettingsState::new(None);
    let mut next = state.get();
    next.visible = false;
    let (before, after) = state.update(next);
    assert!(before.visible);
    assert!(!after.visible);
    assert_eq!(state.get(), after);
}

#[test]
fn tab_orders_are_cleaned() {
    let long = "x".repeat(33);
    let fits = "x".repeat(32);
    // 11 characters of three bytes each.
    let wide = "音".repeat(11);
    let order = ids(&["music", "", "dev", "music", &long, &fits, &wide, "todo"]);
    let kept = clean_tab_order(&order);
    assert_eq!(kept, ids(&["music", "dev", &fits, "todo"]));
    assert_eq!(clean_tab_order(&kept), kept);
}

#[test]
fn tab_orders_keep_32_ids() {
    let order: Vec<String> = (0..40).map(|n| format!("tab{n}")).collect();
    let kept = clean_tab_order(&order);
    assert_eq!(kept, order[..32]);
}

#[test]
fn a_new_tab_order_is_told_once() {
    let mut state = SettingsState::new(None);
    let (before, after) = state.set_tab_order(&ids(&["b", "a", "b"])).unwrap();
    assert!(before.tab_order.is_empty());
    assert_eq!(after.tab_order, ids(&["b", "a"]));
    assert!(state.set_tab_order(&ids(&["b", "a"])).is_none());
    assert_eq!(state.get().tab_order, ids(&["b", "a"]));
}
