use blast_radius_engine::settings::{GlobalSettings, SettingsState};

fn state(recent: &[&str], last: Option<&str>) -> SettingsState {
    SettingsState {
        settings: GlobalSettings {
            recent_workspaces: recent.iter().map(|s| s.to_string()).collect(),
            last_opened_path: last.map(|s| s.to_string()),
        },
        file_path: "settings.json".to_string(),
    }
}

#[test]
fn update_recent_moves_path_to_front() {
    let mut s = state(&["/a", "/b", "/c"], None);
    s.update_recent("/b".to_string());
    assert_eq!(s.settings.recent_workspaces, vec!["/b", "/a", "/c"]);
    assert_eq!(s.settings.last_opened_path.as_deref(), Some("/b"));
}

#[test]
fn update_recent_adds_new_path_first() {
    let mut s = state(&["/a"], Some("/a"));
    s.update_recent("/z".to_string());
    assert_eq!(s.settings.recent_workspaces, vec!["/z", "/a"]);
    assert_eq!(s.settings.last_opened_path.as_deref(), Some("/z"));
}

#[test]
fn update_recent_keeps_at_most_ten() {
    let names: Vec<String> = (0..10).map(|i| format!("/p{}", i)).collect();
    let refs: Vec<&str> = names.iter().map(|s| s.as_str()).collect();
    let mut s = state(&refs, None);
    s.update_recent("/new".to_string());
    assert_eq!(s.settings.recent_workspaces.len(), 10);
    assert_eq!(s.settings.recent_workspaces[0], "/new");
    assert_eq!(s.settings.recent_workspaces[9], "/p8");
    assert!(!s.settings.recent_workspaces.contains(&"/p9".to_string()));
}

#[test]
fn update_recent_twice_is_once() {
    let mut a = state(&["/a", "/b"], None);
    a.update_recent("/c".to_string());
    let once = a.settings.recent_workspaces.clone();
    a.update_recent("/c".to_string());
    assert_eq!(a.settings.recent_workspaces, once);
}

#[test]
fn clear_recent_empties_everything() {
    let mut s = state(&["/a", "/b"], Some("/a"));
    s.clear_recent();
    assert!(s.settings.recent_workspaces.is_empty());
    assert_eq!(s.settings.last_opened_path, None);
    assert_eq!(s.file_path, "settings.json");
}

#[test]
fn remove_recent_drops_path_and_last_opened() {
    let mut s = state(&["/a", "/b", "/a"], Some("/a"));
    s.remove_recent("/a");
    assert_eq!(s.settings.recent_workspaces, vec!["/b"]);
    assert_eq!(s.settings.last_opened_path, None);
}

#[test]
fn remove_recent_keeps_other_last_opened() {
    let mut s = state(&["/a", "/b"], Some("/b"));
    s.remove_recent("/a");
    assert_eq!(s.settings.recent_workspaces, vec!["/b"]);
    assert_eq!(s.settings.last_opened_path.as_deref(), Some("/b"));
}

#[test]
fn remove_recent_of_unknown_path_changes_nothing() {
    let mut s = state(&["/a", "/b"], Some("/b"));
    s.remove_recent("/x");
    assert_eq!(s.settings.recent_workspaces, vec!["/a", "/b"]);
    assert_eq!(s.settings.last_opened_path.as_deref(), Some("/b"));
}
