use nadeloader::error::LauncherError;
use nadeloader::profile::{
    avatar_data_url, check_avatar, config_entries, image_mime_type, path_message, profile_name,
    settings_from_state, update_state_username,
};
use nadeloader::theme::{CloudState, LogEntry};

fn entry(id: i32, kind: &str, name: &str, deleted: Option<i32>) -> LogEntry {
    LogEntry { entry_id: id, entry_type: kind.to_string(), name: name.to_string(), deleted_at: deleted }
}

#[test]
fn configs_are_live_config_entries_in_order() {
    let log = vec![
        entry(1, "Config", "one", None),
        entry(2, "Style", "s", None),
        entry(3, "Config", "three", Some(5)),
        entry(4, "Config", "four", None),
    ];
    let c = config_entries(&log);
    assert_eq!(c.len(), 2);
    assert_eq!((c[0].entry_id, c[0].name.as_str()), (1, "one"));
    assert_eq!((c[1].entry_id, c[1].name.as_str()), (4, "four"));
}

#[test]
fn settings_come_from_state() {
    let st = CloudState {
        username: "nade".to_string(),
        type7_blob: None,
        last_loaded_config_id: Some(9),
        last_loaded_style_id: None,
        log: vec![entry(9, "Config", "main", None)],
    };
    let s = settings_from_state(st, "data:x".to_string());
    assert_eq!(s.username, "nade");
    assert_eq!(s.avatar_data_url.as_deref(), Some("data:x"));
    assert_eq!(s.selected_config_id, Some(9));
    assert_eq!(s.configs.len(), 1);
}

#[test]
fn mime_types_by_signature() {
    assert_eq!(image_mime_type(&[0x89, b'P', b'N', b'G', 0x0D, 0x0A, 0x1A, 0x0A, 1]), Some("image/png"));
    assert_eq!(image_mime_type(&[0xFF, 0xD8, 0xFF, 0xE0]), Some("image/jpeg"));
    assert_eq!(image_mime_type(b"GIF87a..."), Some("image/gif"));
    assert_eq!(image_mime_type(b"GIF89a"), Some("image/gif"));
    assert_eq!(image_mime_type(b"RIFF\0\0\0\0WEBPVP8 "), Some("image/webp"));
    assert_eq!(image_mime_type(b"RIFF\0\0\0\0WAVE"), None);
    assert_eq!(image_mime_type(b"RIFF"), None);
    assert_eq!(image_mime_type(b""), None);
}

#[test]
fn avatar_url_embeds_type_and_base64() {
    assert_eq!(avatar_data_url(&[0xFF, 0xD8, 0xFF]), "data:image/jpeg;base64,/9j/");
    assert_eq!(avatar_data_url(b"hi"), "data:image/png;base64,aGk=");
}

#[test]
fn profile_name_is_trimmed_and_required() {
    assert_eq!(profile_name("  nade \n").unwrap(), "nade");
    assert_eq!(
        profile_name(" \t ").unwrap_err(),
        LauncherError::Validation("profile name cannot be empty".to_string())
    );
}

#[test]
fn empty_avatar_is_refused() {
    assert_eq!(
        check_avatar(&Some(vec![])).unwrap_err(),
        LauncherError::Validation("profile image was empty".to_string())
    );
    assert!(check_avatar(&Some(vec![1])).is_ok());
    assert!(check_avatar(&None).is_ok());
}

#[test]
fn username_is_set_in_state_json() {
    let out = update_state_username("{\"username\":\"old\",\"log\":[]}", "new", "state.json").unwrap();
    let v: serde_json::Value = serde_json::from_str(&out).unwrap();
    assert_eq!(v["username"], "new");
    assert!(v["log"].as_array().unwrap().is_empty());
    assert!(out.contains("\n"));
}

#[test]
fn state_json_errors() {
    let e = update_state_username("{oops", "n", "C:\\x\\state.json").unwrap_err();
    assert!(matches!(e, LauncherError::SerdeJson(m) if m.starts_with("failed to parse C:\\x\\state.json: ")));
    assert_eq!(
        update_state_username("[1]", "n", "p").unwrap_err(),
        LauncherError::Validation("state.json root was not an object".to_string())
    );
    assert_eq!(path_message("failed to read ", "p", "boom"), "failed to read p: boom");
}

#[test]
fn username_is_added_and_other_fields_kept() {
    let out = update_state_username("{\"b\":[1,2.5,{\"c\":null}],\"a\":true}", "me", "s").unwrap();
    let v: serde_json::Value = serde_json::from_str(&out).unwrap();
    let want: serde_json::Value =
        serde_json::from_str("{\"a\":true,\"b\":[1,2.5,{\"c\":null}],\"username\":\"me\"}").unwrap();
    assert_eq!(v, want);
    assert_eq!(out, serde_json::to_string_pretty(&want).unwrap());
}
