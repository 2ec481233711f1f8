use base64::Engine as _;
use nadeloader::codec::MsgValue;
use nadeloader::error::LauncherError;
use nadeloader::theme::{
    alpha_color, build_launcher_variables, color, colors_slicing_safe, decode_style_channels,
    default_theme, extract_style_id_from_type7, hex_color, hex_is_slicing_safe,
    nl_cloud_path, opaque_color, sanitize_filename, select_style, style_channel, builtin_style,
    builtin_style_file, builtin_theme_source, BuiltinStyle,
    Channel, CloudState, LogEntry, StyleSelection, ThemeColor,
};
use rmpv::Value;

fn encode(v: &Value) -> String {
    let mut bytes = Vec::new();
    rmpv::encode::write_value(&mut bytes, v).unwrap();
    base64::engine::general_purpose::STANDARD.encode(bytes)
}

fn type7_blob(style_id: i64) -> String {
    let inner = Value::Map(vec![(Value::from("277698370"), Value::from(style_id))]);
    let middle = Value::Map(vec![(Value::from("993947594"), inner)]);
    let outer = Value::Map(vec![(Value::from("2090499946"), middle)]);
    encode(&outer)
}

fn tc(css: &str, hex: &str) -> ThemeColor {
    ThemeColor { css: css.to_string(), hex: hex.to_string() }
}

fn lookup<'a>(vars: &'a [(String, String)], name: &str) -> Option<&'a str> {
    vars.iter().find(|(k, _)| k == name).map(|(_, v)| v.as_str())
}

#[test]
fn sanitize_replaces_reserved_characters() {
    assert_eq!(sanitize_filename("a<b>c:d\"e/f\\g|h?i*j"), "a_b_c_d_e_f_g_h_i_j");
}

#[test]
fn sanitize_replaces_control_characters() {
    assert_eq!(sanitize_filename("tab\there"), "tab_here");
    assert_eq!(sanitize_filename("x\u{85}y"), "x_y");
}

#[test]
fn sanitize_strips_trailing_dots_and_spaces() {
    assert_eq!(sanitize_filename("my style. . "), "my style");
    assert_eq!(sanitize_filename("  lead"), "  lead");
}

#[test]
fn sanitize_falls_back_to_unnamed() {
    assert_eq!(sanitize_filename(""), "unnamed");
    assert_eq!(sanitize_filename("..."), "unnamed");
    assert_eq!(sanitize_filename(" . "), "unnamed");
}

#[test]
fn sanitize_trailing_control_becomes_underscore() {
    // A control character is replaced before trailing junk is stripped.
    assert_eq!(sanitize_filename("a\u{1}"), "a_");
}

#[test]
fn sanitize_is_idempotent_on_examples() {
    for name in ["a<b", "x. ", "", "plain", "q?*\u{7f}."] {
        let once = sanitize_filename(name);
        assert_eq!(sanitize_filename(&once), once);
    }
}

#[test]
fn default_theme_keeps_source_and_values() {
    let t = default_theme("no style");
    assert_eq!(t.source, "no style");
    assert_eq!(t.variables.len(), 14);
    assert_eq!(lookup(&t.variables, "--nl-main-bg"), Some("#080206"));
    assert_eq!(lookup(&t.variables, "--nl-spinner"), Some("#f472b6"));
    assert_eq!(lookup(&t.variables, "--nl-popup-bg"), Some("rgba(8, 2, 6, 0.65)"));
}

#[test]
fn default_theme_names_are_covered_by_built_theme() {
    let d = default_theme("x");
    let built = build_launcher_variables(&[]);
    for (name, _) in &d.variables {
        assert!(lookup(&built, name).is_some(), "{name}");
    }
}

#[test]
fn built_theme_without_colours_uses_fallbacks() {
    let v = build_launcher_variables(&[]);
    assert_eq!(v.len(), 31);
    assert_eq!(lookup(&v, "--nl-text"), Some("rgba(255, 255, 255, 0.88)"));
    assert_eq!(lookup(&v, "--nl-spinner"), Some("#ff6bb5"));
    assert_eq!(lookup(&v, "--nl-main-bg-opaque"), Some("#080206"));
    assert_eq!(lookup(&v, "--nl-shadow-soft"), Some("rgba(136, 30, 80, 0.3)"));
    let mut names: Vec<&String> = v.iter().map(|(k, _)| k).collect();
    names.sort();
    names.dedup();
    assert_eq!(names.len(), 31);
}

#[test]
fn built_theme_reads_colours() {
    let colors: Vec<ThemeColor> = (0..45)
        .map(|i| tc(&format!("css{i}"), "#102030FF"))
        .collect();
    let v = build_launcher_variables(&colors);
    assert_eq!(lookup(&v, "--nl-text"), Some("css0"));
    assert_eq!(lookup(&v, "--nl-popup-bg"), Some("css8"));
    assert_eq!(lookup(&v, "--nl-main-bg-opaque"), Some("rgba(16, 32, 48, 1.000)"));
    assert_eq!(lookup(&v, "--nl-block-bg-opaque"), Some("rgba(16, 32, 48, 1.000)"));
    assert_eq!(lookup(&v, "--nl-shadow-soft"), Some("rgba(16, 32, 48, 0.480)"));
    assert_eq!(lookup(&v, "--nl-logo-back"), Some("css44"));
}

#[test]
fn color_falls_back_past_the_end() {
    let colors = vec![tc("a", "#000000")];
    assert_eq!(color(&colors, 0, "fb"), "a");
    assert_eq!(color(&colors, 1, "fb"), "fb");
}

#[test]
fn alpha_color_parses_hex() {
    let colors = vec![tc("x", "##FF8000")];
    assert_eq!(alpha_color(&colors, 0, "fb", 250), "rgba(255, 128, 0, 0.250)");
    assert_eq!(alpha_color(&colors, 0, "fb", -5), "rgba(255, 128, 0, 0.000)");
    assert_eq!(alpha_color(&colors, 0, "fb", 4000), "rgba(255, 128, 0, 1.000)");
    assert_eq!(opaque_color(&colors, 0, "fb"), "rgba(255, 128, 0, 1.000)");
}

#[test]
fn alpha_color_falls_back() {
    assert_eq!(alpha_color(&[tc("x", "#12345")], 0, "fb", 1000), "fb");
    assert_eq!(alpha_color(&[tc("x", "#12G456")], 0, "fb", 1000), "fb");
    assert_eq!(alpha_color(&[], 3, "fb", 1000), "fb");
}

#[test]
fn alpha_color_accepts_plus_sign_like_from_str_radix() {
    assert_eq!(alpha_color(&[tc("x", "+F0A0B")], 0, "fb", 1000), "rgba(15, 10, 11, 1.000)");
}

#[test]
fn hex_slicing_safety() {
    assert!(hex_is_slicing_safe("#FF00FF"));
    assert!(hex_is_slicing_safe("#é1"));
    assert!(!hex_is_slicing_safe("a€bcdef"));
    assert!(hex_is_slicing_safe("é1234567"));
    let ok: Vec<ThemeColor> = (0..45).map(|_| tc("x", "#000000")).collect();
    assert!(colors_slicing_safe(&ok));
}

#[test]
fn hex_color_is_upper_case() {
    assert_eq!(hex_color(255, 10, 0, 171), "#FF0A00AB");
}

#[test]
fn type7_blob_selects_style() {
    assert_eq!(extract_style_id_from_type7(&type7_blob(42)), Some(42));
    let padded = format!("  {}\n", type7_blob(-7));
    assert_eq!(extract_style_id_from_type7(&padded), Some(-7));
}

#[test]
fn type7_blob_rejections() {
    assert_eq!(extract_style_id_from_type7("not base64!"), None);
    assert_eq!(extract_style_id_from_type7(&type7_blob(1 << 40)), None);
    assert_eq!(extract_style_id_from_type7(&encode(&Value::from(5))), None);
    let wrong = Value::Map(vec![(Value::from("2090499946"), Value::from(1))]);
    assert_eq!(extract_style_id_from_type7(&encode(&wrong)), None);
}

fn channel_map(a: f64, r: f64, g: f64, b: f64) -> Value {
    Value::Map(vec![
        (Value::from("177670"), Value::F64(a)),
        (Value::from("177687"), Value::F64(r)),
        (Value::from("177676"), Value::F64(g)),
        (Value::from("177671"), Value::F64(b)),
    ])
}

#[test]
fn style_channels_decode() {
    let style = Value::Array(vec![channel_map(1.0, 0.5, 0.25, 0.0), channel_map(0.1, 0.2, 0.3, 0.4)]);
    let cs = decode_style_channels(&encode(&style)).unwrap();
    assert_eq!(cs.len(), 2);
    assert_eq!(cs[0].alpha, Channel::F64(1.0f64.to_bits()));
    assert_eq!(cs[0].red, Channel::F64(0.5f64.to_bits()));
    assert_eq!(cs[1].blue, Channel::F64(0.4f64.to_bits()));
}

#[test]
fn style_channels_accept_integers() {
    let m = Value::Map(vec![
        (Value::from("177670"), Value::from(1)),
        (Value::from("177687"), Value::from(0)),
        (Value::from("177676"), Value::from(0)),
        (Value::from("177671"), Value::from(0)),
    ]);
    let cs = decode_style_channels(&encode(&Value::Array(vec![m]))).unwrap();
    assert_eq!(cs[0].alpha, Channel::Int(Some(1), Some(1)));
}

#[test]
fn style_channels_errors() {
    assert!(matches!(decode_style_channels("@@@@"), Err(LauncherError::Validation(m)) if m.starts_with("base64 decode failed: ")));
    assert!(matches!(decode_style_channels(""), Err(LauncherError::MessagePack(_))));
    assert_eq!(
        decode_style_channels(&encode(&Value::from(3))).unwrap_err(),
        LauncherError::Validation("style payload was not an array".to_string())
    );
    assert_eq!(
        decode_style_channels(&encode(&Value::Array(vec![Value::from(1)]))).unwrap_err(),
        LauncherError::Validation("style color entry was not a map".to_string())
    );
    let missing_green = Value::Map(vec![
        (Value::from("177670"), Value::F64(1.0)),
        (Value::from("177687"), Value::F64(1.0)),
        (Value::from("177676"), Value::from("text")),
    ]);
    assert_eq!(
        decode_style_channels(&encode(&Value::Array(vec![missing_green]))).unwrap_err(),
        LauncherError::Validation("style color entry was missing channel 177676".to_string())
    );
}

#[test]
fn style_channel_skips_non_numbers() {
    let entries = vec![
        (MsgValue::Text(Some("177670".to_string())), MsgValue::Nil),
        (MsgValue::Text(Some("177670".to_string())), MsgValue::F32(7)),
    ];
    assert_eq!(style_channel(&entries, "177670").unwrap(), Channel::F32(7));
}

fn entry(id: i32, kind: &str, name: &str, deleted: Option<i32>) -> LogEntry {
    LogEntry { entry_id: id, entry_type: kind.to_string(), name: name.to_string(), deleted_at: deleted }
}

fn state(blob: Option<String>, last_style: Option<i32>, log: Vec<LogEntry>) -> CloudState {
    CloudState {
        username: "user".to_string(),
        type7_blob: blob,
        last_loaded_config_id: None,
        last_loaded_style_id: last_style,
        log,
    }
}

#[test]
fn select_style_prefers_type7_blob() {
    let s = state(
        Some(type7_blob(5)),
        Some(6),
        vec![entry(6, "Style", "six", None), entry(5, "Style", "Five:Dark.", None)],
    );
    assert!(matches!(select_style(&s, &[]), StyleSelection::File(f) if f == "5_Five_Dark.style"));
}

#[test]
fn select_style_falls_back_to_last_loaded() {
    let s = state(Some("???".to_string()), Some(6), vec![entry(6, "Style", "six", None)]);
    assert!(matches!(select_style(&s, &[]), StyleSelection::File(f) if f == "6_six.style"));
}

#[test]
fn select_style_skips_deleted_and_configs() {
    let s = state(
        None,
        Some(3),
        vec![entry(3, "Config", "c", None), entry(3, "Style", "old", Some(1)), entry(3, "Style", "new", None)],
    );
    assert!(matches!(select_style(&s, &[]), StyleSelection::File(f) if f == "3_new.style"));
    let none = state(None, Some(3), vec![entry(3, "Style", "gone", Some(9))]);
    assert!(matches!(select_style(&none, &[]), StyleSelection::NotFound));
    let unset = state(None, None, vec![]);
    assert!(matches!(select_style(&unset, &[]), StyleSelection::NoStyle));
}

#[test]
fn cloud_path_needs_steam() {
    assert_eq!(nl_cloud_path(None).unwrap_err(), LauncherError::System("steam not found".to_string()));
    let p = nl_cloud_path(Some("C:\\Steam".to_string())).unwrap();
    assert!(p.starts_with("C:\\Steam"));
    assert!(p.ends_with("steamapps\\common\\Counter-Strike Global Offensive\\nl_cloud"));
    assert_eq!(p.len(), "C:\\Steam".len() + 1 + "steamapps\\common\\Counter-Strike Global Offensive\\nl_cloud".len());
}

#[test]
fn cloud_path_adds_one_separator() {
    let seg = "steamapps\\common\\Counter-Strike Global Offensive\\nl_cloud";
    let j = nl_cloud_path(Some("base".to_string())).unwrap();
    assert!(j == format!("base/{seg}") || j == format!("base\\{seg}"));
    assert_eq!(nl_cloud_path(Some(String::new())).unwrap(), seg);
}

fn builtins() -> Vec<BuiltinStyle> {
    vec![
        BuiltinStyle { style_id: 10, name: "Blue".to_string(), text: "b".to_string() },
        BuiltinStyle { style_id: 11, name: "Black".to_string(), text: "k".to_string() },
        BuiltinStyle { style_id: 10, name: "Light".to_string(), text: "l".to_string() },
    ]
}

#[test]
fn builtin_styles_are_found_by_id() {
    let b = builtins();
    assert_eq!(builtin_style(&b, 11), Some(("Black".to_string(), "k".to_string())));
    assert_eq!(builtin_style(&b, 10), Some(("Blue".to_string(), "b".to_string())));
    assert_eq!(builtin_style(&b, 12), None);
}

#[test]
fn builtin_style_wins_over_the_log() {
    let s = CloudState {
        username: String::new(),
        type7_blob: None,
        last_loaded_config_id: None,
        last_loaded_style_id: Some(11),
        log: vec![LogEntry { entry_id: 11, entry_type: "Style".to_string(), name: "x".to_string(), deleted_at: None }],
    };
    assert!(matches!(select_style(&s, &builtins()), StyleSelection::Builtin(n, t) if n == "Black" && t == "k"));
    assert!(matches!(select_style(&s, &[]), StyleSelection::File(f) if f == "11_x.style"));
}

#[test]
fn builtin_style_file_names() {
    assert_eq!(builtin_style_file("177671_Blue.style"), Some((177671, "Blue".to_string())));
    assert_eq!(builtin_style_file("7_My_Light.style"), Some((7, "My_Light".to_string())));
    assert_eq!(builtin_style_file("2147483647_.style"), Some((i32::MAX, String::new())));
    assert_eq!(builtin_style_file("2147483648_Big.style"), None);
    assert_eq!(builtin_style_file("-1_Neg.style"), None);
    assert_eq!(builtin_style_file("_Blue.style"), None);
    assert_eq!(builtin_style_file("12Blue.style"), None);
    assert_eq!(builtin_style_file("12_Blue.txt"), None);
    assert_eq!(builtin_style_file(".style"), None);
}

#[test]
fn builtin_theme_source_names_the_style() {
    assert_eq!(builtin_theme_source("Blue"), "built-in Blue style");
}

#[test]
fn cloud_path_under_a_verbatim_steam_path() {
    let seg = "steamapps\\common\\Counter-Strike Global Offensive\\nl_cloud";
    let j = nl_cloud_path(Some("\\\\?\\C:\\Steam".to_string())).unwrap();
    assert!(j == format!("\\\\?\\C:\\Steam/{seg}") || j == format!("\\\\?\\C:\\Steam\\{seg}"));
}
