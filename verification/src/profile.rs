use vstd::prelude::*;
use crate::codec::{base64_encode, base64_encoded, base64_len};
use crate::error::{ErrorKind, LauncherError};
use crate::text::{chars_of, string_from_chars, trim, trim_str};
use crate::theme::{append_str, CloudState, LogEntry};

verus! {

broadcast use vstd::string::group_string_axioms;

/// A config saved in the cloud.
#[derive(Debug)]
pub struct ConfigEntry {
    pub entry_id: i32,
    pub name: String,
}

/// What the launcher shows of the profile: name, avatar, selected config and the configs.
#[derive(Debug)]
pub struct LauncherSettings {
    pub username: String,
    pub avatar_data_url: Option<String>,
    pub selected_config_id: Option<i32>,
    pub configs: Vec<ConfigEntry>,
}

/// Whether a log entry is a config that was not deleted.
pub open spec fn is_live_config(e: LogEntry) -> bool {
    e.entry_type@ == "Config"@ && e.deleted_at is None
}

/// The live configs of a log, in log order, as `(id, name)`.
pub open spec fn live_configs(log: Seq<LogEntry>) -> Seq<(i32, Seq<char>)>
    decreases log.len(),
{
    if log.len() == 0 {
        seq![]
    } else {
        let rest = live_configs(log.drop_last());
        if is_live_config(log.last()) {
            rest.push((log.last().entry_id, log.last().name@))
        } else {
            rest
        }
    }
}

/// A config entry as `(id, name)`.
pub open spec fn config_view(c: ConfigEntry) -> (i32, Seq<char>) {
    (c.entry_id, c.name@)
}

/// The live configs of the cloud's log, in log order.
pub fn config_entries(log: &[LogEntry]) -> (r: Vec<ConfigEntry>)
    ensures
        r@.map_values(|c: ConfigEntry| config_view(c)) == live_configs(log@),
{
    let mut out: Vec<ConfigEntry> = Vec::new();
    let mut i: usize = 0;
    while i < log.len()
        invariant
            i <= log@.len(),
            out@.map_values(|c: ConfigEntry| config_view(c)) == live_configs(log@.take(i as int)),
        decreases log@.len() - i,
    {
        let e = &log[i];
        assert(log@.take(i + 1).drop_last() =~= log@.take(i as int));
        assert(log@.take(i + 1).last() == log@[i as int]);
        if crate::text::str_eq(e.entry_type.as_str(), "Config") && e.deleted_at.is_none() {
            let ghost before = out@;
            out.push(ConfigEntry { entry_id: e.entry_id, name: e.name.clone() });
            assert(out@.map_values(|c: ConfigEntry| config_view(c)) =~= before.map_values(
                |c: ConfigEntry| config_view(c),
            ).push((e.entry_id, e.name@)));
        }
        i = i + 1;
    }
    assert(log@.take(log@.len() as int) =~= log@);
    out
}

/// The settings the launcher shows for a cloud state and an avatar.
pub fn settings_from_state(state: CloudState, avatar_data_url: String) -> (r: LauncherSettings)
    ensures
        r.username@ == state.username@,
        r.avatar_data_url matches Some(a) && a@ == avatar_data_url@,
        r.selected_config_id == state.last_loaded_config_id,
        r.configs@.map_values(|c: ConfigEntry| config_view(c)) == live_configs(state.log@),
{
    let configs = config_entries(state.log.as_slice());
    LauncherSettings {
        username: state.username,
        avatar_data_url: Some(avatar_data_url),
        selected_config_id: state.last_loaded_config_id,
        configs,
    }
}

/// Whether `b` begins with `prefix`.
pub open spec fn bytes_start_with(b: Seq<u8>, prefix: Seq<u8>) -> bool {
    prefix.len() <= b.len() && b.subrange(0, prefix.len() as int) == prefix
}

/// The image type of a picture, told by its first bytes.
pub open spec fn mime_type_of(b: Seq<u8>) -> Option<Seq<char>> {
    if bytes_start_with(b, seq![0x89u8, 0x50, 0x4e, 0x47, 0x0d, 0x0a, 0x1a, 0x0a]) {
        Some("image/png"@)
    } else if bytes_start_with(b, seq![0xffu8, 0xd8, 0xff]) {
        Some("image/jpeg"@)
    } else if bytes_start_with(b, seq![0x47u8, 0x49, 0x46, 0x38, 0x37, 0x61]) || bytes_start_with(
        b,
        seq![0x47u8, 0x49, 0x46, 0x38, 0x39, 0x61],
    ) {
        Some("image/gif"@)
    } else if b.len() >= 12 && bytes_start_with(b, seq![0x52u8, 0x49, 0x46, 0x46])
        && b.subrange(8, 12) == seq![0x57u8, 0x45, 0x42, 0x50] {
        Some("image/webp"@)
    } else {
        None
    }
}

fn starts_with_bytes(b: &[u8], prefix: &[u8]) -> (r: bool)
    ensures
        r == bytes_start_with(b@, prefix@),
{
    if prefix.len() > b.len() {
        return false;
    }
    let mut i: usize = 0;
    while i < prefix.len()
        invariant
            prefix@.len() <= b@.len(),
            i <= prefix@.len(),
            forall|k: int| 0 <= k < i ==> b@[k] == prefix@[k],
        decreases prefix@.len() - i,
    {
        if b[i] != prefix[i] {
            assert(b@.subrange(0, prefix@.len() as int)[i as int] != prefix@[i as int]);
            return false;
        }
        i = i + 1;
    }
    assert(b@.subrange(0, prefix@.len() as int) =~= prefix@);
    true
}

/// The image type of a picture (PNG, JPEG, GIF or WebP), told by its signature.
pub fn image_mime_type(bytes: &[u8]) -> (r: Option<&'static str>)
    ensures
        match mime_type_of(bytes@) {
            Some(m) => r matches Some(s) && s@ == m,
            None => r is None,
        },
{
    let png: [u8; 8] = [0x89, 0x50, 0x4e, 0x47, 0x0d, 0x0a, 0x1a, 0x0a];
    let jpeg: [u8; 3] = [0xff, 0xd8, 0xff];
    let gif7: [u8; 6] = [0x47, 0x49, 0x46, 0x38, 0x37, 0x61];
    let gif9: [u8; 6] = [0x47, 0x49, 0x46, 0x38, 0x39, 0x61];
    let riff: [u8; 4] = [0x52, 0x49, 0x46, 0x46];
    assert(png@ =~= seq![0x89u8, 0x50, 0x4e, 0x47, 0x0d, 0x0a, 0x1a, 0x0a]);
    assert(jpeg@ =~= seq![0xffu8, 0xd8, 0xff]);
    assert(gif7@ =~= seq![0x47u8, 0x49, 0x46, 0x38, 0x37, 0x61]);
    assert(gif9@ =~= seq![0x47u8, 0x49, 0x46, 0x38, 0x39, 0x61]);
    assert(riff@ =~= seq![0x52u8, 0x49, 0x46, 0x46]);
    if starts_with_bytes(bytes, &png) {
        return Some("image/png");
    }
    if starts_with_bytes(bytes, &jpeg) {
        return Some("image/jpeg");
    }
    if starts_with_bytes(bytes, &gif7) || starts_with_bytes(bytes, &gif9) {
        return Some("image/gif");
    }
    if bytes.len() >= 12 && starts_with_bytes(bytes, &riff) && bytes[8] == 0x57 && bytes[9] == 0x45
        && bytes[10] == 0x42 && bytes[11] == 0x50 {
        assert(bytes@.subrange(8, 12) =~= seq![0x57u8, 0x45, 0x42, 0x50]);
        return Some("image/webp");
    }
    if bytes.len() >= 12 && starts_with_bytes(bytes, &riff) {
        let ghost t = bytes@.subrange(8, 12);
        assert(t[0] == bytes@[8] && t[1] == bytes@[9] && t[2] == bytes@[10] && t[3] == bytes@[11]);
        assert(t != seq![0x57u8, 0x45, 0x42, 0x50]) by {
            if t == seq![0x57u8, 0x45, 0x42, 0x50] {
                assert(t[0] == 0x57u8);
            }
        }
    }
    None
}

/// The `data:` URL of an avatar: its image type (PNG when unknown) and its base64 text.
pub open spec fn avatar_url_of(b: Seq<u8>) -> Seq<char> {
    let mime = match mime_type_of(b) {
        Some(m) => m,
        None => "image/png"@,
    };
    "data:"@ + mime + ";base64,"@ + base64_encoded(b)
}

/// The avatar as a `data:` URL.
pub fn avatar_data_url(bytes: &[u8]) -> (r: String)
    requires
        base64_len(bytes@.len()) <= usize::MAX,
    ensures
        r@ == avatar_url_of(bytes@),
{
    let mime = match image_mime_type(bytes) {
        Some(m) => m,
        None => "image/png",
    };
    let mut v = chars_of("data:");
    append_str(&mut v, mime);
    append_str(&mut v, ";base64,");
    let encoded = base64_encode(bytes);
    append_str(&mut v, encoded.as_str());
    string_from_chars(v.as_slice())
}

/// The profile name to save: the given name without surrounding white space, which must not
/// be left empty.
pub fn profile_name(username: &str) -> (r: Result<String, LauncherError>)
    ensures
        trim(username@).len() > 0 ==> (r matches Ok(n) && n@ == trim(username@)),
        trim(username@).len() == 0 ==> (r matches Err(e) && e@ == (
            ErrorKind::Validation,
            "profile name cannot be empty"@,
        )),
{
    let name = trim_str(username);
    if name.as_str().is_empty() {
        Err(crate::error::validation_error("profile name cannot be empty"))
    } else {
        Ok(name)
    }
}

/// Refuses an avatar that is given but empty.
pub fn check_avatar(avatar: &Option<Vec<u8>>) -> (r: Result<(), LauncherError>)
    ensures
        (avatar matches Some(b) && b@.len() == 0) ==> (r matches Err(e) && e@ == (
            ErrorKind::Validation,
            "profile image was empty"@,
        )),
        !(avatar matches Some(b) && b@.len() == 0) ==> r is Ok,
{
    match avatar {
        Some(b) => if b.len() == 0 {
            Err(crate::error::validation_error("profile image was empty"))
        } else {
            Ok(())
        },
        None => Ok(()),
    }
}

#[verifier::external_type_specification]
#[verifier::external_body]
pub struct ExJsonValue(serde_json::Value);

#[verifier::external_type_specification]
#[verifier::external_body]
pub struct ExJsonNumber(serde_json::Number);

#[verifier::external_type_specification]
#[verifier::external_body]
pub struct ExJsonError(serde_json::Error);

/// A JSON value as `serde_json::Value` holds it. An object keeps its entries in the order its
/// map yields them; numbers are carried through as they are.
#[derive(Debug)]
pub enum JsonValue {
    Null,
    Bool(bool),
    Number(serde_json::Number),
    Str(String),
    Array(Vec<JsonValue>),
    Object(Vec<(String, JsonValue)>),
}

/// What `serde_json::from_str::<serde_json::Value>` reads from a text, or `None` when it fails.
pub uninterp spec fn json_value(text: Seq<char>) -> Option<JsonValue>;

/// What `serde_json::to_string_pretty` writes for a value.
pub uninterp spec fn json_pretty(v: JsonValue) -> Seq<char>;

/// Carries a `serde_json::Value` over into `JsonValue`, variant by variant.
#[verifier::external_body]
fn json_value_of(v: &serde_json::Value) -> JsonValue {
    match v {
        serde_json::Value::Null => JsonValue::Null,
        serde_json::Value::Bool(b) => JsonValue::Bool(*b),
        serde_json::Value::Number(n) => JsonValue::Number(n.clone()),
        serde_json::Value::String(t) => JsonValue::Str(t.clone()),
        serde_json::Value::Array(items) => JsonValue::Array(items.iter().map(json_value_of).collect()),
        serde_json::Value::Object(m) => JsonValue::Object(
            m.iter().map(|(k, x)| (k.clone(), json_value_of(x))).collect(),
        ),
    }
}

/// Carries a `JsonValue` back into `serde_json::Value`, variant by variant.
#[verifier::external_body]
fn serde_value_of(v: &JsonValue) -> serde_json::Value {
    match v {
        JsonValue::Null => serde_json::Value::Null,
        JsonValue::Bool(b) => serde_json::Value::Bool(*b),
        JsonValue::Number(n) => serde_json::Value::Number(n.clone()),
        JsonValue::Str(t) => serde_json::Value::String(t.clone()),
        JsonValue::Array(items) => serde_json::Value::Array(items.iter().map(serde_value_of).collect()),
        JsonValue::Object(es) => serde_json::Value::Object(
            es.iter().map(|(k, x)| (k.clone(), serde_value_of(x))).collect(),
        ),
    }
}

/// `serde_json::from_str::<serde_json::Value>`: it fails exactly where the text is not JSON,
/// and otherwise reads the value that `json_value` names.
#[verifier::external_body]
fn parse_json(text: &str) -> (r: Result<JsonValue, serde_json::Error>)
    ensures
        match json_value(text@) {
            None => r is Err,
            Some(v) => r matches Ok(w) && w == v,
        },
{
    serde_json::from_str::<serde_json::Value>(text).map(|v| json_value_of(&v))
}

/// `serde_json::to_string_pretty` of a value: the text that `json_pretty` names. It does not
/// fail: a `Value`'s map keys are strings, and writing into memory does not fail.
#[verifier::external_body]
fn json_to_pretty(v: &JsonValue) -> (r: Result<String, serde_json::Error>)
    ensures
        r is Ok,
        r matches Ok(t) ==> t@ == json_pretty(*v),
{
    serde_json::to_string_pretty(&serde_value_of(v))
}

/// The position of the first entry whose key is `key`.
pub open spec fn first_key(entries: Seq<(String, JsonValue)>, key: Seq<char>) -> Option<int>
    decreases entries.len(),
{
    if entries.len() == 0 {
        None
    } else if entries[0].0@ == key {
        Some(0)
    } else {
        match first_key(entries.drop_first(), key) {
            Some(i) => Some(i + 1),
            None => None,
        }
    }
}

/// `out` is `entries` with `key` set to the string `value`, as `serde_json::Map::insert` sets
/// it: an entry with that key gets the new value, every other entry is kept; without such an
/// entry, one is added at the end.
pub open spec fn string_entry_set(
    entries: Seq<(String, JsonValue)>,
    key: Seq<char>,
    value: Seq<char>,
    out: Seq<(String, JsonValue)>,
) -> bool {
    match first_key(entries, key) {
        Some(i) => {
            &&& out.len() == entries.len()
            &&& out[i].0@ == key
            &&& out[i].1 matches JsonValue::Str(s) && s@ == value
            &&& forall|j: int| 0 <= j < out.len() && j != i ==> #[trigger] out[j] == entries[j]
        },
        None => {
            &&& out.len() == entries.len() + 1
            &&& out.take(entries.len() as int) == entries
            &&& out.last().0@ == key
            &&& out.last().1 matches JsonValue::Str(s) && s@ == value
        },
    }
}

proof fn lemma_first_key(entries: Seq<(String, JsonValue)>, key: Seq<char>)
    ensures
        first_key(entries, key) matches Some(i) ==> 0 <= i < entries.len() && entries[i].0@ == key,
    decreases entries.len(),
{
    if entries.len() > 0 {
        lemma_first_key(entries.drop_first(), key);
    }
}

fn find_key(entries: &Vec<(String, JsonValue)>, key: &str) -> (r: Option<usize>)
    ensures
        match first_key(entries@, key@) {
            Some(i) => r == Some(i as usize) && 0 <= i < entries@.len() && entries@[i].0@ == key@,
            None => r is None,
        },
{
    proof { lemma_first_key(entries@, key@); }
    let mut i: usize = 0;
    assert(entries@.skip(0) =~= entries@);
    while i < entries.len()
        invariant
            i <= entries@.len(),
            first_key(entries@, key@) == match first_key(entries@.skip(i as int), key@) {
                Some(j) => Some(j + i),
                None => None::<int>,
            },
        decreases entries@.len() - i,
    {
        let ghost rest = entries@.skip(i as int);
        assert(rest[0] == entries@[i as int]);
        assert(rest.drop_first() =~= entries@.skip(i + 1));
        if crate::text::str_eq(entries[i].0.as_str(), key) {
            return Some(i);
        }
        i = i + 1;
    }
    None
}

/// Sets `key` to the string `value` among an object's entries.
fn set_string_entry(entries: &mut Vec<(String, JsonValue)>, key: &str, value: &str)
    ensures
        string_entry_set(old(entries)@, key@, value@, final(entries)@),
{
    match find_key(entries, key) {
        Some(i) => {
            let ghost before = entries@;
            entries.set(i, (key.to_owned(), JsonValue::Str(value.to_owned())));
            assert(entries@ == before.update(i as int, entries@[i as int]));
        },
        None => {
            let ghost before = entries@;
            entries.push((key.to_owned(), JsonValue::Str(value.to_owned())));
            assert(entries@.take(before.len() as int) =~= before);
        },
    }
}

/// The `Display` text of a JSON error; what it says is not stated here.
#[verifier::external_body]
fn json_error_text(e: &serde_json::Error) -> String {
    e.to_string()
}

/// `"{lead}{path}: {detail}"`, the shape of the launcher's file error messages.
pub fn path_message(lead: &str, path: &str, detail: &str) -> (r: String)
    ensures
        r@ == lead@ + path@ + ": "@ + detail@,
{
    let mut v = chars_of(lead);
    append_str(&mut v, path);
    append_str(&mut v, ": ");
    append_str(&mut v, detail);
    string_from_chars(v.as_slice())
}

/// Sets `username` in the text of `state.json` (found at `state_path`), keeping every other
/// field, and gives back the new text, pretty-printed.
pub fn update_state_username(state_text: &str, username: &str, state_path: &str) -> (r: Result<
    String,
    LauncherError,
>)
    ensures
        json_value(state_text@) is None ==> (r matches Err(e) && e@.0 == ErrorKind::SerdeJson
            && crate::text::has_prefix(e@.1, "failed to parse "@ + state_path@ + ": "@)),
        json_value(state_text@) matches Some(v) && !(v is Object) ==> (r matches Err(e) && e@ == (
            ErrorKind::Validation,
            "state.json root was not an object"@,
        )),
        json_value(state_text@) matches Some(JsonValue::Object(entries)) ==> (r matches Ok(t)
            && exists|out: Vec<(String, JsonValue)>|
            string_entry_set(entries@, "username"@, username@, out@) && t@ == json_pretty(
                JsonValue::Object(out),
            )),
{
    let root = match parse_json(state_text) {
        Ok(v) => v,
        Err(e) => {
            let m = path_message("failed to parse ", state_path, json_error_text(&e).as_str());
            proof {
                let p = "failed to parse "@ + state_path@ + ": "@;
                assert(m@.subrange(0, p.len() as int) =~= p);
            }
            return Err(LauncherError::SerdeJson(m));
        },
    };
    let mut entries = match root {
        JsonValue::Object(es) => es,
        _ => return Err(crate::error::validation_error("state.json root was not an object")),
    };
    set_string_entry(&mut entries, "username", username);
    let updated = JsonValue::Object(entries);
    match json_to_pretty(&updated) {
        Ok(text) => Ok(text),
        Err(e) => {
            let m = path_message("failed to serialize ", state_path, json_error_text(&e).as_str());
            Err(LauncherError::SerdeJson(m))
        },
    }
}

} // verus!
