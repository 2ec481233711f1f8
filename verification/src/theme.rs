use vstd::prelude::*;
use crate::text::{
    chars_of, control_char, decimal, decimal_chars, digit_char, is_control_char, owned,
    slice_subrange, string_from_chars,
};
use vstd::string::StringSliceAdditionalSpecFns;
use crate::codec::{
    base64_decoded, decode_base64, map_get, map_get_spec, msgpack_value,
    decode_msgpack, MsgValue,
};
use crate::error::{ErrorKind, LauncherError};

verus! {

broadcast use vstd::string::group_string_axioms;

/// A theme for the launcher window: where it came from, and the CSS variables it sets, in the
/// order they are set; no name occurs twice.
#[derive(Debug)]
pub struct LauncherTheme {
    pub source: String,
    pub variables: Vec<(String, String)>,
}

/// Appends one `(name, value)` pair.
fn push_var(vars: &mut Vec<(String, String)>, name: &str, value: String)
    ensures
        final(vars).deep_view() == old(vars).deep_view().push((name@, value@)),
{
    let ghost before = vars.deep_view();
    vars.push((name.to_owned(), value));
    assert(vars.deep_view() =~= before.push((name@, value@)));
}

/// One entry of the cloud's change log: a config or a style that was saved, maybe since deleted.
#[derive(Debug)]
pub struct LogEntry {
    pub entry_id: i32,
    pub entry_type: String,
    pub name: String,
    pub deleted_at: Option<i32>,
}

/// What the launcher reads from the cloud's `state.json`.
#[derive(Debug)]
pub struct CloudState {
    pub username: String,
    pub type7_blob: Option<String>,
    pub last_loaded_config_id: Option<i32>,
    pub last_loaded_style_id: Option<i32>,
    pub log: Vec<LogEntry>,
}

/// The map keys that lead, inside the type-7 blob, to the selected style.
pub open spec fn selection_key_1() -> Seq<char> {
    "2090499946"@
}

pub open spec fn selection_key_2() -> Seq<char> {
    "993947594"@
}

pub open spec fn selection_key_3() -> Seq<char> {
    "277698370"@
}

/// The selected style id inside a decoded type-7 value: three map lookups, then the integer,
/// which has to fit an `i32`.
pub open spec fn style_id_of_value(v: MsgValue) -> Option<i32> {
    match map_get_spec(v, selection_key_1()) {
        Some(a) => match map_get_spec(a, selection_key_2()) {
            Some(b) => match map_get_spec(b, selection_key_3()) {
                Some(MsgValue::Integer(Some(n), _)) => if i32::MIN <= n <= i32::MAX {
                    Some(n as i32)
                } else {
                    None
                },
                _ => None,
            },
            None => None,
        },
        None => None,
    }
}

/// The style id that a type-7 blob selects: the blob is base64 (around white space) of a
/// MessagePack value.
pub open spec fn style_id_from_type7(blob: Seq<char>) -> Option<i32> {
    match base64_decoded(crate::text::trim(blob)) {
        Some(bytes) => match msgpack_value(bytes) {
            Some(v) => style_id_of_value(v),
            None => None,
        },
        None => None,
    }
}

/// Reads the selected style id out of the cloud's type-7 blob.
pub fn extract_style_id_from_type7(blob_b64: &str) -> (r: Option<i32>)
    ensures
        r == style_id_from_type7(blob_b64@),
{
    let trimmed = crate::text::trim_str(blob_b64);
    let bytes = match decode_base64(trimmed.as_str()) {
        Ok(b) => b,
        Err(_) => return None,
    };
    let value = match decode_msgpack(bytes.as_slice()) {
        Ok(v) => v,
        Err(_) => return None,
    };
    let a = match map_get(&value, "2090499946") {
        Some(a) => a,
        None => return None,
    };
    let b = match map_get(a, "993947594") {
        Some(b) => b,
        None => return None,
    };
    let c = match map_get(b, "277698370") {
        Some(c) => c,
        None => return None,
    };
    match c {
        MsgValue::Integer(Some(n), _) => if i32::MIN as i64 <= *n && *n <= i32::MAX as i64 {
            Some(*n as i32)
        } else {
            None
        },
        _ => None,
    }
}

/// A style the launcher ships: its id, its name and its style text.
#[derive(Debug)]
pub struct BuiltinStyle {
    pub style_id: i32,
    pub name: String,
    pub text: String,
}

/// The position of the first built-in style with this id.
pub open spec fn first_builtin(styles: Seq<BuiltinStyle>, id: i32) -> Option<int>
    decreases styles.len(),
{
    if styles.len() == 0 {
        None
    } else if styles[0].style_id == id {
        Some(0)
    } else {
        match first_builtin(styles.drop_first(), id) {
            Some(i) => Some(i + 1),
            None => None,
        }
    }
}

proof fn lemma_first_builtin(styles: Seq<BuiltinStyle>, id: i32)
    ensures
        first_builtin(styles, id) matches Some(i) ==> 0 <= i < styles.len() && styles[i].style_id == id,
    decreases styles.len(),
{
    if styles.len() > 0 {
        lemma_first_builtin(styles.drop_first(), id);
    }
}

/// The built-in style with this id, by name and style text.
pub fn builtin_style(styles: &[BuiltinStyle], style_id: i32) -> (r: Option<(String, String)>)
    ensures
        match first_builtin(styles@, style_id) {
            Some(i) => r matches Some((n, t)) && n@ == styles@[i].name@ && t@ == styles@[i].text@,
            None => r is None,
        },
{
    proof { lemma_first_builtin(styles@, style_id); }
    let mut i: usize = 0;
    assert(styles@.skip(0) =~= styles@);
    while i < styles.len()
        invariant
            i <= styles@.len(),
            first_builtin(styles@, style_id) == match first_builtin(styles@.skip(i as int), style_id) {
                Some(j) => Some(j + i),
                None => None::<int>,
            },
        decreases styles@.len() - i,
    {
        let ghost rest = styles@.skip(i as int);
        assert(rest[0] == styles@[i as int]);
        assert(rest.drop_first() =~= styles@.skip(i + 1));
        if styles[i].style_id == style_id {
            return Some((owned(styles[i].name.as_str()), owned(styles[i].text.as_str())));
        }
        i = i + 1;
    }
    None
}

/// Where a theme built from a built-in style says it came from: `built-in {name} style`.
pub fn builtin_theme_source(name: &str) -> (r: String)
    ensures
        r@ == "built-in "@ + name@ + " style"@,
{
    let mut v = chars_of("built-in ");
    append_str(&mut v, name);
    append_str(&mut v, " style");
    string_from_chars(v.as_slice())
}

/// Whether `s` is one or more ASCII digits.
pub open spec fn all_digits(s: Seq<char>) -> bool {
    s.len() > 0 && forall|i: int| 0 <= i < s.len() ==> '0' <= #[trigger] s[i] <= '9'
}

/// The number that the decimal digits `s` spell.
pub open spec fn digits_value(s: Seq<char>) -> int
    decreases s.len(),
{
    if s.len() == 0 {
        0
    } else {
        digits_value(s.drop_last()) * 10 + (s.last() as int - '0' as int)
    }
}

/// The id and the name in a built-in style's file name `{id}_{name}.style`, where the id is
/// decimal digits that fit an `i32`.
pub open spec fn builtin_file_parts(file: Seq<char>) -> Option<(i32, Seq<char>)> {
    if file.len() >= 6 && file.skip(file.len() - 6) == ".style"@ {
        let stem = file.take(file.len() - 6);
        match crate::steam::first_index_of(stem, '_') {
            Some(k) => {
                let d = stem.take(k);
                if all_digits(d) && digits_value(d) <= i32::MAX {
                    Some((digits_value(d) as i32, stem.skip(k + 1)))
                } else {
                    None
                }
            },
            None => None,
        }
    } else {
        None
    }
}

proof fn lemma_digits_value_grows(s: Seq<char>, m: int)
    requires
        forall|i: int| 0 <= i < s.len() ==> '0' <= #[trigger] s[i] <= '9',
        0 <= m <= s.len(),
    ensures
        0 <= digits_value(s.take(m)) <= digits_value(s),
    decreases s.len(),
{
    if s.len() > 0 {
        if m == s.len() {
            assert(s.take(m) =~= s);
            lemma_digits_value_grows(s.drop_last(), s.len() - 1);
            assert(s.drop_last().take(s.len() - 1) =~= s.drop_last());
        } else {
            lemma_digits_value_grows(s.drop_last(), m);
            assert(s.drop_last().take(m) =~= s.take(m));
            lemma_digits_value_grows(s.drop_last(), s.len() - 1);
            assert(s.drop_last().take(s.len() - 1) =~= s.drop_last());
            assert(s.last() == s[s.len() - 1]);
        }
    } else {
        assert(s.take(m) =~= s);
    }
}

/// The value of decimal digits, or `None` when they are not all digits or exceed `i32::MAX`.
fn parse_digits(d: &[char]) -> (r: Option<i32>)
    ensures
        match r {
            Some(v) => all_digits(d@) && digits_value(d@) <= i32::MAX && v == digits_value(d@),
            None => !(all_digits(d@) && digits_value(d@) <= i32::MAX),
        },
{
    if d.len() == 0 {
        return None;
    }
    let mut acc: u64 = 0;
    let mut j: usize = 0;
    while j < d.len()
        invariant
            j <= d@.len(),
            d@.len() > 0,
            forall|i: int| 0 <= i < j ==> '0' <= #[trigger] d@[i] <= '9',
            acc == digits_value(d@.take(j as int)),
            acc <= i32::MAX,
        decreases d@.len() - j,
    {
        let c = d[j];
        if !('0' <= c && c <= '9') {
            assert(!all_digits(d@)) by {
                assert(!('0' <= d@[j as int] <= '9'));
            }
            return None;
        }
        let dig = (c as u32 - '0' as u32) as u64;
        assert(d@.take(j + 1).drop_last() =~= d@.take(j as int));
        assert(d@.take(j + 1).last() == c);
        let next = acc * 10 + dig;
        if next > 2147483647 {
            proof {
                if all_digits(d@) {
                    lemma_digits_value_grows(d@, j + 1);
                }
            }
            return None;
        }
        acc = next;
        j = j + 1;
    }
    assert(d@.take(j as int) =~= d@);
    Some(acc as i32)
}

/// Reads a built-in style's id and name from its file name, `{id}_{name}.style`.
pub fn builtin_style_file(file_name: &str) -> (r: Option<(i32, String)>)
    ensures
        match builtin_file_parts(file_name@) {
            Some((id, name)) => r matches Some((i, n)) && i == id && n@ == name,
            None => r is None,
        },
{
    proof {
        reveal_strlit(".style");
    }
    let f = chars_of(file_name);
    let suffix = chars_of(".style");
    if f.len() < 6 {
        return None;
    }
    let cut = f.len() - 6;
    if !crate::text::matches_at(f.as_slice(), suffix.as_slice(), cut) {
        assert(f@.subrange(cut as int, f@.len() as int) =~= f@.skip(cut as int));
        return None;
    }
    assert(f@.subrange(cut as int, f@.len() as int) =~= f@.skip(cut as int));
    let stem = slice_subrange(f.as_slice(), 0, cut);
    assert(stem@ =~= f@.take(cut as int));
    let k = match crate::steam::find_char(stem, '_') {
        Some(k) => k,
        None => return None,
    };
    let d = slice_subrange(stem, 0, k);
    assert(d@ =~= stem@.take(k as int));
    let id = match parse_digits(d) {
        Some(v) => v,
        None => return None,
    };
    let name = slice_subrange(stem, k + 1, stem.len());
    assert(name@ =~= stem@.skip(k + 1));
    Some((id, string_from_chars(name)))
}

/// The style that the launcher's theme comes from.
#[derive(Debug)]
pub enum StyleSelection {
    /// No style is selected.
    NoStyle,
    /// A built-in style: its name and its style text.
    Builtin(String, String),
    /// The selected style is not in the log, or was deleted.
    NotFound,
    /// The style file under the cloud's `styles` directory, by file name.
    File(String),
}

/// The id of the selected style: the one in the type-7 blob, else the last loaded one.
pub open spec fn selected_style_id(state: CloudState) -> Option<i32> {
    match state.type7_blob {
        Some(blob) => match style_id_from_type7(blob@) {
            Some(id) => Some(id),
            None => state.last_loaded_style_id,
        },
        None => state.last_loaded_style_id,
    }
}

/// Whether a log entry is a live style with this id.
pub open spec fn is_live_style(e: LogEntry, id: i32) -> bool {
    e.entry_id == id && e.entry_type@ == "Style"@ && e.deleted_at is None
}

/// The position of the first live style entry with this id.
pub open spec fn first_live_style(log: Seq<LogEntry>, id: i32) -> Option<int>
    decreases log.len(),
{
    if log.len() == 0 {
        None
    } else if is_live_style(log[0], id) {
        Some(0)
    } else {
        match first_live_style(log.drop_first(), id) {
            Some(i) => Some(i + 1),
            None => None,
        }
    }
}

/// The file name of a saved style: `{id}_{sanitised name}.style`.
pub open spec fn style_file_name(e: LogEntry) -> Seq<char> {
    crate::text::signed_decimal(e.entry_id as int) + "_"@ + sanitized(e.name@) + ".style"@
}

fn find_live_style(log: &[LogEntry], id: i32) -> (r: Option<usize>)
    ensures
        match first_live_style(log@, id) {
            Some(i) => 0 <= i < log@.len() && r == Some(i as usize),
            None => r is None,
        },
{
    let mut i: usize = 0;
    while i < log.len()
        invariant
            i <= log@.len(),
            forall|k: int| 0 <= k < i ==> !is_live_style(#[trigger] log@[k], id),
        decreases log@.len() - i,
    {
        let e = &log[i];
        if e.entry_id == id && crate::text::str_eq(e.entry_type.as_str(), "Style")
            && e.deleted_at.is_none() {
            proof { lemma_first_live_style(log@, id, i as int); }
            return Some(i);
        }
        i = i + 1;
    }
    proof { lemma_no_live_style(log@, id); }
    None
}

proof fn lemma_first_live_style(log: Seq<LogEntry>, id: i32, i: int)
    requires
        0 <= i < log.len(),
        is_live_style(log[i], id),
        forall|k: int| 0 <= k < i ==> !is_live_style(#[trigger] log[k], id),
    ensures
        first_live_style(log, id) == Some(i),
    decreases i,
{
    if i > 0 {
        assert(!is_live_style(log[0], id));
        assert forall|k: int| 0 <= k < i - 1 implies !is_live_style(#[trigger] log.drop_first()[k], id) by {
            assert(log.drop_first()[k] == log[k + 1]);
        }
        lemma_first_live_style(log.drop_first(), id, i - 1);
    }
}

proof fn lemma_no_live_style(log: Seq<LogEntry>, id: i32)
    requires
        forall|k: int| 0 <= k < log.len() ==> !is_live_style(#[trigger] log[k], id),
    ensures
        first_live_style(log, id) is None,
    decreases log.len(),
{
    if log.len() > 0 {
        assert(!is_live_style(log[0], id));
        assert forall|k: int| 0 <= k < log.len() - 1 implies !is_live_style(#[trigger] log.drop_first()[k], id) by {
            assert(log.drop_first()[k] == log[k + 1]);
        }
        lemma_no_live_style(log.drop_first(), id);
    }
}

/// The file name under which a style entry is saved.
pub fn style_file_name_of(e: &LogEntry) -> (r: String)
    ensures
        r@ == style_file_name(*e),
{
    let mut v = crate::text::signed_decimal_chars(e.entry_id as i64);
    append_str(&mut v, "_");
    let name = sanitize_filename(e.name.as_str());
    append_str(&mut v, name.as_str());
    append_str(&mut v, ".style");
    string_from_chars(v.as_slice())
}

/// Picks the style the launcher's theme is loaded from: the style that the type-7 blob
/// selects, else the last loaded style; a built-in style with that id comes first, else it is
/// looked up among the live style entries of the log.
pub fn select_style(state: &CloudState, builtins: &[BuiltinStyle]) -> (r: StyleSelection)
    ensures
        match selected_style_id(*state) {
            None => r is NoStyle,
            Some(id) => match first_builtin(builtins@, id) {
                Some(k) => r matches StyleSelection::Builtin(n, t) && n@ == builtins@[k].name@ && t@
                    == builtins@[k].text@,
                None => match first_live_style(state.log@, id) {
                    None => r is NotFound,
                    Some(i) => r matches StyleSelection::File(f) && f@ == style_file_name(state.log@[i]),
                },
            },
        },
{
    let from_blob = match &state.type7_blob {
        Some(blob) => extract_style_id_from_type7(blob.as_str()),
        None => None,
    };
    let style_id = match from_blob {
        Some(id) => Some(id),
        None => state.last_loaded_style_id,
    };
    let id = match style_id {
        Some(id) => id,
        None => return StyleSelection::NoStyle,
    };
    if let Some((name, text)) = builtin_style(builtins, id) {
        return StyleSelection::Builtin(name, text);
    }
    let log = state.log.as_slice();
    assert(log@ == state.log@);
    match find_live_style(log, id) {
        Some(i) => StyleSelection::File(style_file_name_of(&log[i])),
        None => StyleSelection::NotFound,
    }
}

/// A colour channel of a style, as the number MessagePack holds (floats by their bits).
#[derive(Debug, Clone, Copy, PartialEq, Eq)]
pub enum Channel {
    /// An integer, as `i64` and as `u64` where it fits in each.
    Int(Option<i64>, Option<u64>),
    F32(u32),
    F64(u64),
}

/// The four channels of one colour of a style.
#[derive(Debug, Clone, Copy, PartialEq, Eq)]
pub struct StyleChannels {
    pub alpha: Channel,
    pub red: Channel,
    pub green: Channel,
    pub blue: Channel,
}

/// The keys under which a style colour keeps its channels.
pub open spec fn alpha_key() -> Seq<char> {
    "177670"@
}

pub open spec fn blue_key() -> Seq<char> {
    "177671"@
}

pub open spec fn green_key() -> Seq<char> {
    "177676"@
}

pub open spec fn red_key() -> Seq<char> {
    "177687"@
}

/// A value as a number (what `rmpv::Value::as_f64` accepts), or `None`.
pub open spec fn as_channel(v: MsgValue) -> Option<Channel> {
    match v {
        MsgValue::Integer(a, b) => Some(Channel::Int(a, b)),
        MsgValue::F32(bits) => Some(Channel::F32(bits)),
        MsgValue::F64(bits) => Some(Channel::F64(bits)),
        _ => None,
    }
}

/// The first entry whose key is the string `key` and whose value is a number.
pub open spec fn first_channel(entries: Seq<(MsgValue, MsgValue)>, key: Seq<char>) -> Option<Channel>
    decreases entries.len(),
{
    if entries.len() == 0 {
        None
    } else if crate::codec::is_text_key(entries[0].0, key) && as_channel(entries[0].1) is Some {
        as_channel(entries[0].1)
    } else {
        first_channel(entries.drop_first(), key)
    }
}

/// The message for a colour that lacks a channel.
pub open spec fn missing_channel_message(key: Seq<char>) -> Seq<char> {
    "style color entry was missing channel "@ + key
}

/// The channels of one style colour, or the message it is refused with.
pub open spec fn item_channels(v: MsgValue) -> Result<StyleChannels, Seq<char>> {
    match v {
        MsgValue::Dict(entries) => match (
            first_channel(entries@, alpha_key()),
            first_channel(entries@, red_key()),
            first_channel(entries@, green_key()),
            first_channel(entries@, blue_key()),
        ) {
            (None, _, _, _) => Err(missing_channel_message(alpha_key())),
            (Some(_), None, _, _) => Err(missing_channel_message(red_key())),
            (Some(_), Some(_), None, _) => Err(missing_channel_message(green_key())),
            (Some(_), Some(_), Some(_), None) => Err(missing_channel_message(blue_key())),
            (Some(a), Some(r), Some(g), Some(b)) => Ok(StyleChannels { alpha: a, red: r, green: g, blue: b }),
        },
        _ => Err("style color entry was not a map"@),
    }
}

/// The channels of every colour of a style, or the message for the first colour refused.
pub open spec fn items_channels(items: Seq<MsgValue>) -> Result<Seq<StyleChannels>, Seq<char>>
    decreases items.len(),
{
    if items.len() == 0 {
        Ok(seq![])
    } else {
        match item_channels(items[0]) {
            Err(m) => Err(m),
            Ok(c) => match items_channels(items.drop_first()) {
                Ok(cs) => Ok(seq![c] + cs),
                Err(m) => Err(m),
            },
        }
    }
}

/// The colours of a decoded style payload, which has to be an array.
pub open spec fn style_channels_of_value(v: MsgValue) -> Result<Seq<StyleChannels>, Seq<char>> {
    match v {
        MsgValue::Array(items) => items_channels(items@),
        _ => Err("style payload was not an array"@),
    }
}

proof fn lemma_items_channels_by_key(items: Seq<MsgValue>)
    ensures
        items_channels(items) matches Ok(cs) ==> cs.len() == items.len() && forall|i: int|
            0 <= i < items.len() ==> (#[trigger] items[i] matches MsgValue::Dict(es) && first_channel(
                es@,
                "177670"@,
            ) == Some(cs[i].alpha) && first_channel(es@, "177687"@) == Some(cs[i].red)
                && first_channel(es@, "177676"@) == Some(cs[i].green) && first_channel(es@, "177671"@)
                == Some(cs[i].blue)),
        (forall|i: int|
            0 <= i < items.len() ==> (#[trigger] items[i] matches MsgValue::Dict(es) && first_channel(
                es@,
                "177670"@,
            ) is Some && first_channel(es@, "177687"@) is Some && first_channel(es@, "177676"@) is Some
                && first_channel(es@, "177671"@) is Some)) ==> items_channels(items) is Ok,
    decreases items.len(),
{
    if items.len() > 0 {
        lemma_items_channels_by_key(items.drop_first());
        assert forall|i: int| 0 <= i < items.len() - 1 implies #[trigger] items.drop_first()[i] == items[i + 1] by {}
        if let Ok(cs) = items_channels(items) {
            let c = item_channels(items[0]);
            let rest = items_channels(items.drop_first());
            assert(c is Ok && rest is Ok);
            assert(cs == seq![c->Ok_0] + rest->Ok_0);
            assert forall|i: int| 0 <= i < items.len() implies (#[trigger] items[i] matches MsgValue::Dict(es)
                && first_channel(es@, "177670"@) == Some(cs[i].alpha) && first_channel(es@, "177687"@)
                == Some(cs[i].red) && first_channel(es@, "177676"@) == Some(cs[i].green)
                && first_channel(es@, "177671"@) == Some(cs[i].blue)) by {
                if i > 0 {
                    assert(cs[i] == rest->Ok_0[i - 1]);
                    assert(items[i] == items.drop_first()[i - 1]);
                }
            }
        }
    }
}

/// Each decoded colour takes its channels from its own map, each under its own key: alpha
/// under `177670`, red under `177687`, green under `177676` and blue under `177671` (the first
/// numeric value there). Every colour of an array of maps that have all four channels is
/// decoded.
pub proof fn lemma_style_channels_by_key(v: MsgValue)
    ensures
        style_channels_of_value(v) matches Ok(cs) ==> v matches MsgValue::Array(items) && cs.len()
            == items@.len() && forall|i: int|
            0 <= i < items@.len() ==> (#[trigger] items@[i] matches MsgValue::Dict(es) && first_channel(
                es@,
                "177670"@,
            ) == Some(cs[i].alpha) && first_channel(es@, "177687"@) == Some(cs[i].red)
                && first_channel(es@, "177676"@) == Some(cs[i].green) && first_channel(es@, "177671"@)
                == Some(cs[i].blue)),
        v matches MsgValue::Array(items) && (forall|i: int|
            0 <= i < items@.len() ==> (#[trigger] items@[i] matches MsgValue::Dict(es) && first_channel(
                es@,
                "177670"@,
            ) is Some && first_channel(es@, "177687"@) is Some && first_channel(es@, "177676"@) is Some
                && first_channel(es@, "177671"@) is Some)) ==> style_channels_of_value(v) is Ok,
{
    if let MsgValue::Array(items) = v {
        lemma_items_channels_by_key(items@);
    }
}

fn channel_of(v: &MsgValue) -> (r: Option<Channel>)
    ensures
        r == as_channel(*v),
{
    match v {
        MsgValue::Integer(a, b) => Some(Channel::Int(*a, *b)),
        MsgValue::F32(bits) => Some(Channel::F32(*bits)),
        MsgValue::F64(bits) => Some(Channel::F64(*bits)),
        _ => None,
    }
}

/// Looks up one channel of a style colour.
pub fn style_channel(entries: &[(MsgValue, MsgValue)], key: &str) -> (r: Result<Channel, LauncherError>)
    ensures
        match first_channel(entries@, key@) {
            Some(c) => r == Ok::<Channel, LauncherError>(c),
            None => r matches Err(e) && e@ == (ErrorKind::Validation, missing_channel_message(key@)),
        },
{
    let key_chars = crate::text::chars_of(key);
    assert(entries@.skip(0) =~= entries@);
    let mut i: usize = 0;
    while i < entries.len()
        invariant
            key_chars@ == key@,
            i <= entries@.len(),
            first_channel(entries@, key@) == first_channel(entries@.skip(i as int), key@),
        decreases entries@.len() - i,
    {
        let ghost rest = entries@.skip(i as int);
        assert(rest[0] == entries@[i as int]);
        assert(rest.drop_first() =~= entries@.skip(i + 1));
        let key_hit = match &entries[i].0 {
            MsgValue::Text(Some(s)) => {
                let cs = chars_of(s.as_str());
                crate::text::chars_eq(cs.as_slice(), key_chars.as_slice())
            },
            _ => false,
        };
        if key_hit {
            if let Some(c) = channel_of(&entries[i].1) {
                return Ok(c);
            }
        }
        i = i + 1;
    }
    let mut m = chars_of("style color entry was missing channel ");
    append_str(&mut m, key);
    Err(LauncherError::Validation(string_from_chars(m.as_slice())))
}

fn item_channels_of(v: &MsgValue) -> (r: Result<StyleChannels, LauncherError>)
    ensures
        match item_channels(*v) {
            Ok(c) => r == Ok::<StyleChannels, LauncherError>(c),
            Err(m) => r matches Err(e) && e@ == (ErrorKind::Validation, m),
        },
{
    let entries = match v {
        MsgValue::Dict(entries) => entries,
        _ => return Err(crate::error::validation_error("style color entry was not a map")),
    };
    let alpha = match style_channel(entries.as_slice(), "177670") {
        Ok(c) => c,
        Err(e) => return Err(e),
    };
    let red = match style_channel(entries.as_slice(), "177687") {
        Ok(c) => c,
        Err(e) => return Err(e),
    };
    let green = match style_channel(entries.as_slice(), "177676") {
        Ok(c) => c,
        Err(e) => return Err(e),
    };
    let blue = match style_channel(entries.as_slice(), "177671") {
        Ok(c) => c,
        Err(e) => return Err(e),
    };
    Ok(StyleChannels { alpha, red, green, blue })
}

/// Decodes a style file: base64 (around white space) of a MessagePack array of colours, each a
/// map holding its alpha, red, green and blue channels as numbers.
pub fn decode_style_channels(style_text: &str) -> (r: Result<Vec<StyleChannels>, LauncherError>)
    ensures
        match base64_decoded(crate::text::trim(style_text@)) {
            None => r matches Err(e) && e@.0 == ErrorKind::Validation && crate::text::has_prefix(
                e@.1,
                "base64 decode failed: "@,
            ),
            Some(bytes) => match msgpack_value(bytes) {
                None => r matches Err(e) && e@.0 == ErrorKind::MessagePack,
                Some(v) => match style_channels_of_value(v) {
                    Ok(cs) => r matches Ok(out) && out@ == cs,
                    Err(m) => r matches Err(e) && e@ == (ErrorKind::Validation, m),
                },
            },
        },
{
    let trimmed = crate::text::trim_str(style_text);
    let bytes = match decode_base64(trimmed.as_str()) {
        Ok(b) => b,
        Err(text) => {
            let mut m = chars_of("base64 decode failed: ");
            let ghost prefix = m@;
            append_str(&mut m, text.as_str());
            assert(m@.subrange(0, prefix.len() as int) =~= prefix);
            return Err(LauncherError::Validation(string_from_chars(m.as_slice())));
        },
    };
    let value = match decode_msgpack(bytes.as_slice()) {
        Ok(v) => v,
        Err(text) => return Err(LauncherError::MessagePack(text)),
    };
    let items = match &value {
        MsgValue::Array(items) => items,
        _ => return Err(crate::error::validation_error("style payload was not an array")),
    };
    let mut out: Vec<StyleChannels> = Vec::new();
    proof {
        assert(items@.skip(0) =~= items@);
        if let Ok(cs) = items_channels(items@) {
            assert(out@ + cs =~= cs);
        }
    }
    let mut i: usize = 0;
    while i < items.len()
        invariant
            base64_decoded(crate::text::trim(style_text@)) == Some(bytes@),
            msgpack_value(bytes@) == Some(value),
            style_channels_of_value(value) == items_channels(items@),
            i <= items@.len(),
            items_channels(items@) == match items_channels(items@.skip(i as int)) {
                Ok(cs) => Ok(out@ + cs),
                Err(m) => Err::<Seq<StyleChannels>, Seq<char>>(m),
            },
        decreases items@.len() - i,
    {
        let ghost rest = items@.skip(i as int);
        assert(rest[0] == items@[i as int]);
        assert(rest.drop_first() =~= items@.skip(i + 1));
        let c = match item_channels_of(&items[i]) {
            Ok(c) => c,
            Err(e) => {
                proof {
                    if let Err(m) = item_channels(items@[i as int]) {
                        assert(items_channels(rest) == Err::<Seq<StyleChannels>, Seq<char>>(m));
                    }
                }
                return Err(e);
            },
        };
        let ghost before = out@;
        out.push(c);
        proof {
            match items_channels(items@.skip(i + 1)) {
                Ok(cs) => {
                    assert(before + (seq![c] + cs) =~= out@ + cs);
                },
                Err(m) => {},
            }
        }
        i = i + 1;
    }
    proof {
        assert(items@.skip(i as int) =~= Seq::<MsgValue>::empty());
        assert(out@ + Seq::<StyleChannels>::empty() =~= out@);
    }
    Ok(out)
}

/// A relative path with no drive or root: it does not start with a separator and holds no `:`.
pub open spec fn is_plain_relative(rel: Seq<char>) -> bool {
    rel.len() > 0 && rel[0] != '/' && rel[0] != '\\' && !rel.contains(':')
}

/// `base` and `rel` joined by what `Path::join` puts between them on this platform: nothing,
/// `/` or `\`.
pub open spec fn joined_path(base: Seq<char>, rel: Seq<char>, r: Seq<char>) -> bool {
    exists|sep: Seq<char>|
        (sep == Seq::<char>::empty() || sep == seq!['/'] || sep == seq!['\\']) && r == base + sep
            + rel
}

/// Whether a path has Windows' verbatim prefix `\\?\`, after which `Path::join` rebuilds the
/// path from its components.
pub open spec fn is_verbatim(path: Seq<char>) -> bool {
    crate::text::has_prefix(path, "\\\\?\\"@)
}

/// Whether `s` has two backslashes in a row at `i`.
pub open spec fn doubled_at(s: Seq<char>, i: int) -> bool {
    s[i] == '\\' && s[i + 1] == '\\'
}

/// No two backslashes in a row from position `start` on.
pub open spec fn no_doubled_from(s: Seq<char>, start: int) -> bool {
    forall|i: int| start <= i < s.len() - 1 ==> !#[trigger] doubled_at(s, i)
}

/// A base and a relative part that a verbatim base joins without change: neither holds a `.`
/// (so there is no `.` or `..` for the join to remove), the base doubles no backslash after its
/// prefix, and the relative part holds no `/`, doubles no backslash and does not end in one.
pub open spec fn verbatim_join_plain(base: Seq<char>, rel: Seq<char>) -> bool {
    &&& !base.contains('.')
    &&& no_doubled_from(base, 2)
    &&& !rel.contains('.')
    &&& !rel.contains('/')
    &&& no_doubled_from(rel, 0)
    &&& rel.len() > 0 && rel.last() != '\\'
}

/// `std::path::Path::join` on text paths. For a plain relative `rel`, std's documentation makes
/// it `base` extended by `rel`: one of nothing, `/` or `\` goes between. A base with the
/// verbatim prefix `\\?\` is normalised, which removes `.` and `..` references; this is stated
/// only where there is nothing to remove and no separator to rewrite (`verbatim_join_plain`).
/// Which separator goes between is not stated: it depends on the platform's separator and on
/// how `base` ends. Nothing is stated when `rel` is absolute, rooted or has a drive prefix,
/// where the documented rules differ from one platform to another.
#[verifier::external_body]
pub(crate) fn join_path(base: &str, rel: &str) -> (r: String)
    ensures
        is_plain_relative(rel@) && (!is_verbatim(base@) || verbatim_join_plain(base@, rel@))
            ==> joined_path(base@, rel@, r@),
{
    std::path::Path::new(base).join(rel).to_string_lossy().into_owned()
}

proof fn lemma_nl_cloud_segment_plain()
    ensures
        is_plain_relative(nl_cloud_segment()),
        !nl_cloud_segment().contains('.'),
        !nl_cloud_segment().contains('/'),
        no_doubled_from(nl_cloud_segment(), 0),
        nl_cloud_segment().last() == 'd',
{
    reveal_strlit("steamapps\\common\\Counter-Strike Global Offensive\\nl_cloud");
    let s = nl_cloud_segment();
    assert(s =~= seq!['s', 't', 'e', 'a', 'm', 'a', 'p', 'p', 's', '\\', 'c', 'o', 'm', 'm', 'o', 'n', '\\', 'C', 'o', 'u', 'n', 't', 'e', 'r', '-', 'S', 't', 'r', 'i', 'k', 'e', ' ', 'G', 'l', 'o', 'b', 'a', 'l', ' ', 'O', 'f', 'f', 'e', 'n', 's', 'i', 'v', 'e', '\\', 'n', 'l', '_', 'c', 'l', 'o', 'u', 'd']);
    assert(!s.contains(':'));
    assert(!s.contains('.'));
    assert(!s.contains('/'));
    assert forall|i: int| 0 <= i < s.len() - 1 implies !#[trigger] doubled_at(s, i) by {
        assert(s =~= seq!['s', 't', 'e', 'a', 'm', 'a', 'p', 'p', 's', '\\', 'c', 'o', 'm', 'm', 'o', 'n', '\\', 'C', 'o', 'u', 'n', 't', 'e', 'r', '-', 'S', 't', 'r', 'i', 'k', 'e', ' ', 'G', 'l', 'o', 'b', 'a', 'l', ' ', 'O', 'f', 'f', 'e', 'n', 's', 'i', 'v', 'e', '\\', 'n', 'l', '_', 'c', 'l', 'o', 'u', 'd']);
    }
}

/// Where the cloud folder lies under Steam's install folder.
pub open spec fn nl_cloud_segment() -> Seq<char> {
    "steamapps\\common\\Counter-Strike Global Offensive\\nl_cloud"@
}

/// The cloud folder of the game, under Steam's install folder; an error when Steam was not found.
pub fn nl_cloud_path(steam_path: Option<String>) -> (r: Result<String, LauncherError>)
    ensures
        steam_path is None ==> (r matches Err(e) && e@ == (ErrorKind::System, "steam not found"@)),
        steam_path is Some ==> r is Ok,
        match steam_path {
            Some(p) => (!is_verbatim(p@) || (!p@.contains('.') && no_doubled_from(p@, 2))) ==> (r matches Ok(
                c,
            ) && joined_path(p@, nl_cloud_segment(), c@)),
            None => true,
        },
{
    match steam_path {
        None => Err(crate::error::system_error("steam not found")),
        Some(p) => {
            proof {
                lemma_nl_cloud_segment_plain();
            }
            Ok(join_path(p.as_str(), "steamapps\\common\\Counter-Strike Global Offensive\\nl_cloud"))
        },
    }
}

/// A colour of a style: its CSS `rgba(..)` text and its `#RRGGBBAA` hex text.
#[derive(Debug)]
pub struct ThemeColor {
    pub css: String,
    pub hex: String,
}

/// `colors[index].css`, or `fallback` when there is no such colour.
pub open spec fn color_value(colors: Seq<ThemeColor>, index: int, fallback: Seq<char>) -> Seq<char> {
    if 0 <= index < colors.len() {
        colors[index].css@
    } else {
        fallback
    }
}

/// The CSS text of colour `index`, or `fallback`.
pub fn color(colors: &[ThemeColor], index: usize, fallback: &str) -> (r: String)
    ensures
        r@ == color_value(colors@, index as int, fallback@),
{
    if index < colors.len() {
        colors[index].css.clone()
    } else {
        owned(fallback)
    }
}

/// `bytes` without its leading `#` bytes.
pub open spec fn strip_hash(bytes: Seq<u8>) -> Seq<u8>
    decreases bytes.len(),
{
    if bytes.len() > 0 && bytes[0] == 0x23u8 {
        strip_hash(bytes.drop_first())
    } else {
        bytes
    }
}

/// The value of an ASCII hexadecimal digit.
pub open spec fn hex_digit(b: u8) -> Option<u8> {
    if 0x30 <= b <= 0x39 {
        Some((b - 0x30) as u8)
    } else if 0x41 <= b <= 0x46 {
        Some((b - 0x41 + 10) as u8)
    } else if 0x61 <= b <= 0x66 {
        Some((b - 0x61 + 10) as u8)
    } else {
        None
    }
}

/// `u8::from_str_radix(text, 16)` on a text of the two bytes `b0 b1`: two hex digits, or a `+`
/// sign and one hex digit.
pub open spec fn parse_hex_pair(b0: u8, b1: u8) -> Option<u8> {
    if b0 == 0x2bu8 {
        match hex_digit(b1) {
            Some(v) => Some(v),
            None => None,
        }
    } else {
        match (hex_digit(b0), hex_digit(b1)) {
            (Some(hi), Some(lo)) => Some((hi * 16 + lo) as u8),
            _ => None,
        }
    }
}

/// Whether a character of a UTF-8 text starts at byte `k`.
pub open spec fn starts_char(bytes: Seq<u8>, k: int) -> bool {
    k == bytes.len() || !(0x80 <= bytes[k] && bytes[k] < 0xc0)
}

/// Whether reading the red, green and blue bytes out of a colour's hex text slices the text at
/// character boundaries only (slicing elsewhere panics).
pub open spec fn hex_slicing_safe(hex: Seq<char>) -> bool {
    let h = strip_hash(vstd::utf8::encode_utf8(hex));
    h.len() >= 6 ==> {
        &&& starts_char(h, 2)
        &&& parse_hex_pair(h[0], h[1]) is Some ==> {
            &&& starts_char(h, 4)
            &&& parse_hex_pair(h[2], h[3]) is Some ==> starts_char(h, 6)
        }
    }
}

/// `hex_slicing_safe` for colour `index`, where there is one.
pub open spec fn color_slicing_safe(colors: Seq<ThemeColor>, index: int) -> bool {
    0 <= index < colors.len() ==> hex_slicing_safe(colors[index].hex@)
}

/// An opacity in thousandths, clamped to `0..=1000`.
pub open spec fn clamp_milli(m: int) -> int {
    if m < 0 {
        0
    } else if m > 1000 {
        1000
    } else {
        m
    }
}

/// `{:.3}` of the opacity `m / 1000`, for `0 <= m <= 1000`.
pub open spec fn fixed3(m: int) -> Seq<char> {
    let frac = m % 1000;
    decimal((m / 1000) as nat) + seq![
        '.',
        digit_char((frac / 100) as nat),
        digit_char(((frac / 10) % 10) as nat),
        digit_char((frac % 10) as nat),
    ]
}

/// `rgba(r, g, b, a)` with the opacity `a` given in thousandths.
pub open spec fn rgba_text(r: u8, g: u8, b: u8, milli: int) -> Seq<char> {
    "rgba("@ + decimal(r as nat) + ", "@ + decimal(g as nat) + ", "@ + decimal(b as nat) + ", "@
        + fixed3(clamp_milli(milli)) + ")"@
}

/// Colour `index` with its opacity replaced by `milli / 1000`, or `fallback` when there is no
/// such colour or its hex text does not start with three hex bytes.
pub open spec fn alpha_color_value(
    colors: Seq<ThemeColor>,
    index: int,
    fallback: Seq<char>,
    milli: int,
) -> Seq<char> {
    if !(0 <= index < colors.len()) {
        fallback
    } else {
        let h = strip_hash(vstd::utf8::encode_utf8(colors[index].hex@));
        if h.len() < 6 {
            fallback
        } else {
            match (parse_hex_pair(h[0], h[1]), parse_hex_pair(h[2], h[3]), parse_hex_pair(h[4], h[5])) {
                (Some(r), Some(g), Some(b)) => rgba_text(r, g, b, milli),
                _ => fallback,
            }
        }
    }
}

fn hex_digit_exec(b: u8) -> (r: Option<u8>)
    ensures
        r == hex_digit(b),
{
    if 0x30 <= b && b <= 0x39 {
        Some(b - 0x30)
    } else if 0x41 <= b && b <= 0x46 {
        Some(b - 0x41 + 10)
    } else if 0x61 <= b && b <= 0x66 {
        Some(b - 0x61 + 10)
    } else {
        None
    }
}

fn parse_hex_pair_exec(b0: u8, b1: u8) -> (r: Option<u8>)
    ensures
        r == parse_hex_pair(b0, b1),
{
    if b0 == 0x2b {
        hex_digit_exec(b1)
    } else {
        match (hex_digit_exec(b0), hex_digit_exec(b1)) {
            (Some(hi), Some(lo)) => Some(hi * 16 + lo),
            _ => None,
        }
    }
}

/// Appends the characters of `s`.
pub fn append_str(v: &mut Vec<char>, s: &str)
    ensures
        final(v)@ == old(v)@ + s@,
{
    let mut cs = chars_of(s);
    v.append(&mut cs);
}

/// Appends the decimal notation of `n`.
pub fn append_decimal(v: &mut Vec<char>, n: u64)
    ensures
        final(v)@ == old(v)@ + decimal(n as nat),
{
    let mut cs = decimal_chars(n);
    v.append(&mut cs);
}

fn digit_of(d: u64) -> (c: char)
    requires
        d < 10,
    ensures
        c == digit_char(d as nat),
{
    let v = decimal_chars(d);
    assert(v@ =~= seq![digit_char(d as nat)]);
    v[0]
}

/// The text `rgba(r, g, b, a)`.
pub fn rgba_string(r: u8, g: u8, b: u8, milli: i64) -> (s: String)
    ensures
        s@ == rgba_text(r, g, b, milli as int),
{
    let m: u64 = if milli < 0 { 0 } else if milli > 1000 { 1000 } else { milli as u64 };
    let frac = m % 1000;
    let mut v: Vec<char> = Vec::new();
    append_str(&mut v, "rgba(");
    append_decimal(&mut v, r as u64);
    append_str(&mut v, ", ");
    append_decimal(&mut v, g as u64);
    append_str(&mut v, ", ");
    append_decimal(&mut v, b as u64);
    append_str(&mut v, ", ");
    append_decimal(&mut v, m / 1000);
    v.push('.');
    v.push(digit_of(frac / 100));
    v.push(digit_of((frac / 10) % 10));
    v.push(digit_of(frac % 10));
    append_str(&mut v, ")");
    assert(v@ =~= rgba_text(r, g, b, milli as int));
    string_from_chars(v.as_slice())
}

/// Colour `index` with opacity `alpha_milli / 1000`, or `fallback`.
pub fn alpha_color(colors: &[ThemeColor], index: usize, fallback: &str, alpha_milli: i64) -> (r:
    String)
    requires
        color_slicing_safe(colors@, index as int),
    ensures
        r@ == alpha_color_value(colors@, index as int, fallback@, alpha_milli as int),
{
    if index >= colors.len() {
        return owned(fallback);
    }
    let bytes = colors[index].hex.as_str().as_bytes();
    let ghost all = bytes@;
    assert(all.skip(0) =~= all);
    let mut k: usize = 0;
    while k < bytes.len() && bytes[k] == 0x23
        invariant
            all == bytes@,
            k <= all.len(),
            strip_hash(all) == strip_hash(all.skip(k as int)),
        decreases all.len() - k,
    {
        assert(all.skip(k as int).drop_first() =~= all.skip(k + 1));
        k = k + 1;
    }
    proof {
        if k < all.len() {
            assert(all.skip(k as int)[0] == all[k as int]);
        }
        assert(strip_hash(all.skip(k as int)) == all.skip(k as int));
    }
    let ghost h = all.skip(k as int);
    if bytes.len() - k < 6 {
        return owned(fallback);
    }
    let red = parse_hex_pair_exec(bytes[k], bytes[k + 1]);
    let green = parse_hex_pair_exec(bytes[k + 2], bytes[k + 3]);
    let blue = parse_hex_pair_exec(bytes[k + 4], bytes[k + 5]);
    assert(h[0] == bytes@[k as int] && h[1] == bytes@[k + 1] && h[2] == bytes@[k + 2]);
    assert(h[3] == bytes@[k + 3] && h[4] == bytes@[k + 4] && h[5] == bytes@[k + 5]);
    match (red, green, blue) {
        (Some(r), Some(g), Some(b)) => rgba_string(r, g, b, alpha_milli),
        _ => owned(fallback),
    }
}

fn starts_char_at(h: &[u8], k: usize) -> (r: bool)
    requires
        k <= h@.len(),
    ensures
        r == starts_char(h@, k as int),
{
    k == h.len() || !(0x80 <= h[k] && h[k] < 0xc0)
}

/// Whether reading the red, green and blue bytes out of this hex text stays on character
/// boundaries.
pub fn hex_is_slicing_safe(hex: &str) -> (r: bool)
    ensures
        r == hex_slicing_safe(hex@),
{
    let bytes = hex.as_bytes();
    let ghost all = bytes@;
    assert(all.skip(0) =~= all);
    let mut k: usize = 0;
    while k < bytes.len() && bytes[k] == 0x23
        invariant
            all == bytes@,
            all == hex.spec_bytes(),
            k <= all.len(),
            strip_hash(all) == strip_hash(all.skip(k as int)),
        decreases all.len() - k,
    {
        assert(all.skip(k as int).drop_first() =~= all.skip(k + 1));
        k = k + 1;
    }
    proof {
        if k < all.len() {
            assert(all.skip(k as int)[0] == all[k as int]);
        }
        assert(strip_hash(all.skip(k as int)) == all.skip(k as int));
    }
    let ghost h = all.skip(k as int);
    let rest = crate::text::slice_subrange_bytes(bytes, k, bytes.len());
    assert(rest@ =~= h);
    if rest.len() < 6 {
        return true;
    }
    if !starts_char_at(rest, 2) {
        return false;
    }
    if parse_hex_pair_exec(rest[0], rest[1]).is_none() {
        return true;
    }
    if !starts_char_at(rest, 4) {
        return false;
    }
    if parse_hex_pair_exec(rest[2], rest[3]).is_none() {
        return true;
    }
    starts_char_at(rest, 6)
}

/// Whether `build_launcher_variables` may read the hex texts of these colours.
pub fn colors_slicing_safe(colors: &[ThemeColor]) -> (r: bool)
    ensures
        r == (color_slicing_safe(colors@, 9) && color_slicing_safe(colors@, 39)
            && color_slicing_safe(colors@, 41)),
{
    (colors.len() <= 9 || hex_is_slicing_safe(colors[9].hex.as_str()))
        && (colors.len() <= 39 || hex_is_slicing_safe(colors[39].hex.as_str()))
        && (colors.len() <= 41 || hex_is_slicing_safe(colors[41].hex.as_str()))
}

/// The upper-case hex digit for `d < 16`.
pub open spec fn hex_digit_char(d: int) -> char {
    if d < 10 {
        (48 + d) as char
    } else {
        (55 + d) as char
    }
}

/// Two upper-case hex digits of a byte, as `{:02X}` writes them.
pub open spec fn hex_byte(b: u8) -> Seq<char> {
    seq![hex_digit_char(b as int / 16), hex_digit_char(b as int % 16)]
}

/// `#RRGGBBAA` in upper-case hex.
pub open spec fn hex_color_text(r: u8, g: u8, b: u8, a: u8) -> Seq<char> {
    seq!['#'] + hex_byte(r) + hex_byte(g) + hex_byte(b) + hex_byte(a)
}

fn push_hex_byte(v: &mut Vec<char>, b: u8)
    ensures
        final(v)@ == old(v)@ + hex_byte(b),
{
    let hi = b / 16;
    let lo = b % 16;
    let c1 = if hi < 10 { ('0' as u8 + hi) as char } else { ('A' as u8 + (hi - 10)) as char };
    let c2 = if lo < 10 { ('0' as u8 + lo) as char } else { ('A' as u8 + (lo - 10)) as char };
    v.push(c1);
    v.push(c2);
    assert(final(v)@ =~= old(v)@ + hex_byte(b));
}

/// A colour's hex text, `#RRGGBBAA`.
pub fn hex_color(r: u8, g: u8, b: u8, a: u8) -> (s: String)
    ensures
        s@ == hex_color_text(r, g, b, a),
{
    let mut v: Vec<char> = Vec::new();
    v.push('#');
    push_hex_byte(&mut v, r);
    push_hex_byte(&mut v, g);
    push_hex_byte(&mut v, b);
    push_hex_byte(&mut v, a);
    assert(v@ =~= hex_color_text(r, g, b, a));
    string_from_chars(v.as_slice())
}

/// Colour `index`, fully opaque, or `fallback`.
pub fn opaque_color(colors: &[ThemeColor], index: usize, fallback: &str) -> (r: String)
    requires
        color_slicing_safe(colors@, index as int),
    ensures
        r@ == alpha_color_value(colors@, index as int, fallback@, 1000),
{
    alpha_color(colors, index, fallback, 1000)
}

/// The CSS variables of the built-in fallback theme.
pub open spec fn default_variables() -> Seq<(Seq<char>, Seq<char>)> {
    seq![
        ("--nl-main-bg"@, "#080206"@),
        ("--nl-main-bg-opaque"@, "#080206"@),
        ("--nl-block-bg"@, "#0a0307"@),
        ("--nl-block-bg-opaque"@, "#0a0307"@),
        ("--nl-frame-bg"@, "#0a0307"@),
        ("--nl-button"@, "#f06292"@),
        ("--nl-button-active"@, "#ec4899"@),
        ("--nl-preview-bg"@, "#0a0307"@),
        ("--nl-popup-bg"@, "rgba(8, 2, 6, 0.65)"@),
        ("--nl-frame-active-bg"@, "rgba(12, 4, 8, 0.72)"@),
        ("--nl-window-title-bg"@, "rgba(4, 1, 3, 0.96)"@),
        ("--nl-spinner"@, "#f472b6"@),
        ("--nl-selection"@, "rgba(30, 8, 18, 0.78)"@),
        ("--nl-link"@, "#f472b6"@),
    ]
}

/// The built-in theme, reporting `source` as where it came from.
pub fn default_theme(source: &str) -> (t: LauncherTheme)
    ensures
        t.source@ == source@,
        t.variables.deep_view() == default_variables(),
{
    let mut v: Vec<(String, String)> = Vec::new();
    push_var(&mut v, "--nl-main-bg", owned("#080206"));
    push_var(&mut v, "--nl-main-bg-opaque", owned("#080206"));
    push_var(&mut v, "--nl-block-bg", owned("#0a0307"));
    push_var(&mut v, "--nl-block-bg-opaque", owned("#0a0307"));
    push_var(&mut v, "--nl-frame-bg", owned("#0a0307"));
    push_var(&mut v, "--nl-button", owned("#f06292"));
    push_var(&mut v, "--nl-button-active", owned("#ec4899"));
    push_var(&mut v, "--nl-preview-bg", owned("#0a0307"));
    push_var(&mut v, "--nl-popup-bg", owned("rgba(8, 2, 6, 0.65)"));
    push_var(&mut v, "--nl-frame-active-bg", owned("rgba(12, 4, 8, 0.72)"));
    push_var(&mut v, "--nl-window-title-bg", owned("rgba(4, 1, 3, 0.96)"));
    push_var(&mut v, "--nl-spinner", owned("#f472b6"));
    push_var(&mut v, "--nl-selection", owned("rgba(30, 8, 18, 0.78)"));
    push_var(&mut v, "--nl-link", owned("#f472b6"));
    assert(v.deep_view() =~= default_variables());
    LauncherTheme { source: owned(source), variables: v }
}

/// Characters that Windows refuses in file names.
pub open spec fn is_reserved_in_file_name(c: char) -> bool {
    c == '<' || c == '>' || c == ':' || c == '"' || c == '/' || c == '\\' || c == '|' || c == '?'
        || c == '*'
}

/// One character of a sanitised file name.
pub open spec fn sanitize_char(c: char) -> char {
    if is_reserved_in_file_name(c) || is_control_char(c) {
        '_'
    } else {
        c
    }
}

/// Characters that are stripped from the end of a file name.
pub open spec fn is_trailing_junk(c: char) -> bool {
    c == '.' || c == ' ' || is_control_char(c)
}

/// `s` without its trailing dots, spaces and control characters.
pub open spec fn trim_trailing_junk(s: Seq<char>) -> Seq<char>
    decreases s.len(),
{
    if s.len() > 0 && is_trailing_junk(s.last()) {
        trim_trailing_junk(s.drop_last())
    } else {
        s
    }
}

/// A name made safe to use as a Windows file name.
pub open spec fn sanitized(name: Seq<char>) -> Seq<char> {
    let t = trim_trailing_junk(name.map_values(|c: char| sanitize_char(c)));
    if t.len() == 0 {
        "unnamed"@
    } else {
        t
    }
}

proof fn lemma_trim_junk_take(s: Seq<char>, n: int)
    requires
        0 <= n <= s.len(),
        forall|k: int| n <= k < s.len() ==> is_trailing_junk(#[trigger] s[k]),
    ensures
        trim_trailing_junk(s) == trim_trailing_junk(s.take(n)),
    decreases s.len() - n,
{
    if n < s.len() {
        assert(s.take(s.len() - 1) =~= s.drop_last());
        lemma_trim_junk_take(s.drop_last(), n);
        assert(s.drop_last().take(n) =~= s.take(n));
    } else {
        assert(s.take(n) =~= s);
    }
}

/// Sanitising replaces exactly the nine characters `< > : " / \\ | ? *` and the control
/// characters by `_` and keeps every other character in place, when the name ends in a
/// character that is not stripped (not a dot, a space or a control character).
pub proof fn lemma_sanitize_replaces_only_reserved(name: Seq<char>)
    requires
        name.len() > 0,
        name.last() != '.' && name.last() != ' ' && !is_control_char(name.last()),
    ensures
        sanitized(name).len() == name.len(),
        forall|i: int|
            0 <= i < name.len() ==> #[trigger] sanitized(name)[i] == if name[i] == '<' || name[i] == '>'
                || name[i] == ':' || name[i] == '"' || name[i] == '/' || name[i] == '\\' || name[i] == '|'
                || name[i] == '?' || name[i] == '*' || is_control_char(name[i]) {
                '_'
            } else {
                name[i]
            },
{
    let m = name.map_values(|c: char| sanitize_char(c));
    assert(m.last() == sanitize_char(name.last()));
    assert(!is_trailing_junk(m.last()));
    assert(trim_trailing_junk(m) == m);
}

/// A name made only of kept characters, ending in neither a dot nor a space, is its own
/// sanitised file name.
pub proof fn lemma_sanitize_keeps_plain_name(name: Seq<char>)
    requires
        name.len() > 0,
        forall|i: int|
            0 <= i < name.len() ==> !(#[trigger] name[i] == '<' || name[i] == '>' || name[i] == ':'
                || name[i] == '"' || name[i] == '/' || name[i] == '\\' || name[i] == '|' || name[i] == '?'
                || name[i] == '*' || is_control_char(name[i])),
        name.last() != '.' && name.last() != ' ',
    ensures
        sanitized(name) == name,
{
    assert(!is_control_char(name[name.len() - 1]));
    lemma_sanitize_replaces_only_reserved(name);
    assert(sanitized(name) =~= name);
}

/// Replaces the characters that Windows refuses in file names, strips trailing dots, spaces and
/// control characters, and falls back to `unnamed` for a name that is left empty.
pub fn sanitize_filename(name: &str) -> (r: String)
    ensures
        r@ == sanitized(name@),
{
    let cs = chars_of(name);
    let mut mapped: Vec<char> = Vec::new();
    let mut i: usize = 0;
    while i < cs.len()
        invariant
            cs@ == name@,
            i <= cs@.len(),
            mapped@ == cs@.take(i as int).map_values(|c: char| sanitize_char(c)),
        decreases cs@.len() - i,
    {
        let c = cs[i];
        let reserved = c == '<' || c == '>' || c == ':' || c == '"' || c == '/' || c == '\\'
            || c == '|' || c == '?' || c == '*';
        let d = if reserved || control_char(c) { '_' } else { c };
        mapped.push(d);
        assert(cs@.take(i + 1) =~= cs@.take(i as int).push(c));
        assert(mapped@ =~= cs@.take(i + 1).map_values(|c: char| sanitize_char(c)));
        i = i + 1;
    }
    assert(cs@.take(cs@.len() as int) =~= cs@);
    let ghost m = mapped@;
    let mut end: usize = mapped.len();
    while end > 0 && (mapped[end - 1] == '.' || mapped[end - 1] == ' ' || control_char(
        mapped[end - 1],
    ))
        invariant
            m == mapped@,
            end <= mapped@.len(),
            forall|k: int| end <= k < mapped@.len() ==> is_trailing_junk(#[trigger] mapped@[k]),
        decreases end,
    {
        end = end - 1;
    }
    proof {
        lemma_trim_junk_take(m, end as int);
        let t = m.take(end as int);
        if t.len() > 0 {
            assert(t.last() == m[end - 1]);
        }
        assert(trim_trailing_junk(t) == t);
    }
    if end == 0 {
        owned("unnamed")
    } else {
        let kept = slice_subrange(mapped.as_slice(), 0, end);
        assert(kept@ =~= m.take(end as int));
        string_from_chars(kept)
    }
}

proof fn lemma_trim_junk_prefix(s: Seq<char>)
    ensures
        trim_trailing_junk(s).len() <= s.len(),
        trim_trailing_junk(s) == s.take(trim_trailing_junk(s).len() as int),
        trim_trailing_junk(s).len() > 0 ==> !is_trailing_junk(trim_trailing_junk(s).last()),
    decreases s.len(),
{
    if s.len() > 0 && is_trailing_junk(s.last()) {
        lemma_trim_junk_prefix(s.drop_last());
        let t = trim_trailing_junk(s.drop_last());
        assert(s.drop_last().take(t.len() as int) =~= s.take(t.len() as int));
    } else {
        assert(s.take(s.len() as int) =~= s);
    }
}

/// A character that sanitising keeps as it is.
pub open spec fn is_clean_char(c: char) -> bool {
    !is_reserved_in_file_name(c) && !is_control_char(c)
}

/// A sanitised name is never empty, holds no character that Windows refuses in file names and
/// no control character, and does not end in a dot or a space.
pub proof fn lemma_sanitized_is_safe(name: Seq<char>)
    ensures
        sanitized(name).len() > 0,
        forall|k: int| 0 <= k < sanitized(name).len() ==> is_clean_char(#[trigger] sanitized(name)[k]),
        !is_trailing_junk(sanitized(name).last()),
{
    let m = name.map_values(|c: char| sanitize_char(c));
    lemma_trim_junk_prefix(m);
    let t = trim_trailing_junk(m);
    if t.len() == 0 {
        reveal_strlit("unnamed");
    } else {
        assert forall|k: int| 0 <= k < t.len() implies is_clean_char(#[trigger] t[k]) by {
            assert(t[k] == m[k]);
        }
    }
}

/// Sanitising a sanitised name changes nothing.
pub proof fn lemma_sanitize_idempotent(name: Seq<char>)
    ensures
        sanitized(sanitized(name)) == sanitized(name),
{
    let s = sanitized(name);
    lemma_sanitized_is_safe(name);
    let m = s.map_values(|c: char| sanitize_char(c));
    assert(m =~= s);
    assert(trim_trailing_junk(s) == s);
}

/// The CSS variables of a theme built from the colours of a style; a colour that the style
/// lacks falls back to the launcher's own value.
pub open spec fn launcher_variables(colors: Seq<ThemeColor>) -> Seq<(Seq<char>, Seq<char>)> {
    seq![
        ("--nl-text"@, color_value(colors, 0, "rgba(255, 255, 255, 0.88)"@)),
        ("--nl-disabled-text"@, color_value(colors, 1, "rgba(255, 255, 255, 0.38)"@)),
        ("--nl-active-text"@, color_value(colors, 2, "#FFFFFF"@)),
        ("--nl-small-text"@, color_value(colors, 3, "rgba(255, 255, 255, 0.575)"@)),
        ("--nl-sidebar-text"@, color_value(colors, 4, "rgba(255, 255, 255, 0.589)"@)),
        ("--nl-logo"@, color_value(colors, 5, "white"@)),
        ("--nl-sidebar-bg"@, color_value(colors, 6, "#0a0307"@)),
        ("--nl-popup-bg"@, color_value(colors, 8, "rgba(8, 2, 6, 0.65)"@)),
        ("--nl-main-bg"@, color_value(colors, 9, "#080206"@)),
        ("--nl-main-bg-opaque"@, alpha_color_value(colors, 9, "#080206"@, 1000)),
        ("--nl-preview-bg"@, color_value(colors, 10, "#0a0307"@)),
        ("--nl-border"@, color_value(colors, 11, "rgba(255, 255, 255, 0.06)"@)),
        ("--nl-frame-bg"@, color_value(colors, 12, "#0a0307"@)),
        ("--nl-frame-active-bg"@, color_value(colors, 13, "rgba(12, 4, 8, 0.72)"@)),
        ("--nl-text-preview"@, color_value(colors, 14, "rgba(247, 245, 255, 0.8)"@)),
        ("--nl-window-title-bg"@, color_value(colors, 15, "rgba(4, 1, 3, 0.96)"@)),
        ("--nl-active-window-title"@, color_value(colors, 16, "rgba(255, 255, 255, 0.88)"@)),
        ("--nl-spinner"@, color_value(colors, 40, "#ff6bb5"@)),
        ("--nl-block-bg"@, color_value(colors, 41, "#0a0307"@)),
        ("--nl-block-bg-opaque"@, alpha_color_value(colors, 41, "#0a0307"@, 1000)),
        ("--nl-sidebar-selection"@, color_value(colors, 42, "rgba(255, 255, 255, 0.08)"@)),
        ("--nl-logo-back"@, color_value(colors, 44, "rgba(255, 255, 255, 0.18)"@)),
        ("--nl-button"@, color_value(colors, 28, "#f06292"@)),
        ("--nl-button-active"@, color_value(colors, 29, "#ec4899"@)),
        ("--nl-button-active-text"@, color_value(colors, 30, "rgba(255, 255, 255, 0.9)"@)),
        ("--nl-link"@, color_value(colors, 31, "#f472b6"@)),
        ("--nl-link-active"@, color_value(colors, 32, "white"@)),
        ("--nl-selection"@, color_value(colors, 34, "rgba(30, 8, 18, 0.78)"@)),
        ("--nl-separator"@, color_value(colors, 35, "rgba(255, 255, 255, 0.04)"@)),
        ("--nl-shadow"@, color_value(colors, 39, "rgba(136, 30, 80, 0.35)"@)),
        ("--nl-shadow-soft"@, alpha_color_value(colors, 39, "rgba(136, 30, 80, 0.3)"@, 480)),
    ]
}

/// Which colour each variable is painted with: the text colour with colour 0, the button with
/// colour 28, the active button with colour 29, and so on for every variable; each takes its
/// launcher default when the style has no such colour. The opaque backgrounds read colours 9 and
/// 41 at full opacity, and the soft shadow reads colour 39 at 0.48.
#[verifier::rlimit(60)]
pub proof fn lemma_launcher_variable_colours(colors: Seq<ThemeColor>)
    ensures
        colors.len() > 0 ==> launcher_variables(colors)[0] == ("--nl-text"@, colors[0].css@),
        colors.len() <= 0 ==> launcher_variables(colors)[0] == ("--nl-text"@, "rgba(255, 255, 255, 0.88)"@),
        colors.len() > 1 ==> launcher_variables(colors)[1] == ("--nl-disabled-text"@, colors[1].css@),
        colors.len() <= 1 ==> launcher_variables(colors)[1] == ("--nl-disabled-text"@, "rgba(255, 255, 255, 0.38)"@),
        colors.len() > 2 ==> launcher_variables(colors)[2] == ("--nl-active-text"@, colors[2].css@),
        colors.len() <= 2 ==> launcher_variables(colors)[2] == ("--nl-active-text"@, "#FFFFFF"@),
        colors.len() > 3 ==> launcher_variables(colors)[3] == ("--nl-small-text"@, colors[3].css@),
        colors.len() <= 3 ==> launcher_variables(colors)[3] == ("--nl-small-text"@, "rgba(255, 255, 255, 0.575)"@),
        colors.len() > 4 ==> launcher_variables(colors)[4] == ("--nl-sidebar-text"@, colors[4].css@),
        colors.len() <= 4 ==> launcher_variables(colors)[4] == ("--nl-sidebar-text"@, "rgba(255, 255, 255, 0.589)"@),
        colors.len() > 5 ==> launcher_variables(colors)[5] == ("--nl-logo"@, colors[5].css@),
        colors.len() <= 5 ==> launcher_variables(colors)[5] == ("--nl-logo"@, "white"@),
        colors.len() > 6 ==> launcher_variables(colors)[6] == ("--nl-sidebar-bg"@, colors[6].css@),
        colors.len() <= 6 ==> launcher_variables(colors)[6] == ("--nl-sidebar-bg"@, "#0a0307"@),
        colors.len() > 8 ==> launcher_variables(colors)[7] == ("--nl-popup-bg"@, colors[8].css@),
        colors.len() <= 8 ==> launcher_variables(colors)[7] == ("--nl-popup-bg"@, "rgba(8, 2, 6, 0.65)"@),
        colors.len() > 9 ==> launcher_variables(colors)[8] == ("--nl-main-bg"@, colors[9].css@),
        colors.len() <= 9 ==> launcher_variables(colors)[8] == ("--nl-main-bg"@, "#080206"@),
        launcher_variables(colors)[9] == ("--nl-main-bg-opaque"@, alpha_color_value(colors, 9, "#080206"@, 1000)),
        colors.len() > 10 ==> launcher_variables(colors)[10] == ("--nl-preview-bg"@, colors[10].css@),
        colors.len() <= 10 ==> launcher_variables(colors)[10] == ("--nl-preview-bg"@, "#0a0307"@),
        colors.len() > 11 ==> launcher_variables(colors)[11] == ("--nl-border"@, colors[11].css@),
        colors.len() <= 11 ==> launcher_variables(colors)[11] == ("--nl-border"@, "rgba(255, 255, 255, 0.06)"@),
        colors.len() > 12 ==> launcher_variables(colors)[12] == ("--nl-frame-bg"@, colors[12].css@),
        colors.len() <= 12 ==> launcher_variables(colors)[12] == ("--nl-frame-bg"@, "#0a0307"@),
        colors.len() > 13 ==> launcher_variables(colors)[13] == ("--nl-frame-active-bg"@, colors[13].css@),
        colors.len() <= 13 ==> launcher_variables(colors)[13] == ("--nl-frame-active-bg"@, "rgba(12, 4, 8, 0.72)"@),
        colors.len() > 14 ==> launcher_variables(colors)[14] == ("--nl-text-preview"@, colors[14].css@),
        colors.len() <= 14 ==> launcher_variables(colors)[14] == ("--nl-text-preview"@, "rgba(247, 245, 255, 0.8)"@),
        colors.len() > 15 ==> launcher_variables(colors)[15] == ("--nl-window-title-bg"@, colors[15].css@),
        colors.len() <= 15 ==> launcher_variables(colors)[15] == ("--nl-window-title-bg"@, "rgba(4, 1, 3, 0.96)"@),
        colors.len() > 16 ==> launcher_variables(colors)[16] == ("--nl-active-window-title"@, colors[16].css@),
        colors.len() <= 16 ==> launcher_variables(colors)[16] == ("--nl-active-window-title"@, "rgba(255, 255, 255, 0.88)"@),
        colors.len() > 40 ==> launcher_variables(colors)[17] == ("--nl-spinner"@, colors[40].css@),
        colors.len() <= 40 ==> launcher_variables(colors)[17] == ("--nl-spinner"@, "#ff6bb5"@),
        colors.len() > 41 ==> launcher_variables(colors)[18] == ("--nl-block-bg"@, colors[41].css@),
        colors.len() <= 41 ==> launcher_variables(colors)[18] == ("--nl-block-bg"@, "#0a0307"@),
        launcher_variables(colors)[19] == ("--nl-block-bg-opaque"@, alpha_color_value(colors, 41, "#0a0307"@, 1000)),
        colors.len() > 42 ==> launcher_variables(colors)[20] == ("--nl-sidebar-selection"@, colors[42].css@),
        colors.len() <= 42 ==> launcher_variables(colors)[20] == ("--nl-sidebar-selection"@, "rgba(255, 255, 255, 0.08)"@),
        colors.len() > 44 ==> launcher_variables(colors)[21] == ("--nl-logo-back"@, colors[44].css@),
        colors.len() <= 44 ==> launcher_variables(colors)[21] == ("--nl-logo-back"@, "rgba(255, 255, 255, 0.18)"@),
        colors.len() > 28 ==> launcher_variables(colors)[22] == ("--nl-button"@, colors[28].css@),
        colors.len() <= 28 ==> launcher_variables(colors)[22] == ("--nl-button"@, "#f06292"@),
        colors.len() > 29 ==> launcher_variables(colors)[23] == ("--nl-button-active"@, colors[29].css@),
        colors.len() <= 29 ==> launcher_variables(colors)[23] == ("--nl-button-active"@, "#ec4899"@),
        colors.len() > 30 ==> launcher_variables(colors)[24] == ("--nl-button-active-text"@, colors[30].css@),
        colors.len() <= 30 ==> launcher_variables(colors)[24] == ("--nl-button-active-text"@, "rgba(255, 255, 255, 0.9)"@),
        colors.len() > 31 ==> launcher_variables(colors)[25] == ("--nl-link"@, colors[31].css@),
        colors.len() <= 31 ==> launcher_variables(colors)[25] == ("--nl-link"@, "#f472b6"@),
        colors.len() > 32 ==> launcher_variables(colors)[26] == ("--nl-link-active"@, colors[32].css@),
        colors.len() <= 32 ==> launcher_variables(colors)[26] == ("--nl-link-active"@, "white"@),
        colors.len() > 34 ==> launcher_variables(colors)[27] == ("--nl-selection"@, colors[34].css@),
        colors.len() <= 34 ==> launcher_variables(colors)[27] == ("--nl-selection"@, "rgba(30, 8, 18, 0.78)"@),
        colors.len() > 35 ==> launcher_variables(colors)[28] == ("--nl-separator"@, colors[35].css@),
        colors.len() <= 35 ==> launcher_variables(colors)[28] == ("--nl-separator"@, "rgba(255, 255, 255, 0.04)"@),
        colors.len() > 39 ==> launcher_variables(colors)[29] == ("--nl-shadow"@, colors[39].css@),
        colors.len() <= 39 ==> launcher_variables(colors)[29] == ("--nl-shadow"@, "rgba(136, 30, 80, 0.35)"@),
        launcher_variables(colors)[30] == ("--nl-shadow-soft"@, alpha_color_value(colors, 39, "rgba(136, 30, 80, 0.3)"@, 480)),
{
}

/// Maps the colours of a style onto the launcher's CSS variables. The opaque and soft-shadow
/// variants read the colour's hex text; the shadow's opacity is 0.48.
#[verifier::rlimit(40)]
pub fn build_launcher_variables(colors: &[ThemeColor]) -> (v: Vec<(String, String)>)
    requires
        color_slicing_safe(colors@, 9),
        color_slicing_safe(colors@, 39),
        color_slicing_safe(colors@, 41),
    ensures
        v.deep_view() == launcher_variables(colors@),
{
    let mut v: Vec<(String, String)> = Vec::new();
    push_var(&mut v, "--nl-text", color(colors, 0, "rgba(255, 255, 255, 0.88)"));
    push_var(&mut v, "--nl-disabled-text", color(colors, 1, "rgba(255, 255, 255, 0.38)"));
    push_var(&mut v, "--nl-active-text", color(colors, 2, "#FFFFFF"));
    push_var(&mut v, "--nl-small-text", color(colors, 3, "rgba(255, 255, 255, 0.575)"));
    push_var(&mut v, "--nl-sidebar-text", color(colors, 4, "rgba(255, 255, 255, 0.589)"));
    push_var(&mut v, "--nl-logo", color(colors, 5, "white"));
    push_var(&mut v, "--nl-sidebar-bg", color(colors, 6, "#0a0307"));
    push_var(&mut v, "--nl-popup-bg", color(colors, 8, "rgba(8, 2, 6, 0.65)"));
    push_var(&mut v, "--nl-main-bg", color(colors, 9, "#080206"));
    push_var(&mut v, "--nl-main-bg-opaque", opaque_color(colors, 9, "#080206"));
    push_var(&mut v, "--nl-preview-bg", color(colors, 10, "#0a0307"));
    push_var(&mut v, "--nl-border", color(colors, 11, "rgba(255, 255, 255, 0.06)"));
    push_var(&mut v, "--nl-frame-bg", color(colors, 12, "#0a0307"));
    push_var(&mut v, "--nl-frame-active-bg", color(colors, 13, "rgba(12, 4, 8, 0.72)"));
    push_var(&mut v, "--nl-text-preview", color(colors, 14, "rgba(247, 245, 255, 0.8)"));
    push_var(&mut v, "--nl-window-title-bg", color(colors, 15, "rgba(4, 1, 3, 0.96)"));
    push_var(&mut v, "--nl-active-window-title", color(colors, 16, "rgba(255, 255, 255, 0.88)"));
    push_var(&mut v, "--nl-spinner", color(colors, 40, "#ff6bb5"));
    push_var(&mut v, "--nl-block-bg", color(colors, 41, "#0a0307"));
    push_var(&mut v, "--nl-block-bg-opaque", opaque_color(colors, 41, "#0a0307"));
    push_var(&mut v, "--nl-sidebar-selection", color(colors, 42, "rgba(255, 255, 255, 0.08)"));
    push_var(&mut v, "--nl-logo-back", color(colors, 44, "rgba(255, 255, 255, 0.18)"));
    push_var(&mut v, "--nl-button", color(colors, 28, "#f06292"));
    push_var(&mut v, "--nl-button-active", color(colors, 29, "#ec4899"));
    push_var(&mut v, "--nl-button-active-text", color(colors, 30, "rgba(255, 255, 255, 0.9)"));
    push_var(&mut v, "--nl-link", color(colors, 31, "#f472b6"));
    push_var(&mut v, "--nl-link-active", color(colors, 32, "white"));
    push_var(&mut v, "--nl-selection", color(colors, 34, "rgba(30, 8, 18, 0.78)"));
    push_var(&mut v, "--nl-separator", color(colors, 35, "rgba(255, 255, 255, 0.04)"));
    push_var(&mut v, "--nl-shadow", color(colors, 39, "rgba(136, 30, 80, 0.35)"));
    push_var(&mut v, "--nl-shadow-soft", alpha_color(colors, 39, "rgba(136, 30, 80, 0.3)", 480));
    assert(v.deep_view() =~= launcher_variables(colors@));
    v
}

/// Whether no name occurs twice in a list of CSS variables.
pub open spec fn names_distinct(vars: Seq<(Seq<char>, Seq<char>)>) -> bool {
    forall|i: int, j: int| 0 <= i < vars.len() && 0 <= j < vars.len() && i != j ==> #[trigger] vars[i].0 != #[trigger] vars[j].0
}

/// Whether every name of `a` is also a name of `b`.
pub open spec fn names_covered(a: Seq<(Seq<char>, Seq<char>)>, b: Seq<(Seq<char>, Seq<char>)>) -> bool {
    forall|i: int| 0 <= i < a.len() ==> exists|j: int| 0 <= j < b.len() && #[trigger] b[j].0 == #[trigger] a[i].0
}

/// The length of a variable name and its characters at positions 5 and 7, which tell the
/// launcher's variable names apart.
spec fn fingerprint(name: Seq<char>) -> (nat, char, char) {
    (name.len(), name[5], name[7])
}

/// The position, in `launcher_variables`, of the name with this fingerprint.
spec fn fingerprint_tag(f: (nat, char, char)) -> int {
    if f == (9nat, 't', 'x') {
        0
    } else if f == (18nat, 'd', 's') {
        1
    } else if f == (16nat, 'a', 't') {
        2
    } else if f == (15nat, 's', 'a') {
        3
    } else if f == (17nat, 's', 'd') {
        4
    } else if f == (9nat, 'l', 'g') {
        5
    } else if f == (15nat, 's', 'd') {
        6
    } else if f == (13nat, 'p', 'p') {
        7
    } else if f == (12nat, 'm', 'i') {
        8
    } else if f == (19nat, 'm', 'i') {
        9
    } else if f == (15nat, 'p', 'e') {
        10
    } else if f == (11nat, 'b', 'r') {
        11
    } else if f == (13nat, 'f', 'a') {
        12
    } else if f == (20nat, 'f', 'a') {
        13
    } else if f == (17nat, 't', 'x') {
        14
    } else if f == (20nat, 'w', 'n') {
        15
    } else if f == (24nat, 'a', 't') {
        16
    } else if f == (12nat, 's', 'i') {
        17
    } else if f == (13nat, 'b', 'o') {
        18
    } else if f == (20nat, 'b', 'o') {
        19
    } else if f == (22nat, 's', 'd') {
        20
    } else if f == (14nat, 'l', 'g') {
        21
    } else if f == (11nat, 'b', 't') {
        22
    } else if f == (18nat, 'b', 't') {
        23
    } else if f == (23nat, 'b', 't') {
        24
    } else if f == (9nat, 'l', 'n') {
        25
    } else if f == (16nat, 'l', 'n') {
        26
    } else if f == (14nat, 's', 'l') {
        27
    } else if f == (14nat, 's', 'p') {
        28
    } else if f == (11nat, 's', 'a') {
        29
    } else if f == (16nat, 's', 'a') {
        30
    } else {
        -1
    }
}

#[verifier::spinoff_prover]
#[verifier::rlimit(40)]
proof fn lemma_launcher_tags(colors: Seq<ThemeColor>)
    ensures
        forall|i: int| 0 <= i < 31 ==> fingerprint_tag(fingerprint(#[trigger] launcher_variables(colors)[i].0)) == i,
{
    let l = launcher_variables(colors);
    assert forall|i: int| 0 <= i < 31 implies fingerprint_tag(fingerprint(#[trigger] l[i].0)) == i by {
        if i == 0 {
            assert(l[0].0 == "--nl-text"@);
            assert(fingerprint("--nl-text"@) == (9nat, 't', 'x')) by {
                reveal_strlit("--nl-text");
            }
        } else if i == 1 {
            assert(l[1].0 == "--nl-disabled-text"@);
            assert(fingerprint("--nl-disabled-text"@) == (18nat, 'd', 's')) by {
                reveal_strlit("--nl-disabled-text");
            }
        } else if i == 2 {
            assert(l[2].0 == "--nl-active-text"@);
            assert(fingerprint("--nl-active-text"@) == (16nat, 'a', 't')) by {
                reveal_strlit("--nl-active-text");
            }
        } else if i == 3 {
            assert(l[3].0 == "--nl-small-text"@);
            assert(fingerprint("--nl-small-text"@) == (15nat, 's', 'a')) by {
                reveal_strlit("--nl-small-text");
            }
        } else if i == 4 {
            assert(l[4].0 == "--nl-sidebar-text"@);
            assert(fingerprint("--nl-sidebar-text"@) == (17nat, 's', 'd')) by {
                reveal_strlit("--nl-sidebar-text");
            }
        } else if i == 5 {
            assert(l[5].0 == "--nl-logo"@);
            assert(fingerprint("--nl-logo"@) == (9nat, 'l', 'g')) by {
                reveal_strlit("--nl-logo");
            }
        } else if i == 6 {
            assert(l[6].0 == "--nl-sidebar-bg"@);
            assert(fingerprint("--nl-sidebar-bg"@) == (15nat, 's', 'd')) by {
                reveal_strlit("--nl-sidebar-bg");
            }
        } else if i == 7 {
            assert(l[7].0 == "--nl-popup-bg"@);
            assert(fingerprint("--nl-popup-bg"@) == (13nat, 'p', 'p')) by {
                reveal_strlit("--nl-popup-bg");
            }
        } else if i == 8 {
            assert(l[8].0 == "--nl-main-bg"@);
            assert(fingerprint("--nl-main-bg"@) == (12nat, 'm', 'i')) by {
                reveal_strlit("--nl-main-bg");
            }
        } else if i == 9 {
            assert(l[9].0 == "--nl-main-bg-opaque"@);
            assert(fingerprint("--nl-main-bg-opaque"@) == (19nat, 'm', 'i')) by {
                reveal_strlit("--nl-main-bg-opaque");
            }
        } else if i == 10 {
            assert(l[10].0 == "--nl-preview-bg"@);
            assert(fingerprint("--nl-preview-bg"@) == (15nat, 'p', 'e')) by {
                reveal_strlit("--nl-preview-bg");
            }
        } else if i == 11 {
            assert(l[11].0 == "--nl-border"@);
            assert(fingerprint("--nl-border"@) == (11nat, 'b', 'r')) by {
                reveal_strlit("--nl-border");
            }
        } else if i == 12 {
            assert(l[12].0 == "--nl-frame-bg"@);
            assert(fingerprint("--nl-frame-bg"@) == (13nat, 'f', 'a')) by {
                reveal_strlit("--nl-frame-bg");
            }
        } else if i == 13 {
            assert(l[13].0 == "--nl-frame-active-bg"@);
            assert(fingerprint("--nl-frame-active-bg"@) == (20nat, 'f', 'a')) by {
                reveal_strlit("--nl-frame-active-bg");
            }
        } else if i == 14 {
            assert(l[14].0 == "--nl-text-preview"@);
            assert(fingerprint("--nl-text-preview"@) == (17nat, 't', 'x')) by {
                reveal_strlit("--nl-text-preview");
            }
        } else if i == 15 {
            assert(l[15].0 == "--nl-window-title-bg"@);
            assert(fingerprint("--nl-window-title-bg"@) == (20nat, 'w', 'n')) by {
                reveal_strlit("--nl-window-title-bg");
            }
        } else if i == 16 {
            assert(l[16].0 == "--nl-active-window-title"@);
            assert(fingerprint("--nl-active-window-title"@) == (24nat, 'a', 't')) by {
                reveal_strlit("--nl-active-window-title");
            }
        } else if i == 17 {
            assert(l[17].0 == "--nl-spinner"@);
            assert(fingerprint("--nl-spinner"@) == (12nat, 's', 'i')) by {
                reveal_strlit("--nl-spinner");
            }
        } else if i == 18 {
            assert(l[18].0 == "--nl-block-bg"@);
            assert(fingerprint("--nl-block-bg"@) == (13nat, 'b', 'o')) by {
                reveal_strlit("--nl-block-bg");
            }
        } else if i == 19 {
            assert(l[19].0 == "--nl-block-bg-opaque"@);
            assert(fingerprint("--nl-block-bg-opaque"@) == (20nat, 'b', 'o')) by {
                reveal_strlit("--nl-block-bg-opaque");
            }
        } else if i == 20 {
            assert(l[20].0 == "--nl-sidebar-selection"@);
            assert(fingerprint("--nl-sidebar-selection"@) == (22nat, 's', 'd')) by {
                reveal_strlit("--nl-sidebar-selection");
            }
        } else if i == 21 {
            assert(l[21].0 == "--nl-logo-back"@);
            assert(fingerprint("--nl-logo-back"@) == (14nat, 'l', 'g')) by {
                reveal_strlit("--nl-logo-back");
            }
        } else if i == 22 {
            assert(l[22].0 == "--nl-button"@);
            assert(fingerprint("--nl-button"@) == (11nat, 'b', 't')) by {
                reveal_strlit("--nl-button");
            }
        } else if i == 23 {
            assert(l[23].0 == "--nl-button-active"@);
            assert(fingerprint("--nl-button-active"@) == (18nat, 'b', 't')) by {
                reveal_strlit("--nl-button-active");
            }
        } else if i == 24 {
            assert(l[24].0 == "--nl-button-active-text"@);
            assert(fingerprint("--nl-button-active-text"@) == (23nat, 'b', 't')) by {
                reveal_strlit("--nl-button-active-text");
            }
        } else if i == 25 {
            assert(l[25].0 == "--nl-link"@);
            assert(fingerprint("--nl-link"@) == (9nat, 'l', 'n')) by {
                reveal_strlit("--nl-link");
            }
        } else if i == 26 {
            assert(l[26].0 == "--nl-link-active"@);
            assert(fingerprint("--nl-link-active"@) == (16nat, 'l', 'n')) by {
                reveal_strlit("--nl-link-active");
            }
        } else if i == 27 {
            assert(l[27].0 == "--nl-selection"@);
            assert(fingerprint("--nl-selection"@) == (14nat, 's', 'l')) by {
                reveal_strlit("--nl-selection");
            }
        } else if i == 28 {
            assert(l[28].0 == "--nl-separator"@);
            assert(fingerprint("--nl-separator"@) == (14nat, 's', 'p')) by {
                reveal_strlit("--nl-separator");
            }
        } else if i == 29 {
            assert(l[29].0 == "--nl-shadow"@);
            assert(fingerprint("--nl-shadow"@) == (11nat, 's', 'a')) by {
                reveal_strlit("--nl-shadow");
            }
        } else if i == 30 {
            assert(l[30].0 == "--nl-shadow-soft"@);
            assert(fingerprint("--nl-shadow-soft"@) == (16nat, 's', 'a')) by {
                reveal_strlit("--nl-shadow-soft");
            }
        }
    }
}

/// The position, in `default_variables`, of the name with this fingerprint.
spec fn default_fingerprint_tag(f: (nat, char, char)) -> int {
    if f == (12nat, 'm', 'i') {
        0
    } else if f == (19nat, 'm', 'i') {
        1
    } else if f == (13nat, 'b', 'o') {
        2
    } else if f == (20nat, 'b', 'o') {
        3
    } else if f == (13nat, 'f', 'a') {
        4
    } else if f == (11nat, 'b', 't') {
        5
    } else if f == (18nat, 'b', 't') {
        6
    } else if f == (15nat, 'p', 'e') {
        7
    } else if f == (13nat, 'p', 'p') {
        8
    } else if f == (20nat, 'f', 'a') {
        9
    } else if f == (20nat, 'w', 'n') {
        10
    } else if f == (12nat, 's', 'i') {
        11
    } else if f == (14nat, 's', 'l') {
        12
    } else if f == (9nat, 'l', 'n') {
        13
    } else {
        -1
    }
}

/// Where each variable of the built-in theme stands in `launcher_variables`.
spec fn default_positions() -> Seq<int> {
    seq![8, 9, 18, 19, 12, 22, 23, 10, 7, 13, 15, 17, 27, 25int]
}

proof fn lemma_default_tags(colors: Seq<ThemeColor>)
    ensures
        forall|i: int| 0 <= i < 14 ==> {
            &&& 0 <= #[trigger] default_positions()[i] < 31
            &&& default_variables()[i].0 == launcher_variables(colors)[default_positions()[i]].0
            &&& default_fingerprint_tag(fingerprint(default_variables()[i].0)) == i
        },
{
    let d = default_variables();
    let l = launcher_variables(colors);
    let p = default_positions();
    assert forall|i: int| 0 <= i < 14 implies {
        &&& 0 <= #[trigger] p[i] < 31
        &&& d[i].0 == l[p[i]].0
        &&& default_fingerprint_tag(fingerprint(d[i].0)) == i
    } by {
        if i == 0 {
            assert(d[0].0 == l[8].0);
            assert(fingerprint(d[0].0) == (12nat, 'm', 'i')) by {
                reveal_strlit("--nl-main-bg");
            }
        } else if i == 1 {
            assert(d[1].0 == l[9].0);
            assert(fingerprint(d[1].0) == (19nat, 'm', 'i')) by {
                reveal_strlit("--nl-main-bg-opaque");
            }
        } else if i == 2 {
            assert(d[2].0 == l[18].0);
            assert(fingerprint(d[2].0) == (13nat, 'b', 'o')) by {
                reveal_strlit("--nl-block-bg");
            }
        } else if i == 3 {
            assert(d[3].0 == l[19].0);
            assert(fingerprint(d[3].0) == (20nat, 'b', 'o')) by {
                reveal_strlit("--nl-block-bg-opaque");
            }
        } else if i == 4 {
            assert(d[4].0 == l[12].0);
            assert(fingerprint(d[4].0) == (13nat, 'f', 'a')) by {
                reveal_strlit("--nl-frame-bg");
            }
        } else if i == 5 {
            assert(d[5].0 == l[22].0);
            assert(fingerprint(d[5].0) == (11nat, 'b', 't')) by {
                reveal_strlit("--nl-button");
            }
        } else if i == 6 {
            assert(d[6].0 == l[23].0);
            assert(fingerprint(d[6].0) == (18nat, 'b', 't')) by {
                reveal_strlit("--nl-button-active");
            }
        } else if i == 7 {
            assert(d[7].0 == l[10].0);
            assert(fingerprint(d[7].0) == (15nat, 'p', 'e')) by {
                reveal_strlit("--nl-preview-bg");
            }
        } else if i == 8 {
            assert(d[8].0 == l[7].0);
            assert(fingerprint(d[8].0) == (13nat, 'p', 'p')) by {
                reveal_strlit("--nl-popup-bg");
            }
        } else if i == 9 {
            assert(d[9].0 == l[13].0);
            assert(fingerprint(d[9].0) == (20nat, 'f', 'a')) by {
                reveal_strlit("--nl-frame-active-bg");
            }
        } else if i == 10 {
            assert(d[10].0 == l[15].0);
            assert(fingerprint(d[10].0) == (20nat, 'w', 'n')) by {
                reveal_strlit("--nl-window-title-bg");
            }
        } else if i == 11 {
            assert(d[11].0 == l[17].0);
            assert(fingerprint(d[11].0) == (12nat, 's', 'i')) by {
                reveal_strlit("--nl-spinner");
            }
        } else if i == 12 {
            assert(d[12].0 == l[27].0);
            assert(fingerprint(d[12].0) == (14nat, 's', 'l')) by {
                reveal_strlit("--nl-selection");
            }
        } else if i == 13 {
            assert(d[13].0 == l[25].0);
            assert(fingerprint(d[13].0) == (9nat, 'l', 'n')) by {
                reveal_strlit("--nl-link");
            }
        }
    }
}

/// A theme built from a style sets 31 variables, each once, and which names it sets does not
/// depend on the style.
pub proof fn lemma_launcher_variables_shape(colors: Seq<ThemeColor>, other: Seq<ThemeColor>)
    ensures
        launcher_variables(colors).len() == 31,
        names_distinct(launcher_variables(colors)),
        forall|i: int| 0 <= i < 31 ==> #[trigger] launcher_variables(colors)[i].0 == launcher_variables(other)[i].0,
{
    lemma_launcher_tags(colors);
    let l = launcher_variables(colors);
    let o = launcher_variables(other);
    assert forall|i: int| 0 <= i < 31 implies #[trigger] l[i].0 == o[i].0 by {
        if i == 0 {
            assert(l[0].0 == o[0].0);
        } else if i == 1 {
            assert(l[1].0 == o[1].0);
        } else if i == 2 {
            assert(l[2].0 == o[2].0);
        } else if i == 3 {
            assert(l[3].0 == o[3].0);
        } else if i == 4 {
            assert(l[4].0 == o[4].0);
        } else if i == 5 {
            assert(l[5].0 == o[5].0);
        } else if i == 6 {
            assert(l[6].0 == o[6].0);
        } else if i == 7 {
            assert(l[7].0 == o[7].0);
        } else if i == 8 {
            assert(l[8].0 == o[8].0);
        } else if i == 9 {
            assert(l[9].0 == o[9].0);
        } else if i == 10 {
            assert(l[10].0 == o[10].0);
        } else if i == 11 {
            assert(l[11].0 == o[11].0);
        } else if i == 12 {
            assert(l[12].0 == o[12].0);
        } else if i == 13 {
            assert(l[13].0 == o[13].0);
        } else if i == 14 {
            assert(l[14].0 == o[14].0);
        } else if i == 15 {
            assert(l[15].0 == o[15].0);
        } else if i == 16 {
            assert(l[16].0 == o[16].0);
        } else if i == 17 {
            assert(l[17].0 == o[17].0);
        } else if i == 18 {
            assert(l[18].0 == o[18].0);
        } else if i == 19 {
            assert(l[19].0 == o[19].0);
        } else if i == 20 {
            assert(l[20].0 == o[20].0);
        } else if i == 21 {
            assert(l[21].0 == o[21].0);
        } else if i == 22 {
            assert(l[22].0 == o[22].0);
        } else if i == 23 {
            assert(l[23].0 == o[23].0);
        } else if i == 24 {
            assert(l[24].0 == o[24].0);
        } else if i == 25 {
            assert(l[25].0 == o[25].0);
        } else if i == 26 {
            assert(l[26].0 == o[26].0);
        } else if i == 27 {
            assert(l[27].0 == o[27].0);
        } else if i == 28 {
            assert(l[28].0 == o[28].0);
        } else if i == 29 {
            assert(l[29].0 == o[29].0);
        } else if i == 30 {
            assert(l[30].0 == o[30].0);
        }
    }
}

/// The built-in theme sets each of its variables once, and a theme built from any style sets
/// every variable that the built-in theme sets.
pub proof fn lemma_default_variables_covered(colors: Seq<ThemeColor>)
    ensures
        names_distinct(default_variables()),
        names_covered(default_variables(), launcher_variables(colors)),
{
    lemma_default_tags(colors);
    let d = default_variables();
    let l = launcher_variables(colors);
    let p = default_positions();
    assert forall|i: int| 0 <= i < d.len() implies exists|j: int| 0 <= j < l.len() && #[trigger] l[j].0 == #[trigger] d[i].0 by {
        assert(0 <= p[i] < 31);
        assert(l[p[i]].0 == d[i].0);
    }
}

/// Without colours, every variable takes the launcher's own value.
pub proof fn lemma_launcher_variables_fallback()
    ensures
        forall|i: int| 0 <= i < 31 ==> #[trigger] launcher_variables(Seq::empty())[i].1 == launcher_variables_fallbacks()[i],
{
}

/// The launcher's own value of each variable, in the order `launcher_variables` lists them.
pub open spec fn launcher_variables_fallbacks() -> Seq<Seq<char>> {
    seq![
        "rgba(255, 255, 255, 0.88)"@,
        "rgba(255, 255, 255, 0.38)"@,
        "#FFFFFF"@,
        "rgba(255, 255, 255, 0.575)"@,
        "rgba(255, 255, 255, 0.589)"@,
        "white"@,
        "#0a0307"@,
        "rgba(8, 2, 6, 0.65)"@,
        "#080206"@,
        "#080206"@,
        "#0a0307"@,
        "rgba(255, 255, 255, 0.06)"@,
        "#0a0307"@,
        "rgba(12, 4, 8, 0.72)"@,
        "rgba(247, 245, 255, 0.8)"@,
        "rgba(4, 1, 3, 0.96)"@,
        "rgba(255, 255, 255, 0.88)"@,
        "#ff6bb5"@,
        "#0a0307"@,
        "#0a0307"@,
        "rgba(255, 255, 255, 0.08)"@,
        "rgba(255, 255, 255, 0.18)"@,
        "#f06292"@,
        "#ec4899"@,
        "rgba(255, 255, 255, 0.9)"@,
        "#f472b6"@,
        "white"@,
        "rgba(30, 8, 18, 0.78)"@,
        "rgba(255, 255, 255, 0.04)"@,
        "rgba(136, 30, 80, 0.35)"@,
        "rgba(136, 30, 80, 0.3)"@,
    ]
}

} // verus!
