use vstd::prelude::*;
use base64::Engine as _;
use rmpv::Value;

verus! {

broadcast use vstd::string::group_string_axioms;

// ----- base64, standard alphabet, with padding -----

/// The symbol of the standard base64 alphabet for a 6-bit value.
pub open spec fn b64_symbol(v: int) -> char {
    if v < 26 {
        (65 + v) as char
    } else if v < 52 {
        (97 + (v - 26)) as char
    } else if v < 62 {
        (48 + (v - 52)) as char
    } else if v == 62 {
        '+'
    } else {
        '/'
    }
}

/// Standard base64 (RFC 4648, section 4) of `b`, padded with `=` to a multiple of four symbols.
pub open spec fn base64_encoded(b: Seq<u8>) -> Seq<char>
    decreases b.len(),
{
    if b.len() == 0 {
        seq![]
    } else {
        let x = b[0] as int;
        let y = if b.len() > 1 { b[1] as int } else { 0 };
        let z = if b.len() > 2 { b[2] as int } else { 0 };
        let group = seq![
            b64_symbol(x / 4),
            b64_symbol((x % 4) * 16 + y / 16),
            if b.len() > 1 { b64_symbol((y % 16) * 4 + z / 64) } else { '=' },
            if b.len() > 2 { b64_symbol(z % 64) } else { '=' },
        ];
        if b.len() <= 3 {
            group
        } else {
            group + base64_encoded(b.skip(3))
        }
    }
}

/// The length of the base64 text of `n` bytes.
pub open spec fn base64_len(n: nat) -> nat {
    4 * ((n + 2) / 3)
}

proof fn lemma_base64_len(b: Seq<u8>)
    ensures
        base64_encoded(b).len() == base64_len(b.len()),
    decreases b.len(),
{
    if b.len() > 3 {
        lemma_base64_len(b.skip(3));
    }
}

proof fn lemma_symbol_injective(v: int, w: int)
    requires
        0 <= v < 64,
        0 <= w < 64,
    ensures
        b64_symbol(v) != '=',
        b64_symbol(v) == b64_symbol(w) ==> v == w,
{
}

proof fn lemma_group_injective(x1: int, y1: int, z1: int, x2: int, y2: int, z2: int)
    by (nonlinear_arith)
    requires
        0 <= x1 < 256,
        0 <= y1 < 256,
        0 <= z1 < 256,
        0 <= x2 < 256,
        0 <= y2 < 256,
        0 <= z2 < 256,
        x1 / 4 == x2 / 4,
        (x1 % 4) * 16 + y1 / 16 == (x2 % 4) * 16 + y2 / 16,
        (y1 % 16) * 4 + z1 / 64 == (y2 % 16) * 4 + z2 / 64,
        z1 % 64 == z2 % 64,
    ensures
        x1 == x2,
        y1 == y2,
        z1 == z2,
{
}

proof fn lemma_group_ranges(x: int, y: int, z: int)
    by (nonlinear_arith)
    requires
        0 <= x < 256,
        0 <= y < 256,
        0 <= z < 256,
    ensures
        0 <= x / 4 < 64,
        0 <= (x % 4) * 16 + y / 16 < 64,
        0 <= (y % 16) * 4 + z / 64 < 64,
        0 <= z % 64 < 64,
{
}

/// Different byte strings have different base64 texts, so a base64 text decodes to at most
/// one byte string.
pub proof fn lemma_base64_injective(a: Seq<u8>, b: Seq<u8>)
    requires
        base64_encoded(a) == base64_encoded(b),
    ensures
        a == b,
    decreases a.len(),
{
    lemma_base64_len(a);
    lemma_base64_len(b);
    if a.len() == 0 || b.len() == 0 {
        assert(a.len() == 0 && b.len() == 0);
        assert(a =~= b);
        return;
    }
    let ea = base64_encoded(a);
    let eb = base64_encoded(b);
    let xa = a[0] as int;
    let ya = if a.len() > 1 { a[1] as int } else { 0 };
    let za = if a.len() > 2 { a[2] as int } else { 0 };
    let xb = b[0] as int;
    let yb = if b.len() > 1 { b[1] as int } else { 0 };
    let zb = if b.len() > 2 { b[2] as int } else { 0 };
    lemma_group_ranges(xa, ya, za);
    lemma_group_ranges(xb, yb, zb);
    assert(ea[0] == b64_symbol(xa / 4) && eb[0] == b64_symbol(xb / 4));
    assert(ea[1] == b64_symbol((xa % 4) * 16 + ya / 16));
    assert(eb[1] == b64_symbol((xb % 4) * 16 + yb / 16));
    lemma_symbol_injective(xa / 4, xb / 4);
    lemma_symbol_injective((xa % 4) * 16 + ya / 16, (xb % 4) * 16 + yb / 16);
    lemma_symbol_injective((ya % 16) * 4 + za / 64, (yb % 16) * 4 + zb / 64);
    lemma_symbol_injective(za % 64, zb % 64);
    // The padding tells how many bytes the first group holds.
    assert((a.len() > 1) == (b.len() > 1));
    assert((a.len() > 2) == (b.len() > 2));
    if a.len() > 2 {
        assert(ea[3] == b64_symbol(za % 64) && eb[3] == b64_symbol(zb % 64));
    }
    if a.len() > 1 {
        assert(ea[2] == b64_symbol((ya % 16) * 4 + za / 64));
        assert(eb[2] == b64_symbol((yb % 16) * 4 + zb / 64));
    }
    lemma_group_injective(xa, ya, za, xb, yb, zb);
    if a.len() <= 3 {
        assert(b.len() <= 3);
        assert(a =~= b);
    } else {
        assert(b.len() > 3);
        assert(ea.skip(4) =~= base64_encoded(a.skip(3)));
        assert(eb.skip(4) =~= base64_encoded(b.skip(3)));
        lemma_base64_injective(a.skip(3), b.skip(3));
        assert(a =~= seq![a[0], a[1], a[2]] + a.skip(3));
        assert(b =~= seq![b[0], b[1], b[2]] + b.skip(3));
    }
}

/// `base64::engine::general_purpose::STANDARD.encode`: the padded standard base64 text of
/// `bytes`, which this contract states in full.
#[verifier::external_body]
pub(crate) fn base64_encode(bytes: &[u8]) -> (s: String)
    requires
        base64_len(bytes@.len()) <= usize::MAX,
    ensures
        s@ == base64_encoded(bytes@),
{
    base64::engine::general_purpose::STANDARD.encode(bytes)
}

#[verifier::external_type_specification]
#[verifier::external_body]
pub struct ExDecodeError(base64::DecodeError);

/// `base64::engine::general_purpose::STANDARD.decode` on the bytes of `text`: that engine
/// requires canonical padding and refuses set trailing bits, so it accepts exactly the texts
/// that its encoder writes, and gives back the bytes they encode.
#[verifier::external_body]
fn base64_decode(text: &str) -> (r: Result<Vec<u8>, base64::DecodeError>)
    ensures
        r matches Ok(b) ==> base64_encoded(b@) == text@,
        r is Err <==> !exists|b: Seq<u8>| base64_encoded(b) == text@,
{
    base64::engine::general_purpose::STANDARD.decode(text)
}

/// The `Display` text of a base64 decoding error; what it says is not stated here.
#[verifier::external_body]
fn base64_error_text(e: &base64::DecodeError) -> String {
    e.to_string()
}

/// What a base64 text decodes to: the one byte string whose text it is, if there is one.
pub open spec fn base64_decoded(text: Seq<char>) -> Option<Seq<u8>> {
    if exists|b: Seq<u8>| base64_encoded(b) == text {
        Some(choose|b: Seq<u8>| base64_encoded(b) == text)
    } else {
        None
    }
}

/// Decoding gives back what was encoded.
pub proof fn lemma_base64_roundtrip(b: Seq<u8>)
    ensures
        base64_decoded(base64_encoded(b)) == Some(b),
{
    let t = base64_encoded(b);
    assert(exists|c: Seq<u8>| base64_encoded(c) == t);
    let c = choose|c: Seq<u8>| base64_encoded(c) == t;
    lemma_base64_injective(c, b);
}

/// The bytes a standard base64 text decodes to, or the decoder's error text.
pub fn decode_base64(text: &str) -> (r: Result<Vec<u8>, String>)
    ensures
        r matches Ok(b) ==> base64_decoded(text@) == Some(b@),
        r is Err <==> base64_decoded(text@) is None,
{
    match base64_decode(text) {
        Ok(b) => {
            proof {
                let c = choose|c: Seq<u8>| base64_encoded(c) == text@;
                lemma_base64_injective(c, b@);
            }
            Ok(b)
        },
        Err(e) => Err(base64_error_text(&e)),
    }
}

// ----- MessagePack -----

/// A MessagePack value, as `rmpv::Value` holds it, with floats kept as their bit patterns.
#[derive(Debug)]
pub enum MsgValue {
    Nil,
    Boolean(bool),
    /// An integer, as `i64` and as `u64` where it fits in each.
    Integer(Option<i64>, Option<u64>),
    /// A 32-bit float, by its bits.
    F32(u32),
    /// A 64-bit float, by its bits.
    F64(u64),
    /// A string; `None` when its bytes are not UTF-8 (those bytes are not kept).
    Text(Option<String>),
    Binary(Vec<u8>),
    Array(Vec<MsgValue>),
    /// A map, as its entries in order.
    Dict(Vec<(MsgValue, MsgValue)>),
    Ext(i8, Vec<u8>),
}

#[verifier::external_type_specification]
#[verifier::external_body]
pub struct ExRmpvValue(rmpv::Value);

#[verifier::external_type_specification]
#[verifier::external_body]
pub struct ExRmpvDecodeError(rmpv::decode::Error);

/// What `rmpv::decode::read_value` reads from the front of `bytes` (bytes after the first value
/// are left unread), or `None` where it fails.
pub uninterp spec fn msgpack_value(bytes: Seq<u8>) -> Option<MsgValue>;

/// Carries an `rmpv::Value` over into `MsgValue`, variant by variant.
#[verifier::external_body]
fn msg_value_of(v: &Value) -> MsgValue {
    match v {
        Value::Nil => MsgValue::Nil,
        Value::Boolean(b) => MsgValue::Boolean(*b),
        Value::Integer(n) => MsgValue::Integer(n.as_i64(), n.as_u64()),
        Value::F32(f) => MsgValue::F32(f.to_bits()),
        Value::F64(f) => MsgValue::F64(f.to_bits()),
        Value::String(t) => MsgValue::Text(t.as_str().map(str::to_owned)),
        Value::Binary(b) => MsgValue::Binary(b.clone()),
        Value::Array(items) => MsgValue::Array(msg_items_of(items)),
        Value::Map(es) => MsgValue::Dict(msg_entries_of(es)),
        Value::Ext(t, b) => MsgValue::Ext(*t, b.clone()),
    }
}

/// Carries the items of an `rmpv` array over, in order.
#[verifier::external_body]
fn msg_items_of(items: &[rmpv::Value]) -> Vec<MsgValue> {
    items.iter().map(msg_value_of).collect()
}

/// Carries the entries of an `rmpv` map over, in order.
#[verifier::external_body]
fn msg_entries_of(entries: &[(rmpv::Value, rmpv::Value)]) -> Vec<(MsgValue, MsgValue)> {
    entries.iter().map(|(k, x)| (msg_value_of(k), msg_value_of(x))).collect()
}

/// `rmpv::decode::read_value` on `bytes`: the first MessagePack value they hold, which the
/// contract names (`msgpack_value`) rather than states.
#[verifier::external_body]
fn read_msgpack(bytes: &[u8]) -> (r: Result<MsgValue, rmpv::decode::Error>)
    ensures
        r matches Ok(v) ==> msgpack_value(bytes@) == Some(v),
        r is Err <==> msgpack_value(bytes@) is None,
{
    rmpv::decode::read_value(&mut &bytes[..]).map(|v| msg_value_of(&v))
}

/// The `Display` text of a MessagePack decoding error; what it says is not stated here.
#[verifier::external_body]
fn msgpack_error_text(e: &rmpv::decode::Error) -> String {
    e.to_string()
}

/// The first MessagePack value that `bytes` hold, or the reader's error text.
pub fn decode_msgpack(bytes: &[u8]) -> (r: Result<MsgValue, String>)
    ensures
        r matches Ok(v) ==> msgpack_value(bytes@) == Some(v),
        r is Err <==> msgpack_value(bytes@) is None,
{
    match read_msgpack(bytes) {
        Ok(v) => Ok(v),
        Err(e) => Err(msgpack_error_text(&e)),
    }
}

/// Whether a key is the string `key`.
pub open spec fn is_text_key(k: MsgValue, key: Seq<char>) -> bool {
    k matches MsgValue::Text(Some(s)) && s@ == key
}

/// The value of the first entry whose key is the string `key`.
pub open spec fn first_entry(entries: Seq<(MsgValue, MsgValue)>, key: Seq<char>) -> Option<MsgValue>
    decreases entries.len(),
{
    if entries.len() == 0 {
        None
    } else if is_text_key(entries[0].0, key) {
        Some(entries[0].1)
    } else {
        first_entry(entries.drop_first(), key)
    }
}

/// The value under the string key `key`, when `v` is a map.
pub open spec fn map_get_spec(v: MsgValue, key: Seq<char>) -> Option<MsgValue> {
    match v {
        MsgValue::Dict(entries) => first_entry(entries@, key),
        _ => None,
    }
}

/// The position of the first entry whose key is the string `key`.
pub fn find_entry(entries: &[(MsgValue, MsgValue)], key: &str) -> (r: Option<usize>)
    ensures
        match r {
            Some(i) => i < entries@.len() && first_entry(entries@, key@) == Some(entries@[i as int].1),
            None => first_entry(entries@, key@) is None,
        },
{
    let key_chars = crate::text::chars_of(key);
    assert(entries@.skip(0) =~= entries@);
    let mut i: usize = 0;
    while i < entries.len()
        invariant
            key_chars@ == key@,
            i <= entries@.len(),
            first_entry(entries@, key@) == first_entry(entries@.skip(i as int), key@),
        decreases entries@.len() - i,
    {
        let ghost rest = entries@.skip(i as int);
        assert(rest[0] == entries@[i as int]);
        assert(rest.drop_first() =~= entries@.skip(i + 1));
        let hit = match &entries[i].0 {
            MsgValue::Text(Some(s)) => {
                let cs = crate::text::chars_of(s.as_str());
                crate::text::chars_eq(cs.as_slice(), key_chars.as_slice())
            },
            _ => false,
        };
        if hit {
            return Some(i);
        }
        i = i + 1;
    }
    assert(entries@.skip(i as int).len() == 0);
    None
}

/// The value under the string key `key`, when `value` is a map (the first such entry).
pub fn map_get<'a>(value: &'a MsgValue, key: &str) -> (r: Option<&'a MsgValue>)
    ensures
        match map_get_spec(*value, key@) {
            Some(x) => r matches Some(y) && *y == x,
            None => r is None,
        },
{
    match value {
        MsgValue::Dict(entries) => match find_entry(entries.as_slice(), key) {
            Some(i) => Some(&entries[i].1),
            None => None,
        },
        _ => None,
    }
}

} // verus!
