//! JSON values, held as the text that writes them.

use std::collections::BTreeMap;

use serde_json::value::RawValue;
use serde_json::Value;
use vstd::prelude::*;
use vstd::relations::total_ordering;
use vstd::string::*;
use vstd::utf8::*;

use crate::text::{clone_text, same_text, text_view};

verus! {

/// What `serde_json::value::RawValue::from_string` keeps of a text: the JSON value
/// that it writes, without the whitespace around it, or `None` where the text is not
/// one JSON value.
pub uninterp spec fn raw_json_text(text: Seq<char>) -> Option<Seq<char>>;

/// Whether `text` writes one JSON value, with no whitespace before or after it.
pub open spec fn is_raw_json(text: Seq<char>) -> bool {
    raw_json_text(text) == Some(text)
}

/// `serde_json::value::RawValue::from_string`, then `RawValue::get`. Believed of them:
/// the text that is kept depends on `text` alone, and is itself kept unchanged.
#[verifier::external_body]
fn raw_value(text: &str) -> (r: Option<String>)
    ensures
        text_view(r) == raw_json_text(text@),
        r matches Some(kept) ==> is_raw_json(kept@),
{
    RawValue::from_string(text.to_owned()).ok().map(|raw| raw.get().to_owned())
}

/// The text of one JSON value.
#[derive(Debug)]
pub struct RawJson {
    text: String,
}

impl View for RawJson {
    type V = Seq<char>;

    closed spec fn view(&self) -> Seq<char> {
        self.text@
    }
}

impl RawJson {
    #[verifier::type_invariant]
    spec fn well_formed(self) -> bool {
        is_raw_json(self.text@)
    }

    /// Reads one JSON value and keeps its text, or nothing where `text` is not JSON.
    pub fn new(text: &str) -> (r: Option<RawJson>)
        ensures
            match r {
                Some(raw) => raw_json_text(text@) == Some(raw@),
                None => raw_json_text(text@) is None,
            },
    {
        match raw_value(text) {
            Some(text) => Some(RawJson { text }),
            None => None,
        }
    }

    /// The JSON text.
    pub fn get(&self) -> (r: &str)
        ensures
            r@ == self@,
            is_raw_json(r@),
    {
        proof {
            use_type_invariant(self);
        }
        self.text.as_str()
    }

    /// Whether the value is `null`.
    pub fn is_null(&self) -> (r: bool)
        ensures
            r == (self@ == "null"@),
    {
        same_text(self.text.as_str(), "null")
    }
}

impl Clone for RawJson {
    fn clone(&self) -> (r: Self)
        ensures
            r@ == self@,
    {
        proof {
            use_type_invariant(self);
        }
        RawJson { text: self.text.clone() }
    }
}

/// A JSON value as far as the configuration looks into it: `null`, an object with its
/// entries, or anything else.
#[derive(Debug)]
pub enum JsonShape<T> {
    Null,
    Object(T),
    Other,
}

/// A value inside a JSON object.
#[derive(Debug)]
pub struct JsonField {
    /// The decoded text, where the value is a string.
    pub text: Option<String>,
    /// The JSON text of the value.
    pub raw: RawJson,
}

/// A JSON value with the entries of an object.
pub type Json = JsonShape<Vec<(String, JsonField)>>;

/// The entries of an object: each key, its value where that is a string, and the JSON
/// text of the value.
pub type EntriesView = Seq<(Seq<char>, Option<Seq<char>>, Seq<char>)>;

/// The entries of an object as plain texts.
pub open spec fn parts_view(s: Seq<(String, Option<String>, String)>) -> EntriesView {
    s.map_values(|e: (String, Option<String>, String)| (e.0@, text_view(e.1), e.2@))
}

/// The entries of an object as plain texts.
pub open spec fn fields_view(s: Seq<(String, JsonField)>) -> EntriesView {
    s.map_values(|e: (String, JsonField)| (e.0@, text_view(e.1.text), e.1.raw@))
}

/// A JSON value whose entries are plain texts.
pub open spec fn parts_json(
    parts: JsonShape<Vec<(String, Option<String>, String)>>,
) -> JsonShape<EntriesView> {
    match parts {
        JsonShape::Null => JsonShape::Null,
        JsonShape::Object(entries) => JsonShape::Object(parts_view(entries@)),
        JsonShape::Other => JsonShape::Other,
    }
}

/// The view of a JSON value.
pub open spec fn json_view(j: Json) -> JsonShape<EntriesView> {
    match j {
        JsonShape::Null => JsonShape::Null,
        JsonShape::Object(entries) => JsonShape::Object(fields_view(entries@)),
        JsonShape::Other => JsonShape::Other,
    }
}

/// What `serde_json::from_str::<serde_json::Value>` reads from a text, or the message
/// of its error. The entries of an object carry the text that `serde_json` writes for
/// their values.
pub uninterp spec fn json_value(text: Seq<char>) -> Result<JsonShape<EntriesView>, Seq<char>>;

/// Whether no key occurs twice.
pub open spec fn distinct_entries(s: EntriesView) -> bool {
    forall|i: int, j: int| 0 <= i < j < s.len() ==> (#[trigger] s[i]).0 != (#[trigger] s[j]).0
}

/// Whether every value's text writes one JSON value.
pub open spec fn raw_entries(s: EntriesView) -> bool {
    forall|i: int| 0 <= i < s.len() ==> is_raw_json((#[trigger] s[i]).2)
}

/// `serde_json::from_str::<serde_json::Value>`, with `serde_json::value::to_raw_value`
/// for the values of an object. Believed of them: the result depends on `text` alone;
/// no key of an object occurs twice; what `to_raw_value` writes is the text of one JSON
/// value.
#[verifier::external_body]
fn read_value(text: &str) -> (r: Result<JsonShape<Vec<(String, Option<String>, String)>>, String>)
    ensures
        json_value(text@) == match r {
            Ok(parts) => Ok(parts_json(parts)),
            Err(message) => Err(message@),
        },
        r matches Ok(JsonShape::Object(entries)) ==> {
            &&& distinct_entries(parts_view(entries@))
            &&& raw_entries(parts_view(entries@))
        },
{
    let map = match serde_json::from_str(text).map_err(|e: serde_json::Error| e.to_string())? {
        Value::Null => return Ok(JsonShape::Null),
        Value::Object(map) => map,
        _ => return Ok(JsonShape::Other),
    };
    let entry = |(key, value): (String, Value)| -> Result<_, serde_json::Error> {
        let raw = serde_json::value::to_raw_value(&value)?;
        Ok((key, value.as_str().map(str::to_owned), raw.get().to_owned()))
    };
    let entries: Result<Vec<_>, _> = map.into_iter().map(entry).collect();
    entries.map(JsonShape::Object).map_err(|e| e.to_string())
}

/// Keeps the values of an object as `RawJson`.
pub fn json_from_parts(parts: JsonShape<Vec<(String, Option<String>, String)>>) -> (r: Json)
    requires
        parts matches JsonShape::Object(entries) ==> raw_entries(parts_view(entries@)),
    ensures
        json_view(r) == parts_json(parts),
        parts is Null <==> r is Null,
        parts is Other <==> r is Other,
        parts matches JsonShape::Object(entries) ==> (r matches JsonShape::Object(kept) && {
            &&& kept@.len() == entries@.len()
            &&& forall|i: int|
                0 <= i < kept@.len() ==> {
                    &&& (#[trigger] kept@[i]).0@ == entries@[i].0@
                    &&& kept@[i].1.text is Some <==> entries@[i].1 is Some
                    &&& entries@[i].1 matches Some(text) ==> kept@[i].1.text->0@ == text@
                    &&& kept@[i].1.raw@ == entries@[i].2@
                }
        }),
{
    match parts {
        JsonShape::Null => JsonShape::Null,
        JsonShape::Other => JsonShape::Other,
        JsonShape::Object(entries) => {
            let mut out: Vec<(String, JsonField)> = Vec::new();
            let mut i: usize = 0;
            while i < entries.len()
                invariant
                    i <= entries.len(),
                    raw_entries(parts_view(entries@)),
                    fields_view(out@) == parts_view(entries@).take(i as int),
                decreases entries.len() - i,
            {
                let (key, text, raw) = &entries[i];
                assert(parts_view(entries@)[i as int].2 == raw@);
                let field = JsonField { text: clone_text(text), raw: RawJson { text: raw.clone() } };
                let ghost before = out@;
                out.push((key.clone(), field));
                assert(fields_view(out@) =~= fields_view(before).push(
                    (key@, text_view(*text), raw@),
                ));
                assert(parts_view(entries@).take(i + 1) =~= parts_view(entries@).take(
                    i as int,
                ).push((key@, text_view(*text), raw@)));
                i += 1;
            }
            assert(parts_view(entries@).take(i as int) =~= parts_view(entries@));
            proof {
                assert(fields_view(out@).len() == out@.len());
                assert forall|k: int| 0 <= k < out@.len() implies {
                    &&& (#[trigger] out@[k]).0@ == entries@[k].0@
                    &&& out@[k].1.text is Some <==> entries@[k].1 is Some
                    &&& entries@[k].1 matches Some(text) ==> out@[k].1.text->0@ == text@
                    &&& out@[k].1.raw@ == entries@[k].2@
                } by {
                    assert(fields_view(out@)[k] == parts_view(entries@)[k]);
                }
            }
            JsonShape::Object(out)
        },
    }
}

/// The view of a JSON value keeps all of it: which kind it is, and each entry of an
/// object in its place, with its key, its text and its JSON text.
pub proof fn law_json_view(j: Json)
    ensures
        j is Null <==> json_view(j) is Null,
        j is Other <==> json_view(j) is Other,
        j matches JsonShape::Object(entries) ==> (json_view(j) matches JsonShape::Object(view) && {
            &&& view.len() == entries@.len()
            &&& forall|i: int|
                0 <= i < view.len() ==> {
                    &&& (#[trigger] view[i]).0 == entries@[i].0@
                    &&& view[i].1 is Some <==> entries@[i].1.text is Some
                    &&& entries@[i].1.text matches Some(text) ==> view[i].1 == Some(text@)
                    &&& view[i].2 == entries@[i].1.raw@
                }
        }),
{
}

/// Reads a JSON value.
pub fn parse_json(text: &str) -> (r: Result<Json, String>)
    ensures
        json_value(text@) == match r {
            Ok(json) => Ok(json_view(json)),
            Err(message) => Err(message@),
        },
        r matches Ok(JsonShape::Object(entries)) ==> distinct_entries(fields_view(entries@)),
{
    match read_value(text) {
        Ok(parts) => Ok(json_from_parts(parts)),
        Err(message) => Err(message),
    }
}

/// Keys with texts, as plain texts.
pub open spec fn pairs_view(s: Seq<(String, String)>) -> Seq<(Seq<char>, Seq<char>)> {
    s.map_values(|p: (String, String)| (p.0@, p.1@))
}

/// Whether no key occurs twice.
pub open spec fn distinct_keys<V>(s: Seq<(Seq<char>, V)>) -> bool {
    forall|i: int, j: int| 0 <= i < j < s.len() ==> (#[trigger] s[i]).0 != (#[trigger] s[j]).0
}

/// Whether `key` is the key of one of the pairs.
pub open spec fn has_key<V>(s: Seq<(Seq<char>, V)>, key: Seq<char>) -> bool {
    exists|i: int| 0 <= i < s.len() && (#[trigger] s[i]).0 == key
}

/// The pairs as a map.
pub open spec fn pairs_map<V>(s: Seq<(Seq<char>, V)>) -> Map<Seq<char>, V> {
    Map::new(
        |key: Seq<char>| has_key(s, key),
        |key: Seq<char>| s[choose|i: int| 0 <= i < s.len() && (#[trigger] s[i]).0 == key].1,
    )
}

/// Pairs are viewed in their places, key by key and text by text.
pub proof fn law_pairs_view(s: Seq<(String, String)>)
    ensures
        pairs_view(s).len() == s.len(),
        forall|i: int|
            0 <= i < s.len() ==> (#[trigger] pairs_view(s)[i]).0 == s[i].0@ && pairs_view(s)[i].1
                == s[i].1@,
{
}

/// The map of pairs holds each pair and nothing else, where no key occurs twice.
pub proof fn law_pairs_map<V>(s: Seq<(Seq<char>, V)>, key: Seq<char>)
    requires
        forall|i: int, j: int| 0 <= i < j < s.len() ==> (#[trigger] s[i]).0 != (#[trigger] s[j]).0,
    ensures
        forall|i: int|
            0 <= i < s.len() ==> pairs_map(s).contains_key((#[trigger] s[i]).0) && pairs_map(
                s,
            )[s[i].0] == s[i].1,
        pairs_map(s).contains_key(key) <==> exists|i: int|
            0 <= i < s.len() && (#[trigger] s[i]).0 == key,
{
    assert forall|i: int| 0 <= i < s.len() implies pairs_map(s).contains_key((#[trigger] s[i]).0)
        && pairs_map(s)[s[i].0] == s[i].1 by {
        let j = choose|j: int| 0 <= j < s.len() && (#[trigger] s[j]).0 == s[i].0;
        if j < i {
            assert(s[j].0 != s[i].0);
        } else if i < j {
            assert(s[i].0 != s[j].0);
        }
    }
}

/// Whether every value of `m` is the text of one JSON value.
pub open spec fn raw_values(m: Map<Seq<char>, Seq<char>>) -> bool {
    forall|key: Seq<char>| #[trigger] m.contains_key(key) ==> is_raw_json(m[key])
}

/// What `serde_json::from_slice` reads from bytes as an object: each key with the JSON
/// text of its value, as it stands in the bytes. `None` where the bytes are not one
/// JSON object.
pub uninterp spec fn json_object(bytes: Seq<u8>) -> Option<Map<Seq<char>, Seq<char>>>;

/// `serde_json::from_slice::<BTreeMap<String, &RawValue>>`. Believed of it: the result
/// depends on `bytes` alone; a `BTreeMap` holds no key twice; the text of a `RawValue`
/// writes one JSON value.
#[verifier::external_body]
pub(crate) fn read_object(bytes: &[u8]) -> (r: Option<Vec<(String, String)>>)
    ensures
        match r {
            Some(fields) => {
                &&& json_object(bytes@) == Some(pairs_map(pairs_view(fields@)))
                &&& distinct_keys(pairs_view(fields@))
                &&& raw_values(pairs_map(pairs_view(fields@)))
            },
            None => json_object(bytes@) is None,
        },
{
    let map: BTreeMap<String, &RawValue> = serde_json::from_slice(bytes).ok()?;
    Some(map.into_iter().map(|(key, raw)| (key, raw.get().to_owned())).collect())
}

/// Whether `a` comes before `b` in a dictionary of byte strings, or is `b`.
pub open spec fn bytes_upto(a: Seq<u8>, b: Seq<u8>) -> bool
    decreases a.len(),
{
    if a.len() == 0 || b.len() == 0 {
        a.len() == 0
    } else if a[0] == b[0] {
        bytes_upto(a.drop_first(), b.drop_first())
    } else {
        a[0] < b[0]
    }
}

/// Whether the bytes of `a` come before those of `b`, or are the same.
pub open spec fn key_upto(a: Seq<char>, b: Seq<char>) -> bool {
    bytes_upto(encode_utf8(a), encode_utf8(b))
}

/// Whether `keys` are the keys of `fields`, each of them once, and ascend by their bytes.
pub open spec fn is_key_order(keys: Seq<Seq<char>>, fields: Map<Seq<char>, Seq<char>>) -> bool {
    &&& forall|i: int, j: int|
        0 <= i < j < keys.len() ==> #[trigger] key_upto(keys[i], keys[j]) && keys[i] != keys[j]
    &&& forall|key: Seq<char>| #[trigger] keys.contains(key) <==> fields.contains_key(key)
}

/// The keys of `fields`, ascending by their bytes.
pub open spec fn key_order(fields: Map<Seq<char>, Seq<char>>) -> Seq<Seq<char>> {
    choose|keys: Seq<Seq<char>>| is_key_order(keys, fields)
}

/// The digit that writes `n` in base sixteen.
pub open spec fn hex_digit(n: u8) -> u8 {
    if n < 10 {
        ('0' as int + n) as u8
    } else {
        ('a' as int + n - 10) as u8
    }
}

/// What stands for a byte inside a JSON string: control characters, the quote and the
/// backslash are escaped, and nothing else is.
pub open spec fn escaped_byte(b: u8) -> Seq<u8> {
    let slash = '\\' as u8;
    if b == 8 {
        seq![slash, 'b' as u8]
    } else if b == 9 {
        seq![slash, 't' as u8]
    } else if b == 10 {
        seq![slash, 'n' as u8]
    } else if b == 12 {
        seq![slash, 'f' as u8]
    } else if b == 13 {
        seq![slash, 'r' as u8]
    } else if b < 32 {
        seq![slash, 'u' as u8, '0' as u8, '0' as u8, hex_digit(b / 16), hex_digit(b % 16)]
    } else if b == '"' as u8 || b == slash {
        seq![slash, b]
    } else {
        seq![b]
    }
}

/// What stands for bytes inside a JSON string.
pub open spec fn escaped(bytes: Seq<u8>) -> Seq<u8>
    decreases bytes.len(),
{
    if bytes.len() == 0 {
        Seq::empty()
    } else {
        escaped(bytes.drop_last()) + escaped_byte(bytes.last())
    }
}

/// The JSON string that writes `text`.
pub open spec fn json_string(text: Seq<char>) -> Seq<u8> {
    seq!['"' as u8] + escaped(encode_utf8(text)) + seq!['"' as u8]
}

/// The members of an object under `keys`: each key, a colon and the JSON text of its
/// value, with a comma between members and nothing else between them.
pub open spec fn members(keys: Seq<Seq<char>>, fields: Map<Seq<char>, Seq<char>>) -> Seq<u8>
    decreases keys.len(),
{
    if keys.len() == 0 {
        Seq::empty()
    } else {
        let member = json_string(keys.last()) + seq![':' as u8] + encode_utf8(
            fields[keys.last()],
        );
        if keys.len() == 1 {
            member
        } else {
            members(keys.drop_last(), fields) + seq![',' as u8] + member
        }
    }
}

/// The bytes of an object whose members stand in the order of `keys`.
pub open spec fn object_bytes(keys: Seq<Seq<char>>, fields: Map<Seq<char>, Seq<char>>) -> Seq<u8> {
    seq!['{' as u8] + members(keys, fields) + seq!['}' as u8]
}

/// The bytes that write an object: its members by ascending key, without whitespace
/// around its keys and values.
pub open spec fn json_object_bytes(fields: Map<Seq<char>, Seq<char>>) -> Seq<u8> {
    object_bytes(key_order(fields), fields)
}

proof fn lemma_bytes_upto_reflexive(a: Seq<u8>)
    ensures
        bytes_upto(a, a),
    decreases a.len(),
{
    if a.len() > 0 {
        lemma_bytes_upto_reflexive(a.drop_first());
    }
}

proof fn lemma_bytes_upto_antisymmetric(a: Seq<u8>, b: Seq<u8>)
    requires
        bytes_upto(a, b),
        bytes_upto(b, a),
    ensures
        a == b,
    decreases a.len(),
{
    if a.len() > 0 && b.len() > 0 {
        lemma_bytes_upto_antisymmetric(a.drop_first(), b.drop_first());
        assert(a =~= seq![a[0]] + a.drop_first());
        assert(b =~= seq![b[0]] + b.drop_first());
    }
}

proof fn lemma_bytes_upto_transitive(a: Seq<u8>, b: Seq<u8>, c: Seq<u8>)
    requires
        bytes_upto(a, b),
        bytes_upto(b, c),
    ensures
        bytes_upto(a, c),
    decreases a.len(),
{
    if a.len() > 0 && b.len() > 0 && c.len() > 0 && a[0] == b[0] && b[0] == c[0] {
        lemma_bytes_upto_transitive(a.drop_first(), b.drop_first(), c.drop_first());
    }
}

proof fn lemma_bytes_upto_total(a: Seq<u8>, b: Seq<u8>)
    ensures
        bytes_upto(a, b) || bytes_upto(b, a),
    decreases a.len(),
{
    if a.len() > 0 && b.len() > 0 {
        lemma_bytes_upto_total(a.drop_first(), b.drop_first());
    }
}

proof fn lemma_key_upto_antisymmetric(a: Seq<char>, b: Seq<char>)
    requires
        key_upto(a, b),
        key_upto(b, a),
    ensures
        a == b,
{
    lemma_bytes_upto_antisymmetric(encode_utf8(a), encode_utf8(b));
    encode_utf8_decode_utf8(a);
    encode_utf8_decode_utf8(b);
}

proof fn lemma_key_upto_ordering()
    ensures
        total_ordering(|a: Seq<char>, b: Seq<char>| key_upto(a, b)),
{
    let upto = |a: Seq<char>, b: Seq<char>| key_upto(a, b);
    assert forall|a: Seq<char>| #[trigger] upto(a, a) by {
        lemma_bytes_upto_reflexive(encode_utf8(a));
    }
    assert forall|a: Seq<char>, b: Seq<char>| #[trigger] upto(a, b) && #[trigger] upto(
        b,
        a,
    ) implies a == b by {
        lemma_key_upto_antisymmetric(a, b);
    }
    assert forall|a: Seq<char>, b: Seq<char>, c: Seq<char>| #[trigger] upto(a, b)
        && #[trigger] upto(b, c) implies upto(a, c) by {
        lemma_bytes_upto_transitive(encode_utf8(a), encode_utf8(b), encode_utf8(c));
    }
    assert forall|a: Seq<char>, b: Seq<char>| #[trigger] upto(a, b) || #[trigger] upto(b, a) by {
        lemma_bytes_upto_total(encode_utf8(a), encode_utf8(b));
    }
}

proof fn lemma_key_order_exists(fields: Map<Seq<char>, Seq<char>>) -> (keys: Seq<Seq<char>>)
    requires
        fields.dom().finite(),
    ensures
        is_key_order(keys, fields),
    decreases fields.dom().len(),
{
    let upto = |a: Seq<char>, b: Seq<char>| key_upto(a, b);
    if fields.dom().len() == 0 {
        let keys = Seq::<Seq<char>>::empty();
        assert forall|key: Seq<char>| #[trigger] keys.contains(key) <==> fields.contains_key(
            key,
        ) by {
            if fields.contains_key(key) {
                assert(fields.dom().contains(key));
            }
        }
        keys
    } else {
        lemma_key_upto_ordering();
        let last = fields.dom().find_unique_maximal(upto);
        fields.dom().find_unique_maximal_ensures(upto);
        let rest = lemma_key_order_exists(fields.remove(last));
        let keys = rest.push(last);
        assert forall|i: int, j: int| 0 <= i < j < keys.len() implies #[trigger] key_upto(
            keys[i],
            keys[j],
        ) && keys[i] != keys[j] by {
            assert(rest[i] == keys[i]);
            if j < rest.len() {
                assert(key_upto(rest[i], rest[j]));
            } else {
                assert(rest.contains(keys[i]));
                assert(fields.remove(last).contains_key(keys[i]));
                assert(fields.dom().contains(keys[i]));
                lemma_bytes_upto_total(encode_utf8(keys[i]), encode_utf8(last));
                if upto(last, keys[i]) {
                    assert(upto(keys[i], last));
                }
            }
        }
        assert forall|key: Seq<char>| #[trigger] keys.contains(key) <==> fields.contains_key(
            key,
        ) by {
            if keys.contains(key) {
                let i = choose|i: int| 0 <= i < keys.len() && keys[i] == key;
                if i < rest.len() {
                    assert(rest.contains(key));
                }
            }
            if fields.contains_key(key) {
                if key == last {
                    assert(keys[rest.len() as int] == key);
                } else {
                    assert(rest.contains(key));
                    let i = choose|i: int| 0 <= i < rest.len() && rest[i] == key;
                    assert(keys[i] == key);
                }
            }
        }
        keys
    }
}

proof fn lemma_key_order_unique(
    fields: Map<Seq<char>, Seq<char>>,
    a: Seq<Seq<char>>,
    b: Seq<Seq<char>>,
)
    requires
        is_key_order(a, fields),
        is_key_order(b, fields),
    ensures
        a == b,
    decreases a.len(),
{
    if a.len() == 0 || b.len() == 0 {
        if a.len() > 0 {
            assert(a.contains(a[0]));
            assert(b.contains(a[0]));
        }
        if b.len() > 0 {
            assert(b.contains(b[0]));
            assert(a.contains(b[0]));
        }
    } else {
        let x = a.last();
        let y = b.last();
        assert(a.contains(x) && b.contains(y));
        assert(b.contains(x) && a.contains(y));
        let i = choose|i: int| 0 <= i < a.len() && a[i] == y;
        let j = choose|j: int| 0 <= j < b.len() && b[j] == x;
        if x != y {
            assert(key_upto(a[i], a[a.len() - 1]));
            assert(key_upto(b[j], b[b.len() - 1]));
            lemma_key_upto_antisymmetric(x, y);
        }
        lemma_key_order_rest(fields, a);
        lemma_key_order_rest(fields, b);
        lemma_key_order_unique(fields.remove(x), a.drop_last(), b.drop_last());
        assert(a =~= a.drop_last().push(x));
        assert(b =~= b.drop_last().push(x));
    }
}

proof fn lemma_key_order_rest(fields: Map<Seq<char>, Seq<char>>, keys: Seq<Seq<char>>)
    requires
        is_key_order(keys, fields),
        keys.len() > 0,
    ensures
        is_key_order(keys.drop_last(), fields.remove(keys.last())),
{
    let rest = keys.drop_last();
    let last = keys.last();
    assert forall|i: int, j: int| 0 <= i < j < rest.len() implies #[trigger] key_upto(
        rest[i],
        rest[j],
    ) && rest[i] != rest[j] by {
        assert(key_upto(keys[i], keys[j]));
    }
    assert forall|key: Seq<char>| #[trigger] rest.contains(key) <==> fields.remove(
        last,
    ).contains_key(key) by {
        if rest.contains(key) {
            let i = choose|i: int| 0 <= i < rest.len() && rest[i] == key;
            assert(keys[i] == key);
            assert(keys.contains(key));
            assert(key_upto(keys[i], keys[keys.len() - 1]));
        }
        if fields.remove(last).contains_key(key) {
            assert(keys.contains(key));
            let i = choose|i: int| 0 <= i < keys.len() && keys[i] == key;
            assert(rest[i] == key);
        }
    }
}

/// The keys of an object can be put in ascending order in one way, and an object is
/// written in that order.
pub proof fn law_key_order(fields: Map<Seq<char>, Seq<char>>, keys: Seq<Seq<char>>)
    requires
        fields.dom().finite(),
    ensures
        is_key_order(key_order(fields), fields),
        is_key_order(keys, fields) ==> keys == key_order(fields),
{
    let found = lemma_key_order_exists(fields);
    assert(is_key_order(found, fields));
    if is_key_order(keys, fields) {
        lemma_key_order_unique(fields, keys, key_order(fields));
    }
}

/// An object without fields is written `{}`. One more member, under a key that comes last,
/// is written before the closing brace, behind a comma where other members are there.
pub proof fn law_object_grows(
    keys: Seq<Seq<char>>,
    key: Seq<char>,
    fields: Map<Seq<char>, Seq<char>>,
)
    ensures
        object_bytes(Seq::empty(), fields) == seq![123u8, 125u8],
        ({
            let before = object_bytes(keys, fields);
            let comma = if keys.len() > 0 {
                seq![44u8]
            } else {
                Seq::empty()
            };
            object_bytes(keys.push(key), fields) == before.drop_last() + comma + json_string(key)
                + seq![58u8] + encode_utf8(fields[key]) + seq![125u8]
        }),
{
    assert(object_bytes(Seq::empty(), fields) =~= seq![123u8, 125u8]);
    let longer = keys.push(key);
    assert(longer.drop_last() =~= keys);
    assert(object_bytes(keys, fields).drop_last() =~= seq![123u8] + members(keys, fields));
    let comma = if keys.len() > 0 {
        seq![44u8]
    } else {
        Seq::empty()
    };
    assert(object_bytes(longer, fields) =~= object_bytes(keys, fields).drop_last() + comma
        + json_string(key) + seq![58u8] + encode_utf8(fields[key]) + seq![125u8]);
}

/// The order of keys is that of the first byte that differs; a key comes before those
/// that go on where it ends.
pub proof fn law_bytes_order(head: Seq<u8>, a: Seq<u8>, b: Seq<u8>)
    requires
        b.len() > 0,
        a.len() > 0 ==> a[0] < b[0],
    ensures
        bytes_upto(head + a, head + b),
        !bytes_upto(head + b, head + a),
    decreases head.len(),
{
    if head.len() == 0 {
        assert(head + a =~= a);
        assert(head + b =~= b);
    } else {
        law_bytes_order(head.drop_first(), a, b);
        assert((head + a).drop_first() =~= head.drop_first() + a);
        assert((head + b).drop_first() =~= head.drop_first() + b);
    }
}

/// Pairs make a finite map.
pub(crate) proof fn lemma_pairs_map_finite<V>(s: Seq<(Seq<char>, V)>)
    ensures
        pairs_map(s).dom().finite(),
{
    let keys = s.map_values(|p: (Seq<char>, V)| p.0);
    vstd::seq_lib::seq_to_set_is_finite(keys);
    assert forall|key: Seq<char>| pairs_map(s).dom().contains(key) implies keys.to_set().contains(
        key,
    ) by {
        let i = choose|i: int| 0 <= i < s.len() && (#[trigger] s[i]).0 == key;
        assert(keys[i] == key);
    }
    vstd::set_lib::lemma_set_subset_finite(keys.to_set(), pairs_map(s).dom());
}

/// `serde_json::to_vec` of a `BTreeMap<String, Box<RawValue>>`. Believed of it: it
/// succeeds where the values are JSON texts; it writes the members by ascending key, as
/// a `BTreeMap` hands them out, the keys as JSON strings and the values as their texts,
/// without whitespace around them; read as an object the bytes give back the keys and
/// values.
#[verifier::external_body]
pub(crate) fn write_object(fields: &Vec<(String, String)>) -> (r: Option<Vec<u8>>)
    requires
        distinct_keys(pairs_view(fields@)),
        raw_values(pairs_map(pairs_view(fields@))),
    ensures
        r is Some,
        r matches Some(bytes) ==> bytes@ == json_object_bytes(pairs_map(pairs_view(fields@))),
        r matches Some(bytes) ==> json_object(bytes@) == Some(pairs_map(pairs_view(fields@))),
{
    let raw = |(key, text)| -> Result<_, serde_json::Error> {
        Ok((key, RawValue::from_string(text)?))
    };
    let map: Result<BTreeMap<String, Box<RawValue>>, _> = fields.iter().cloned().map(raw).collect();
    serde_json::to_vec(&map.ok()?).ok()
}

} // verus!
