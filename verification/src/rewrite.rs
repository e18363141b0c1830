//! Rewriting the top-level fields of a JSON request body.

use vstd::prelude::*;
use vstd::string::*;
use vstd::utf8::*;

use crate::json::{
    bytes_upto, distinct_entries, distinct_keys, fields_view, has_key, is_key_order, is_raw_json,
    json_object, json_object_bytes, json_view, key_order, key_upto, law_key_order, law_pairs_view,
    lemma_pairs_map_finite, object_bytes, pairs_map, pairs_view, raw_values, read_object,
    write_object, EntriesView, Json, JsonField, JsonShape, RawJson,
};
use crate::text::same_text;

verus! {

/// The fields of an object: each key with the JSON text of its value.
pub type FieldMap = Map<Seq<char>, Seq<char>>;

/// Patch entries as plain texts; `None` removes the key.
pub open spec fn patch_view(s: Seq<(String, Option<RawJson>)>) -> Seq<(Seq<char>, Option<Seq<char>>)> {
    s.map_values(
        |p: (String, Option<RawJson>)|
            (
                p.0@,
                match p.1 {
                    Some(raw) => Some(raw@),
                    None => None,
                },
            ),
    )
}

/// `fields` with the value of `from` moved to `to`, over what `to` held, where `from` is
/// there.
pub open spec fn renamed_once(fields: FieldMap, from: Seq<char>, to: Seq<char>) -> FieldMap {
    if fields.contains_key(from) {
        fields.remove(from).insert(to, fields[from])
    } else {
        fields
    }
}

/// `fields` after each renaming in turn.
pub open spec fn renamed(fields: FieldMap, rename: Seq<(Seq<char>, Seq<char>)>) -> FieldMap
    decreases rename.len(),
{
    if rename.len() == 0 {
        fields
    } else {
        let before = renamed(fields, rename.drop_last());
        renamed_once(before, rename.last().0, rename.last().1)
    }
}

/// `fields` with `key` set to `value`, or without `key`.
pub open spec fn patched_once(fields: FieldMap, key: Seq<char>, value: Option<Seq<char>>) -> FieldMap {
    match value {
        Some(raw) => fields.insert(key, raw),
        None => fields.remove(key),
    }
}

/// `fields` after each patch entry in turn.
pub open spec fn patched(fields: FieldMap, patch: Seq<(Seq<char>, Option<Seq<char>>)>) -> FieldMap
    decreases patch.len(),
{
    if patch.len() == 0 {
        fields
    } else {
        patched_once(patched(fields, patch.drop_last()), patch.last().0, patch.last().1)
    }
}

/// `fields` renamed, then patched.
pub open spec fn rewritten(
    fields: FieldMap,
    rename: Seq<(Seq<char>, Seq<char>)>,
    patch: Seq<(Seq<char>, Option<Seq<char>>)>,
) -> FieldMap {
    patched(renamed(fields, rename), patch)
}

proof fn lemma_pairs_map_at<V>(s: Seq<(Seq<char>, V)>, i: int)
    requires
        distinct_keys(s),
        0 <= i < s.len(),
    ensures
        pairs_map(s).contains_key(s[i].0),
        pairs_map(s)[s[i].0] == s[i].1,
{
    let j = choose|j: int| 0 <= j < s.len() && (#[trigger] s[j]).0 == s[i].0;
    assert(s[i].0 == s[i].0);
    if j < i {
        assert(s[j].0 != s[i].0);
    } else if i < j {
        assert(s[i].0 != s[j].0);
    }
}

/// Where `key` stands among the fields.
fn position(fields: &Vec<(String, String)>, key: &str) -> (r: Option<usize>)
    ensures
        match r {
            Some(i) => i < fields.len() && pairs_view(fields@)[i as int].0 == key@,
            None => !has_key(pairs_view(fields@), key@),
        },
{
    let mut i: usize = 0;
    while i < fields.len()
        invariant
            i <= fields.len(),
            forall|j: int| 0 <= j < i ==> (#[trigger] pairs_view(fields@)[j]).0 != key@,
        decreases fields.len() - i,
    {
        if same_text(fields[i].0.as_str(), key) {
            return Some(i);
        }
        i += 1;
    }
    None
}

/// Takes a field out.
fn take_field(fields: &mut Vec<(String, String)>, key: &str) -> (r: Option<String>)
    requires
        distinct_keys(pairs_view(old(fields)@)),
    ensures
        distinct_keys(pairs_view(final(fields)@)),
        pairs_map(pairs_view(final(fields)@)) == pairs_map(pairs_view(old(fields)@)).remove(key@),
        match r {
            Some(value) => {
                &&& pairs_map(pairs_view(old(fields)@)).contains_key(key@)
                &&& value@ == pairs_map(pairs_view(old(fields)@))[key@]
            },
            None => !pairs_map(pairs_view(old(fields)@)).contains_key(key@),
        },
{
    let ghost before = pairs_view(fields@);
    match position(fields, key) {
        Some(i) => {
            let (_, value) = fields.remove(i);
            proof {
                let after = pairs_view(fields@);
                assert(after =~= before.remove(i as int));
                lemma_pairs_map_at(before, i as int);
                assert forall|k: Seq<char>|
                    has_key(after, k) <==> has_key(before, k) && k != key@ by {
                    if has_key(after, k) {
                        let j = choose|j: int| 0 <= j < after.len() && (#[trigger] after[j]).0 == k;
                        if j < i {
                            assert(before[j].0 == k);
                        } else {
                            assert(before[j + 1].0 == k);
                        }
                    }
                    if has_key(before, k) && k != key@ {
                        let j = choose|j: int|
                            0 <= j < before.len() && (#[trigger] before[j]).0 == k;
                        if j < i {
                            assert(after[j].0 == k);
                        } else {
                            assert(after[j - 1].0 == k);
                        }
                    }
                }
                assert forall|k: Seq<char>| has_key(after, k) implies pairs_map(after)[k]
                    == pairs_map(before)[k] by {
                    let j = choose|j: int| 0 <= j < after.len() && (#[trigger] after[j]).0 == k;
                    lemma_pairs_map_at(after, j);
                    lemma_pairs_map_at(before, if j < i { j } else { j + 1 });
                }
                assert(pairs_map(after) =~= pairs_map(before).remove(key@));
            }
            Some(value)
        },
        None => {
            assert(pairs_map(before) =~= pairs_map(before).remove(key@));
            None
        },
    }
}

/// Sets a field.
fn set_field(fields: &mut Vec<(String, String)>, key: String, value: String)
    requires
        distinct_keys(pairs_view(old(fields)@)),
    ensures
        distinct_keys(pairs_view(final(fields)@)),
        pairs_map(pairs_view(final(fields)@)) == pairs_map(pairs_view(old(fields)@)).insert(
            key@,
            value@,
        ),
{
    let ghost before = pairs_map(pairs_view(fields@));
    let _ = take_field(fields, key.as_str());
    let ghost middle = pairs_view(fields@);
    let ghost pair = (key@, value@);
    fields.push((key, value));
    proof {
        let after = pairs_view(fields@);
        assert(after =~= middle.push(pair));
        assert(!pairs_map(middle).contains_key(pair.0));
        assert forall|j: int| 0 <= j < middle.len() implies (#[trigger] after[j]).0 != pair.0 by {
            assert(middle[j].0 == after[j].0);
        }
        assert forall|k: Seq<char>| has_key(after, k) <==> has_key(middle, k) || k == pair.0 by {
            if has_key(middle, k) {
                let j = choose|j: int| 0 <= j < middle.len() && (#[trigger] middle[j]).0 == k;
                assert(after[j].0 == k);
            }
            if k == pair.0 {
                assert(after[middle.len() as int].0 == k);
            }
            if has_key(after, k) {
                let j = choose|j: int| 0 <= j < after.len() && (#[trigger] after[j]).0 == k;
                if j < middle.len() {
                    assert(middle[j].0 == k);
                }
            }
        }
        lemma_pairs_map_at(after, middle.len() as int);
        assert forall|k: Seq<char>| has_key(middle, k) implies pairs_map(after)[k]
            == pairs_map(middle)[k] by {
            let j = choose|j: int| 0 <= j < middle.len() && (#[trigger] middle[j]).0 == k;
            lemma_pairs_map_at(middle, j);
            lemma_pairs_map_at(after, j);
        }
        let target = before.insert(pair.0, pair.1);
        assert forall|k: Seq<char>| pairs_map(after).contains_key(k) <==> target.contains_key(k) by {
            assert(pairs_map(middle).contains_key(k) <==> before.remove(pair.0).contains_key(k));
        }
        assert forall|k: Seq<char>| target.contains_key(k) implies pairs_map(after)[k]
            == target[k] by {
            if k != pair.0 {
                assert(before.remove(pair.0).contains_key(k));
                assert(pairs_map(middle).contains_key(k));
            }
        }
        assert(pairs_map(after) =~= target);
    }
}

/// The renamings that a JSON value asks for: the entries of an object whose values are
/// strings, in order. No other value asks for any.
pub open spec fn rename_entries(json: JsonShape<EntriesView>) -> Seq<(Seq<char>, Seq<char>)> {
    match json {
        JsonShape::Object(entries) => entries.filter(
            |e: (Seq<char>, Option<Seq<char>>, Seq<char>)| e.1 is Some,
        ).map_values(|e: (Seq<char>, Option<Seq<char>>, Seq<char>)| (e.0, e.1->0)),
        _ => Seq::empty(),
    }
}

/// The patch that a JSON value asks for: every entry of an object, in order, where
/// `null` asks to remove the key. No other value asks for any.
pub open spec fn patch_entries(json: JsonShape<EntriesView>) -> Seq<(Seq<char>, Option<Seq<char>>)> {
    match json {
        JsonShape::Object(entries) => entries.map_values(
            |e: (Seq<char>, Option<Seq<char>>, Seq<char>)|
                (
                    e.0,
                    if e.2 == "null"@ {
                        None
                    } else {
                        Some(e.2)
                    },
                ),
        ),
        _ => Seq::empty(),
    }
}

/// Lists the renamings of a configured `rename` value, ready to be applied.
pub fn rename_pairs(rename: &Json) -> (r: Vec<(String, String)>)
    ensures
        pairs_view(r@) == rename_entries(json_view(*rename)),
        !(*rename is Object) ==> r@.len() == 0,
        *rename matches JsonShape::Object(entries) ==> {
            // Each string entry is listed, and each listed pair is a string entry.
            &&& forall|i: int|
                0 <= i < entries@.len() && (#[trigger] entries@[i]).1.text is Some ==> exists|
                    j: int,
                |
                    0 <= j < r@.len() && (#[trigger] r@[j]).0@ == entries@[i].0@ && r@[j].1@
                        == entries@[i].1.text->0@
            &&& forall|pair: (String, String)| #[trigger]
                r@.contains(pair) ==> exists|i: int|
                    0 <= i < entries@.len() && (#[trigger] entries@[i]).0@ == pair.0@
                        && entries@[i].1.text is Some && entries@[i].1.text->0@ == pair.1@
            // Where all are strings, they are listed one for one.
            &&& (forall|i: int|
                0 <= i < entries@.len() ==> (#[trigger] entries@[i]).1.text is Some) ==> {
                &&& r@.len() == entries@.len()
                &&& forall|i: int|
                    0 <= i < r@.len() ==> (#[trigger] r@[i]).0@ == entries@[i].0@ && r@[i].1@
                        == entries@[i].1.text->0@
            }
        },
{
    let mut out: Vec<(String, String)> = Vec::new();
    let ghost picks = |e: (Seq<char>, Option<Seq<char>>, Seq<char>)| e.1 is Some;
    let ghost pair = |e: (Seq<char>, Option<Seq<char>>, Seq<char>)| (e.0, e.1->0);
    if let JsonShape::Object(entries) = rename {
        let ghost all = fields_view(entries@);
        let mut i: usize = 0;
        assert(pairs_view(out@) =~= all.take(0).filter(picks).map_values(pair)) by {
            reveal(Seq::filter);
        }
        while i < entries.len()
            invariant
                i <= entries.len(),
                all == fields_view(entries@),
                picks == (|e: (Seq<char>, Option<Seq<char>>, Seq<char>)| e.1 is Some),
                pair == (|e: (Seq<char>, Option<Seq<char>>, Seq<char>)| (e.0, e.1->0)),
                pairs_view(out@) == all.take(i as int).filter(picks).map_values(pair),
            decreases entries.len() - i,
        {
            let ghost before = out@;
            let ghost head = all.take(i as int);
            assert(all.take(i + 1).drop_last() == head);
            assert(all.take(i + 1).filter(picks) == if picks(all[i as int]) {
                head.filter(picks).push(all[i as int])
            } else {
                head.filter(picks)
            }) by {
                reveal(Seq::filter);
            }
            if let Some(to) = &entries[i].1.text {
                out.push((entries[i].0.clone(), to.clone()));
                assert(pairs_view(out@) =~= pairs_view(before).push(pair(all[i as int])));
                assert(all.take(i + 1).filter(picks).map_values(pair) =~= head.filter(
                    picks,
                ).map_values(pair).push(pair(all[i as int])));
            }
            i += 1;
        }
        assert(all.take(i as int) == all);
        proof {
            lemma_renames_listed(entries@, out@);
        }
    }
    out
}

pub(crate) proof fn lemma_renames_listed(entries: Seq<(String, JsonField)>, out: Seq<(String, String)>)
    requires
        pairs_view(out) == rename_entries(JsonShape::Object(fields_view(entries))),
    ensures
        forall|i: int|
            0 <= i < entries.len() && (#[trigger] entries[i]).1.text is Some ==> exists|j: int|
                0 <= j < out.len() && (#[trigger] out[j]).0@ == entries[i].0@ && out[j].1@
                    == entries[i].1.text->0@,
        forall|pair: (String, String)| #[trigger]
            out.contains(pair) ==> exists|i: int|
                0 <= i < entries.len() && (#[trigger] entries[i]).0@ == pair.0@
                    && entries[i].1.text is Some && entries[i].1.text->0@ == pair.1@,
        (forall|i: int| 0 <= i < entries.len() ==> (#[trigger] entries[i]).1.text is Some) ==> {
            &&& out.len() == entries.len()
            &&& forall|i: int|
                0 <= i < out.len() ==> (#[trigger] out[i]).0@ == entries[i].0@ && out[i].1@
                    == entries[i].1.text->0@
        },
{
    let all = fields_view(entries);
    let picks = |e: (Seq<char>, Option<Seq<char>>, Seq<char>)| e.1 is Some;
    let pair = |e: (Seq<char>, Option<Seq<char>>, Seq<char>)| (e.0, e.1->0);
    let kept = all.filter(picks);
    lemma_picked(all, picks);
    assert(pairs_view(out) == kept.map_values(pair));
    assert(pairs_view(out).len() == out.len());
    assert forall|listed: (String, String)| #[trigger] out.contains(listed) implies exists|i: int|
        0 <= i < entries.len() && (#[trigger] entries[i]).0@ == listed.0@
            && entries[i].1.text is Some && entries[i].1.text->0@ == listed.1@ by {
        let j = choose|j: int| 0 <= j < out.len() && out[j] == listed;
        assert(pairs_view(out)[j] == pair(kept[j]));
        assert(picks(kept[j]));
        let i = choose|i: int| 0 <= i < all.len() && #[trigger] all[i] == kept[j];
        assert(entries[i].0@ == all[i].0);
    }
    assert forall|i: int|
        0 <= i < entries.len() && (#[trigger] entries[i]).1.text is Some implies exists|j: int|
        0 <= j < out.len() && (#[trigger] out[j]).0@ == entries[i].0@ && out[j].1@
            == entries[i].1.text->0@ by {
        assert(picks(all[i]));
        let j = choose|j: int| 0 <= j < kept.len() && #[trigger] kept[j] == all[i];
        assert(pairs_view(out)[j] == pair(kept[j]));
        assert(out[j].0@ == entries[i].0@);
    }
    if forall|i: int| 0 <= i < entries.len() ==> (#[trigger] entries[i]).1.text is Some {
        assert forall|i: int| 0 <= i < all.len() implies picks(#[trigger] all[i]) by {
            assert(entries[i].1.text is Some);
        }
        lemma_all_picked(all, picks);
        assert forall|i: int| 0 <= i < out.len() implies (#[trigger] out[i]).0@ == entries[i].0@
            && out[i].1@ == entries[i].1.text->0@ by {
            assert(pairs_view(out)[i] == pair(all[i]));
        }
    }
}

proof fn lemma_picked(
    all: EntriesView,
    picks: spec_fn((Seq<char>, Option<Seq<char>>, Seq<char>)) -> bool,
)
    ensures
        forall|k: int|
            0 <= k < all.len() && picks(#[trigger] all[k]) ==> exists|j: int|
                0 <= j < all.filter(picks).len() && #[trigger] all.filter(picks)[j] == all[k],
        forall|j: int|
            0 <= j < all.filter(picks).len() ==> picks(#[trigger] all.filter(picks)[j]) && exists|
                k: int,
            |
                0 <= k < all.len() && #[trigger] all[k] == all.filter(picks)[j],
    decreases all.len(),
{
    reveal(Seq::filter);
    if all.len() > 0 {
        let rest = all.drop_last();
        lemma_picked(rest, picks);
        let kept = all.filter(picks);
        let before = rest.filter(picks);
        assert forall|k: int| 0 <= k < all.len() && picks(#[trigger] all[k]) implies exists|j: int|
            0 <= j < kept.len() && #[trigger] kept[j] == all[k] by {
            if k < rest.len() {
                assert(rest[k] == all[k]);
                let j = choose|j: int| 0 <= j < before.len() && #[trigger] before[j] == rest[k];
                assert(kept[j] == all[k]);
            } else {
                assert(kept[before.len() as int] == all[k]);
            }
        }
        assert forall|j: int| 0 <= j < kept.len() implies picks(#[trigger] kept[j]) && exists|
            k: int,
        |
            0 <= k < all.len() && #[trigger] all[k] == kept[j] by {
            if j < before.len() {
                assert(before[j] == kept[j]);
                let k = choose|k: int| 0 <= k < rest.len() && #[trigger] rest[k] == before[j];
                assert(all[k] == kept[j]);
            } else {
                assert(all[all.len() - 1] == kept[j]);
            }
        }
    }
}

proof fn lemma_all_picked(
    all: EntriesView,
    picks: spec_fn((Seq<char>, Option<Seq<char>>, Seq<char>)) -> bool,
)
    requires
        forall|k: int| 0 <= k < all.len() ==> picks(#[trigger] all[k]),
    ensures
        all.filter(picks) == all,
    decreases all.len(),
{
    reveal(Seq::filter);
    if all.len() > 0 {
        let rest = all.drop_last();
        assert forall|k: int| 0 <= k < rest.len() implies picks(#[trigger] rest[k]) by {
            assert(rest[k] == all[k]);
        }
        lemma_all_picked(rest, picks);
        assert(picks(all[all.len() - 1]));
        assert(all =~= rest.push(all.last()));
    }
}

/// The renamings of an object are those of its entries one after the other: one more
/// entry adds one more renaming at the end, from its key to its text, where its value is
/// a string, and nothing where it is not. No other value asks for any.
pub proof fn law_rename_entries(entries: EntriesView, key: Seq<char>, text: Seq<char>, raw: Seq<char>)
    ensures
        rename_entries(JsonShape::Null) == Seq::<(Seq<char>, Seq<char>)>::empty(),
        rename_entries(JsonShape::Other) == Seq::<(Seq<char>, Seq<char>)>::empty(),
        rename_entries(JsonShape::Object(Seq::empty())) == Seq::<(Seq<char>, Seq<char>)>::empty(),
        rename_entries(JsonShape::Object(entries.push((key, Some(text), raw)))) == rename_entries(
            JsonShape::Object(entries),
        ).push((key, text)),
        rename_entries(JsonShape::Object(entries.push((key, None, raw)))) == rename_entries(
            JsonShape::Object(entries),
        ),
{
    reveal(Seq::filter);
    let picks = |e: (Seq<char>, Option<Seq<char>>, Seq<char>)| e.1 is Some;
    let pair = |e: (Seq<char>, Option<Seq<char>>, Seq<char>)| (e.0, e.1->0);
    let with = entries.push((key, Some(text), raw));
    let without = entries.push((key, None, raw));
    assert(with.drop_last() =~= entries);
    assert(without.drop_last() =~= entries);
    assert(with.filter(picks) == entries.filter(picks).push((key, Some(text), raw)));
    assert(with.filter(picks).map_values(pair) =~= entries.filter(picks).map_values(pair).push(
        (key, text),
    ));
    assert(without.filter(picks) == entries.filter(picks));
    assert(rename_entries(JsonShape::Object(Seq::empty())) =~= Seq::empty());
}

/// The patch of an object has one entry for each of its own, in their places: `null`
/// removes the key, any other value is set as it is written. No other value asks for any.
pub proof fn law_patch_entries(entries: EntriesView)
    ensures
        patch_entries(JsonShape::Null) == Seq::<(Seq<char>, Option<Seq<char>>)>::empty(),
        patch_entries(JsonShape::Other) == Seq::<(Seq<char>, Option<Seq<char>>)>::empty(),
        patch_entries(JsonShape::Object(entries)).len() == entries.len(),
        forall|i: int|
            0 <= i < entries.len() ==> {
                let entry = #[trigger] patch_entries(JsonShape::Object(entries))[i];
                &&& entry.0 == entries[i].0
                &&& entries[i].2 == "null"@ ==> entry.1 is None
                &&& entries[i].2 != "null"@ ==> entry.1 == Some(entries[i].2)
            },
{
}

/// Patch entries are viewed in their places, key by key and value by value.
pub proof fn law_patch_view(s: Seq<(String, Option<RawJson>)>)
    ensures
        patch_view(s).len() == s.len(),
        forall|i: int|
            0 <= i < s.len() ==> {
                &&& (#[trigger] patch_view(s)[i]).0 == s[i].0@
                &&& s[i].1 is None <==> patch_view(s)[i].1 is None
                &&& s[i].1 matches Some(raw) ==> patch_view(s)[i].1 == Some(raw@)
            },
{
}

/// Lists the patch entries of a configured `patch` value, ready to be applied.
pub fn patch_pairs(patch: &Json) -> (r: Vec<(String, Option<RawJson>)>)
    ensures
        patch_view(r@) == patch_entries(json_view(*patch)),
        !(*patch is Object) ==> r@.len() == 0,
        *patch matches JsonShape::Object(entries) ==> {
            &&& r@.len() == entries@.len()
            &&& forall|i: int|
                0 <= i < r@.len() ==> {
                    &&& (#[trigger] r@[i]).0@ == entries@[i].0@
                    &&& r@[i].1 is None <==> entries@[i].1.raw@ == "null"@
                    &&& r@[i].1 matches Some(raw) ==> raw@ == entries@[i].1.raw@
                }
        },
{
    let mut out: Vec<(String, Option<RawJson>)> = Vec::new();
    if let JsonShape::Object(entries) = patch {
        let ghost all = patch_entries(json_view(*patch));
        let mut i: usize = 0;
        while i < entries.len()
            invariant
                i <= entries.len(),
                *patch == JsonShape::Object(*entries),
                all == patch_entries(json_view(*patch)),
                patch_view(out@) == all.take(i as int),
            decreases entries.len() - i,
        {
            let raw = &entries[i].1.raw;
            let value = if raw.is_null() {
                None
            } else {
                Some(raw.clone())
            };
            let ghost before = out@;
            out.push((entries[i].0.clone(), value));
            assert(patch_view(out@) =~= patch_view(before).push(all[i as int]));
            assert(all.take(i + 1) =~= all.take(i as int).push(all[i as int]));
            i += 1;
        }
        assert(all.take(i as int) =~= all);
        assert(patch_view(out@).len() == out@.len());
        assert forall|k: int| 0 <= k < out@.len() implies {
            &&& (#[trigger] out@[k]).0@ == entries@[k].0@
            &&& out@[k].1 is None <==> entries@[k].1.raw@ == "null"@
            &&& out@[k].1 matches Some(raw) ==> raw@ == entries@[k].1.raw@
        } by {
            assert(patch_view(out@)[k] == all[k]);
        }
    }
    out
}

/// Renames, then patches the fields of an object.
pub fn rewrite_fields(
    fields: Vec<(String, String)>,
    rename: &[(String, String)],
    patch: &[(String, Option<RawJson>)],
) -> (r: Vec<(String, String)>)
    requires
        distinct_keys(pairs_view(fields@)),
    ensures
        distinct_keys(pairs_view(r@)),
        pairs_map(pairs_view(r@)) == rewritten(
            pairs_map(pairs_view(fields@)),
            pairs_view(rename@),
            patch_view(patch@),
        ),
        raw_patch(patch_view(patch@)),
{
    let mut out = fields;
    let ghost start = pairs_map(pairs_view(fields@));
    let ghost renames = pairs_view(rename@);
    let ghost patches = patch_view(patch@);
    let mut i: usize = 0;
    while i < rename.len()
        invariant
            i <= rename.len(),
            renames == pairs_view(rename@),
            distinct_keys(pairs_view(out@)),
            pairs_map(pairs_view(out@)) == renamed(start, renames.take(i as int)),
        decreases rename.len() - i,
    {
        assert(renames.take(i + 1).drop_last() == renames.take(i as int));
        assert(renames.take(i + 1).last() == (rename@[i as int].0@, rename@[i as int].1@));
        if let Some(value) = take_field(&mut out, rename[i].0.as_str()) {
            set_field(&mut out, rename[i].1.clone(), value);
        }
        i += 1;
    }
    assert(renames.take(i as int) == renames);
    let mut j: usize = 0;
    while j < patch.len()
        invariant
            j <= patch.len(),
            patches == patch_view(patch@),
            distinct_keys(pairs_view(out@)),
            pairs_map(pairs_view(out@)) == patched(renamed(start, renames), patches.take(j as int)),
            raw_patch(patches.take(j as int)),
        decreases patch.len() - j,
    {
        assert(patches.take(j + 1).drop_last() == patches.take(j as int));
        assert(patches.take(j + 1).last() == patches[j as int]);
        match &patch[j].1 {
            Some(raw) => {
                set_field(&mut out, patch[j].0.clone(), raw.get().to_owned());
            },
            None => {
                let _ = take_field(&mut out, patch[j].0.as_str());
            },
        }
        assert forall|k: int| 0 <= k < j + 1 implies ((#[trigger] patches.take(j + 1)[k]).1 matches Some(
            raw,
        ) ==> is_raw_json(raw)) by {
            if k < j {
                assert(patches.take(j as int)[k] == patches.take(j + 1)[k]);
            }
        }
        j += 1;
    }
    assert(patches.take(j as int) == patches);
    out
}

/// Whether every value that the patch sets is the text of one JSON value.
pub open spec fn raw_patch(patch: Seq<(Seq<char>, Option<Seq<char>>)>) -> bool {
    forall|i: int|
        0 <= i < patch.len() ==> ((#[trigger] patch[i]).1 matches Some(raw) ==> is_raw_json(raw))
}

proof fn lemma_renamed_raw(fields: FieldMap, rename: Seq<(Seq<char>, Seq<char>)>)
    requires
        raw_values(fields),
    ensures
        raw_values(renamed(fields, rename)),
    decreases rename.len(),
{
    if rename.len() > 0 {
        lemma_renamed_raw(fields, rename.drop_last());
    }
}

proof fn lemma_patched_raw(fields: FieldMap, patch: Seq<(Seq<char>, Option<Seq<char>>)>)
    requires
        raw_values(fields),
        raw_patch(patch),
    ensures
        raw_values(patched(fields, patch)),
    decreases patch.len(),
{
    if patch.len() > 0 {
        let rest = patch.drop_last();
        assert forall|i: int| 0 <= i < rest.len() implies ((#[trigger] rest[i]).1 matches Some(raw)
            ==> is_raw_json(raw)) by {
            assert(rest[i] == patch[i]);
        }
        lemma_patched_raw(fields, rest);
        assert(patch.last() == patch[patch.len() - 1]);
    }
}

/// The body in place of `body`, or `None` where that is passed on as it is: nothing is
/// configured, or the body is not a JSON object.
pub open spec fn rewritten_body(
    body: Seq<u8>,
    rename: Seq<(Seq<char>, Seq<char>)>,
    patch: Seq<(Seq<char>, Option<Seq<char>>)>,
) -> Option<Seq<u8>> {
    match json_object(body) {
        Some(fields) if rename.len() > 0 || patch.len() > 0 => Some(
            json_object_bytes(rewritten(fields, rename, patch)),
        ),
        _ => None,
    }
}

proof fn lemma_renamed_finite(fields: FieldMap, rename: Seq<(Seq<char>, Seq<char>)>)
    requires
        fields.dom().finite(),
    ensures
        renamed(fields, rename).dom().finite(),
    decreases rename.len(),
{
    if rename.len() > 0 {
        lemma_renamed_finite(fields, rename.drop_last());
    }
}

proof fn lemma_patched_finite(fields: FieldMap, patch: Seq<(Seq<char>, Option<Seq<char>>)>)
    requires
        fields.dom().finite(),
    ensures
        patched(fields, patch).dom().finite(),
    decreases patch.len(),
{
    if patch.len() > 0 {
        lemma_patched_finite(fields, patch.drop_last());
    }
}

/// Rewrites the top-level fields of a request body: renames first, then merges the
/// patch. Nested content is passed on byte for byte. `None` asks to forward the body as
/// it is: nothing is configured, or the body is not a JSON object.
pub fn rewrite_body(
    body: &[u8],
    rename: &[(String, String)],
    patch: &[(String, Option<RawJson>)],
) -> (r: Option<Vec<u8>>)
    ensures
        rewritten_body(body@, pairs_view(rename@), patch_view(patch@)) == match r {
            Some(out) => Some(out@),
            None => None,
        },
        r matches Some(out) ==> (json_object(body@) matches Some(fields) && {
            let sent = rewritten(fields, pairs_view(rename@), patch_view(patch@));
            &&& is_key_order(key_order(sent), sent)
            &&& out@ == object_bytes(key_order(sent), sent)
            &&& json_object(out@) == Some(sent)
        }),
        r is Some <==> json_object(body@) is Some && (rename@.len() > 0 || patch@.len() > 0),
        r matches Some(out) ==> json_object(out@) is Some,
        // A key that nothing names stays as it is.
        r matches Some(out) ==> forall|key: Seq<char>|
            (forall|i: int|
                0 <= i < rename@.len() ==> (#[trigger] rename@[i]).0@ != key && rename@[i].1@
                    != key) && (forall|i: int|
                0 <= i < patch@.len() ==> (#[trigger] patch@[i]).0@ != key) ==> {
                &&& #[trigger] json_object(out@)->0.contains_key(key) <==> json_object(
                    body@,
                )->0.contains_key(key)
                &&& json_object(body@)->0.contains_key(key) ==> json_object(out@)->0[key]
                    == json_object(body@)->0[key]
            },
        // The last patch entry of a key decides on it.
        r matches Some(out) ==> forall|i: int|
            0 <= i < patch@.len() && (forall|j: int|
                i < j < patch@.len() ==> (#[trigger] patch@[j]).0@ != patch@[i].0@) ==> {
                &&& (#[trigger] patch@[i]).1 is None ==> !json_object(out@)->0.contains_key(
                    patch@[i].0@,
                )
                &&& patch@[i].1 matches Some(raw) ==> json_object(out@)->0.contains_key(
                    patch@[i].0@,
                ) && json_object(out@)->0[patch@[i].0@] == raw@
            },
        // One renaming moves a field that the patch leaves alone.
        r matches Some(out) ==> (rename@.len() == 1 && json_object(body@)->0.contains_key(
            rename@[0].0@,
        ) && (forall|i: int|
            0 <= i < patch@.len() ==> (#[trigger] patch@[i]).0@ != rename@[0].0@ && patch@[i].0@
                != rename@[0].1@) ==> {
            &&& json_object(out@)->0.contains_key(rename@[0].1@)
            &&& json_object(out@)->0[rename@[0].1@] == json_object(body@)->0[rename@[0].0@]
            &&& rename@[0].0@ != rename@[0].1@ ==> !json_object(out@)->0.contains_key(
                rename@[0].0@,
            )
        }),
{
    if rename.len() == 0 && patch.len() == 0 {
        return None;
    }
    match read_object(body) {
        Some(fields) => {
            let ghost start = pairs_map(pairs_view(fields@));
            proof {
                lemma_pairs_map_finite(pairs_view(fields@));
                law_written_body(start, pairs_view(rename@), patch_view(patch@));
                lemma_renamed_raw(start, pairs_view(rename@));
            }
            let out = rewrite_fields(fields, rename, patch);
            proof {
                lemma_rewritten_from(start, rename@, patch@);
                lemma_patched_raw(renamed(start, pairs_view(rename@)), patch_view(patch@));
            }
            write_object(&out)
        },
        None => None,
    }
}

proof fn lemma_rewritten_from(
    fields: FieldMap,
    rename: Seq<(String, String)>,
    patch: Seq<(String, Option<RawJson>)>,
)
    ensures
        ({
            let sent = rewritten(fields, pairs_view(rename), patch_view(patch));
            &&& forall|key: Seq<char>|
                (forall|i: int|
                    0 <= i < rename.len() ==> (#[trigger] rename[i]).0@ != key && rename[i].1@
                        != key) && (forall|i: int|
                    0 <= i < patch.len() ==> (#[trigger] patch[i]).0@ != key) ==> {
                    &&& #[trigger] sent.contains_key(key) <==> fields.contains_key(key)
                    &&& fields.contains_key(key) ==> sent[key] == fields[key]
                }
            &&& forall|i: int|
                0 <= i < patch.len() && (forall|j: int|
                    i < j < patch.len() ==> (#[trigger] patch[j]).0@ != patch[i].0@) ==> {
                    &&& (#[trigger] patch[i]).1 is None ==> !sent.contains_key(patch[i].0@)
                    &&& patch[i].1 matches Some(raw) ==> sent.contains_key(patch[i].0@)
                        && sent[patch[i].0@] == raw@
                }
            &&& rename.len() == 1 && fields.contains_key(rename[0].0@) && (forall|i: int|
                0 <= i < patch.len() ==> (#[trigger] patch[i]).0@ != rename[0].0@ && patch[i].0@
                    != rename[0].1@) ==> {
                &&& sent.contains_key(rename[0].1@)
                &&& sent[rename[0].1@] == fields[rename[0].0@]
                &&& rename[0].0@ != rename[0].1@ ==> !sent.contains_key(rename[0].0@)
            }
        }),
{
    let renames = pairs_view(rename);
    let patches = patch_view(patch);
    let sent = rewritten(fields, renames, patches);
    law_pairs_view(rename);
    law_patch_view(patch);
    assert forall|key: Seq<char>|
        (forall|i: int|
            0 <= i < rename.len() ==> (#[trigger] rename[i]).0@ != key && rename[i].1@ != key) && (
        forall|i: int| 0 <= i < patch.len() ==> (#[trigger] patch[i]).0@ != key) implies {
        &&& #[trigger] sent.contains_key(key) <==> fields.contains_key(key)
        &&& fields.contains_key(key) ==> sent[key] == fields[key]
    } by {
        assert forall|i: int| 0 <= i < renames.len() implies (#[trigger] renames[i]).0 != key
            && renames[i].1 != key by {
            assert(rename[i].0@ != key);
        }
        assert forall|i: int| 0 <= i < patches.len() implies (#[trigger] patches[i]).0 != key by {
            assert(patch[i].0@ != key);
        }
        law_untouched_field(fields, renames, patches, key);
    }
    assert forall|i: int|
        0 <= i < patch.len() && (forall|j: int|
            i < j < patch.len() ==> (#[trigger] patch[j]).0@ != patch[i].0@) implies {
        &&& (#[trigger] patch[i]).1 is None ==> !sent.contains_key(patch[i].0@)
        &&& patch[i].1 matches Some(raw) ==> sent.contains_key(patch[i].0@) && sent[patch[i].0@]
            == raw@
    } by {
        assert(patches[i].0 == patch[i].0@);
        assert forall|j: int| i < j < patches.len() implies (#[trigger] patches[j]).0
            != patches[i].0 by {
            assert(patch[j].0@ != patch[i].0@);
        }
        lemma_patched_last(renamed(fields, renames), patches, i);
    }
    if rename.len() == 1 && fields.contains_key(rename[0].0@) && (forall|i: int|
        0 <= i < patch.len() ==> (#[trigger] patch[i]).0@ != rename[0].0@ && patch[i].0@
            != rename[0].1@) {
        assert(renames[0].0 == rename[0].0@);
        assert(renames.drop_last() =~= Seq::empty());
        assert(renamed(fields, renames.drop_last()) == fields);
        assert forall|i: int| 0 <= i < patches.len() implies (#[trigger] patches[i]).0
            != renames[0].0 && patches[i].0 != renames[0].1 by {
            assert(patch[i].0@ != rename[0].0@);
        }
        lemma_patched_untouched(renamed(fields, renames), patches, renames[0].0);
        lemma_patched_untouched(renamed(fields, renames), patches, renames[0].1);
    }
}

proof fn lemma_patched_last(
    fields: FieldMap,
    patch: Seq<(Seq<char>, Option<Seq<char>>)>,
    i: int,
)
    requires
        0 <= i < patch.len(),
        forall|j: int| i < j < patch.len() ==> (#[trigger] patch[j]).0 != patch[i].0,
    ensures
        patch[i].1 is None ==> !patched(fields, patch).contains_key(patch[i].0),
        patch[i].1 matches Some(raw) ==> patched(fields, patch).contains_key(patch[i].0) && patched(
            fields,
            patch,
        )[patch[i].0] == raw,
    decreases patch.len(),
{
    let last = patch.len() - 1;
    assert(patch.last() == patch[last]);
    if i < last {
        let rest = patch.drop_last();
        assert(rest[i] == patch[i]);
        assert(patch[last].0 != patch[i].0);
        assert forall|j: int| i < j < rest.len() implies (#[trigger] rest[j]).0 != rest[i].0 by {
            assert(patch[j].0 != patch[i].0);
        }
        lemma_patched_last(fields, rest, i);
    }
}

/// A body is rewritten wherever it is a JSON object and something is configured: then
/// and only then there is a new body, and it is the rewritten fields, written out.
pub proof fn law_object_is_rewritten(
    body: Seq<u8>,
    rename: Seq<(Seq<char>, Seq<char>)>,
    patch: Seq<(Seq<char>, Option<Seq<char>>)>,
)
    ensures
        json_object(body) is Some && rename.len() > 0 ==> rewritten_body(body, rename, patch) is Some,
        json_object(body) is Some && patch.len() > 0 ==> rewritten_body(body, rename, patch) is Some,
        json_object(body) is None ==> rewritten_body(body, rename, patch) is None,
        rename.len() == 0 && patch.len() == 0 ==> rewritten_body(body, rename, patch) is None,
        rewritten_body(body, rename, patch) matches Some(out) ==> out == json_object_bytes(
            rewritten(json_object(body)->0, rename, patch),
        ),
{
}

proof fn lemma_renamed_in_turn(
    fields: FieldMap,
    a: Seq<(Seq<char>, Seq<char>)>,
    b: Seq<(Seq<char>, Seq<char>)>,
)
    ensures
        renamed(fields, a + b) == renamed(renamed(fields, a), b),
    decreases b.len(),
{
    if b.len() == 0 {
        assert(a + b =~= a);
    } else {
        lemma_renamed_in_turn(fields, a, b.drop_last());
        assert((a + b).drop_last() =~= a + b.drop_last());
        assert((a + b).last() == b.last());
    }
}

proof fn lemma_patched_in_turn(
    fields: FieldMap,
    a: Seq<(Seq<char>, Option<Seq<char>>)>,
    b: Seq<(Seq<char>, Option<Seq<char>>)>,
)
    ensures
        patched(fields, a + b) == patched(patched(fields, a), b),
    decreases b.len(),
{
    if b.len() == 0 {
        assert(a + b =~= a);
    } else {
        lemma_patched_in_turn(fields, a, b.drop_last());
        assert((a + b).drop_last() =~= a + b.drop_last());
        assert((a + b).last() == b.last());
    }
}

/// To rewrite by rules is to rewrite by each of them in turn, all renamings before all
/// patch entries; by no rule, nothing changes.
pub proof fn law_rules_in_turn(
    fields: FieldMap,
    rename: Seq<(Seq<char>, Seq<char>)>,
    more_rename: Seq<(Seq<char>, Seq<char>)>,
    patch: Seq<(Seq<char>, Option<Seq<char>>)>,
    more_patch: Seq<(Seq<char>, Option<Seq<char>>)>,
)
    ensures
        rewritten(fields, Seq::empty(), Seq::empty()) == fields,
        rewritten(fields, rename + more_rename, patch) == rewritten(
            rewritten(fields, rename, Seq::empty()),
            more_rename,
            patch,
        ),
        rewritten(fields, rename, patch + more_patch) == rewritten(
            rewritten(fields, rename, patch),
            Seq::empty(),
            more_patch,
        ),
{
    lemma_renamed_in_turn(fields, rename, more_rename);
    lemma_patched_in_turn(renamed(fields, rename), patch, more_patch);
}

/// One renaming moves the value of `from` to `to`, over what stood there, where `from` is
/// a field, and changes nothing where it is not. All other fields stay.
pub proof fn law_one_renaming(
    fields: FieldMap,
    from: Seq<char>,
    to: Seq<char>,
    other: Seq<char>,
)
    ensures
        ({
            let sent = rewritten(fields, seq![(from, to)], Seq::empty());
            &&& fields.contains_key(from) ==> sent.contains_key(to) && sent[to] == fields[from]
            &&& from != to ==> !sent.contains_key(from)
            &&& !fields.contains_key(from) ==> sent == fields
            &&& other != from && other != to ==> {
                &&& sent.contains_key(other) <==> fields.contains_key(other)
                &&& fields.contains_key(other) ==> sent[other] == fields[other]
            }
        }),
{
    let rename = seq![(from, to)];
    assert(rename.drop_last() =~= Seq::empty());
    assert(renamed(fields, rename.drop_last()) == fields);
}

/// One patch entry sets its key to its value, or removes it. All other fields stay.
pub proof fn law_one_patch_entry(
    fields: FieldMap,
    key: Seq<char>,
    value: Option<Seq<char>>,
    other: Seq<char>,
)
    ensures
        ({
            let sent = rewritten(fields, Seq::empty(), seq![(key, value)]);
            &&& value is None ==> !sent.contains_key(key)
            &&& value matches Some(raw) ==> sent.contains_key(key) && sent[key] == raw
            &&& other != key ==> {
                &&& sent.contains_key(other) <==> fields.contains_key(other)
                &&& fields.contains_key(other) ==> sent[other] == fields[other]
            }
        }),
{
    let patch = seq![(key, value)];
    assert(patch.drop_last() =~= Seq::empty());
    assert(patched(fields, patch.drop_last()) == fields);
}

/// The body that is sent holds its top-level keys in ascending order by their bytes,
/// each of them once, and no whitespace around its keys and values.
pub proof fn law_written_body(
    fields: FieldMap,
    rename: Seq<(Seq<char>, Seq<char>)>,
    patch: Seq<(Seq<char>, Option<Seq<char>>)>,
)
    requires
        fields.dom().finite(),
    ensures
        ({
            let sent = rewritten(fields, rename, patch);
            &&& is_key_order(key_order(sent), sent)
            &&& forall|i: int, j: int|
                0 <= i < j < key_order(sent).len() ==> bytes_upto(
                    encode_utf8(#[trigger] key_order(sent)[i]),
                    encode_utf8(#[trigger] key_order(sent)[j]),
                ) && key_order(sent)[i] != key_order(sent)[j]
            &&& forall|key: Seq<char>| #[trigger]
                sent.contains_key(key) <==> key_order(sent).contains(key)
            &&& json_object_bytes(sent) == object_bytes(key_order(sent), sent)
            &&& forall|keys: Seq<Seq<char>>| #[trigger]
                is_key_order(keys, sent) ==> json_object_bytes(sent) == object_bytes(keys, sent)
        }),
{
    let sent = rewritten(fields, rename, patch);
    lemma_renamed_finite(fields, rename);
    lemma_patched_finite(renamed(fields, rename), patch);
    law_key_order(sent, key_order(sent));
    assert forall|i: int, j: int| 0 <= i < j < key_order(sent).len() implies bytes_upto(
        encode_utf8(#[trigger] key_order(sent)[i]),
        encode_utf8(#[trigger] key_order(sent)[j]),
    ) && key_order(sent)[i] != key_order(sent)[j] by {
        assert(key_upto(key_order(sent)[i], key_order(sent)[j]));
    }
    assert forall|keys: Seq<Seq<char>>| #[trigger] is_key_order(
        keys,
        sent,
    ) implies json_object_bytes(sent) == object_bytes(keys, sent) by {
        law_key_order(sent, keys);
    }
}

/// Two bodies with the same top-level fields, in whatever order and with whatever
/// spacing, are sent as the same bytes.
pub proof fn law_same_fields_same_body(
    a: Seq<u8>,
    b: Seq<u8>,
    rename: Seq<(Seq<char>, Seq<char>)>,
    patch: Seq<(Seq<char>, Option<Seq<char>>)>,
)
    requires
        json_object(a) == json_object(b),
    ensures
        rewritten_body(a, rename, patch) == rewritten_body(b, rename, patch),
{
}

/// The keys that renaming reads or writes.
pub open spec fn rename_names(rename: Seq<(Seq<char>, Seq<char>)>, key: Seq<char>) -> bool {
    exists|i: int|
        0 <= i < rename.len() && ((#[trigger] rename[i]).0 == key || rename[i].1 == key)
}

proof fn lemma_renamed_untouched(
    fields: FieldMap,
    rename: Seq<(Seq<char>, Seq<char>)>,
    key: Seq<char>,
)
    requires
        !rename_names(rename, key),
    ensures
        renamed(fields, rename).contains_key(key) <==> fields.contains_key(key),
        fields.contains_key(key) ==> renamed(fields, rename)[key] == fields[key],
    decreases rename.len(),
{
    if rename.len() > 0 {
        let rest = rename.drop_last();
        assert(rename[rename.len() - 1] == rename.last());
        assert forall|i: int| 0 <= i < rest.len() implies (#[trigger] rest[i]).0 != key && rest[i].1
            != key by {
            assert(rest[i] == rename[i]);
        }
        lemma_renamed_untouched(fields, rest, key);
    }
}

proof fn lemma_patched_untouched(
    fields: FieldMap,
    patch: Seq<(Seq<char>, Option<Seq<char>>)>,
    key: Seq<char>,
)
    requires
        !has_key(patch, key),
    ensures
        patched(fields, patch).contains_key(key) <==> fields.contains_key(key),
        fields.contains_key(key) ==> patched(fields, patch)[key] == fields[key],
    decreases patch.len(),
{
    if patch.len() > 0 {
        let rest = patch.drop_last();
        assert(patch[patch.len() - 1] == patch.last());
        assert forall|i: int| 0 <= i < rest.len() implies (#[trigger] rest[i]).0 != key by {
            assert(rest[i] == patch[i]);
        }
        lemma_patched_untouched(fields, rest, key);
    }
}

/// A field that neither the renaming nor the patch names is passed on as it is, its
/// value byte for byte; and no other field comes up under a name that they do not name.
pub proof fn law_untouched_field(
    fields: FieldMap,
    rename: Seq<(Seq<char>, Seq<char>)>,
    patch: Seq<(Seq<char>, Option<Seq<char>>)>,
    key: Seq<char>,
)
    requires
        !rename_names(rename, key),
        !has_key(patch, key),
    ensures
        rewritten(fields, rename, patch).contains_key(key) <==> fields.contains_key(key),
        fields.contains_key(key) ==> rewritten(fields, rename, patch)[key] == fields[key],
{
    lemma_renamed_untouched(fields, rename, key);
    lemma_patched_untouched(renamed(fields, rename), patch, key);
}

/// The patch has the last word on each key that it names: a value is set, and a removal
/// removes, whatever was there and whatever the renaming did.
pub proof fn law_patched_field(
    fields: FieldMap,
    rename: Seq<(Seq<char>, Seq<char>)>,
    patch: Seq<(Seq<char>, Option<Seq<char>>)>,
    i: int,
)
    requires
        distinct_keys(patch),
        0 <= i < patch.len(),
    ensures
        match patch[i].1 {
            Some(raw) => {
                &&& rewritten(fields, rename, patch).contains_key(patch[i].0)
                &&& rewritten(fields, rename, patch)[patch[i].0] == raw
            },
            None => !rewritten(fields, rename, patch).contains_key(patch[i].0),
        },
{
    lemma_patched_field(renamed(fields, rename), patch, i);
}

proof fn lemma_patched_field(
    fields: FieldMap,
    patch: Seq<(Seq<char>, Option<Seq<char>>)>,
    i: int,
)
    requires
        distinct_keys(patch),
        0 <= i < patch.len(),
    ensures
        match patch[i].1 {
            Some(raw) => {
                &&& patched(fields, patch).contains_key(patch[i].0)
                &&& patched(fields, patch)[patch[i].0] == raw
            },
            None => !patched(fields, patch).contains_key(patch[i].0),
        },
    decreases patch.len(),
{
    let last = patch.len() - 1;
    assert(patch.last() == patch[last]);
    if i < last {
        let rest = patch.drop_last();
        assert(rest[i] == patch[i]);
        assert(patch[i].0 != patch[last].0);
        assert forall|a: int, b: int| 0 <= a < b < rest.len() implies (#[trigger] rest[a]).0 != (
        #[trigger] rest[b]).0 by {
            assert(rest[a] == patch[a] && rest[b] == patch[b]);
        }
        lemma_patched_field(fields, rest, i);
    }
}

/// A field that the configured `patch` object sets to `null` is not in the body that is
/// sent; one that it sets to another value is there, with that value.
pub proof fn law_configured_patch(
    fields: FieldMap,
    rename: Seq<(Seq<char>, Seq<char>)>,
    entries: EntriesView,
    i: int,
)
    requires
        distinct_entries(entries),
        0 <= i < entries.len(),
    ensures
        ({
            let out = rewritten(fields, rename, patch_entries(JsonShape::Object(entries)));
            if entries[i].2 == "null"@ {
                !out.contains_key(entries[i].0)
            } else {
                out.contains_key(entries[i].0) && out[entries[i].0] == entries[i].2
            }
        }),
{
    let patch = patch_entries(JsonShape::Object(entries));
    assert forall|a: int, b: int| 0 <= a < b < patch.len() implies (#[trigger] patch[a]).0 != (
    #[trigger] patch[b]).0 by {
        assert(entries[a].0 != entries[b].0);
    }
    law_patched_field(fields, rename, patch, i);
}

/// Each renaming, at its turn, moves the value of its old name to its new one, and
/// touches nothing else. It does nothing where the old name is not there.
pub proof fn law_rename_step(
    fields: FieldMap,
    rename: Seq<(Seq<char>, Seq<char>)>,
    i: int,
    other: Seq<char>,
)
    requires
        0 <= i < rename.len(),
        other != rename[i].0,
        other != rename[i].1,
    ensures
        ({
            let before = renamed(fields, rename.take(i));
            let after = renamed(fields, rename.take(i + 1));
            let (from, to) = rename[i];
            &&& before.contains_key(from) ==> after.contains_key(to) && after[to] == before[from]
            &&& from != to ==> !after.contains_key(from)
            &&& !before.contains_key(from) ==> after == before
            &&& after.contains_key(other) == before.contains_key(other)
            &&& before.contains_key(other) ==> after[other] == before[other]
        }),
{
    assert(rename.take(i + 1).drop_last() == rename.take(i));
}

/// Whether renaming `j`, at its turn, moves a value to another name.
pub open spec fn moves(fields: FieldMap, rename: Seq<(Seq<char>, Seq<char>)>, j: int) -> bool {
    &&& rename[j].0 != rename[j].1
    &&& renamed(fields, rename.take(j)).contains_key(rename[j].0)
}

proof fn lemma_renamed_next(fields: FieldMap, rename: Seq<(Seq<char>, Seq<char>)>, j: int)
    requires
        0 <= j < rename.len(),
    ensures
        renamed(fields, rename.take(j + 1)) == if moves(fields, rename, j) {
            renamed_once(renamed(fields, rename.take(j)), rename[j].0, rename[j].1)
        } else {
            renamed(fields, rename.take(j))
        },
{
    let before = renamed(fields, rename.take(j));
    let (from, to) = rename[j];
    assert(rename.take(j + 1).drop_last() == rename.take(j));
    if from == to && before.contains_key(from) {
        assert(before.remove(from).insert(to, before[from]) =~= before);
    }
}

proof fn lemma_renamed_unmoved(
    fields: FieldMap,
    rename: Seq<(Seq<char>, Seq<char>)>,
    key: Seq<char>,
    a: int,
    b: int,
)
    requires
        0 <= a <= b <= rename.len(),
        forall|j: int|
            a <= j < b && #[trigger] moves(fields, rename, j) ==> rename[j].0 != key
                && rename[j].1 != key,
    ensures
        renamed(fields, rename.take(a)).contains_key(key) ==> {
            &&& renamed(fields, rename.take(b)).contains_key(key)
            &&& renamed(fields, rename.take(b))[key] == renamed(fields, rename.take(a))[key]
        },
    decreases b - a,
{
    if a < b {
        lemma_renamed_unmoved(fields, rename, key, a, b - 1);
        lemma_renamed_next(fields, rename, b - 1);
    }
}

proof fn lemma_renamed_absent(
    fields: FieldMap,
    rename: Seq<(Seq<char>, Seq<char>)>,
    key: Seq<char>,
    a: int,
    b: int,
)
    requires
        0 <= a <= b <= rename.len(),
        !renamed(fields, rename.take(a)).contains_key(key),
        forall|j: int| a <= j < b && #[trigger] moves(fields, rename, j) ==> rename[j].1 != key,
    ensures
        !renamed(fields, rename.take(b)).contains_key(key),
    decreases b - a,
{
    if a < b {
        lemma_renamed_absent(fields, rename, key, a, b - 1);
        lemma_renamed_next(fields, rename, b - 1);
    }
}

/// A renaming moves a field of the body: its value is under the new name in the end
/// and, where the names differ, nothing is under the old one. What another renaming does
/// to the old name before, or to the new name after, is left out, and for the second
/// part one that gives the old name again.
pub proof fn law_renamed_field(fields: FieldMap, rename: Seq<(Seq<char>, Seq<char>)>, i: int)
    requires
        0 <= i < rename.len(),
        fields.contains_key(rename[i].0),
        forall|j: int|
            0 <= j < i && #[trigger] moves(fields, rename, j) ==> rename[j].0 != rename[i].0
                && rename[j].1 != rename[i].0,
        forall|j: int|
            i < j < rename.len() && #[trigger] moves(fields, rename, j) ==> rename[j].0
                != rename[i].1 && rename[j].1 != rename[i].1,
    ensures
        renamed(fields, rename).contains_key(rename[i].1),
        renamed(fields, rename)[rename[i].1] == fields[rename[i].0],
        rename[i].0 != rename[i].1 && (forall|j: int|
            i < j < rename.len() && #[trigger] moves(fields, rename, j) ==> rename[j].1
                != rename[i].0) ==> !renamed(fields, rename).contains_key(rename[i].0),
{
    let (from, to) = rename[i];
    let n = rename.len() as int;
    assert(rename.take(n) == rename);
    lemma_renamed_unmoved(fields, rename, from, 0, i);
    assert(rename.take(i + 1).drop_last() == rename.take(i));
    lemma_renamed_unmoved(fields, rename, to, i + 1, n);
    if from != to && (forall|j: int|
        i < j < rename.len() && #[trigger] moves(fields, rename, j) ==> rename[j].1 != from) {
        lemma_renamed_absent(fields, rename, from, i + 1, n);
    }
}

/// To patch a second time changes nothing.
pub proof fn law_patch_settles(fields: FieldMap, patch: Seq<(Seq<char>, Option<Seq<char>>)>)
    ensures
        patched(patched(fields, patch), patch) == patched(fields, patch),
{
    let once = patched(fields, patch);
    let twice = patched(once, patch);
    assert forall|key: Seq<char>| #[trigger] twice.contains_key(key) == once.contains_key(key) && (
    once.contains_key(key) ==> twice[key] == once[key]) by {
        if has_key(patch, key) {
            lemma_patched_decides(fields, once, patch, key);
        } else {
            lemma_patched_untouched(once, patch, key);
        }
    }
    assert(twice =~= once);
}

proof fn lemma_patched_decides(
    a: FieldMap,
    b: FieldMap,
    patch: Seq<(Seq<char>, Option<Seq<char>>)>,
    key: Seq<char>,
)
    requires
        has_key(patch, key),
    ensures
        patched(a, patch).contains_key(key) == patched(b, patch).contains_key(key),
        patched(a, patch).contains_key(key) ==> patched(a, patch)[key] == patched(b, patch)[key],
    decreases patch.len(),
{
    if patch.last().0 != key {
        let i = choose|i: int| 0 <= i < patch.len() && (#[trigger] patch[i]).0 == key;
        assert(patch.drop_last()[i] == patch[i]);
        lemma_patched_decides(a, b, patch.drop_last(), key);
    }
}

} // verus!
