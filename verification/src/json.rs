//! JSON documents as the library reads and filters them: removing host
//! paths and sensitive settings from responses to other machines, checking
//! a backup before it is restored, and reading a backup's records.

use serde_json::Value;
use vstd::prelude::*;
use crate::auth::{is_lan_sensitive, lan_sensitive};
use crate::media::{extension_matches_type, type_matches_extension};
use crate::text::{chars_eq, chars_of, contains_char, push_str};

verus! {

// ---------------------------------------------------------------------------
// Values
// ---------------------------------------------------------------------------

/// A JSON number as read: a non-negative integer, a negative integer, or
/// any other number kept as its text.
pub enum JsonNumber {
    PosInt(u64),
    NegInt(i64),
    Float(String),
}

/// A JSON value. An object keeps its members in order; its keys are
/// distinct.
pub enum JsonValue {
    Null,
    Bool(bool),
    Number(JsonNumber),
    Str(String),
    Array(Vec<JsonValue>),
    Object(Vec<(String, JsonValue)>),
}

/// The mathematical form of a JSON number.
pub enum NumberModel {
    PosInt(u64),
    NegInt(i64),
    Float(Seq<char>),
}

/// The mathematical form of a JSON value.
pub enum JsonModel {
    Null,
    Bool(bool),
    Number(NumberModel),
    Str(Seq<char>),
    Array(Seq<JsonModel>),
    Object(Seq<(Seq<char>, JsonModel)>),
}

/// The mathematical form of a number.
pub open spec fn number_model(n: JsonNumber) -> NumberModel {
    match n {
        JsonNumber::PosInt(u) => NumberModel::PosInt(u),
        JsonNumber::NegInt(i) => NumberModel::NegInt(i),
        JsonNumber::Float(t) => NumberModel::Float(t@),
    }
}

/// The mathematical form of a value.
pub open spec fn model(v: JsonValue) -> JsonModel
    decreases v,
{
    match v {
        JsonValue::Null => JsonModel::Null,
        JsonValue::Bool(b) => JsonModel::Bool(b),
        JsonValue::Number(n) => JsonModel::Number(number_model(n)),
        JsonValue::Str(s) => JsonModel::Str(s@),
        JsonValue::Array(items) => JsonModel::Array(
            Seq::new(
                items@.len(),
                |i: int|
                    if 0 <= i < items@.len() {
                        model(items@[i])
                    } else {
                        JsonModel::Null
                    },
            ),
        ),
        JsonValue::Object(entries) => JsonModel::Object(
            Seq::new(
                entries@.len(),
                |i: int|
                    if 0 <= i < entries@.len() {
                        (entries@[i].0@, model(entries@[i].1))
                    } else {
                        (Seq::<char>::empty(), JsonModel::Null)
                    },
            ),
        ),
    }
}

// ---------------------------------------------------------------------------
// Reading JSON text
// ---------------------------------------------------------------------------

/// `serde_json::Value`, carried through only by the readers below.
#[verifier::external_type_specification]
#[verifier::external_body]
pub struct ExSerdeJsonValue(serde_json::Value);

/// What `serde_json::from_str::<serde_json::Value>` reads from a text, in
/// the library's form; none when the text is not JSON.
pub uninterp spec fn json_of_text(text: Seq<char>) -> Option<JsonModel>;

/// What `serde_json::from_slice::<serde_json::Value>` reads from bytes, in
/// the library's form; none when they are not JSON (or not UTF-8).
pub uninterp spec fn json_of_bytes(bytes: Seq<u8>) -> Option<JsonModel>;

/// A `serde_json::Value` in the library's form, one for one: integers
/// that fit `u64` or `i64` as such, other numbers as their text, objects
/// with their members in the map's order.
#[verifier::external_body]
fn value_of_serde(v: &Value) -> JsonValue {
    match v {
        Value::Null => JsonValue::Null,
        Value::Bool(b) => JsonValue::Bool(*b),
        Value::Number(n) => JsonValue::Number(match (n.as_u64(), n.as_i64()) {
            (Some(u), _) => JsonNumber::PosInt(u),
            (None, Some(i)) => JsonNumber::NegInt(i),
            _ => JsonNumber::Float(n.to_string()),
        }),
        Value::String(t) => JsonValue::Str(t.clone()),
        Value::Array(xs) => JsonValue::Array(xs.iter().map(value_of_serde).collect()),
        Value::Object(m) => JsonValue::Object(m.iter().map(|(k, x)| (k.clone(), value_of_serde(x))).collect()),
    }
}

/// `serde_json::from_str` into a `serde_json::Value`, given in the
/// library's form: the value the text holds, named by `json_of_text`; none
/// when the text is not JSON.
#[verifier::external_body]
pub(crate) fn parse_json(text: &str) -> (r: Option<JsonValue>)
    ensures
        match r {
            Some(v) => json_of_text(text@) == Some(model(v)),
            None => json_of_text(text@) is None,
        },
{
    serde_json::from_str::<serde_json::Value>(text).ok().map(|v| value_of_serde(&v))
}

/// `serde_json::from_slice` into a `serde_json::Value`, given in the
/// library's form: the value the bytes hold, named by `json_of_bytes`;
/// none when they are not JSON.
#[verifier::external_body]
pub(crate) fn parse_json_bytes(bytes: &[u8]) -> (r: Option<JsonValue>)
    ensures
        match r {
            Some(v) => json_of_bytes(bytes@) == Some(model(v)),
            None => json_of_bytes(bytes@) is None,
        },
{
    serde_json::from_slice::<serde_json::Value>(bytes).ok().map(|v| value_of_serde(&v))
}

// ---------------------------------------------------------------------------
// Removing private fields
// ---------------------------------------------------------------------------

/// The keys that never leave the host in a response to another machine:
/// host paths (`path`, `filepath`, `cover_image`, `thumbnail_path`,
/// `parent_dir`, `_parentDir`, `root_dir`, `cbz_export_dir`) and the
/// LAN-sensitive settings.
pub open spec fn private_key(k: Seq<char>) -> bool {
    k == "path"@ || k == "filepath"@ || k == "cover_image"@ || k == "thumbnail_path"@ || k
        == "parent_dir"@ || k == "_parentDir"@ || k == "root_dir"@ || k == "cbz_export_dir"@
        || lan_sensitive(k)
}

/// Whether a key is private (see [`private_key`]).
pub fn is_private_key(k: &str) -> (r: bool)
    ensures
        r == private_key(k@),
{
    let v = chars_of(k);
    let names: [&str; 8] = [
        "path", "filepath", "cover_image", "thumbnail_path", "parent_dir", "_parentDir", "root_dir",
        "cbz_export_dir",
    ];
    let mut i: usize = 0;
    assert(names@[0]@ == "path"@ && names@[1]@ == "filepath"@ && names@[2]@ == "cover_image"@
        && names@[3]@ == "thumbnail_path"@ && names@[4]@ == "parent_dir"@ && names@[5]@ == "_parentDir"@
        && names@[6]@ == "root_dir"@ && names@[7]@ == "cbz_export_dir"@);
    while i < 8
        invariant
            i <= 8,
            v@ == k@,
            names@[0]@ == "path"@ && names@[1]@ == "filepath"@ && names@[2]@ == "cover_image"@
                && names@[3]@ == "thumbnail_path"@ && names@[4]@ == "parent_dir"@ && names@[5]@
                == "_parentDir"@ && names@[6]@ == "root_dir"@ && names@[7]@ == "cbz_export_dir"@,
            forall|j: int| 0 <= j < i ==> names@[j]@ != k@,
        decreases 8 - i,
    {
        let n = chars_of(names[i]);
        if chars_eq(n.as_slice(), v.as_slice()) {
            return true;
        }
        i = i + 1;
    }
    assert(names@[0]@ == "path"@ && names@[1]@ == "filepath"@ && names@[2]@ == "cover_image"@
        && names@[3]@ == "thumbnail_path"@ && names@[4]@ == "parent_dir"@ && names@[5]@ == "_parentDir"@
        && names@[6]@ == "root_dir"@ && names@[7]@ == "cbz_export_dir"@);
    is_lan_sensitive(k)
}

/// A value with its private members removed, at every depth: arrays keep
/// their items (each stripped), objects keep their other members in order
/// (each value stripped), any other value stays.
pub open spec fn stripped(m: JsonModel) -> JsonModel
    decreases m,
{
    match m {
        JsonModel::Array(xs) => JsonModel::Array(stripped_items(xs)),
        JsonModel::Object(es) => JsonModel::Object(stripped_members(es)),
        _ => m,
    }
}

/// Items each stripped.
pub open spec fn stripped_items(xs: Seq<JsonModel>) -> Seq<JsonModel>
    decreases xs,
{
    if xs.len() == 0 {
        Seq::<JsonModel>::empty()
    } else {
        stripped_items(xs.drop_last()).push(stripped(xs.last()))
    }
}

/// The members whose key is not private, in order, each value stripped.
pub open spec fn stripped_members(es: Seq<(Seq<char>, JsonModel)>) -> Seq<(Seq<char>, JsonModel)>
    decreases es,
{
    if es.len() == 0 {
        Seq::<(Seq<char>, JsonModel)>::empty()
    } else if private_key(es.last().0) {
        stripped_members(es.drop_last())
    } else {
        stripped_members(es.drop_last()).push((es.last().0, stripped(es.last().1)))
    }
}

fn copy_number(n: &JsonNumber) -> (r: JsonNumber)
    ensures
        number_model(r) == number_model(*n),
{
    match n {
        JsonNumber::PosInt(u) => JsonNumber::PosInt(*u),
        JsonNumber::NegInt(i) => JsonNumber::NegInt(*i),
        JsonNumber::Float(t) => JsonNumber::Float(t.clone()),
    }
}

/// A copy of `v` with its private members removed (see [`stripped`]).
#[verifier::loop_isolation(false)]
pub fn stripped_value(v: &JsonValue) -> (r: JsonValue)
    ensures
        model(r) == stripped(model(*v)),
    decreases v,
{
    match v {
        JsonValue::Null => JsonValue::Null,
        JsonValue::Bool(b) => JsonValue::Bool(*b),
        JsonValue::Number(n) => JsonValue::Number(copy_number(n)),
        JsonValue::Str(s) => JsonValue::Str(s.clone()),
        JsonValue::Array(items) => {
            let ghost mi = Seq::new(items@.len(), |i: int| if 0 <= i < items@.len() { model(items@[i]) } else { JsonModel::Null });
            let ghost mv = match model(*v) {
                JsonModel::Array(x) => x,
                _ => Seq::<JsonModel>::empty(),
            };
            assert(mv =~= mi);
            assert(model(*v) == JsonModel::Array(mv));
            let mut out: Vec<JsonValue> = Vec::new();
            let mut i: usize = 0;
            assert(mi.take(0) =~= Seq::<JsonModel>::empty());
            while i < items.len()
                invariant
                    i <= items@.len(),
                    mi.len() == items@.len(),
                    forall|k: int| 0 <= k < items@.len() ==> #[trigger] mi[k] == model(items@[k]),
                    Seq::new(out@.len(), |k: int| model(out@[k])) == stripped_items(mi.take(i as int)),
                decreases items.len() - i,
            {
                let x = stripped_value(&items[i]);
                let ghost ob = out@;
                out.push(x);
                assert(mi.take(i as int + 1).drop_last() =~= mi.take(i as int));
                assert(Seq::new(out@.len(), |k: int| model(out@[k])) =~= Seq::new(ob.len(), |k: int| model(ob[k])).push(
                    stripped(mi[i as int]),
                ));
                i = i + 1;
            }
            assert(mi.take(items@.len() as int) =~= mi);
            let r = JsonValue::Array(out);
            let ghost ma = match model(r) {
                JsonModel::Array(x) => x,
                _ => Seq::<JsonModel>::empty(),
            };
            assert(ma =~= Seq::new(out@.len(), |k: int| model(out@[k])));
            r
        },
        JsonValue::Object(entries) => {
            let ghost mes = Seq::new(
                entries@.len(),
                |i: int|
                    if 0 <= i < entries@.len() {
                        (entries@[i].0@, model(entries@[i].1))
                    } else {
                        (Seq::<char>::empty(), JsonModel::Null)
                    },
            );
            let ghost mv = match model(*v) {
                JsonModel::Object(x) => x,
                _ => Seq::<(Seq<char>, JsonModel)>::empty(),
            };
            assert(mv =~= mes);
            assert(model(*v) == JsonModel::Object(mv));
            let mut out: Vec<(String, JsonValue)> = Vec::new();
            let mut i: usize = 0;
            assert(mes.take(0) =~= Seq::<(Seq<char>, JsonModel)>::empty());
            while i < entries.len()
                invariant
                    i <= entries@.len(),
                    mes.len() == entries@.len(),
                    forall|k: int| 0 <= k < entries@.len() ==> #[trigger] mes[k] == (entries@[k].0@, model(entries@[k].1)),
                    Seq::new(out@.len(), |k: int| (out@[k].0@, model(out@[k].1))) == stripped_members(mes.take(i as int)),
                decreases entries.len() - i,
            {
                assert(mes.take(i as int + 1).drop_last() =~= mes.take(i as int));
                assert(mes.take(i as int + 1).last() == mes[i as int]);
                let ghost ob = out@;
                if !is_private_key(entries[i].0.as_str()) {
                    let x = stripped_value(&entries[i].1);
                    out.push((entries[i].0.clone(), x));
                    assert(Seq::new(out@.len(), |k: int| (out@[k].0@, model(out@[k].1))) =~= Seq::new(
                        ob.len(),
                        |k: int| (ob[k].0@, model(ob[k].1)),
                    ).push((mes[i as int].0, stripped(mes[i as int].1))));
                }
                i = i + 1;
            }
            assert(mes.take(entries@.len() as int) =~= mes);
            let r = JsonValue::Object(out);
            let ghost ma = match model(r) {
                JsonModel::Object(x) => x,
                _ => Seq::<(Seq<char>, JsonModel)>::empty(),
            };
            assert(ma =~= Seq::new(out@.len(), |k: int| (out@[k].0@, model(out@[k].1))));
            r
        },
    }
}

/// Removes the private members of a JSON response, at every depth (see
/// [`stripped`]).
pub fn strip_private_fields(value: &mut JsonValue)
    ensures
        model(*final(value)) == stripped(model(*old(value))),
{
    let s = stripped_value(value);
    *value = s;
}

/// No object anywhere in the value has a private member.
pub open spec fn no_private(m: JsonModel) -> bool
    decreases m,
{
    match m {
        JsonModel::Array(xs) => items_no_private(xs),
        JsonModel::Object(es) => members_no_private(es),
        _ => true,
    }
}

/// No item has a private member anywhere.
pub open spec fn items_no_private(xs: Seq<JsonModel>) -> bool
    decreases xs,
{
    xs.len() == 0 || (items_no_private(xs.drop_last()) && no_private(xs.last()))
}

/// No member is private, and no member's value has a private member anywhere.
pub open spec fn members_no_private(es: Seq<(Seq<char>, JsonModel)>) -> bool
    decreases es,
{
    es.len() == 0 || (members_no_private(es.drop_last()) && !private_key(es.last().0) && no_private(
        es.last().1,
    ))
}

proof fn lemma_stripped_items_clean(xs: Seq<JsonModel>)
    ensures
        items_no_private(stripped_items(xs)),
    decreases xs,
{
    if xs.len() > 0 {
        lemma_stripped_items_clean(xs.drop_last());
        law_stripped_has_no_private_members(xs.last());
        assert(stripped_items(xs).drop_last() =~= stripped_items(xs.drop_last()));
    }
}

proof fn lemma_stripped_members_clean(es: Seq<(Seq<char>, JsonModel)>)
    ensures
        members_no_private(stripped_members(es)),
    decreases es,
{
    if es.len() > 0 {
        lemma_stripped_members_clean(es.drop_last());
        if !private_key(es.last().0) {
            law_stripped_has_no_private_members(es.last().1);
            assert(stripped_members(es).drop_last() =~= stripped_members(es.drop_last()));
        }
    }
}

/// After stripping, no object at any depth has a private member: no host
/// path and no sensitive setting reaches another machine.
pub proof fn law_stripped_has_no_private_members(m: JsonModel)
    ensures
        no_private(stripped(m)),
    decreases m,
{
    match m {
        JsonModel::Array(xs) => lemma_stripped_items_clean(xs),
        JsonModel::Object(es) => lemma_stripped_members_clean(es),
        _ => {},
    }
}

// ---------------------------------------------------------------------------
// Reading members
// ---------------------------------------------------------------------------

/// The value of an object's member `key` (its first member of that name);
/// none for a missing member or a value that is not an object.
pub open spec fn member(m: JsonModel, key: Seq<char>) -> Option<JsonModel> {
    match m {
        JsonModel::Object(es) => member_in(es, key, 0),
        _ => None,
    }
}

/// The value of the first member named `key` from position `i` on.
pub open spec fn member_in(es: Seq<(Seq<char>, JsonModel)>, key: Seq<char>, i: int) -> Option<JsonModel>
    decreases es.len() - i,
{
    if i < 0 || i >= es.len() {
        None
    } else if es[i].0 == key {
        Some(es[i].1)
    } else {
        member_in(es, key, i + 1)
    }
}

/// The text of a string value (`as_str`).
pub open spec fn as_text(m: Option<JsonModel>) -> Option<Seq<char>> {
    match m {
        Some(JsonModel::Str(s)) => Some(s),
        _ => None,
    }
}

/// The integer of a number that fits an `i64` (`as_i64`).
pub open spec fn as_int(m: Option<JsonModel>) -> Option<i64> {
    match m {
        Some(JsonModel::Number(NumberModel::PosInt(u))) => if u <= i64::MAX {
            Some(u as i64)
        } else {
            None
        },
        Some(JsonModel::Number(NumberModel::NegInt(i))) => Some(i),
        _ => None,
    }
}

/// The value of a boolean (`as_bool`).
pub open spec fn as_flag(m: Option<JsonModel>) -> Option<bool> {
    match m {
        Some(JsonModel::Bool(b)) => Some(b),
        _ => None,
    }
}

/// The items of an array (`as_array`).
pub open spec fn as_items(m: Option<JsonModel>) -> Option<Seq<JsonModel>> {
    match m {
        Some(JsonModel::Array(xs)) => Some(xs),
        _ => None,
    }
}

/// The model of an optional reference to a value.
pub open spec fn opt_model(o: Option<&JsonValue>) -> Option<JsonModel> {
    match o {
        Some(v) => Some(model(*v)),
        None => None,
    }
}

proof fn lemma_object_model(entries: Vec<(String, JsonValue)>, k: int)
    requires
        0 <= k < entries@.len(),
    ensures
        ({
            let es = match model(JsonValue::Object(entries)) {
                JsonModel::Object(x) => x,
                _ => Seq::<(Seq<char>, JsonModel)>::empty(),
            };
            es.len() == entries@.len() && es[k] == (entries@[k].0@, model(entries@[k].1))
        }),
{
}

/// The value of member `key` of an object (see [`member`]).
pub fn get_member<'a>(v: &'a JsonValue, key: &str) -> (r: Option<&'a JsonValue>)
    ensures
        opt_model(r) == member(model(*v), key@),
{
    match v {
        JsonValue::Object(entries) => {
            let ghost es = match model(*v) {
                JsonModel::Object(x) => x,
                _ => Seq::<(Seq<char>, JsonModel)>::empty(),
            };
            assert(es.len() == entries@.len());
            assert forall|j: int| 0 <= j < entries@.len() implies #[trigger] es[j] == (entries@[j].0@, model(entries@[j].1)) by {
                lemma_object_model(*entries, j);
            }
            let k = chars_of(key);
            let mut i: usize = 0;
            while i < entries.len()
                invariant
                    i <= entries@.len(),
                    es.len() == entries@.len(),
                    forall|j: int| 0 <= j < entries@.len() ==> #[trigger] es[j] == (entries@[j].0@, model(entries@[j].1)),
                    k@ == key@,
                    member(model(*v), key@) == member_in(es, key@, 0),
                    member_in(es, key@, 0) == member_in(es, key@, i as int),
                decreases entries.len() - i,
            {
                let n = chars_of(entries[i].0.as_str());
                if chars_eq(n.as_slice(), k.as_slice()) {
                    assert(es[i as int] == (entries@[i as int].0@, model(entries@[i as int].1)));
                    assert(member_in(es, key@, i as int) == Some(es[i as int].1));
                    return Some(&entries[i].1);
                }
                i = i + 1;
            }
            None
        },
        _ => None,
    }
}

/// The text of member `key`, when it is a string.
pub fn str_member(v: &JsonValue, key: &str) -> (r: Option<String>)
    ensures
        match r {
            Some(s) => as_text(member(model(*v), key@)) == Some(s@),
            None => as_text(member(model(*v), key@)) is None,
        },
{
    match get_member(v, key) {
        Some(JsonValue::Str(s)) => Some(s.clone()),
        _ => None,
    }
}

/// The integer of member `key`, when it is a number that fits an `i64`.
pub fn int_member(v: &JsonValue, key: &str) -> (r: Option<i64>)
    ensures
        r == as_int(member(model(*v), key@)),
{
    match get_member(v, key) {
        Some(JsonValue::Number(JsonNumber::PosInt(u))) => if *u <= 9223372036854775807 {
            Some(*u as i64)
        } else {
            None
        },
        Some(JsonValue::Number(JsonNumber::NegInt(i))) => Some(*i),
        _ => None,
    }
}

/// The value of member `key`, when it is a boolean.
pub fn bool_member(v: &JsonValue, key: &str) -> (r: Option<bool>)
    ensures
        r == as_flag(member(model(*v), key@)),
{
    match get_member(v, key) {
        Some(JsonValue::Bool(b)) => Some(*b),
        _ => None,
    }
}

/// The items of member `key`, when it is an array.
pub fn array_member<'a>(v: &'a JsonValue, key: &str) -> (r: Option<&'a Vec<JsonValue>>)
    ensures
        match r {
            Some(items) => as_items(member(model(*v), key@)) == Some(
                Seq::new(items@.len(), |i: int| model(items@[i])),
            ),
            None => as_items(member(model(*v), key@)) is None,
        },
{
    match get_member(v, key) {
        Some(JsonValue::Array(items)) => {
            proof {
                let ghost mv = match model(JsonValue::Array(*items)) {
                    JsonModel::Array(x) => x,
                    _ => Seq::<JsonModel>::empty(),
                };
                assert(mv =~= Seq::new(items@.len(), |i: int| model(items@[i])));
            }
            Some(items)
        },
        _ => None,
    }
}

// ---------------------------------------------------------------------------
// Checking a backup before it is restored
// ---------------------------------------------------------------------------

/// What `format!("{:?}", s)` gives for a string: its Rust debug form.
pub uninterp spec fn debug_text(s: Seq<char>) -> Seq<char>;

/// `<str as Debug>::fmt` through `format!`: the quoted, escaped debug form
/// of a text, named by `debug_text`.
#[verifier::external_body]
fn debug_quoted(s: &str) -> (r: String)
    ensures
        r@ == debug_text(s@),
{
    format!("{:?}", s)
}

/// The four fields that make an archive entry of a backup usable: title,
/// path and type as strings, page count as an integer.
pub open spec fn usable_archive(e: JsonModel) -> bool {
    as_text(member(e, "title"@)) is Some && as_text(member(e, "path"@)) is Some && as_text(
        member(e, "archive_type"@),
    ) is Some && as_int(member(e, "page_count"@)) is Some
}

/// The verdict on one archive entry of a backup: entries that are not
/// usable are passed over; a usable one needs a non-empty path without NUL
/// and a known type whose family the path's extension belongs to (any
/// path for a folder).
pub open spec fn entry_verdict(e: JsonModel) -> Result<(), Seq<char>> {
    if !usable_archive(e) {
        Ok(())
    } else {
        let path = as_text(member(e, "path"@))->0;
        let t = as_text(member(e, "archive_type"@))->0;
        if path.len() == 0 || path.contains('\0') {
            Err("备份含非法档案路径："@ + debug_text(path))
        } else if t == "folder"@ {
            Ok(())
        } else if t == "zip"@ || t == "cbz"@ || t == "rar"@ || t == "cbr"@ || t == "7z"@ {
            if type_matches_extension(t, path) {
                Ok(())
            } else {
                Err("档案类型与扩展名不匹配："@ + path + " ("@ + t + ")"@)
            }
        } else {
            Err("备份含未知档案类型："@ + t)
        }
    }
}

/// The verdict on a list of archive entries: the first entry's error, in
/// order, if any.
pub open spec fn entries_verdict(xs: Seq<JsonModel>) -> Result<(), Seq<char>>
    decreases xs.len(),
{
    if xs.len() == 0 {
        Ok(())
    } else {
        match entries_verdict(xs.drop_last()) {
            Err(e) => Err(e),
            Ok(()) => entry_verdict(xs.last()),
        }
    }
}

/// The verdict on a backup: its `archives` array's verdict; a backup
/// without one is accepted.
pub open spec fn backup_verdict(b: JsonModel) -> Result<(), Seq<char>> {
    match as_items(member(b, "archives"@)) {
        Some(xs) => entries_verdict(xs),
        None => Ok(()),
    }
}

/// The view of a check's result.
pub open spec fn verdict_view(r: Result<(), String>) -> Result<(), Seq<char>> {
    match r {
        Ok(()) => Ok(()),
        Err(e) => Err(e@),
    }
}

fn entry_check(e: &JsonValue) -> (r: Result<(), String>)
    ensures
        verdict_view(r) == entry_verdict(model(*e)),
{
    let title = str_member(e, "title");
    let path = str_member(e, "path");
    let archive_type = str_member(e, "archive_type");
    let page_count = int_member(e, "page_count");
    match (title, path, archive_type, page_count) {
        (Some(_), Some(path), Some(t), Some(_)) => {
            let pv = chars_of(path.as_str());
            if pv.len() == 0 || contains_char(pv.as_slice(), '\0') {
                let mut m = String::from_str("备份含非法档案路径：");
                let d = debug_quoted(path.as_str());
                push_str(&mut m, d.as_str());
                return Err(m);
            }
            let tv = chars_of(t.as_str());
            proof {
                reveal_strlit("folder");
                reveal_strlit("zip");
                reveal_strlit("cbz");
                reveal_strlit("rar");
                reveal_strlit("cbr");
                reveal_strlit("7z");
            }
            let is_folder = chars_eq(tv.as_slice(), chars_of("folder").as_slice());
            if is_folder {
                return Ok(());
            }
            let known = chars_eq(tv.as_slice(), chars_of("zip").as_slice()) || chars_eq(
                tv.as_slice(),
                chars_of("cbz").as_slice(),
            ) || chars_eq(tv.as_slice(), chars_of("rar").as_slice()) || chars_eq(
                tv.as_slice(),
                chars_of("cbr").as_slice(),
            ) || chars_eq(tv.as_slice(), chars_of("7z").as_slice());
            if known {
                if extension_matches_type(t.as_str(), path.as_str()) {
                    Ok(())
                } else {
                    let mut m = String::from_str("档案类型与扩展名不匹配：");
                    push_str(&mut m, path.as_str());
                    push_str(&mut m, " (");
                    push_str(&mut m, t.as_str());
                    push_str(&mut m, ")");
                    Err(m)
                }
            } else {
                let mut m = String::from_str("备份含未知档案类型：");
                push_str(&mut m, t.as_str());
                Err(m)
            }
        },
        _ => Ok(()),
    }
}

/// Checks a backup before it is restored (see [`backup_verdict`]): a
/// restored path is later served back as a file, so every usable archive
/// entry must name a plausible archive of its type.
pub fn validate_import_payload(backup: &JsonValue) -> (r: Result<(), String>)
    ensures
        verdict_view(r) == backup_verdict(model(*backup)),
{
    match array_member(backup, "archives") {
        Some(items) => {
            let ghost xs = Seq::new(items@.len(), |i: int| model(items@[i]));
            let mut i: usize = 0;
            assert(xs.take(0) =~= Seq::<JsonModel>::empty());
            while i < items.len()
                invariant
                    i <= items@.len(),
                    xs == Seq::new(items@.len(), |i: int| model(items@[i])),
                    backup_verdict(model(*backup)) == entries_verdict(xs),
                    entries_verdict(xs.take(i as int)) == Ok::<(), Seq<char>>(()),
                decreases items.len() - i,
            {
                assert(xs.take(i as int + 1).drop_last() =~= xs.take(i as int));
                assert(xs.take(i as int + 1).last() == model(items@[i as int]));
                match entry_check(&items[i]) {
                    Err(m) => {
                        proof {
                            lemma_first_error_stays(xs, i as int + 1);
                        }
                        return Err(m);
                    },
                    Ok(()) => {},
                }
                i = i + 1;
            }
            assert(xs.take(items@.len() as int) =~= xs);
            Ok(())
        },
        None => Ok(()),
    }
}

proof fn lemma_first_error_stays(xs: Seq<JsonModel>, k: int)
    requires
        0 <= k <= xs.len(),
        entries_verdict(xs.take(k)) is Err,
    ensures
        entries_verdict(xs) == entries_verdict(xs.take(k)),
    decreases xs.len() - k,
{
    if k < xs.len() {
        assert(xs.take(k + 1).drop_last() =~= xs.take(k));
        lemma_first_error_stays(xs, k + 1);
    } else {
        assert(xs.take(k) =~= xs);
    }
}

// ---------------------------------------------------------------------------
// Settings in backups
// ---------------------------------------------------------------------------

/// The settings that go into a backup: all but the LAN-sensitive ones, in order.
pub open spec fn exportable(settings: Seq<(Seq<char>, Seq<char>)>) -> Seq<(Seq<char>, Seq<char>)> {
    settings.filter(|kv: (Seq<char>, Seq<char>)| !lan_sensitive(kv.0))
}

/// The view of a list of settings.
pub open spec fn settings_view(v: Seq<(String, String)>) -> Seq<(Seq<char>, Seq<char>)> {
    v.map_values(|kv: (String, String)| (kv.0@, kv.1@))
}

/// The settings that may be written into a backup: the sensitive ones
/// (`server_token`, `server_bind`) are left out.
pub fn export_settings(settings: &Vec<(String, String)>) -> (r: Vec<(String, String)>)
    ensures
        settings_view(r@) == exportable(settings_view(settings@)),
{
    let mut r: Vec<(String, String)> = Vec::new();
    let mut i: usize = 0;
    while i < settings.len()
        invariant
            i <= settings@.len(),
            settings_view(r@) == exportable(settings_view(settings@).take(i as int)),
        decreases settings.len() - i,
    {
        let ghost before = settings_view(settings@).take(i as int);
        let ghost x = (settings@[i as int].0@, settings@[i as int].1@);
        assert(settings_view(settings@).take(i as int + 1) =~= before.push(x));
        proof {
            before.lemma_filter_push(x, |kv: (Seq<char>, Seq<char>)| !lan_sensitive(kv.0));
        }
        if !is_lan_sensitive(settings[i].0.as_str()) {
            let ghost rb = settings_view(r@);
            r.push((settings[i].0.clone(), settings[i].1.clone()));
            assert(settings_view(r@) =~= rb.push(x));
        }
        i = i + 1;
    }
    assert(settings_view(settings@).take(settings@.len() as int) =~= settings_view(settings@));
    r
}

/// The settings a restore writes: the backup's `settings` object's string
/// values, the sensitive keys left out, in order.
pub open spec fn importable(es: Seq<(Seq<char>, JsonModel)>) -> Seq<(Seq<char>, Seq<char>)>
    decreases es.len(),
{
    if es.len() == 0 {
        Seq::<(Seq<char>, Seq<char>)>::empty()
    } else {
        let rest = importable(es.drop_last());
        let (k, v) = es.last();
        if lan_sensitive(k) {
            rest
        } else {
            match v {
                JsonModel::Str(s) => rest.push((k, s)),
                _ => rest,
            }
        }
    }
}

/// The settings of a backup's `settings` object (none when absent).
pub open spec fn backup_settings(b: JsonModel) -> Seq<(Seq<char>, Seq<char>)> {
    match member(b, "settings"@) {
        Some(JsonModel::Object(es)) => importable(es),
        _ => Seq::<(Seq<char>, Seq<char>)>::empty(),
    }
}

/// The settings a restore writes (see [`backup_settings`]).
pub fn import_settings(backup: &JsonValue) -> (r: Vec<(String, String)>)
    ensures
        settings_view(r@) == backup_settings(model(*backup)),
{
    let mut r: Vec<(String, String)> = Vec::new();
    match get_member(backup, "settings") {
        Some(JsonValue::Object(entries)) => {
            let ghost es = match model(JsonValue::Object(*entries)) {
                JsonModel::Object(x) => x,
                _ => Seq::<(Seq<char>, JsonModel)>::empty(),
            };
            assert forall|j: int| 0 <= j < entries@.len() implies #[trigger] es[j] == (entries@[j].0@, model(entries@[j].1)) by {
                lemma_object_model(*entries, j);
            }
            let mut i: usize = 0;
            assert(es.take(0) =~= Seq::<(Seq<char>, JsonModel)>::empty());
            while i < entries.len()
                invariant
                    i <= entries@.len(),
                    es.len() == entries@.len(),
                    forall|j: int| 0 <= j < entries@.len() ==> #[trigger] es[j] == (entries@[j].0@, model(entries@[j].1)),
                    backup_settings(model(*backup)) == importable(es),
                    settings_view(r@) == importable(es.take(i as int)),
                decreases entries.len() - i,
            {
                assert(es.take(i as int + 1).drop_last() =~= es.take(i as int));
                assert(es.take(i as int + 1).last() == es[i as int]);
                if !is_lan_sensitive(entries[i].0.as_str()) {
                    match &entries[i].1 {
                        JsonValue::Str(v) => {
                            let ghost rb = settings_view(r@);
                            r.push((entries[i].0.clone(), v.clone()));
                            assert(settings_view(r@) =~= rb.push((entries@[i as int].0@, v@)));
                        },
                        _ => {},
                    }
                }
                i = i + 1;
            }
            assert(es.take(entries@.len() as int) =~= es);
        },
        _ => {},
    }
    r
}

/// Neither a backup written nor a backup restored carries the sensitive
/// settings: the access token and the listening address stay as they are.
pub proof fn law_sensitive_settings_never_cross_backups(
    settings: Seq<(Seq<char>, Seq<char>)>,
    es: Seq<(Seq<char>, JsonModel)>,
)
    ensures
        forall|i: int| 0 <= i < exportable(settings).len() ==> !lan_sensitive(#[trigger] exportable(settings)[i].0),
        forall|i: int| 0 <= i < importable(es).len() ==> !lan_sensitive(#[trigger] importable(es)[i].0),
    decreases es.len(),
{
    let p = |kv: (Seq<char>, Seq<char>)| !lan_sensitive(kv.0);
    assert forall|i: int| 0 <= i < settings.filter(p).len() implies p(#[trigger] settings.filter(p)[i]) by {
        broadcast use vstd::seq_lib::group_filter_ensures;
    }
    if es.len() > 0 {
        law_sensitive_settings_never_cross_backups(settings, es.drop_last());
        let rest = importable(es.drop_last());
        assert forall|i: int| 0 <= i < importable(es).len() implies !lan_sensitive(#[trigger] importable(es)[i].0) by {
            if i < rest.len() {
                assert(importable(es)[i] == rest[i]);
            }
        }
    }
}

/// A list of settings as the members of a backup's `settings` object.
pub open spec fn settings_members(s: Seq<(Seq<char>, Seq<char>)>) -> Seq<(Seq<char>, JsonModel)> {
    s.map_values(|kv: (Seq<char>, Seq<char>)| (kv.0, JsonModel::Str(kv.1)))
}

proof fn lemma_import_of_members(s: Seq<(Seq<char>, Seq<char>)>)
    requires
        forall|i: int| 0 <= i < s.len() ==> !lan_sensitive(#[trigger] s[i].0),
    ensures
        importable(settings_members(s)) == s,
    decreases s.len(),
{
    if s.len() > 0 {
        assert(settings_members(s).drop_last() =~= settings_members(s.drop_last()));
        assert(forall|i: int| 0 <= i < s.drop_last().len() ==> s.drop_last()[i] == s[i]);
        lemma_import_of_members(s.drop_last());
        assert(s.drop_last().push(s.last()) =~= s);
    }
}

/// Restoring the `settings` object that a backup wrote gives back exactly
/// the settings that went into it, in order.
pub proof fn law_backup_settings_roundtrip(settings: Seq<(Seq<char>, Seq<char>)>)
    ensures
        importable(settings_members(exportable(settings))) == exportable(settings),
{
    law_sensitive_settings_never_cross_backups(settings, Seq::<(Seq<char>, JsonModel)>::empty());
    lemma_import_of_members(exportable(settings));
}

// ---------------------------------------------------------------------------
// Records of a backup
// ---------------------------------------------------------------------------

/// A usable `archives` record of a backup.
pub struct BackupArchive {
    pub title: String,
    pub path: String,
    pub archive_type: String,
    pub page_count: i64,
    pub file_size: i64,
}

/// The content of a `archives` record.
pub struct BackupArchiveModel {
    pub title: Seq<char>,
    pub path: Seq<char>,
    pub archive_type: Seq<char>,
    pub page_count: i64,
    pub file_size: i64,
}

/// The content of a record.
pub open spec fn backup_archive_view(r: BackupArchive) -> BackupArchiveModel {
    BackupArchiveModel { title: r.title@, path: r.path@, archive_type: r.archive_type@, page_count: r.page_count, file_size: r.file_size }
}

/// The `archives` record an entry holds: its required fields present (the
/// others defaulted), else none.
pub open spec fn backup_archive_of(e: JsonModel) -> Option<BackupArchiveModel> {
    if as_text(member(e, "title"@)) is Some && as_text(member(e, "path"@)) is Some && as_text(member(e, "archive_type"@)) is Some && as_int(member(e, "page_count"@)) is Some {
        Some(BackupArchiveModel { title: as_text(member(e, "title"@))->0, path: as_text(member(e, "path"@))->0, archive_type: as_text(member(e, "archive_type"@))->0, page_count: as_int(member(e, "page_count"@))->0, file_size: match as_int(member(e, "file_size"@)) { Some(x) => x, None => 0i64 } })
    } else {
        None
    }
}

/// The `archives` records of a list of entries, in order.
pub open spec fn backup_archive_records(xs: Seq<JsonModel>) -> Seq<BackupArchiveModel>
    decreases xs.len(),
{
    if xs.len() == 0 {
        Seq::<BackupArchiveModel>::empty()
    } else {
        match backup_archive_of(xs.last()) {
            Some(r) => backup_archive_records(xs.drop_last()).push(r),
            None => backup_archive_records(xs.drop_last()),
        }
    }
}

fn backup_archive_from(e: &JsonValue) -> (r: Option<BackupArchive>)
    ensures
        match r {
            Some(x) => backup_archive_of(model(*e)) == Some(backup_archive_view(x)),
            None => backup_archive_of(model(*e)) is None,
        },
{
    let title = str_member(e, "title");
    let path = str_member(e, "path");
    let archive_type = str_member(e, "archive_type");
    let page_count = int_member(e, "page_count");
    let file_size = int_member(e, "file_size");
    match (title, path, archive_type, page_count, file_size) {
        (Some(title), Some(path), Some(archive_type), Some(page_count), file_size) => Some(BackupArchive { title, path, archive_type, page_count, file_size: match file_size { Some(x) => x, None => 0 } }),
        _ => None,
    }
}

/// The usable `archives` records of a backup, in order.
pub fn backup_archive_list(backup: &JsonValue) -> (r: Vec<BackupArchive>)
    ensures
        r@.map_values(|x: BackupArchive| backup_archive_view(x)) == match as_items(member(model(*backup), "archives"@)) {
            Some(xs) => backup_archive_records(xs),
            None => Seq::<BackupArchiveModel>::empty(),
        },
{
    let mut r: Vec<BackupArchive> = Vec::new();
    match array_member(backup, "archives") {
        Some(items) => {
            let ghost xs = Seq::new(items@.len(), |i: int| model(items@[i]));
            let mut i: usize = 0;
            assert(xs.take(0) =~= Seq::<JsonModel>::empty());
            while i < items.len()
                invariant
                    i <= items@.len(),
                    xs == Seq::new(items@.len(), |i: int| model(items@[i])),
                    r@.map_values(|x: BackupArchive| backup_archive_view(x)) == backup_archive_records(xs.take(i as int)),
                decreases items.len() - i,
            {
                assert(xs.take(i as int + 1).drop_last() =~= xs.take(i as int));
                assert(xs.take(i as int + 1).last() == model(items@[i as int]));
                match backup_archive_from(&items[i]) {
                    Some(x) => {
                        let ghost rb = r@;
                        r.push(x);
                        assert(r@.map_values(|x: BackupArchive| backup_archive_view(x)) =~= rb.map_values(|x: BackupArchive| backup_archive_view(x)).push(backup_archive_view(x)));
                    },
                    None => {},
                }
                i = i + 1;
            }
            assert(xs.take(items@.len() as int) =~= xs);
        },
        None => {
            assert(r@.map_values(|x: BackupArchive| backup_archive_view(x)) =~= Seq::<BackupArchiveModel>::empty());
        },
    }
    r
}

/// A usable `tags` record of a backup.
pub struct BackupTag {
    pub namespace: String,
    pub name: String,
    pub color: String,
}

/// The content of a `tags` record.
pub struct BackupTagModel {
    pub namespace: Seq<char>,
    pub name: Seq<char>,
    pub color: Seq<char>,
}

/// The content of a record.
pub open spec fn backup_tag_view(r: BackupTag) -> BackupTagModel {
    BackupTagModel { namespace: r.namespace@, name: r.name@, color: r.color@ }
}

/// The `tags` record an entry holds: its required fields present (the
/// others defaulted), else none.
pub open spec fn backup_tag_of(e: JsonModel) -> Option<BackupTagModel> {
    if as_text(member(e, "namespace"@)) is Some && as_text(member(e, "name"@)) is Some && as_text(member(e, "color"@)) is Some {
        Some(BackupTagModel { namespace: as_text(member(e, "namespace"@))->0, name: as_text(member(e, "name"@))->0, color: as_text(member(e, "color"@))->0 })
    } else {
        None
    }
}

/// The `tags` records of a list of entries, in order.
pub open spec fn backup_tag_records(xs: Seq<JsonModel>) -> Seq<BackupTagModel>
    decreases xs.len(),
{
    if xs.len() == 0 {
        Seq::<BackupTagModel>::empty()
    } else {
        match backup_tag_of(xs.last()) {
            Some(r) => backup_tag_records(xs.drop_last()).push(r),
            None => backup_tag_records(xs.drop_last()),
        }
    }
}

fn backup_tag_from(e: &JsonValue) -> (r: Option<BackupTag>)
    ensures
        match r {
            Some(x) => backup_tag_of(model(*e)) == Some(backup_tag_view(x)),
            None => backup_tag_of(model(*e)) is None,
        },
{
    let namespace = str_member(e, "namespace");
    let name = str_member(e, "name");
    let color = str_member(e, "color");
    match (namespace, name, color) {
        (Some(namespace), Some(name), Some(color)) => Some(BackupTag { namespace, name, color }),
        _ => None,
    }
}

/// The usable `tags` records of a backup, in order.
pub fn backup_tag_list(backup: &JsonValue) -> (r: Vec<BackupTag>)
    ensures
        r@.map_values(|x: BackupTag| backup_tag_view(x)) == match as_items(member(model(*backup), "tags"@)) {
            Some(xs) => backup_tag_records(xs),
            None => Seq::<BackupTagModel>::empty(),
        },
{
    let mut r: Vec<BackupTag> = Vec::new();
    match array_member(backup, "tags") {
        Some(items) => {
            let ghost xs = Seq::new(items@.len(), |i: int| model(items@[i]));
            let mut i: usize = 0;
            assert(xs.take(0) =~= Seq::<JsonModel>::empty());
            while i < items.len()
                invariant
                    i <= items@.len(),
                    xs == Seq::new(items@.len(), |i: int| model(items@[i])),
                    r@.map_values(|x: BackupTag| backup_tag_view(x)) == backup_tag_records(xs.take(i as int)),
                decreases items.len() - i,
            {
                assert(xs.take(i as int + 1).drop_last() =~= xs.take(i as int));
                assert(xs.take(i as int + 1).last() == model(items@[i as int]));
                match backup_tag_from(&items[i]) {
                    Some(x) => {
                        let ghost rb = r@;
                        r.push(x);
                        assert(r@.map_values(|x: BackupTag| backup_tag_view(x)) =~= rb.map_values(|x: BackupTag| backup_tag_view(x)).push(backup_tag_view(x)));
                    },
                    None => {},
                }
                i = i + 1;
            }
            assert(xs.take(items@.len() as int) =~= xs);
        },
        None => {
            assert(r@.map_values(|x: BackupTag| backup_tag_view(x)) =~= Seq::<BackupTagModel>::empty());
        },
    }
    r
}

/// A usable `categories` record of a backup.
pub struct BackupCategory {
    pub name: String,
    pub color: String,
    pub search: String,
    pub pinned: bool,
}

/// The content of a `categories` record.
pub struct BackupCategoryModel {
    pub name: Seq<char>,
    pub color: Seq<char>,
    pub search: Seq<char>,
    pub pinned: bool,
}

/// The content of a record.
pub open spec fn backup_category_view(r: BackupCategory) -> BackupCategoryModel {
    BackupCategoryModel { name: r.name@, color: r.color@, search: r.search@, pinned: r.pinned }
}

/// The `categories` record an entry holds: its required fields present (the
/// others defaulted), else none.
pub open spec fn backup_category_of(e: JsonModel) -> Option<BackupCategoryModel> {
    if as_text(member(e, "name"@)) is Some && as_text(member(e, "color"@)) is Some && as_text(member(e, "search"@)) is Some {
        Some(BackupCategoryModel { name: as_text(member(e, "name"@))->0, color: as_text(member(e, "color"@))->0, search: as_text(member(e, "search"@))->0, pinned: match as_flag(member(e, "pinned"@)) { Some(x) => x, None => false } })
    } else {
        None
    }
}

/// The `categories` records of a list of entries, in order.
pub open spec fn backup_category_records(xs: Seq<JsonModel>) -> Seq<BackupCategoryModel>
    decreases xs.len(),
{
    if xs.len() == 0 {
        Seq::<BackupCategoryModel>::empty()
    } else {
        match backup_category_of(xs.last()) {
            Some(r) => backup_category_records(xs.drop_last()).push(r),
            None => backup_category_records(xs.drop_last()),
        }
    }
}

fn backup_category_from(e: &JsonValue) -> (r: Option<BackupCategory>)
    ensures
        match r {
            Some(x) => backup_category_of(model(*e)) == Some(backup_category_view(x)),
            None => backup_category_of(model(*e)) is None,
        },
{
    let name = str_member(e, "name");
    let color = str_member(e, "color");
    let search = str_member(e, "search");
    let pinned = bool_member(e, "pinned");
    match (name, color, search, pinned) {
        (Some(name), Some(color), Some(search), pinned) => Some(BackupCategory { name, color, search, pinned: match pinned { Some(x) => x, None => false } }),
        _ => None,
    }
}

/// The usable `categories` records of a backup, in order.
pub fn backup_category_list(backup: &JsonValue) -> (r: Vec<BackupCategory>)
    ensures
        r@.map_values(|x: BackupCategory| backup_category_view(x)) == match as_items(member(model(*backup), "categories"@)) {
            Some(xs) => backup_category_records(xs),
            None => Seq::<BackupCategoryModel>::empty(),
        },
{
    let mut r: Vec<BackupCategory> = Vec::new();
    match array_member(backup, "categories") {
        Some(items) => {
            let ghost xs = Seq::new(items@.len(), |i: int| model(items@[i]));
            let mut i: usize = 0;
            assert(xs.take(0) =~= Seq::<JsonModel>::empty());
            while i < items.len()
                invariant
                    i <= items@.len(),
                    xs == Seq::new(items@.len(), |i: int| model(items@[i])),
                    r@.map_values(|x: BackupCategory| backup_category_view(x)) == backup_category_records(xs.take(i as int)),
                decreases items.len() - i,
            {
                assert(xs.take(i as int + 1).drop_last() =~= xs.take(i as int));
                assert(xs.take(i as int + 1).last() == model(items@[i as int]));
                match backup_category_from(&items[i]) {
                    Some(x) => {
                        let ghost rb = r@;
                        r.push(x);
                        assert(r@.map_values(|x: BackupCategory| backup_category_view(x)) =~= rb.map_values(|x: BackupCategory| backup_category_view(x)).push(backup_category_view(x)));
                    },
                    None => {},
                }
                i = i + 1;
            }
            assert(xs.take(items@.len() as int) =~= xs);
        },
        None => {
            assert(r@.map_values(|x: BackupCategory| backup_category_view(x)) =~= Seq::<BackupCategoryModel>::empty());
        },
    }
    r
}

/// A usable `archive_tags` record of a backup.
pub struct BackupArchiveTag {
    pub path: String,
    pub namespace: String,
    pub name: String,
}

/// The content of a `archive_tags` record.
pub struct BackupArchiveTagModel {
    pub path: Seq<char>,
    pub namespace: Seq<char>,
    pub name: Seq<char>,
}

/// The content of a record.
pub open spec fn backup_archive_tag_view(r: BackupArchiveTag) -> BackupArchiveTagModel {
    BackupArchiveTagModel { path: r.path@, namespace: r.namespace@, name: r.name@ }
}

/// The `archive_tags` record an entry holds: its required fields present (the
/// others defaulted), else none.
pub open spec fn backup_archive_tag_of(e: JsonModel) -> Option<BackupArchiveTagModel> {
    if as_text(member(e, "path"@)) is Some && as_text(member(e, "namespace"@)) is Some && as_text(member(e, "name"@)) is Some {
        Some(BackupArchiveTagModel { path: as_text(member(e, "path"@))->0, namespace: as_text(member(e, "namespace"@))->0, name: as_text(member(e, "name"@))->0 })
    } else {
        None
    }
}

/// The `archive_tags` records of a list of entries, in order.
pub open spec fn backup_archive_tag_records(xs: Seq<JsonModel>) -> Seq<BackupArchiveTagModel>
    decreases xs.len(),
{
    if xs.len() == 0 {
        Seq::<BackupArchiveTagModel>::empty()
    } else {
        match backup_archive_tag_of(xs.last()) {
            Some(r) => backup_archive_tag_records(xs.drop_last()).push(r),
            None => backup_archive_tag_records(xs.drop_last()),
        }
    }
}

fn backup_archive_tag_from(e: &JsonValue) -> (r: Option<BackupArchiveTag>)
    ensures
        match r {
            Some(x) => backup_archive_tag_of(model(*e)) == Some(backup_archive_tag_view(x)),
            None => backup_archive_tag_of(model(*e)) is None,
        },
{
    let path = str_member(e, "path");
    let namespace = str_member(e, "namespace");
    let name = str_member(e, "name");
    match (path, namespace, name) {
        (Some(path), Some(namespace), Some(name)) => Some(BackupArchiveTag { path, namespace, name }),
        _ => None,
    }
}

/// The usable `archive_tags` records of a backup, in order.
pub fn backup_archive_tag_list(backup: &JsonValue) -> (r: Vec<BackupArchiveTag>)
    ensures
        r@.map_values(|x: BackupArchiveTag| backup_archive_tag_view(x)) == match as_items(member(model(*backup), "archive_tags"@)) {
            Some(xs) => backup_archive_tag_records(xs),
            None => Seq::<BackupArchiveTagModel>::empty(),
        },
{
    let mut r: Vec<BackupArchiveTag> = Vec::new();
    match array_member(backup, "archive_tags") {
        Some(items) => {
            let ghost xs = Seq::new(items@.len(), |i: int| model(items@[i]));
            let mut i: usize = 0;
            assert(xs.take(0) =~= Seq::<JsonModel>::empty());
            while i < items.len()
                invariant
                    i <= items@.len(),
                    xs == Seq::new(items@.len(), |i: int| model(items@[i])),
                    r@.map_values(|x: BackupArchiveTag| backup_archive_tag_view(x)) == backup_archive_tag_records(xs.take(i as int)),
                decreases items.len() - i,
            {
                assert(xs.take(i as int + 1).drop_last() =~= xs.take(i as int));
                assert(xs.take(i as int + 1).last() == model(items@[i as int]));
                match backup_archive_tag_from(&items[i]) {
                    Some(x) => {
                        let ghost rb = r@;
                        r.push(x);
                        assert(r@.map_values(|x: BackupArchiveTag| backup_archive_tag_view(x)) =~= rb.map_values(|x: BackupArchiveTag| backup_archive_tag_view(x)).push(backup_archive_tag_view(x)));
                    },
                    None => {},
                }
                i = i + 1;
            }
            assert(xs.take(items@.len() as int) =~= xs);
        },
        None => {
            assert(r@.map_values(|x: BackupArchiveTag| backup_archive_tag_view(x)) =~= Seq::<BackupArchiveTagModel>::empty());
        },
    }
    r
}

/// A usable `archive_categories` record of a backup.
pub struct BackupArchiveCategory {
    pub path: String,
    pub name: String,
}

/// The content of a `archive_categories` record.
pub struct BackupArchiveCategoryModel {
    pub path: Seq<char>,
    pub name: Seq<char>,
}

/// The content of a record.
pub open spec fn backup_archive_category_view(r: BackupArchiveCategory) -> BackupArchiveCategoryModel {
    BackupArchiveCategoryModel { path: r.path@, name: r.name@ }
}

/// The `archive_categories` record an entry holds: its required fields present (the
/// others defaulted), else none.
pub open spec fn backup_archive_category_of(e: JsonModel) -> Option<BackupArchiveCategoryModel> {
    if as_text(member(e, "path"@)) is Some && as_text(member(e, "name"@)) is Some {
        Some(BackupArchiveCategoryModel { path: as_text(member(e, "path"@))->0, name: as_text(member(e, "name"@))->0 })
    } else {
        None
    }
}

/// The `archive_categories` records of a list of entries, in order.
pub open spec fn backup_archive_category_records(xs: Seq<JsonModel>) -> Seq<BackupArchiveCategoryModel>
    decreases xs.len(),
{
    if xs.len() == 0 {
        Seq::<BackupArchiveCategoryModel>::empty()
    } else {
        match backup_archive_category_of(xs.last()) {
            Some(r) => backup_archive_category_records(xs.drop_last()).push(r),
            None => backup_archive_category_records(xs.drop_last()),
        }
    }
}

fn backup_archive_category_from(e: &JsonValue) -> (r: Option<BackupArchiveCategory>)
    ensures
        match r {
            Some(x) => backup_archive_category_of(model(*e)) == Some(backup_archive_category_view(x)),
            None => backup_archive_category_of(model(*e)) is None,
        },
{
    let path = str_member(e, "path");
    let name = str_member(e, "name");
    match (path, name) {
        (Some(path), Some(name)) => Some(BackupArchiveCategory { path, name }),
        _ => None,
    }
}

/// The usable `archive_categories` records of a backup, in order.
pub fn backup_archive_category_list(backup: &JsonValue) -> (r: Vec<BackupArchiveCategory>)
    ensures
        r@.map_values(|x: BackupArchiveCategory| backup_archive_category_view(x)) == match as_items(member(model(*backup), "archive_categories"@)) {
            Some(xs) => backup_archive_category_records(xs),
            None => Seq::<BackupArchiveCategoryModel>::empty(),
        },
{
    let mut r: Vec<BackupArchiveCategory> = Vec::new();
    match array_member(backup, "archive_categories") {
        Some(items) => {
            let ghost xs = Seq::new(items@.len(), |i: int| model(items@[i]));
            let mut i: usize = 0;
            assert(xs.take(0) =~= Seq::<JsonModel>::empty());
            while i < items.len()
                invariant
                    i <= items@.len(),
                    xs == Seq::new(items@.len(), |i: int| model(items@[i])),
                    r@.map_values(|x: BackupArchiveCategory| backup_archive_category_view(x)) == backup_archive_category_records(xs.take(i as int)),
                decreases items.len() - i,
            {
                assert(xs.take(i as int + 1).drop_last() =~= xs.take(i as int));
                assert(xs.take(i as int + 1).last() == model(items@[i as int]));
                match backup_archive_category_from(&items[i]) {
                    Some(x) => {
                        let ghost rb = r@;
                        r.push(x);
                        assert(r@.map_values(|x: BackupArchiveCategory| backup_archive_category_view(x)) =~= rb.map_values(|x: BackupArchiveCategory| backup_archive_category_view(x)).push(backup_archive_category_view(x)));
                    },
                    None => {},
                }
                i = i + 1;
            }
            assert(xs.take(items@.len() as int) =~= xs);
        },
        None => {
            assert(r@.map_values(|x: BackupArchiveCategory| backup_archive_category_view(x)) =~= Seq::<BackupArchiveCategoryModel>::empty());
        },
    }
    r
}

/// A usable `history` record of a backup.
pub struct BackupHistory {
    pub path: String,
    pub page_index: i64,
    pub total_pages: i64,
    pub updated_at: String,
}

/// The content of a `history` record.
pub struct BackupHistoryModel {
    pub path: Seq<char>,
    pub page_index: i64,
    pub total_pages: i64,
    pub updated_at: Seq<char>,
}

/// The content of a record.
pub open spec fn backup_history_view(r: BackupHistory) -> BackupHistoryModel {
    BackupHistoryModel { path: r.path@, page_index: r.page_index, total_pages: r.total_pages, updated_at: r.updated_at@ }
}

/// The `history` record an entry holds: its required fields present (the
/// others defaulted), else none.
pub open spec fn backup_history_of(e: JsonModel) -> Option<BackupHistoryModel> {
    if as_text(member(e, "path"@)) is Some && as_int(member(e, "page_index"@)) is Some && as_int(member(e, "total_pages"@)) is Some {
        Some(BackupHistoryModel { path: as_text(member(e, "path"@))->0, page_index: as_int(member(e, "page_index"@))->0, total_pages: as_int(member(e, "total_pages"@))->0, updated_at: match as_text(member(e, "updated_at"@)) { Some(x) => x, None => Seq::<char>::empty() } })
    } else {
        None
    }
}

/// The `history` records of a list of entries, in order.
pub open spec fn backup_history_records(xs: Seq<JsonModel>) -> Seq<BackupHistoryModel>
    decreases xs.len(),
{
    if xs.len() == 0 {
        Seq::<BackupHistoryModel>::empty()
    } else {
        match backup_history_of(xs.last()) {
            Some(r) => backup_history_records(xs.drop_last()).push(r),
            None => backup_history_records(xs.drop_last()),
        }
    }
}

fn backup_history_from(e: &JsonValue) -> (r: Option<BackupHistory>)
    ensures
        match r {
            Some(x) => backup_history_of(model(*e)) == Some(backup_history_view(x)),
            None => backup_history_of(model(*e)) is None,
        },
{
    let path = str_member(e, "path");
    let page_index = int_member(e, "page_index");
    let total_pages = int_member(e, "total_pages");
    let updated_at = str_member(e, "updated_at");
    match (path, page_index, total_pages, updated_at) {
        (Some(path), Some(page_index), Some(total_pages), updated_at) => Some(BackupHistory { path, page_index, total_pages, updated_at: match updated_at { Some(x) => x, None => String::new() } }),
        _ => None,
    }
}

/// The usable `history` records of a backup, in order.
pub fn backup_history_list(backup: &JsonValue) -> (r: Vec<BackupHistory>)
    ensures
        r@.map_values(|x: BackupHistory| backup_history_view(x)) == match as_items(member(model(*backup), "history"@)) {
            Some(xs) => backup_history_records(xs),
            None => Seq::<BackupHistoryModel>::empty(),
        },
{
    let mut r: Vec<BackupHistory> = Vec::new();
    match array_member(backup, "history") {
        Some(items) => {
            let ghost xs = Seq::new(items@.len(), |i: int| model(items@[i]));
            let mut i: usize = 0;
            assert(xs.take(0) =~= Seq::<JsonModel>::empty());
            while i < items.len()
                invariant
                    i <= items@.len(),
                    xs == Seq::new(items@.len(), |i: int| model(items@[i])),
                    r@.map_values(|x: BackupHistory| backup_history_view(x)) == backup_history_records(xs.take(i as int)),
                decreases items.len() - i,
            {
                assert(xs.take(i as int + 1).drop_last() =~= xs.take(i as int));
                assert(xs.take(i as int + 1).last() == model(items@[i as int]));
                match backup_history_from(&items[i]) {
                    Some(x) => {
                        let ghost rb = r@;
                        r.push(x);
                        assert(r@.map_values(|x: BackupHistory| backup_history_view(x)) =~= rb.map_values(|x: BackupHistory| backup_history_view(x)).push(backup_history_view(x)));
                    },
                    None => {},
                }
                i = i + 1;
            }
            assert(xs.take(items@.len() as int) =~= xs);
        },
        None => {
            assert(r@.map_values(|x: BackupHistory| backup_history_view(x)) =~= Seq::<BackupHistoryModel>::empty());
        },
    }
    r
}

/// A usable `bookmarks` record of a backup.
pub struct BackupBookmark {
    pub path: String,
    pub page_index: i64,
}

/// The content of a `bookmarks` record.
pub struct BackupBookmarkModel {
    pub path: Seq<char>,
    pub page_index: i64,
}

/// The content of a record.
pub open spec fn backup_bookmark_view(r: BackupBookmark) -> BackupBookmarkModel {
    BackupBookmarkModel { path: r.path@, page_index: r.page_index }
}

/// The `bookmarks` record an entry holds: its required fields present (the
/// others defaulted), else none.
pub open spec fn backup_bookmark_of(e: JsonModel) -> Option<BackupBookmarkModel> {
    if as_text(member(e, "path"@)) is Some && as_int(member(e, "page_index"@)) is Some {
        Some(BackupBookmarkModel { path: as_text(member(e, "path"@))->0, page_index: as_int(member(e, "page_index"@))->0 })
    } else {
        None
    }
}

/// The `bookmarks` records of a list of entries, in order.
pub open spec fn backup_bookmark_records(xs: Seq<JsonModel>) -> Seq<BackupBookmarkModel>
    decreases xs.len(),
{
    if xs.len() == 0 {
        Seq::<BackupBookmarkModel>::empty()
    } else {
        match backup_bookmark_of(xs.last()) {
            Some(r) => backup_bookmark_records(xs.drop_last()).push(r),
            None => backup_bookmark_records(xs.drop_last()),
        }
    }
}

fn backup_bookmark_from(e: &JsonValue) -> (r: Option<BackupBookmark>)
    ensures
        match r {
            Some(x) => backup_bookmark_of(model(*e)) == Some(backup_bookmark_view(x)),
            None => backup_bookmark_of(model(*e)) is None,
        },
{
    let path = str_member(e, "path");
    let page_index = int_member(e, "page_index");
    match (path, page_index) {
        (Some(path), Some(page_index)) => Some(BackupBookmark { path, page_index }),
        _ => None,
    }
}

/// The usable `bookmarks` records of a backup, in order.
pub fn backup_bookmark_list(backup: &JsonValue) -> (r: Vec<BackupBookmark>)
    ensures
        r@.map_values(|x: BackupBookmark| backup_bookmark_view(x)) == match as_items(member(model(*backup), "bookmarks"@)) {
            Some(xs) => backup_bookmark_records(xs),
            None => Seq::<BackupBookmarkModel>::empty(),
        },
{
    let mut r: Vec<BackupBookmark> = Vec::new();
    match array_member(backup, "bookmarks") {
        Some(items) => {
            let ghost xs = Seq::new(items@.len(), |i: int| model(items@[i]));
            let mut i: usize = 0;
            assert(xs.take(0) =~= Seq::<JsonModel>::empty());
            while i < items.len()
                invariant
                    i <= items@.len(),
                    xs == Seq::new(items@.len(), |i: int| model(items@[i])),
                    r@.map_values(|x: BackupBookmark| backup_bookmark_view(x)) == backup_bookmark_records(xs.take(i as int)),
                decreases items.len() - i,
            {
                assert(xs.take(i as int + 1).drop_last() =~= xs.take(i as int));
                assert(xs.take(i as int + 1).last() == model(items@[i as int]));
                match backup_bookmark_from(&items[i]) {
                    Some(x) => {
                        let ghost rb = r@;
                        r.push(x);
                        assert(r@.map_values(|x: BackupBookmark| backup_bookmark_view(x)) =~= rb.map_values(|x: BackupBookmark| backup_bookmark_view(x)).push(backup_bookmark_view(x)));
                    },
                    None => {},
                }
                i = i + 1;
            }
            assert(xs.take(items@.len() as int) =~= xs);
        },
        None => {
            assert(r@.map_values(|x: BackupBookmark| backup_bookmark_view(x)) =~= Seq::<BackupBookmarkModel>::empty());
        },
    }
    r
}

// ---------------------------------------------------------------------------
// Building documents
// ---------------------------------------------------------------------------

/// The document of a list of strings.
pub open spec fn text_array(v: Seq<String>) -> JsonModel {
    JsonModel::Array(v.map_values(|s: String| JsonModel::Str(s@)))
}

/// A JSON array of strings.
pub fn string_array(v: &Vec<String>) -> (r: JsonValue)
    ensures
        model(r) == text_array(v@),
{
    let mut items: Vec<JsonValue> = Vec::new();
    let mut i: usize = 0;
    while i < v.len()
        invariant
            i <= v@.len(),
            items@.len() == i,
            forall|k: int| 0 <= k < i ==> #[trigger] model(items@[k]) == JsonModel::Str(v@[k]@),
        decreases v.len() - i,
    {
        items.push(JsonValue::Str(v[i].clone()));
        i = i + 1;
    }
    let ghost its = items@;
    let r = JsonValue::Array(items);
    proof {
        let m = match model(r) {
            JsonModel::Array(x) => x,
            _ => Seq::<JsonModel>::empty(),
        };
        assert(m.len() == its.len());
        assert forall|k: int| 0 <= k < m.len() implies m[k] == JsonModel::Str(v@[k]@) by {
            assert(m[k] == model(its[k]));
        }
        assert(m =~= v@.map_values(|s: String| JsonModel::Str(s@)));
    }
    r
}

/// The document of an object from its members in order.
pub open spec fn object_of(members: Seq<(Seq<char>, JsonModel)>) -> JsonModel {
    JsonModel::Object(members)
}

/// A JSON object from its members in order.
pub fn object(members: Vec<(String, JsonValue)>) -> (r: JsonValue)
    ensures
        model(r) == object_of(members@.map_values(|e: (String, JsonValue)| (e.0@, model(e.1)))),
{
    let r = JsonValue::Object(members);
    proof {
        let m = match model(r) {
            JsonModel::Object(x) => x,
            _ => Seq::<(Seq<char>, JsonModel)>::empty(),
        };
        assert(m =~= members@.map_values(|e: (String, JsonValue)| (e.0@, model(e.1))));
    }
    r
}

/// The document of a count.
pub open spec fn count_model(n: usize) -> JsonModel {
    JsonModel::Number(NumberModel::PosInt(n as u64))
}

/// A JSON number for a count.
pub fn count_value(n: usize) -> (r: JsonValue)
    ensures
        model(r) == count_model(n),
{
    JsonValue::Number(JsonNumber::PosInt(n as u64))
}

} // verus!
