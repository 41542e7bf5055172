//! JSON documents as trees of plain values.
//!
//! Documents are read and written by `serde_json`. In between they are
//! trees whose numbers are held as their decimal text, so no number loses
//! digits on the way.

use crate::geo::{parse_number_e7, parsed_number_e7, Degrees};
use crate::text::{chars_of, int_text, parse_int, parsed_integer, push_int, same_chars, string_of};
use vstd::prelude::*;

verus! {

/// A JSON value of `serde_json`.
#[verifier::external_type_specification]
#[verifier::external_body]
pub struct ExValue(serde_json::Value);

/// A JSON value.
#[derive(Debug)]
pub enum Json {
    Null,
    Bool(bool),
    /// A number, as its decimal text.
    Number(String),
    Text(String),
    Array(Vec<Json>),
    /// An object, as its members in order.
    Object(Vec<(String, Json)>),
}

/// What a JSON value holds, as mathematical values.
pub enum JsonView {
    Null,
    Bool(bool),
    Number(Seq<char>),
    Text(Seq<char>),
    Array(Seq<JsonView>),
    Object(Seq<(Seq<char>, JsonView)>),
}

/// The view of a JSON value.
pub open spec fn json_view(j: Json) -> JsonView
    decreases j,
{
    match j {
        Json::Null => JsonView::Null,
        Json::Bool(b) => JsonView::Bool(b),
        Json::Number(n) => JsonView::Number(n@),
        Json::Text(s) => JsonView::Text(s@),
        Json::Array(items) => JsonView::Array(items_view(items@)),
        Json::Object(members) => JsonView::Object(members_view(members@)),
    }
}

/// The views of the items of an array.
pub open spec fn items_view(items: Seq<Json>) -> Seq<JsonView>
    decreases items,
{
    if items.len() == 0 {
        Seq::empty()
    } else {
        items_view(items.subrange(0, items.len() - 1)).push(json_view(items[items.len() - 1]))
    }
}

/// The views of the members of an object.
pub open spec fn members_view(members: Seq<(String, Json)>) -> Seq<(Seq<char>, JsonView)>
    decreases members,
{
    if members.len() == 0 {
        Seq::empty()
    } else {
        members_view(members.subrange(0, members.len() - 1)).push(
            (members[members.len() - 1].0@, json_view(members[members.len() - 1].1)),
        )
    }
}

impl View for Json {
    type V = JsonView;

    open spec fn view(&self) -> JsonView {
        json_view(*self)
    }
}

/// The document that `serde_json::from_slice` reads from the bytes, or
/// `None` where it reads none.
pub uninterp spec fn json_document(bytes: Seq<u8>) -> Option<JsonView>;

/// What a value of `serde_json` holds.
pub uninterp spec fn value_tree(v: serde_json::Value) -> JsonView;

/// The compact text that `serde_json` writes for a document.
pub uninterp spec fn json_text(doc: JsonView) -> Seq<char>;

/// The compact text that `serde_json` writes for one of its values.
pub uninterp spec fn value_text(v: serde_json::Value) -> Seq<char>;

/// Reads a JSON document.
///
/// Wraps `serde_json::from_slice` for `serde_json::Value`: the value holds
/// the document that the bytes write, and there is none where they write no
/// JSON.
#[verifier::external_body]
pub(crate) fn parse_value(bytes: &[u8]) -> (r: Option<serde_json::Value>)
    ensures
        match r {
            Some(v) => json_document(bytes@) == Some(value_tree(v)),
            None => json_document(bytes@) is None,
        },
{
    serde_json::from_slice::<serde_json::Value>(bytes).ok()
}

/// The tree of a value of `serde_json`.
///
/// Tells the variants of `serde_json::Value` apart and moves what they hold;
/// a number is taken as the text that `serde_json` writes for it, and the
/// members of an object in the order in which `serde_json` holds them.
#[verifier::external_body]
pub(crate) fn json_of_value(v: serde_json::Value) -> (r: Json)
    ensures
        r@ == value_tree(v),
{
    match v {
        serde_json::Value::Null => Json::Null,
        serde_json::Value::Bool(b) => Json::Bool(b),
        serde_json::Value::Number(n) => Json::Number(n.to_string()),
        serde_json::Value::String(s) => Json::Text(s),
        serde_json::Value::Array(a) => Json::Array(a.into_iter().map(json_of_value).collect()),
        serde_json::Value::Object(m) => Json::Object(
            m.into_iter().map(|(k, v)| (k, json_of_value(v))).collect(),
        ),
    }
}

/// The value of `serde_json` for a tree.
///
/// Builds the variant of `serde_json::Value` for each node. The text of a
/// number is read by `serde_json`; a text that it does not accept as a
/// number gives `null`. Of two members of an object with one key the later
/// one stays. The text of the tree is by definition the text that
/// `serde_json` writes for this value.
#[verifier::external_body]
pub(crate) fn value_of_json(j: &Json) -> (r: serde_json::Value)
    ensures
        value_text(r) == json_text(j@),
{
    match j {
        Json::Null => serde_json::Value::Null,
        Json::Bool(b) => serde_json::Value::Bool(*b),
        Json::Number(n) => match n.parse::<serde_json::Number>() {
            Ok(n) => serde_json::Value::Number(n),
            Err(_) => serde_json::Value::Null,
        },
        Json::Text(s) => serde_json::Value::String(s.clone()),
        Json::Array(a) => serde_json::Value::Array(a.iter().map(value_of_json).collect()),
        Json::Object(m) => serde_json::Value::Object(
            m.iter().map(|(k, v)| (k.clone(), value_of_json(v))).collect(),
        ),
    }
}

/// The compact text of a value of `serde_json`.
///
/// Wraps the `to_string` of `serde_json::Value`.
#[verifier::external_body]
pub(crate) fn text_of_value(v: &serde_json::Value) -> (r: String)
    ensures
        r@ == value_text(*v),
{
    v.to_string()
}

/// The view of an optional JSON value.
pub open spec fn optional_view(j: Option<Json>) -> Option<JsonView> {
    match j {
        Some(x) => Some(x@),
        None => None,
    }
}

/// Reads a JSON document, or gives `None` where the bytes write none.
pub fn parse(bytes: &[u8]) -> (r: Option<Json>)
    ensures
        optional_view(r) == json_document(bytes@),
{
    match parse_value(bytes) {
        Some(v) => Some(json_of_value(v)),
        None => None,
    }
}

/// Writes a JSON document as compact text.
pub fn render(doc: &Json) -> (r: String)
    ensures
        r@ == json_text(doc@),
{
    let v = value_of_json(doc);
    text_of_value(&v)
}

/// The views of the members of an object.
pub open spec fn member_views(members: Seq<(String, Json)>) -> Seq<(Seq<char>, JsonView)> {
    Seq::new(members.len(), |i: int| (members[i].0@, members[i].1@))
}

/// The views of the items of an array.
pub open spec fn item_views(items: Seq<Json>) -> Seq<JsonView> {
    Seq::new(items.len(), |i: int| items[i]@)
}

/// The views of the items of an array, item by item.
pub proof fn lemma_items_view(items: Seq<Json>)
    ensures
        items_view(items) == item_views(items),
    decreases items.len(),
{
    if items.len() > 0 {
        let init = items.subrange(0, items.len() - 1);
        lemma_items_view(init);
        assert(items_view(items) =~= item_views(items));
    } else {
        assert(items_view(items) =~= item_views(items));
    }
}

/// The views of the members of an object, member by member.
pub proof fn lemma_members_view(members: Seq<(String, Json)>)
    ensures
        members_view(members) == member_views(members),
    decreases members.len(),
{
    if members.len() > 0 {
        let init = members.subrange(0, members.len() - 1);
        lemma_members_view(init);
        assert(members_view(members) =~= member_views(members));
    } else {
        assert(members_view(members) =~= member_views(members));
    }
}

/// The view of an object is made of the views of its members, and the view
/// of an array of the views of its items.
pub proof fn lemma_view_of_parts(j: Json)
    ensures
        j matches Json::Object(members) ==> j@ == JsonView::Object(member_views(members@)),
        j matches Json::Array(items) ==> j@ == JsonView::Array(item_views(items@)),
{
    match j {
        Json::Object(members) => {
            lemma_members_view(members@);
        },
        Json::Array(items) => {
            lemma_items_view(items@);
        },
        _ => {},
    }
}

/// The index of the first member with the key `key` at or after `from`, or
/// the number of members where there is none.
pub open spec fn key_position(members: Seq<(Seq<char>, JsonView)>, key: Seq<char>, from: int) -> int
    decreases members.len() - from,
{
    if from >= members.len() {
        members.len() as int
    } else if members[from].0 == key {
        from
    } else {
        key_position(members, key, from + 1)
    }
}

/// The value of the first member with the key `key`.
pub open spec fn lookup(members: Seq<(Seq<char>, JsonView)>, key: Seq<char>) -> Option<JsonView> {
    let k = key_position(members, key, 0);
    if 0 <= k < members.len() {
        Some(members[k].1)
    } else {
        None
    }
}

/// The index of the first member with the key `key`, if there is one.
pub fn find_member(members: &Vec<(String, Json)>, key: &str) -> (r: Option<usize>)
    ensures
        match r {
            Some(k) => k < members.len() && k == key_position(member_views(members@), key@, 0)
                && lookup(member_views(members@), key@) == Some(members@[k as int].1@),
            None => lookup(member_views(members@), key@) is None,
        },
{
    let wanted = chars_of(key);
    let ghost all = member_views(members@);
    let mut i: usize = 0;
    while i < members.len()
        invariant
            i <= members.len(),
            all == member_views(members@),
            wanted@ == key@,
            key_position(all, key@, 0) == key_position(all, key@, i as int),
        decreases members.len() - i,
    {
        let name = chars_of(members[i].0.as_str());
        if same_chars(&name, &wanted) {
            proof {
                assert(all[i as int].0 == key@);
            }
            return Some(i);
        }
        proof {
            assert(all[i as int].0 != key@);
        }
        i = i + 1;
    }
    None
}

/// The number that a JSON value writes, where it is an integer of 64 bits.
pub open spec fn integer_value(j: JsonView) -> Option<i64> {
    match j {
        JsonView::Number(text) => parsed_integer(text),
        _ => None,
    }
}

/// The text that a JSON value holds, where it is a string.
pub open spec fn text_value(j: JsonView) -> Option<Seq<char>> {
    match j {
        JsonView::Text(t) => Some(t),
        _ => None,
    }
}

impl Json {
    /// The number that the value writes, where it is an integer of 64 bits.
    pub fn as_integer(&self) -> (r: Option<i64>)
        ensures
            r == integer_value(self@),
    {
        match self {
            Json::Number(text) => parse_int(&chars_of(text.as_str())),
            _ => None,
        }
    }
}

/// Whether none of the keys is the key of the member.
pub open spec fn key_not_in(keys: Seq<Seq<char>>) -> spec_fn((Seq<char>, JsonView)) -> bool {
    |m: (Seq<char>, JsonView)| !keys.contains(m.0)
}

/// The members whose key is none of `keys`, in their order.
pub open spec fn members_without(members: Seq<(Seq<char>, JsonView)>, keys: Seq<Seq<char>>) -> Seq<
    (Seq<char>, JsonView),
> {
    members.filter(key_not_in(keys))
}

/// Whether `key` is one of `keys`.
pub fn is_one_of(key: &str, keys: &Vec<Vec<char>>) -> (r: bool)
    ensures
        r == crate::text::views(keys@).contains(key@),
{
    let wanted = chars_of(key);
    let ghost all = crate::text::views(keys@);
    let mut i: usize = 0;
    while i < keys.len()
        invariant
            i <= keys.len(),
            all == crate::text::views(keys@),
            wanted@ == key@,
            forall|j: int| 0 <= j < i ==> all[j] != key@,
        decreases keys.len() - i,
    {
        if same_chars(&keys[i], &wanted) {
            proof {
                assert(all[i as int] == key@);
            }
            return true;
        }
        proof {
            assert(all[i as int] == keys@[i as int]@);
        }
        i = i + 1;
    }
    false
}

/// The members whose key is none of `keys`, in their order.
pub fn without_keys(members: Vec<(String, Json)>, keys: &Vec<Vec<char>>) -> (r: Vec<(String, Json)>)
    ensures
        member_views(r@) == members_without(member_views(members@), crate::text::views(keys@)),
{
    let ghost all = member_views(members@);
    let ghost names = crate::text::views(keys@);
    let ghost pred = key_not_in(names);
    let mut rest = members;
    let mut kept: Vec<(String, Json)> = Vec::new();
    proof {
        assert(all.subrange(all.len() as int, all.len() as int) =~= Seq::empty());
        reveal(Seq::filter);
        assert(member_views(kept@).reverse() =~= Seq::empty());
    }
    while rest.len() > 0
        invariant
            names == crate::text::views(keys@),
            pred == key_not_in(names),
            rest.len() <= all.len(),
            member_views(rest@) == all.subrange(0, rest.len() as int),
            member_views(kept@).reverse() == all.subrange(
                rest.len() as int,
                all.len() as int,
            ).filter(pred),
        decreases rest.len(),
    {
        let ghost n = rest.len() as int;
        let ghost before = rest@;
        let ghost kept_before = member_views(kept@);
        let m = rest.pop().unwrap();
        proof {
            assert(member_views(before)[n - 1] == (m.0@, m.1@));
            assert(member_views(rest@) =~= all.subrange(0, n - 1));
            let one = seq![all[n - 1]];
            assert(all.subrange(n - 1, all.len() as int) =~= one + all.subrange(
                n,
                all.len() as int,
            ));
            Seq::filter_distributes_over_add(one, all.subrange(n, all.len() as int), pred);
            reveal(Seq::filter);
            assert(one.drop_last() =~= Seq::empty());
            assert(one.filter(pred) =~= if pred(all[n - 1]) {
                one
            } else {
                Seq::empty()
            }) by {
                reveal_with_fuel(Seq::filter, 2);
            }
        }
        if !is_one_of(m.0.as_str(), keys) {
            kept.push(m);
            proof {
                assert(member_views(kept@) =~= kept_before.push(all[n - 1]));
                assert(kept_before.push(all[n - 1]).reverse() =~= seq![all[n - 1]]
                    + kept_before.reverse());
            }
        }
    }
    proof {
        assert(all.subrange(0, all.len() as int) =~= all);
    }
    let mut r: Vec<(String, Json)> = Vec::new();
    let ghost turned = member_views(kept@);
    while kept.len() > 0
        invariant
            kept.len() <= turned.len(),
            member_views(kept@) == turned.subrange(0, kept.len() as int),
            member_views(r@) == turned.reverse().subrange(0, turned.len() - kept.len()),
        decreases kept.len(),
    {
        let ghost n = kept.len() as int;
        let ghost before = kept@;
        let ghost r_before = member_views(r@);
        let m = kept.pop().unwrap();
        proof {
            assert(member_views(before)[n - 1] == (m.0@, m.1@));
            assert(member_views(kept@) =~= turned.subrange(0, n - 1));
        }
        r.push(m);
        proof {
            assert(member_views(r@) =~= r_before.push(turned[n - 1]));
            assert(turned.reverse()[turned.len() - n] == turned[n - 1]);
            assert(turned.reverse().subrange(0, turned.len() - n + 1) =~= turned.reverse().subrange(
                0,
                turned.len() - n,
            ).push(turned[n - 1]));
        }
    }
    proof {
        assert(turned.reverse().subrange(0, turned.len() as int) =~= turned.reverse());
    }
    r
}

/// The integer of a member that has to be present.
pub open spec fn required_integer(members: Seq<(Seq<char>, JsonView)>, key: Seq<char>) -> Option<
    i64,
> {
    match lookup(members, key) {
        Some(j) => integer_value(j),
        None => None,
    }
}

/// The integer of a member that may be absent or `null`; it has to lie
/// between `lo` and `hi`. The outer `None` stands for a member of another
/// form.
pub open spec fn optional_integer(
    members: Seq<(Seq<char>, JsonView)>,
    key: Seq<char>,
    lo: int,
    hi: int,
) -> Option<Option<int>> {
    match lookup(members, key) {
        Some(JsonView::Null) => Some(None),
        Some(j) => match integer_value(j) {
            Some(v) => if lo <= v <= hi {
                Some(Some(v as int))
            } else {
                None
            },
            None => None,
        },
        None => Some(None),
    }
}

/// The angle of a member that has to be present: a number, in decimal or
/// scientific notation, cut off after the seventh decimal place.
pub open spec fn required_degrees(members: Seq<(Seq<char>, JsonView)>, key: Seq<char>) -> Option<
    i64,
> {
    match lookup(members, key) {
        Some(JsonView::Number(text)) => parsed_number_e7(text),
        _ => None,
    }
}

/// The text of a member that may be absent, in which case it is empty.
pub open spec fn text_or_empty(members: Seq<(Seq<char>, JsonView)>, key: Seq<char>) -> Option<
    Seq<char>,
> {
    match lookup(members, key) {
        Some(j) => text_value(j),
        None => Some(Seq::empty()),
    }
}

/// The integer of a member that has to be present.
pub fn get_integer(members: &Vec<(String, Json)>, key: &str) -> (r: Option<i64>)
    ensures
        r == required_integer(member_views(members@), key@),
{
    match find_member(members, key) {
        Some(k) => members[k].1.as_integer(),
        None => None,
    }
}

/// The integer of a member that may be absent or `null`.
pub fn get_optional(members: &Vec<(String, Json)>, key: &str, lo: i64, hi: i64) -> (r: Option<
    Option<i64>,
>)
    ensures
        match r {
            Some(Some(v)) => optional_integer(member_views(members@), key@, lo as int, hi as int)
                == Some(Some(v as int)) && lo <= v <= hi,
            Some(None) => optional_integer(member_views(members@), key@, lo as int, hi as int)
                == Some(None::<int>),
            None => optional_integer(member_views(members@), key@, lo as int, hi as int) is None,
        },
{
    match find_member(members, key) {
        Some(k) => {
            match &members[k].1 {
                Json::Null => Some(None),
                j => match j.as_integer() {
                    Some(v) => if lo <= v && v <= hi {
                        Some(Some(v))
                    } else {
                        None
                    },
                    None => None,
                },
            }
        },
        None => Some(None),
    }
}

/// The angle of a member that has to be present.
pub fn get_degrees(members: &Vec<(String, Json)>, key: &str) -> (r: Option<Degrees>)
    ensures
        match r {
            Some(d) => required_degrees(member_views(members@), key@) == Some(d.e7),
            None => required_degrees(member_views(members@), key@) is None,
        },
{
    match find_member(members, key) {
        Some(k) => match &members[k].1 {
            Json::Number(text) => match parse_number_e7(&chars_of(text.as_str())) {
                Some(e7) => Some(Degrees { e7 }),
                None => None,
            },
            _ => None,
        },
        None => None,
    }
}

/// The text of a member that may be absent.
pub fn get_text_or_empty(members: &Vec<(String, Json)>, key: &str) -> (r: Option<String>)
    ensures
        match r {
            Some(s) => text_or_empty(member_views(members@), key@) == Some(s@),
            None => text_or_empty(member_views(members@), key@) is None,
        },
{
    match find_member(members, key) {
        Some(k) => match &members[k].1 {
            Json::Text(s) => Some(s.clone()),
            _ => None,
        },
        None => Some(String::new()),
    }
}

/// The JSON object with the given members.
pub fn object(members: Vec<(String, Json)>) -> (r: Json)
    ensures
        r@ == JsonView::Object(member_views(members@)),
{
    let r = Json::Object(members);
    proof {
        lemma_view_of_parts(r);
    }
    r
}

/// The JSON array with the given items.
pub fn array(items: Vec<Json>) -> (r: Json)
    ensures
        r@ == JsonView::Array(item_views(items@)),
{
    let r = Json::Array(items);
    proof {
        lemma_view_of_parts(r);
    }
    r
}

/// The JSON string with the given text.
pub fn text(s: &str) -> (r: Json)
    ensures
        r@ == JsonView::Text(s@),
{
    Json::Text(s.to_owned())
}

/// The JSON number that writes `v`.
pub fn integer(v: i64) -> (r: Json)
    ensures
        r@ == JsonView::Number(int_text(v as int)),
{
    let mut t: Vec<char> = Vec::new();
    push_int(&mut t, v);
    proof {
        assert(Seq::<char>::empty() + int_text(v as int) =~= int_text(v as int));
    }
    Json::Number(string_of(&t))
}

/// The number that writes `v`, or `null` where there is none.
pub open spec fn number_or_null(v: Option<int>) -> JsonView {
    match v {
        Some(x) => JsonView::Number(int_text(x)),
        None => JsonView::Null,
    }
}

/// The JSON number that writes `v`, or `null` where there is none.
pub fn optional_integer_json(v: Option<i64>) -> (r: Json)
    ensures
        r@ == number_or_null(
            match v {
                Some(x) => Some(x as int),
                None => None,
            },
        ),
{
    match v {
        Some(x) => integer(x),
        None => Json::Null,
    }
}

/// The member with the given key and value.
pub fn member(key: &str, value: Json) -> (r: (String, Json))
    ensures
        r.0@ == key@,
        r.1 == value,
{
    (key.to_owned(), value)
}

} // verus!
