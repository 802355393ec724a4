//! JSON values as plain data.
//!
//! Events, tool arguments and server answers are JSON. [`Json`] holds one as a
//! tree of plain values, which is what the rest of the library reads and
//! builds. Parsing and rendering are done by `serde_json`, behind the few
//! trusted functions of this module.

use vstd::prelude::*;
use vstd::string::*;

use crate::text::{names, same_text};

verus! {

/// `serde_json::Value`, carried through and converted as a whole.
#[verifier::external_type_specification]
#[verifier::external_body]
pub struct ExValue(serde_json::Value);

/// `serde_json::Number`, carried through.
#[verifier::external_type_specification]
#[verifier::external_body]
pub struct ExNumber(serde_json::Number);

/// `serde_json::Error`, which [`Json::parse`] turns into `None`.
#[verifier::external_type_specification]
#[verifier::external_body]
pub struct ExError(serde_json::Error);

/// A number that is no integer of 64 bits: fractional or too large. Only a
/// parsed JSON text holds one, and nothing in the library computes with it.
#[derive(Debug)]
pub struct OtherNumber {
    number: serde_json::Number,
}

/// A JSON value.
#[derive(Debug)]
pub enum Json {
    Null,
    Bool(bool),
    Unsigned(u64),
    Integer(i64),
    Number(OtherNumber),
    Text(String),
    Array(Vec<Json>),
    Object(Vec<Member>),
}

/// A key of a JSON object with its value.
#[derive(Debug)]
pub struct Member {
    pub key: String,
    pub value: Json,
}

/// The mathematical form of a JSON value. The members of an object stand in
/// the order in which they are written.
#[verifier::ext_equal]
pub enum JsonView {
    Null,
    Bool(bool),
    Unsigned(u64),
    /// An integer below zero.
    Negative(i64),
    Number(OtherNumber),
    Text(Seq<char>),
    Array(Seq<JsonView>),
    Object(Seq<MemberView>),
}

/// The mathematical form of a [`Member`].
#[verifier::ext_equal]
pub struct MemberView {
    pub key: Seq<char>,
    pub value: JsonView,
}

impl View for Json {
    type V = JsonView;

    open spec fn view(&self) -> JsonView
        decreases self,
    {
        match self {
            Json::Null => JsonView::Null,
            Json::Bool(b) => JsonView::Bool(*b),
            Json::Unsigned(n) => JsonView::Unsigned(*n),
            Json::Integer(n) => if *n >= 0 {
                JsonView::Unsigned(*n as u64)
            } else {
                JsonView::Negative(*n)
            },
            Json::Number(n) => JsonView::Number(*n),
            Json::Text(text) => JsonView::Text(text@),
            Json::Array(items) => JsonView::Array(
                Seq::new(
                    items@.len(),
                    |i: int|
                        if 0 <= i < items@.len() {
                            items@[i]@
                        } else {
                            arbitrary()
                        },
                ),
            ),
            Json::Object(members) => JsonView::Object(pairs(members@)),
        }
    }
}

/// The keys and values of a list of members.
pub open spec fn pairs(members: Seq<Member>) -> Seq<MemberView>
    decreases members,
{
    Seq::new(
        members.len(),
        |i: int|
            if 0 <= i < members.len() {
                MemberView { key: members[i].key@, value: members[i].value@ }
            } else {
                arbitrary()
            },
    )
}

/// An object's view lists its members one by one.
proof fn lemma_object_view(members: Vec<Member>)
    ensures
        Json::Object(members)@ == JsonView::Object(pairs(members@)),
        pairs(members@).len() == members@.len(),
        forall|i: int|
            0 <= i < members@.len() ==> #[trigger] pairs(members@)[i] == (MemberView {
                key: members@[i].key@,
                value: members@[i].value@,
            }),
{
    assert(pairs(members@).len() == members@.len());
}

/// Every key occurs once in each object of the value.
pub open spec fn distinct_keys(json: JsonView) -> bool
    decreases json,
{
    match json {
        JsonView::Array(items) => forall|i: int|
            0 <= i < items.len() ==> distinct_keys(#[trigger] items[i]),
        JsonView::Object(members) => {
            &&& forall|i: int, j: int|
                0 <= i < j < members.len() ==> (#[trigger] members[i]).key != (#[trigger] members[j]).key
            &&& forall|i: int|
                0 <= i < members.len() ==> distinct_keys((#[trigger] members[i]).value)
        },
        _ => true,
    }
}

/// The value nests arrays and objects at most `levels` deep.
pub open spec fn nested_within(json: JsonView, levels: nat) -> bool
    decreases json,
{
    match json {
        JsonView::Array(items) => levels > 0 && forall|i: int|
            0 <= i < items.len() ==> nested_within(#[trigger] items[i], (levels - 1) as nat),
        JsonView::Object(members) => levels > 0 && forall|i: int|
            0 <= i < members.len() ==> nested_within(
                (#[trigger] members[i]).value,
                (levels - 1) as nat,
            ),
        _ => true,
    }
}

/// Every number of the value is an integer of 64 bits.
pub open spec fn integers_only(json: JsonView) -> bool
    decreases json,
{
    match json {
        JsonView::Negative(n) => n < 0,
        JsonView::Number(_) => false,
        JsonView::Array(items) => forall|i: int|
            0 <= i < items.len() ==> integers_only(#[trigger] items[i]),
        JsonView::Object(members) => forall|i: int|
            0 <= i < members.len() ==> integers_only((#[trigger] members[i]).value),
        _ => true,
    }
}

/// The key that `serde_json` keeps for texts that it passes through: it reads an
/// object that begins with this key as something else.
pub open spec fn reserved_key() -> Seq<char> {
    "$serde_json::private::RawValue"@
}

/// No object of the value begins with the reserved key.
pub open spec fn plain_objects(json: JsonView) -> bool
    decreases json,
{
    match json {
        JsonView::Array(items) => forall|i: int|
            0 <= i < items.len() ==> plain_objects(#[trigger] items[i]),
        JsonView::Object(members) => {
            &&& members.len() > 0 ==> members[0].key != reserved_key()
            &&& forall|i: int|
                0 <= i < members.len() ==> plain_objects((#[trigger] members[i]).value)
        },
        _ => true,
    }
}

/// Nested at most `levels` deep and otherwise fit to be written and read back:
/// no key twice, no number but integers, no object that is read as something
/// else.
pub open spec fn storable(json: JsonView, levels: nat) -> bool {
    &&& distinct_keys(json)
    &&& integers_only(json)
    &&& plain_objects(json)
    &&& nested_within(json, levels)
}

/// The values that parsing gives back unchanged from their own text: those that
/// are storable within the levels that the parser follows.
pub open spec fn round_trips(json: JsonView) -> bool {
    storable(json, 127)
}

/// A text without a line break.
pub open spec fn one_line(text: Seq<char>) -> bool {
    !text.contains('\n') && !text.contains('\r')
}

/// What a `serde_json::Value` holds.
pub uninterp spec fn json_model(value: serde_json::Value) -> JsonView;

/// What `serde_json::from_str` reads from a text; `None` where it fails.
pub uninterp spec fn json_parse(text: Seq<char>) -> Option<JsonView>;

/// The compact text that `serde_json` writes for a value.
pub uninterp spec fn json_text(json: JsonView) -> Seq<char>;

/// `serde_json::from_str` at `serde_json::Value`. Trusted: the result depends
/// on the text alone, and the text written for a value that [`round_trips`]
/// is read back as that value. Nothing is said of fractions, which may come back
/// rounded.
#[verifier::external_body]
fn value_from_str(text: &str) -> (value: Result<serde_json::Value, serde_json::Error>)
    ensures
        value is Ok <==> json_parse(text@) is Some,
        value matches Ok(v) ==> json_parse(text@) == Some(json_model(v)),
        forall|json: JsonView|
            round_trips(json) && text@ == #[trigger] json_text(json) ==> value is Ok && json_model(
                value->Ok_0,
            ) == json,
{
    serde_json::from_str(text)
}

/// Converts a `serde_json::Value`, variant by variant. Trusted: the tree holds
/// what the value holds, and a `serde_json::Map` has no key twice.
#[verifier::external_body]
fn json_from_value(value: serde_json::Value) -> (json: Json)
    ensures
        json@ == json_model(value),
        distinct_keys(json@),
{
    match value {
        serde_json::Value::Null => Json::Null,
        serde_json::Value::Bool(b) => Json::Bool(b),
        serde_json::Value::Number(number) => match number.as_u64() {
            Some(n) => Json::Unsigned(n),
            None => match number.as_i64() {
                Some(n) => Json::Integer(n),
                None => Json::Number(OtherNumber { number }),
            },
        },
        serde_json::Value::String(text) => Json::Text(text),
        serde_json::Value::Array(items) => Json::Array(items.into_iter().map(json_from_value).collect()),
        serde_json::Value::Object(members) => Json::Object(
            members.into_iter().map(|(key, value)| Member { key, value: json_from_value(value) }).collect()),
    }
}

/// Converts a [`Json`] to a `serde_json::Value`, variant by variant. Trusted:
/// the value holds what the tree holds; a `serde_json::Map` with its
/// `preserve_order` feature keeps its members in the order of insertion.
#[verifier::external_body]
fn value_from_json(json: &Json) -> (value: serde_json::Value)
    requires
        distinct_keys(json@),
    ensures
        json_model(value) == json@,
{
    match json {
        Json::Null => serde_json::Value::Null,
        Json::Bool(b) => serde_json::Value::Bool(*b),
        Json::Unsigned(n) => serde_json::Value::from(*n),
        Json::Integer(n) => serde_json::Value::from(*n),
        Json::Number(other) => serde_json::Value::Number(other.number.clone()),
        Json::Text(text) => serde_json::Value::String(text.clone()),
        Json::Array(items) => serde_json::Value::Array(items.iter().map(value_from_json).collect()),
        Json::Object(members) => serde_json::Value::Object(
            members.iter().map(|m| (m.key.clone(), value_from_json(&m.value))).collect()),
    }
}

/// `serde_json::Value::to_string`, the compact form. Trusted: the text depends
/// on what the value holds alone. It is one line: nothing is written between
/// values, and control characters within texts are escaped.
#[verifier::external_body]
fn value_to_string(value: &serde_json::Value) -> (text: String)
    ensures
        text@ == json_text(json_model(*value)),
        one_line(text@),
{
    value.to_string()
}

/// What a list of keys and values holds.
pub open spec fn entry_views(entries: Seq<(String, serde_json::Value)>) -> Seq<MemberView> {
    entries.map_values(
        |e: (String, serde_json::Value)| MemberView { key: e.0@, value: json_model(e.1) },
    )
}

/// `serde::Serializer::collect_map` on `serde_json::Serializer`, the compact
/// form: writes the entries as one object, in their order and each of them,
/// also where a key occurs twice. Trusted: the text depends on the entries
/// alone, is that of the object that holds them, and is one line.
#[verifier::external_body]
fn entries_to_string(entries: Vec<(String, serde_json::Value)>) -> (text: String)
    ensures
        text@ == json_text(JsonView::Object(entry_views(entries@))),
        one_line(text@),
{
    let mut bytes: Vec<u8> = Vec::new();
    let mut writer = serde_json::Serializer::new(&mut bytes);
    serde::Serializer::collect_map(&mut writer, entries).unwrap();
    String::from_utf8(bytes).unwrap()
}

/// `serde_json::Value::clone`. Trusted: the clone is the same value.
pub assume_specification[ <serde_json::Value as Clone>::clone ](value: &serde_json::Value) -> (copy:
    serde_json::Value)
    ensures
        copy == *value,
;

/// The value of the first member with this key.
pub open spec fn lookup(members: Seq<MemberView>, key: Seq<char>) -> Option<JsonView>
    decreases members.len(),
{
    if members.len() == 0 {
        None
    } else if members[0].key == key {
        Some(members[0].value)
    } else {
        lookup(members.drop_first(), key)
    }
}

/// Nothing is found exactly where no member has the key.
pub proof fn lemma_lookup_none(members: Seq<MemberView>, key: Seq<char>)
    ensures
        lookup(members, key) is None <==> (forall|i: int|
            0 <= i < members.len() ==> (#[trigger] members[i]).key != key),
    decreases members.len(),
{
    if members.len() > 0 {
        lemma_lookup_none(members.drop_first(), key);
        assert forall|i: int| 0 < i < members.len() implies #[trigger] members[i]
            == members.drop_first()[i - 1] by {}
        assert forall|i: int| 0 <= i < members.len() - 1 implies #[trigger] members.drop_first()[i]
            == members[i + 1] by {}
    }
}

/// Under a key that no earlier member has, the value of the member is found.
pub proof fn lemma_lookup_first(members: Seq<MemberView>, i: int)
    requires
        0 <= i < members.len(),
        forall|k: int| 0 <= k < i ==> (#[trigger] members[k]).key != members[i].key,
    ensures
        lookup(members, members[i].key) == Some(members[i].value),
    decreases i,
{
    if i > 0 {
        let rest = members.drop_first();
        assert(members[0].key != members[i].key);
        assert(rest[i - 1] == members[i]);
        assert forall|k: int| 0 <= k < i - 1 implies (#[trigger] rest[k]).key != rest[i
            - 1].key by {
            assert(members[k + 1] == rest[k]);
        }
        lemma_lookup_first(rest, i - 1);
    }
}

/// In two lists one after the other, the first is searched first.
pub proof fn lemma_lookup_append(first: Seq<MemberView>, then: Seq<MemberView>, key: Seq<char>)
    ensures
        lookup(first + then, key) == match lookup(first, key) {
            Some(value) => Some(value),
            None => lookup(then, key),
        },
    decreases first.len(),
{
    if first.len() == 0 {
        assert(first + then =~= then);
    } else {
        assert((first + then).drop_first() =~= first.drop_first() + then);
        lemma_lookup_append(first.drop_first(), then, key);
    }
}

/// The member of an object with this key; `None` in a value of another kind.
pub open spec fn field(json: JsonView, key: Seq<char>) -> Option<JsonView> {
    match json {
        JsonView::Object(members) => lookup(members, key),
        _ => None,
    }
}

/// The members of a value without repeated keys have none either.
pub proof fn lemma_lookup_distinct(json: JsonView, key: Seq<char>)
    requires
        distinct_keys(json),
    ensures
        field(json, key) matches Some(value) ==> distinct_keys(value),
{
    if let JsonView::Object(members) = json {
        lemma_lookup_member(members, key);
    }
}

/// What is found is the value of one of the members.
pub proof fn lemma_lookup_member(members: Seq<MemberView>, key: Seq<char>)
    ensures
        lookup(members, key) matches Some(value) ==> exists|i: int|
            0 <= i < members.len() && (#[trigger] members[i]).key == key && members[i].value
                == value,
    decreases members.len(),
{
    if members.len() > 0 && members[0].key != key {
        lemma_lookup_member(members.drop_first(), key);
        if let Some(value) = lookup(members, key) {
            let i = choose|i: int|
                0 <= i < members.drop_first().len() && (#[trigger] members.drop_first()[i]).key
                    == key && members.drop_first()[i].value == value;
            assert(members[i + 1] == members.drop_first()[i]);
        }
    }
}

/// The text under a key, where there is one.
pub open spec fn text_field(json: JsonView, key: Seq<char>) -> Option<Seq<char>> {
    match field(json, key) {
        Some(JsonView::Text(text)) => Some(text),
        _ => None,
    }
}

/// The unsigned number under a key, where there is one.
pub open spec fn number_field(json: JsonView, key: Seq<char>) -> Option<u64> {
    match field(json, key) {
        Some(JsonView::Unsigned(n)) => Some(n),
        _ => None,
    }
}

/// The truth value under a key, where there is one.
pub open spec fn flag_field(json: JsonView, key: Seq<char>) -> Option<bool> {
    match field(json, key) {
        Some(JsonView::Bool(b)) => Some(b),
        _ => None,
    }
}

/// The JSON form of an optional text.
pub open spec fn optional(text: Option<Seq<char>>) -> JsonView {
    match text {
        Some(t) => JsonView::Text(t),
        None => JsonView::Null,
    }
}

/// The JSON array of a list of texts.
pub open spec fn text_array(texts: Seq<Seq<char>>) -> JsonView {
    JsonView::Array(texts.map_values(|t: Seq<char>| JsonView::Text(t)))
}

/// A key with its value.
pub open spec fn member(key: Seq<char>, value: JsonView) -> MemberView {
    MemberView { key, value }
}

/// A value fits within more levels where it fits within fewer.
pub proof fn lemma_storable_deeper(json: JsonView, levels: nat, more: nat)
    requires
        storable(json, levels),
        levels <= more,
    ensures
        storable(json, more),
    decreases json,
{
    match json {
        JsonView::Array(items) => {
            assert forall|i: int| 0 <= i < items.len() implies nested_within(
                #[trigger] items[i],
                (more - 1) as nat,
            ) by {
                lemma_storable_deeper(items[i], (levels - 1) as nat, (more - 1) as nat);
            }
        },
        JsonView::Object(members) => {
            assert forall|i: int| 0 <= i < members.len() implies nested_within(
                (#[trigger] members[i]).value,
                (more - 1) as nat,
            ) by {
                lemma_storable_deeper(members[i].value, (levels - 1) as nat, (more - 1) as nat);
            }
        },
        _ => {},
    }
}

/// An array of texts is storable.
pub proof fn lemma_text_array_storable(texts: Seq<Seq<char>>)
    ensures
        storable(text_array(texts), 1),
{
    assert forall|i: int| 0 <= i < texts.len() implies storable(
        #[trigger] text_array(texts)->Array_0[i],
        0,
    ) by {
        assert(text_array(texts)->Array_0[i] == JsonView::Text(texts[i]));
    }
}


impl Json {
    /// Reads a JSON text.
    pub fn parse(text: &str) -> (json: Option<Json>)
        ensures
            json is Some <==> json_parse(text@) is Some,
            json matches Some(j) ==> j@ == json_parse(text@)->0 && distinct_keys(j@),
            forall|written: JsonView|
                round_trips(written) && text@ == #[trigger] json_text(written) ==> (json matches Some(
                    j,
                ) && j@ == written),
    {
        match value_from_str(text) {
            Ok(value) => Some(json_from_value(value)),
            Err(_) => None,
        }
    }

    /// Writes the value as compact JSON text.
    pub fn render(&self) -> (text: String)
        requires
            distinct_keys(self@),
        ensures
            text@ == json_text(self@),
            one_line(text@),
    {
        value_to_string(&value_from_json(self))
    }

    /// The same value as a `serde_json::Value`.
    pub fn to_value(&self) -> (value: serde_json::Value)
        requires
            distinct_keys(self@),
        ensures
            json_model(value) == self@,
    {
        value_from_json(self)
    }

    /// The member of an object with this key.
    pub fn get(&self, key: &str) -> (member: Option<&Json>)
        ensures
            member is Some <==> field(self@, key@) is Some,
            member matches Some(m) ==> m@ == field(self@, key@)->0,
    {
        match self {
            Json::Object(members) => {
                let ghost all = pairs(members@);
                proof {
                    lemma_object_view(*members);
                }
                let mut i: usize = 0;
                assert(all.skip(0) =~= all);
                while i < members.len()
                    invariant
                        i <= members@.len(),
                        self@ == JsonView::Object(all),
                        all.len() == members@.len(),
                        forall|k: int|
                            0 <= k < all.len() ==> #[trigger] all[k] == (MemberView {
                                key: members@[k].key@,
                                value: members@[k].value@,
                            }),
                        lookup(all, key@) == lookup(all.skip(i as int), key@),
                    decreases members@.len() - i,
                {
                    assert(all.skip(i as int)[0] == all[i as int]);
                    assert(all.skip(i as int).drop_first() =~= all.skip(i + 1));
                    if same_text(members[i].key.as_str(), key) {
                        return Some(&members[i].value);
                    }
                    i += 1;
                }
                None
            },
            _ => None,
        }
    }

    /// The text under a key, where there is one.
    pub fn text_at(&self, key: &str) -> (text: Option<&str>)
        ensures
            text is Some <==> text_field(self@, key@) is Some,
            text matches Some(t) ==> t@ == text_field(self@, key@)->0,
    {
        match self.get(key) {
            Some(Json::Text(text)) => Some(text.as_str()),
            _ => None,
        }
    }

    /// The unsigned number under a key, where there is one.
    pub fn number_at(&self, key: &str) -> (number: Option<u64>)
        ensures
            number == number_field(self@, key@),
    {
        match self.get(key) {
            Some(Json::Unsigned(n)) => Some(*n),
            Some(Json::Integer(n)) => if *n >= 0 {
                Some(*n as u64)
            } else {
                None
            },
            _ => None,
        }
    }

    /// The truth value under a key, where there is one.
    pub fn flag_at(&self, key: &str) -> (flag: Option<bool>)
        ensures
            flag == flag_field(self@, key@),
    {
        match self.get(key) {
            Some(Json::Bool(b)) => Some(*b),
            _ => None,
        }
    }

    /// A JSON text.
    pub fn text(text: &str) -> (json: Json)
        ensures
            json@ == JsonView::Text(text@),
    {
        Json::Text(text.to_owned())
    }

    /// A JSON text, or null where there is none.
    pub fn optional_text(text: &Option<String>) -> (json: Json)
        ensures
            json@ == optional(
                match *text {
                    Some(t) => Some(t@),
                    None => None,
                },
            ),
    {
        match text {
            Some(t) => Json::Text(t.clone()),
            None => Json::Null,
        }
    }

    /// A JSON array of texts.
    pub fn texts(texts: &Vec<String>) -> (json: Json)
        ensures
            json@ == text_array(names(texts@)),
    {
        let mut items: Vec<Json> = Vec::new();
        let mut i: usize = 0;
        while i < texts.len()
            invariant
                i <= texts@.len(),
                items@.len() == i,
                forall|k: int| 0 <= k < i ==> (#[trigger] items@[k])@ == JsonView::Text(texts@[k]@),
            decreases texts@.len() - i,
        {
            items.push(Json::Text(texts[i].clone()));
            i += 1;
        }
        let json = Json::Array(items);
        assert(json@->Array_0 =~= text_array(names(texts@))->Array_0);
        json
    }
}

/// Appends the members of an object to a list of keys and values.
fn push_entries(entries: &mut Vec<(String, serde_json::Value)>, members: &Vec<Member>)
    requires
        forall|i: int|
            0 <= i < pairs(members@).len() ==> distinct_keys((#[trigger] pairs(members@)[i]).value),
    ensures
        entry_views(final(entries)@) == entry_views(old(entries)@) + pairs(members@),
{
    let ghost before = entry_views(entries@);
    proof {
        lemma_object_view(*members);
    }
    let mut i: usize = 0;
    while i < members.len()
        invariant
            i <= members@.len(),
            forall|k: int|
                0 <= k < pairs(members@).len() ==> distinct_keys(
                    (#[trigger] pairs(members@)[k]).value,
                ),
            pairs(members@).len() == members@.len(),
            forall|k: int|
                0 <= k < members@.len() ==> #[trigger] pairs(members@)[k] == (MemberView {
                    key: members@[k].key@,
                    value: members@[k].value@,
                }),
            entry_views(entries@) == before + pairs(members@).take(i as int),
        decreases members@.len() - i,
    {
        let ghost so_far = entries@;
        assert(pairs(members@)[i as int].value == members@[i as int].value@);
        entries.push((members[i].key.clone(), value_from_json(&members[i].value)));
        assert(entry_views(entries@) =~= entry_views(so_far).push(pairs(members@)[i as int]));
        assert(pairs(members@).take(i + 1) =~= pairs(members@).take(i as int).push(
            pairs(members@)[i as int],
        ));
        i += 1;
    }
    assert(pairs(members@).take(i as int) =~= pairs(members@));
}

/// The members of an object under construction.
pub struct Fields {
    members: Vec<Member>,
}

impl View for Fields {
    type V = Seq<MemberView>;

    closed spec fn view(&self) -> Seq<MemberView> {
        pairs(self.members@)
    }
}

impl Fields {
    /// No members.
    pub fn new() -> (fields: Fields)
        ensures
            fields@ == Seq::<MemberView>::empty(),
    {
        let fields = Fields { members: Vec::new() };
        assert(fields@ =~= Seq::empty());
        fields
    }

    /// One member more, after the others.
    pub fn with(self, key: &str, value: Json) -> (fields: Fields)
        ensures
            fields@ == self@.push(MemberView { key: key@, value: value@ }),
    {
        let mut members = self.members;
        members.push(Member { key: key.to_owned(), value });
        let fields = Fields { members };
        assert(fields@ =~= self@.push(MemberView { key: key@, value: value@ }));
        fields
    }

    /// The compact text of the object that has these members and then those of
    /// another object, or of none where `more` is null. `None` where `more` is
    /// anything else.
    pub fn render_with(self, more: &Json) -> (text: Option<String>)
        requires
            forall|i: int| 0 <= i < self@.len() ==> distinct_keys((#[trigger] self@[i]).value),
            distinct_keys(more@),
        ensures
            match more@ {
                JsonView::Object(members) => text matches Some(t) && t@ == json_text(
                    JsonView::Object(self@ + members),
                ),
                JsonView::Null => text matches Some(t) && t@ == json_text(JsonView::Object(self@)),
                _ => text is None,
            },
            text matches Some(t) ==> one_line(t@),
    {
        let mut entries: Vec<(String, serde_json::Value)> = Vec::new();
        proof {
            lemma_object_view(self.members);
        }
        push_entries(&mut entries, &self.members);
        assert(entry_views(entries@) =~= self@);
        match more {
            Json::Object(members) => {
                proof {
                    lemma_object_view(*members);
                }
                push_entries(&mut entries, members);
                Some(entries_to_string(entries))
            },
            Json::Null => Some(entries_to_string(entries)),
            _ => None,
        }
    }

    /// The object with these members.
    pub fn object(self) -> (json: Json)
        ensures
            json@ == JsonView::Object(self@),
    {
        proof {
            lemma_object_view(self.members);
        }
        Json::Object(self.members)
    }
}

} // verus!
