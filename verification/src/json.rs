//! JSON values as plain data, and the two calls that turn them into text and
//! back.

use crate::text::comes_before;
use crate::views;
use vstd::prelude::*;

verus! {

/// A parsed JSON value.
///
/// An object is a list of entries; where a key occurs twice the later entry is
/// the one that counts. Numbers are carried as the JSON library holds them.
#[derive(Debug, PartialEq, Eq)]
pub enum Json {
    /// `null`.
    Null,
    /// `true` or `false`.
    Bool(bool),
    /// A number.
    Number(serde_json::Number),
    /// A string.
    Text(String),
    /// An array.
    Array(Vec<Json>),
    /// An object.
    Object(Vec<(String, Json)>),
}

/// What a [`Json`] value stands for.
#[verifier::ext_equal]
pub enum JsonView {
    /// `null`.
    Null,
    /// `true` or `false`.
    Bool(bool),
    /// A non-negative integer that fits in 64 bits.
    Unsigned(u64),
    /// Any other number (negative or fractional).
    OtherNumber(serde_json::Number),
    /// A string.
    Text(Seq<char>),
    /// An array.
    Array(Seq<JsonView>),
    /// An object.
    Object(Map<Seq<char>, JsonView>),
}

/// The JSON library's number.
#[verifier::external_type_specification]
#[verifier::external_body]
pub struct ExNumber(serde_json::Number);

/// The JSON library's value.
#[verifier::external_type_specification]
#[verifier::external_body]
pub struct ExValue(serde_json::Value);

/// What `serde_json::Number::as_u64` returns.
pub uninterp spec fn number_u64(n: serde_json::Number) -> Option<u64>;

/// What a `serde_json::Number` stands for.
pub open spec fn number_view(n: serde_json::Number) -> JsonView {
    match number_u64(n) {
        Some(u) => JsonView::Unsigned(u),
        None => JsonView::OtherNumber(n),
    }
}

/// What a `serde_json::Value` stands for.
pub uninterp spec fn value_view(v: serde_json::Value) -> JsonView;

impl Json {
    /// What this value stands for.
    pub open spec fn model(self) -> JsonView
        decreases self,
    {
        match self {
            Json::Null => JsonView::Null,
            Json::Bool(b) => JsonView::Bool(b),
            Json::Number(n) => number_view(n),
            Json::Text(s) => JsonView::Text(s@),
            Json::Array(items) => JsonView::Array(
                Seq::new(
                    items@.len(),
                    |i: int|
                        if 0 <= i < items@.len() {
                            items@[i].model()
                        } else {
                            JsonView::Null
                        },
                ),
            ),
            Json::Object(entries) => JsonView::Object(Json::entries_model(entries@)),
        }
    }

    /// The mapping that a list of entries stands for.
    pub open spec fn entries_model(entries: Seq<(String, Json)>) -> Map<Seq<char>, JsonView>
        decreases entries,
    {
        if entries.len() == 0 {
            Map::empty()
        } else {
            let last = entries.last();
            Json::entries_model(entries.drop_last()).insert(last.0@, last.1.model())
        }
    }
}

impl View for Json {
    type V = JsonView;

    open spec fn view(&self) -> JsonView {
        self.model()
    }
}


/// One level of a JSON value: what is at its root, with the values below it
/// still as the JSON library holds them.
enum Shape {
    Null,
    Bool(bool),
    Number(serde_json::Number),
    Text(String),
    Array(Vec<serde_json::Value>),
    Object(Vec<(String, serde_json::Value)>),
}

/// The mapping that a list of entries stands for, the values being the JSON
/// library's own.
spec fn members_model(members: Seq<(String, serde_json::Value)>) -> Map<Seq<char>, JsonView>
    decreases members.len(),
{
    if members.len() == 0 {
        Map::empty()
    } else {
        let last = members.last();
        members_model(members.drop_last()).insert(last.0@, value_view(last.1))
    }
}

impl Shape {
    spec fn model(self) -> JsonView {
        match self {
            Shape::Null => JsonView::Null,
            Shape::Bool(b) => JsonView::Bool(b),
            Shape::Number(n) => number_view(n),
            Shape::Text(s) => JsonView::Text(s@),
            Shape::Array(items) => JsonView::Array(
                items@.map_values(|v: serde_json::Value| value_view(v)),
            ),
            Shape::Object(members) => JsonView::Object(members_model(members@)),
        }
    }

    spec fn keys_differ(self) -> bool {
        self matches Shape::Object(members) ==> forall|i: int, j: int|
            0 <= i < j < members@.len() ==> (#[trigger] members@[i]).0@ != (
            #[trigger] members@[j]).0@
    }
}

/// Matches on `serde_json::Value`: the root of the value, and the values
/// directly below it. No key of an object comes twice.
#[verifier::external_body]
fn open_value(value: serde_json::Value) -> (shape: Shape)
    ensures
        shape.model() == value_view(value),
        shape.keys_differ(),
{
    match value {
        serde_json::Value::Null => Shape::Null,
        serde_json::Value::Bool(b) => Shape::Bool(b),
        serde_json::Value::Number(n) => Shape::Number(n),
        serde_json::Value::String(s) => Shape::Text(s),
        serde_json::Value::Array(items) => Shape::Array(items),
        serde_json::Value::Object(members) => Shape::Object(members.into_iter().collect()),
    }
}

/// Builds the `serde_json::Value` with this root. Of two entries of an object
/// with one key, `serde_json::Map` keeps the later.
#[verifier::external_body]
fn close_value(shape: Shape) -> (value: serde_json::Value)
    ensures
        value_view(value) == shape.model(),
{
    match shape {
        Shape::Null => serde_json::Value::Null,
        Shape::Bool(b) => serde_json::Value::Bool(b),
        Shape::Number(n) => serde_json::Value::Number(n),
        Shape::Text(s) => serde_json::Value::String(s),
        Shape::Array(items) => serde_json::Value::Array(items),
        Shape::Object(members) => serde_json::Value::Object(members.into_iter().collect()),
    }
}

/// `serde_json::Number::as_u64`: the number as a `u64`, where it is a
/// non-negative integer of that range.
#[verifier::external_body]
fn number_as_u64(n: &serde_json::Number) -> (value: Option<u64>)
    ensures
        value == number_u64(*n),
{
    n.as_u64()
}

/// `serde_json::Number::from` on a `u64`: the number that `as_u64` reads back.
#[verifier::external_body]
fn number_from_u64(u: u64) -> (n: serde_json::Number)
    ensures
        number_u64(n) == Some(u),
{
    serde_json::Number::from(u)
}

/// `serde_json::Number`'s `clone`: the same number.
pub assume_specification[ <serde_json::Number as Clone>::clone ](
    n: &serde_json::Number,
) -> (copy: serde_json::Number)
    ensures
        copy == *n,
;

/// What `serde_json` reads a text as: the value, or the message of its error.
pub uninterp spec fn json_of_text(text: Seq<char>) -> Result<JsonView, Seq<char>>;

/// What `serde_json` reads bytes as: the value, or the message of its error.
pub uninterp spec fn json_of_bytes(bytes: Seq<u8>) -> Result<JsonView, Seq<char>>;

/// How `serde_json` writes a value (compact form).
pub uninterp spec fn text_of_json(value: JsonView) -> Seq<char>;

/// `serde_json::from_str` into a `serde_json::Value`, the error as its message.
#[verifier::external_body]
fn read_value(text: &str) -> (value: Result<serde_json::Value, String>)
    ensures
        json_of_text(text@) == (match value {
            Ok(v) => Ok::<JsonView, Seq<char>>(value_view(v)),
            Err(message) => Err(message@),
        }),
{
    serde_json::from_str(text).map_err(|e| e.to_string())
}

/// `serde_json::from_slice` into a `serde_json::Value`, the error as its message.
#[verifier::external_body]
fn read_value_bytes(bytes: &[u8]) -> (value: Result<serde_json::Value, String>)
    ensures
        json_of_bytes(bytes@) == (match value {
            Ok(v) => Ok::<JsonView, Seq<char>>(value_view(v)),
            Err(message) => Err(message@),
        }),
{
    serde_json::from_slice(bytes).map_err(|e| e.to_string())
}

/// `serde_json::Value`'s `to_string`.
#[verifier::external_body]
fn write_value(value: &serde_json::Value) -> (text: String)
    ensures
        text@ == text_of_json(value_view(*value)),
{
    value.to_string()
}

/// The entry at `i` counts where no later one has its key.
proof fn lemma_last_entry_counts(entries: Seq<(String, Json)>, i: int)
    requires
        0 <= i < entries.len(),
        forall|j: int| i < j < entries.len() ==> (#[trigger] entries[j]).0@ != entries[i].0@,
    ensures
        Json::entries_model(entries).contains_key(entries[i].0@),
        Json::entries_model(entries)[entries[i].0@] == entries[i].1@,
    decreases entries.len(),
{
    if i < entries.len() - 1 {
        let shorter = entries.drop_last();
        assert forall|j: int| i < j < shorter.len() implies (#[trigger] shorter[j]).0@
            != shorter[i].0@ by {
            assert(entries[j].0@ != entries[i].0@);
        }
        lemma_last_entry_counts(shorter, i);
        assert(entries[entries.len() - 1].0@ != entries[i].0@);
    }
}

/// A key that no entry has is not in the mapping.
proof fn lemma_missing_key(entries: Seq<(String, Json)>, key: Seq<char>)
    requires
        forall|j: int| 0 <= j < entries.len() ==> (#[trigger] entries[j]).0@ != key,
    ensures
        !Json::entries_model(entries).contains_key(key),
    decreases entries.len(),
{
    if entries.len() > 0 {
        let shorter = entries.drop_last();
        assert forall|j: int| 0 <= j < shorter.len() implies (#[trigger] shorter[j]).0@ != key by {
            assert(entries[j].0@ != key);
        }
        lemma_missing_key(shorter, key);
        assert(entries[entries.len() - 1].0@ != key);
    }
}

/// Replacing the entry that counts for a key changes that key alone.
proof fn lemma_replaced_entry(entries: Seq<(String, Json)>, i: int, entry: (String, Json))
    requires
        0 <= i < entries.len(),
        entry.0@ == entries[i].0@,
        forall|j: int| i < j < entries.len() ==> (#[trigger] entries[j]).0@ != entries[i].0@,
    ensures
        Json::entries_model(entries.update(i, entry)) == Json::entries_model(entries).insert(
            entry.0@,
            entry.1@,
        ),
    decreases entries.len(),
{
    let changed = entries.update(i, entry);
    let shorter = entries.drop_last();
    if i < entries.len() - 1 {
        assert forall|j: int| i < j < shorter.len() implies (#[trigger] shorter[j]).0@
            != shorter[i].0@ by {
            assert(entries[j].0@ != entries[i].0@);
        }
        lemma_replaced_entry(shorter, i, entry);
        assert(changed.drop_last() =~= shorter.update(i, entry));
        assert(entries[entries.len() - 1].0@ != entries[i].0@);
        assert(Json::entries_model(changed) =~= Json::entries_model(entries).insert(
            entry.0@,
            entry.1@,
        ));
    } else {
        assert(changed.drop_last() =~= shorter);
        assert(Json::entries_model(changed) =~= Json::entries_model(entries).insert(
            entry.0@,
            entry.1@,
        ));
    }
}

/// An entry with a new key can go in anywhere.
proof fn lemma_inserted_entry(entries: Seq<(String, Json)>, i: int, entry: (String, Json))
    requires
        0 <= i <= entries.len(),
        forall|j: int| 0 <= j < entries.len() ==> (#[trigger] entries[j]).0@ != entry.0@,
    ensures
        Json::entries_model(entries.insert(i, entry)) == Json::entries_model(entries).insert(
            entry.0@,
            entry.1@,
        ),
    decreases entries.len(),
{
    let changed = entries.insert(i, entry);
    if i < entries.len() {
        let shorter = entries.drop_last();
        assert forall|j: int| 0 <= j < shorter.len() implies (#[trigger] shorter[j]).0@
            != entry.0@ by {
            assert(entries[j].0@ != entry.0@);
        }
        lemma_inserted_entry(shorter, i, entry);
        assert(changed.drop_last() =~= shorter.insert(i, entry));
        assert(entries[entries.len() - 1].0@ != entry.0@);
        assert(Json::entries_model(changed) =~= Json::entries_model(entries).insert(
            entry.0@,
            entry.1@,
        ));
    } else {
        assert(changed.drop_last() =~= entries);
    }
}

impl Json {
    /// The value below `key`, where this is an object that has it.
    pub fn get(&self, key: &str) -> (value: Option<&Json>)
        ensures
            match value {
                Some(v) => self@.member(key@) == Some(v@),
                None => self@.member(key@) is None,
            },
    {
        match self {
            Json::Object(entries) => {
                let mut i: usize = entries.len();
                while i > 0
                    invariant
                        i <= entries@.len(),
                        *self == Json::Object(*entries),
                        forall|j: int|
                            i <= j < entries@.len() ==> (#[trigger] entries@[j]).0@ != key@,
                    decreases i,
                {
                    i = i - 1;
                    if *entries[i].0.as_str() == *key {
                        proof {
                            lemma_last_entry_counts(entries@, i as int);
                        }
                        return Some(&entries[i].1);
                    }
                }
                proof {
                    lemma_missing_key(entries@, key@);
                }
                None
            },
            _ => None,
        }
    }
}

impl JsonView {
    /// The value below `key`, where this is an object that has it.
    pub open spec fn member(self, key: Seq<char>) -> Option<JsonView> {
        match self {
            JsonView::Object(members) => if members.contains_key(key) {
                Some(members[key])
            } else {
                None
            },
            _ => None,
        }
    }

    /// The element at position `i`, where this is an array that has it.
    pub open spec fn element(self, i: int) -> Option<JsonView> {
        match self {
            JsonView::Array(items) => if 0 <= i < items.len() {
                Some(items[i])
            } else {
                None
            },
            _ => None,
        }
    }

    /// The string, where this is one.
    pub open spec fn text(self) -> Option<Seq<char>> {
        match self {
            JsonView::Text(s) => Some(s),
            _ => None,
        }
    }

    /// The number as a `u64`, where it is one.
    pub open spec fn unsigned(self) -> Option<u64> {
        match self {
            JsonView::Unsigned(n) => Some(n),
            _ => None,
        }
    }

    /// The elements, where this is an array.
    pub open spec fn elements(self) -> Option<Seq<JsonView>> {
        match self {
            JsonView::Array(items) => Some(items),
            _ => None,
        }
    }

    /// The string below `key`.
    pub open spec fn text_at(self, key: Seq<char>) -> Option<Seq<char>> {
        match self.member(key) {
            Some(v) => v.text(),
            None => None,
        }
    }

    /// The `u64` below `key`.
    pub open spec fn unsigned_at(self, key: Seq<char>) -> Option<u64> {
        match self.member(key) {
            Some(v) => v.unsigned(),
            None => None,
        }
    }

    /// The elements of the array below `key`.
    pub open spec fn elements_at(self, key: Seq<char>) -> Option<Seq<JsonView>> {
        match self.member(key) {
            Some(v) => v.elements(),
            None => None,
        }
    }

    /// A part of a record: below `key` in an object, or at `position` in an array
    /// that lists the parts in order.
    pub open spec fn part(self, key: Seq<char>, position: int) -> Option<JsonView> {
        match self {
            JsonView::Array(_) => self.element(position),
            _ => self.member(key),
        }
    }

    /// The string that is a part of a record.
    pub open spec fn text_part(self, key: Seq<char>, position: int) -> Option<Seq<char>> {
        match self.part(key, position) {
            Some(v) => v.text(),
            None => None,
        }
    }

    /// Whether a record has at most `count` parts, where it lists them in order.
    pub open spec fn fits(self, count: int) -> bool {
        match self {
            JsonView::Array(items) => items.len() <= count,
            _ => true,
        }
    }

    /// This value with one more member, where it is an object.
    pub open spec fn with_member(self, key: Seq<char>, value: JsonView) -> JsonView {
        match self {
            JsonView::Object(members) => JsonView::Object(members.insert(key, value)),
            other => other,
        }
    }

    /// The value two levels down: below `inner` in what is below `outer`.
    pub open spec fn member_in(self, outer: Seq<char>, inner: Seq<char>) -> Option<JsonView> {
        match self.member(outer) {
            Some(v) => v.member(inner),
            None => None,
        }
    }
}

/// What an optional value stands for.
pub open spec fn json_option(value: Option<&Json>) -> Option<JsonView> {
    match value {
        Some(v) => Some(v@),
        None => None,
    }
}

/// What an optional text holds.
pub open spec fn text_option(value: Option<&str>) -> Option<Seq<char>> {
    match value {
        Some(s) => Some(s@),
        None => None,
    }
}

impl JsonView {
    /// The text, or nothing where there is none.
    pub open spec fn text_or_empty(text: Option<Seq<char>>) -> Seq<char> {
        match text {
            Some(s) => s,
            None => Seq::empty(),
        }
    }
}

/// The text, or nothing where there is none.
pub(crate) fn text_or_empty(text: Option<&str>) -> (s: String)
    ensures
        s@ == JsonView::text_or_empty(text_option(text)),
{
    match text {
        Some(t) => t.to_owned(),
        None => {
            let empty = String::new();
            assert(empty@ =~= Seq::empty());
            empty
        },
    }
}

/// An optional text, owned.
pub(crate) fn owned(text: Option<&str>) -> (s: Option<String>)
    ensures
        views::optional(s) == text_option(text),
{
    match text {
        Some(t) => Some(t.to_owned()),
        None => None,
    }
}

impl Json {
    /// The string, where this is one.
    pub fn as_str(&self) -> (text: Option<&str>)
        ensures
            text_option(text) == self@.text(),
    {
        match self {
            Json::Text(s) => Some(s.as_str()),
            _ => None,
        }
    }

    /// The number as a `u64`, where it is a non-negative integer of that range.
    pub fn as_u64(&self) -> (n: Option<u64>)
        ensures
            n == self@.unsigned(),
    {
        match self {
            Json::Number(n) => number_as_u64(n),
            _ => None,
        }
    }

    /// The elements, where this is an array.
    pub fn as_array(&self) -> (items: Option<&Vec<Json>>)
        ensures
            match items {
                Some(v) => self@.elements() == Some(views::each(v@)),
                None => self@.elements() is None,
            },
    {
        match self {
            Json::Array(items) => {
                assert(self@->Array_0 =~= views::each(items@));
                Some(items)
            },
            _ => None,
        }
    }

    /// Whether this is `null`.
    pub fn is_null(&self) -> (null: bool)
        ensures
            null == (self@ == JsonView::Null),
    {
        match self {
            Json::Null => true,
            _ => false,
        }
    }

    /// The element at position `i`, where this is an array that has it.
    pub fn at(&self, i: usize) -> (value: Option<&Json>)
        ensures
            json_option(value) == self@.element(i as int),
    {
        match self {
            Json::Array(items) => if i < items.len() {
                Some(&items[i])
            } else {
                None
            },
            _ => None,
        }
    }

    /// The string below `key`.
    pub fn str_at(&self, key: &str) -> (text: Option<&str>)
        ensures
            text_option(text) == self@.text_at(key@),
    {
        match self.get(key) {
            Some(v) => v.as_str(),
            None => None,
        }
    }

    /// A part of a record, by `key` or by `position`.
    pub fn part(&self, key: &str, position: usize) -> (value: Option<&Json>)
        ensures
            json_option(value) == self@.part(key@, position as int),
    {
        match self {
            Json::Array(_) => self.at(position),
            _ => self.get(key),
        }
    }

    /// The string that is a part of a record.
    pub fn str_part(&self, key: &str, position: usize) -> (text: Option<&str>)
        ensures
            text_option(text) == self@.text_part(key@, position as int),
    {
        match self.part(key, position) {
            Some(v) => v.as_str(),
            None => None,
        }
    }

    /// Whether a record has at most `count` parts, where it lists them in order.
    pub fn fits(&self, count: usize) -> (fits: bool)
        ensures
            fits == self@.fits(count as int),
    {
        match self {
            Json::Array(items) => items.len() <= count,
            _ => true,
        }
    }

    /// Whether this is an array.
    pub fn is_array(&self) -> (array: bool)
        ensures
            array == (self@ is Array),
    {
        match self {
            Json::Array(_) => true,
            _ => false,
        }
    }

    /// The `u64` below `key`.
    pub fn u64_at(&self, key: &str) -> (n: Option<u64>)
        ensures
            n == self@.unsigned_at(key@),
    {
        match self.get(key) {
            Some(v) => v.as_u64(),
            None => None,
        }
    }

    /// The elements of the array below `key`.
    pub fn array_at(&self, key: &str) -> (items: Option<&Vec<Json>>)
        ensures
            match items {
                Some(v) => self@.elements_at(key@) == Some(views::each(v@)),
                None => self@.elements_at(key@) is None,
            },
    {
        match self.get(key) {
            Some(v) => v.as_array(),
            None => None,
        }
    }

    /// The value below `inner` in what is below `outer`.
    pub fn get_in(&self, outer: &str, inner: &str) -> (value: Option<&Json>)
        ensures
            json_option(value) == self@.member_in(outer@, inner@),
    {
        match self.get(outer) {
            Some(v) => v.get(inner),
            None => None,
        }
    }

    /// A string value.
    pub fn text(s: &str) -> (json: Json)
        ensures
            json@ == JsonView::Text(s@),
    {
        Json::Text(s.to_owned())
    }

    /// A number value.
    pub fn unsigned(n: u64) -> (json: Json)
        ensures
            json@ == JsonView::Unsigned(n),
    {
        Json::Number(number_from_u64(n))
    }

    /// The object without members.
    pub fn empty_object() -> (json: Json)
        ensures
            json@ == JsonView::Object(Map::empty()),
    {
        let entries: Vec<(String, Json)> = Vec::new();
        assert(Json::entries_model(entries@) =~= Map::empty());
        Json::Object(entries)
    }

    /// An array value.
    pub fn array(items: Vec<Json>) -> (json: Json)
        ensures
            json@ == JsonView::Array(views::each(items@)),
    {
        let json = Json::Array(items);
        assert(json@->Array_0 =~= views::each(items@));
        json
    }

    /// An object with one member.
    pub fn object1(key: &str, value: Json) -> (json: Json)
        ensures
            json@ == JsonView::Object(map![key@ => value@]),
    {
        let mut members = Members::new();
        members.put(key, value);
        members.into_json()
    }

    /// An object with two members, set in this order.
    pub fn object2(
        k1: &str,
        v1: Json,
        k2: &str,
        v2: Json,
    ) -> (json: Json)
        ensures
            json@ == JsonView::Object(map![k1@ => v1@, k2@ => v2@]),
    {
        let mut members = Members::new();
        members.put(k1, v1);
        members.put(k2, v2);
        members.into_json()
    }

    /// An object with three members, set in this order.
    pub fn object3(
        k1: &str,
        v1: Json,
        k2: &str,
        v2: Json,
        k3: &str,
        v3: Json,
    ) -> (json: Json)
        ensures
            json@ == JsonView::Object(map![k1@ => v1@, k2@ => v2@, k3@ => v3@]),
    {
        let mut members = Members::new();
        members.put(k1, v1);
        members.put(k2, v2);
        members.put(k3, v3);
        members.into_json()
    }

    /// An object with four members, set in this order.
    pub fn object4(
        k1: &str,
        v1: Json,
        k2: &str,
        v2: Json,
        k3: &str,
        v3: Json,
        k4: &str,
        v4: Json,
    ) -> (json: Json)
        ensures
            json@ == JsonView::Object(map![k1@ => v1@, k2@ => v2@, k3@ => v3@, k4@ => v4@]),
    {
        let mut members = Members::new();
        members.put(k1, v1);
        members.put(k2, v2);
        members.put(k3, v3);
        members.put(k4, v4);
        members.into_json()
    }

    /// This value with one more member, where it is an object.
    pub fn with_member(self, key: &str, value: Json) -> (json: Json)
        ensures
            json@ == self@.with_member(key@, value@),
    {
        match self {
            Json::Object(entries) => {
                let mut members = Members { entries };
                members.put(key, value);
                members.into_json()
            },
            other => other,
        }
    }

    /// An array of strings.
    pub fn texts(parts: &Vec<String>) -> (json: Json)
        ensures
            json@ == JsonView::Array(text_views(views::each(parts@))),
    {
        let mut items: Vec<Json> = Vec::new();
        let mut i: usize = 0;
        while i < parts.len()
            invariant
                i <= parts@.len(),
                views::each(items@) == text_views(views::each(parts@)).take(i as int),
            decreases parts@.len() - i,
        {
            let ghost before = items@;
            items.push(Json::Text(parts[i].clone()));
            proof {
                assert(views::each(items@) =~= views::each(before).push(items@.last()@));
                assert(text_views(views::each(parts@)).take(i + 1) =~= text_views(views::each(parts@)).take(
                    i as int,
                ).push(JsonView::Text(parts@[i as int]@)));
            }
            i = i + 1;
        }
        assert(text_views(views::each(parts@)).take(i as int) =~= text_views(views::each(parts@)));
        Json::array(items)
    }

    /// Reads a JSON text; the error is the parser's message.
    pub fn parse(text: &str) -> (json: Result<Json, String>)
        ensures
            json_of_text(text@) == (match json {
                Ok(v) => Ok::<JsonView, Seq<char>>(v@),
                Err(message) => Err(message@),
            }),
    {
        match read_value(text) {
            Ok(value) => Ok(Json::from_value(value)),
            Err(message) => Err(message),
        }
    }

    /// Reads JSON bytes; the error is the parser's message.
    pub fn parse_bytes(bytes: &[u8]) -> (json: Result<Json, String>)
        ensures
            json_of_bytes(bytes@) == (match json {
                Ok(v) => Ok::<JsonView, Seq<char>>(v@),
                Err(message) => Err(message@),
            }),
    {
        match read_value_bytes(bytes) {
            Ok(value) => Ok(Json::from_value(value)),
            Err(message) => Err(message),
        }
    }

    /// Writes this value as compact JSON text.
    pub fn render(&self) -> (text: String)
        ensures
            text@ == text_of_json(self@),
    {
        write_value(&self.to_value())
    }
}

/// The string values of a list of texts.
pub open spec fn text_views(parts: Seq<Seq<char>>) -> Seq<JsonView> {
    parts.map_values(|s: Seq<char>| JsonView::Text(s))
}

/// The members of an object, while it is being built. They are kept in the
/// order of their keys.
#[derive(Debug, PartialEq, Eq)]
pub struct Members {
    entries: Vec<(String, Json)>,
}

impl View for Members {
    type V = Map<Seq<char>, JsonView>;

    closed spec fn view(&self) -> Map<Seq<char>, JsonView> {
        Json::entries_model(self.entries@)
    }
}

impl Members {
    /// No members.
    pub fn new() -> (members: Members)
        ensures
            members@ == Map::<Seq<char>, JsonView>::empty(),
    {
        Members { entries: Vec::new() }
    }

    /// Sets the value below `key`.
    pub fn put(&mut self, key: &str, value: Json)
        ensures
            final(self)@ == old(self)@.insert(key@, value@),
    {
        let ghost all = self.entries@;
        let mut i: usize = self.entries.len();
        while i > 0
            invariant
                self.entries@ == all,
                all == old(self).entries@,
                i <= all.len(),
                forall|j: int| i <= j < all.len() ==> (#[trigger] all[j]).0@ != key@,
            decreases i,
        {
            i = i - 1;
            if *self.entries[i].0.as_str() == *key {
                let entry = (key.to_owned(), value);
                proof {
                    lemma_replaced_entry(all, i as int, entry);
                }
                self.entries.set(i, entry);
                return ;
            }
        }
        let mut place: usize = 0;
        while place < self.entries.len() && comes_before(self.entries[place].0.as_str(), key)
            invariant
                self.entries@ == all,
                place <= all.len(),
            decreases all.len() - place,
        {
            place = place + 1;
        }
        let entry = (key.to_owned(), value);
        proof {
            lemma_inserted_entry(all, place as int, entry);
        }
        self.entries.insert(place, entry);
    }

    /// Sets every member of `other`, in its order.
    pub fn put_all(&mut self, other: &Members)
        ensures
            final(self)@ == old(self)@.union_prefer_right(other@),
    {
        let ghost start = self@;
        let mut i: usize = 0;
        assert(Json::entries_model(other.entries@.take(0)) =~= Map::empty());
        assert(start.union_prefer_right(Map::empty()) =~= start);
        while i < other.entries.len()
            invariant
                i <= other.entries@.len(),
                self@ == start.union_prefer_right(
                    Json::entries_model(other.entries@.take(i as int)),
                ),
            decreases other.entries@.len() - i,
        {
            let ghost part = Json::entries_model(other.entries@.take(i as int));
            self.put(other.entries[i].0.as_str(), other.entries[i].1.clone());
            proof {
                let entry = other.entries@[i as int];
                assert(other.entries@.take(i + 1).drop_last() =~= other.entries@.take(i as int));
                assert(start.union_prefer_right(part).insert(entry.0@, entry.1@)
                    =~= start.union_prefer_right(part.insert(entry.0@, entry.1@)));
            }
            i = i + 1;
        }
        assert(other.entries@.take(i as int) =~= other.entries@);
    }

    /// The object with these members.
    pub fn into_json(self) -> (json: Json)
        ensures
            json@ == JsonView::Object(self@),
    {
        Json::Object(self.entries)
    }
}

impl Clone for Members {
    fn clone(&self) -> (copy: Self)
        ensures
            copy@ == self@,
    {
        let mut copy = Members::new();
        copy.put_all(self);
        assert(Map::<Seq<char>, JsonView>::empty().union_prefer_right(self@) =~= self@);
        copy
    }
}

impl Json {
    /// A value that stands for the same as this one.
    fn copied(&self) -> (copy: Json)
        ensures
            copy@ == self@,
        decreases self,
    {
        match self {
            Json::Null => Json::Null,
            Json::Bool(b) => Json::Bool(*b),
            Json::Number(n) => Json::Number(n.clone()),
            Json::Text(s) => Json::Text(s.clone()),
            Json::Array(items) => {
                let mut out: Vec<Json> = Vec::new();
                let mut i: usize = 0;
                while i < items.len()
                    invariant
                        i <= items@.len(),
                        out@.len() == i,
                        *self == Json::Array(*items),
                        forall|j: int| 0 <= j < i ==> (#[trigger] out@[j])@ == items@[j]@,
                    decreases items@.len() - i,
                {
                    assert(decreases_to!(*self => self->Array_0));
                    assert(decreases_to!(self->Array_0 => items@[i as int]));
                    out.push(items[i].copied());
                    i = i + 1;
                }
                let copy = Json::Array(out);
                assert(copy@->Array_0 =~= self@->Array_0);
                copy
            },
            Json::Object(entries) => {
                let mut out: Vec<(String, Json)> = Vec::new();
                let mut i: usize = 0;
                while i < entries.len()
                    invariant
                        i <= entries@.len(),
                        out@.len() == i,
                        *self == Json::Object(*entries),
                        Json::entries_model(out@) == Json::entries_model(entries@.take(i as int)),
                    decreases entries@.len() - i,
                {
                    let ghost before = out@;
                    assert(decreases_to!(*self => self->Object_0));
                    assert(decreases_to!(self->Object_0 => entries@[i as int]));
                    assert(decreases_to!(entries@[i as int] => entries@[i as int].1));
                    out.push((entries[i].0.clone(), entries[i].1.copied()));
                    proof {
                        assert(out@.drop_last() =~= before);
                        assert(entries@.take(i + 1).drop_last() =~= entries@.take(i as int));
                    }
                    i = i + 1;
                }
                assert(entries@.take(i as int) =~= entries@);
                Json::Object(out)
            },
        }
    }

    /// The value that a `serde_json::Value` stands for.
    pub fn from_value(value: serde_json::Value) -> (json: Json)
        ensures
            json@ == value_view(value),
        decreases value_view(value),
    {
        let ghost model = value_view(value);
        match open_value(value) {
            Shape::Null => Json::Null,
            Shape::Bool(b) => Json::Bool(b),
            Shape::Number(n) => Json::Number(n),
            Shape::Text(s) => Json::Text(s),
            Shape::Array(items) => {
                let mut out: Vec<Json> = Vec::new();
                let ghost all = items@;
                for item in it: items
                    invariant
                        model == value_view(value),
                        model == JsonView::Array(
                            all.map_values(|v: serde_json::Value| value_view(v)),
                        ),
                        it.seq() == all,
                        out@.len() == it.index(),
                        forall|j: int|
                            0 <= j < out@.len() ==> (#[trigger] out@[j])@ == value_view(all[j]),
                {
                    assert(model->Array_0[it.index()] == value_view(all[it.index()]));
                    assert(decreases_to!(model => model->Array_0));
                    assert(decreases_to!(model->Array_0 => model->Array_0[it.index()]));
                    out.push(Json::from_value(item));
                }
                let json = Json::Array(out);
                assert(json@->Array_0 =~= model->Array_0);
                json
            },
            Shape::Object(members) => {
                let mut out: Vec<(String, Json)> = Vec::new();
                let ghost all = members@;
                for member in it: members
                    invariant
                        model == value_view(value),
                        model == JsonView::Object(members_model(all)),
                        forall|i: int, j: int|
                            0 <= i < j < all.len() ==> (#[trigger] all[i]).0@ != (
                            #[trigger] all[j]).0@,
                        it.seq() == all,
                        out@.len() == it.index(),
                        Json::entries_model(out@) == members_model(all.take(it.index())),
                {
                    proof {
                        lemma_member_counts(all, it.index());
                        assert(all[it.index()] == member);
                        assert(decreases_to!(model => model->Object_0));
                        assert(decreases_to!(model->Object_0 => model->Object_0[member.0@]));
                        assert(all.take(it.index() + 1).drop_last() =~= all.take(it.index()));
                    }
                    let ghost before = out@;
                    out.push((member.0, Json::from_value(member.1)));
                    assert(out@.drop_last() =~= before);
                }
                assert(all.take(all.len() as int) =~= all);
                Json::Object(out)
            },
        }
    }

    /// The `serde_json::Value` that stands for the same as this one.
    pub fn to_value(&self) -> (value: serde_json::Value)
        ensures
            value_view(value) == self@,
        decreases self,
    {
        match self {
            Json::Null => close_value(Shape::Null),
            Json::Bool(b) => close_value(Shape::Bool(*b)),
            Json::Number(n) => close_value(Shape::Number(n.clone())),
            Json::Text(s) => close_value(Shape::Text(s.clone())),
            Json::Array(items) => {
                let mut out: Vec<serde_json::Value> = Vec::new();
                let mut i: usize = 0;
                while i < items.len()
                    invariant
                        i <= items@.len(),
                        out@.len() == i,
                        *self == Json::Array(*items),
                        forall|j: int| 0 <= j < i ==> value_view(#[trigger] out@[j]) == items@[j]@,
                    decreases items@.len() - i,
                {
                    assert(decreases_to!(*self => self->Array_0));
                    assert(decreases_to!(self->Array_0 => items@[i as int]));
                    out.push(items[i].to_value());
                    i = i + 1;
                }
                let shape = Shape::Array(out);
                assert(shape.model()->Array_0 =~= self@->Array_0);
                close_value(shape)
            },
            Json::Object(entries) => {
                let mut out: Vec<(String, serde_json::Value)> = Vec::new();
                let mut i: usize = 0;
                while i < entries.len()
                    invariant
                        i <= entries@.len(),
                        out@.len() == i,
                        *self == Json::Object(*entries),
                        members_model(out@) == Json::entries_model(entries@.take(i as int)),
                    decreases entries@.len() - i,
                {
                    let ghost before = out@;
                    assert(decreases_to!(*self => self->Object_0));
                    assert(decreases_to!(self->Object_0 => entries@[i as int]));
                    assert(decreases_to!(entries@[i as int] => entries@[i as int].1));
                    out.push((entries[i].0.clone(), entries[i].1.to_value()));
                    proof {
                        assert(out@.drop_last() =~= before);
                        assert(entries@.take(i + 1).drop_last() =~= entries@.take(i as int));
                    }
                    i = i + 1;
                }
                assert(entries@.take(i as int) =~= entries@);
                close_value(Shape::Object(out))
            },
        }
    }
}

/// With distinct keys every member counts.
proof fn lemma_member_counts(members: Seq<(String, serde_json::Value)>, i: int)
    requires
        0 <= i < members.len(),
        forall|a: int, b: int|
            0 <= a < b < members.len() ==> (#[trigger] members[a]).0@ != (#[trigger] members[b]).0@,
    ensures
        members_model(members).dom().finite(),
        members_model(members).contains_key(members[i].0@),
        members_model(members)[members[i].0@] == value_view(members[i].1),
    decreases members.len(),
{
    let shorter = members.drop_last();
    assert(forall|a: int| 0 <= a < shorter.len() ==> shorter[a] == members[a]);
    if i < members.len() - 1 {
        lemma_member_counts(shorter, i);
    } else if members.len() > 1 {
        lemma_member_counts(shorter, 0);
    } else {
        assert(members_model(shorter) =~= Map::empty());
    }
}

impl Clone for Json {
    fn clone(&self) -> (copy: Self)
        ensures
            copy@ == self@,
    {
        self.copied()
    }
}

/// What an object holds below a key is read by that key, and as what it is: a text as
/// that text, a count as that count, a list as its elements, and nothing as any other.
pub proof fn a_member_is_read_as_what_it_is(
    members: Map<Seq<char>, JsonView>,
    key: Seq<char>,
    text: Seq<char>,
    n: u64,
    items: Seq<JsonView>,
)
    ensures
        !members.contains_key(key) ==> JsonView::Object(members).member(key) is None,
        members.contains_key(key) ==> JsonView::Object(members).member(key) == Some(members[key]),
        members.contains_key(key) && members[key] == JsonView::Text(text) ==> {
            &&& JsonView::Object(members).text_at(key) == Some(text)
            &&& JsonView::Object(members).unsigned_at(key) is None
            &&& JsonView::Object(members).elements_at(key) is None
        },
        members.contains_key(key) && members[key] == JsonView::Unsigned(n) ==> {
            &&& JsonView::Object(members).unsigned_at(key) == Some(n)
            &&& JsonView::Object(members).text_at(key) is None
        },
        members.contains_key(key) && members[key] == JsonView::Array(items) ==> {
            &&& JsonView::Object(members).elements_at(key) == Some(items)
            &&& JsonView::Object(members).text_at(key) is None
        },
        JsonView::Text(text).member(key) is None,
        JsonView::Array(items).member(key) is None,
        JsonView::Null.member(key) is None,
{
}

/// A member that is set reads back, and every other member stays as it was.
pub proof fn a_set_member_reads_back(
    members: Map<Seq<char>, JsonView>,
    key: Seq<char>,
    value: JsonView,
    other: Seq<char>,
)
    ensures
        JsonView::Object(members).with_member(key, value).member(key) == Some(value),
        other != key ==> JsonView::Object(members).with_member(key, value).member(other)
            == JsonView::Object(members).member(other),
{
}

/// A part of a record is read by its key in an object, and by its position in a list,
/// which must not hold more than there are parts.
pub proof fn a_part_is_read_by_key_or_position(
    members: Map<Seq<char>, JsonView>,
    items: Seq<JsonView>,
    key: Seq<char>,
    position: int,
    count: int,
)
    ensures
        JsonView::Object(members).part(key, position) == JsonView::Object(members).member(key),
        0 <= position < items.len() ==> JsonView::Array(items).part(key, position) == Some(
            items[position],
        ),
        position >= items.len() ==> JsonView::Array(items).part(key, position) is None,
        JsonView::Object(members).fits(count),
        JsonView::Array(items).fits(count) <==> items.len() <= count,
{
}

} // verus!
