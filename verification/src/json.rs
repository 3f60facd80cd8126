//! JSON values: a tree of the library's own beside `serde_json`'s reader and
//! printer.
use vstd::prelude::*;

use crate::order::less;
use crate::text::same;

verus! {

/// `serde_json`'s own value type.
#[verifier::external_type_specification]
#[verifier::external_body]
pub struct ExValue(serde_json::Value);

/// `serde_json`'s own number type.
#[verifier::external_type_specification]
#[verifier::external_body]
pub struct ExNumber(serde_json::Number);

/// `serde_json`'s own type of objects.
#[verifier::external_type_specification]
#[verifier::external_body]
#[verifier::reject_recursive_types(K)]
#[verifier::reject_recursive_types(V)]
pub struct ExMap<K, V>(serde_json::Map<K, V>);

/// The tree that a `serde_json::Value` holds.
pub uninterp spec fn value_tree(value: serde_json::Value) -> JsonView;

/// What `serde_json` reads out of a text: a tree, or the text of its complaint.
pub uninterp spec fn json_read(text: Seq<char>) -> Result<JsonView, Seq<char>>;

/// The entries that a `serde_json::Map` holds, in the order in which it hands them out.
pub uninterp spec fn map_held(
    map: serde_json::Map<String, serde_json::Value>,
) -> Seq<(Seq<char>, JsonView)>;

/// The compact text that `serde_json` prints for a tree.
pub uninterp spec fn json_text(tree: JsonView) -> Seq<char>;

/// A number that is no whole number of 64 bits, as `serde_json` holds it. One is made only
/// where a value with such a number is taken apart.
#[derive(Debug, PartialEq)]
pub struct OtherNumber {
    number: serde_json::Number,
}

/// A JSON number: a whole number of 64 bits, or any other number.
#[derive(Debug, PartialEq)]
pub enum JsonNumber {
    Unsigned(u64),
    Negative(i64),
    Other(OtherNumber),
}

/// A JSON value. An object's entries stand in order.
#[derive(Debug, PartialEq)]
pub enum Json {
    Null,
    Bool(bool),
    Number(JsonNumber),
    Text(String),
    Array(Vec<Json>),
    Object(Vec<(String, Json)>),
}

/// The model of a JSON number.
pub ghost enum NumberView {
    Unsigned(u64),
    Negative(i64),
    Other(OtherNumber),
}

/// The model of a JSON value.
pub ghost enum JsonView {
    Null,
    Bool(bool),
    Number(NumberView),
    Text(Seq<char>),
    Array(Seq<JsonView>),
    Object(Seq<(Seq<char>, JsonView)>),
}

impl DeepView for JsonNumber {
    type V = NumberView;

    open spec fn deep_view(&self) -> NumberView {
        match self {
            JsonNumber::Unsigned(n) => NumberView::Unsigned(*n),
            JsonNumber::Negative(n) => NumberView::Negative(*n),
            JsonNumber::Other(n) => NumberView::Other(*n),
        }
    }
}

/// The model of `json`.
pub open spec fn json_view(json: Json) -> JsonView
    decreases json,
{
    match json {
        Json::Null => JsonView::Null,
        Json::Bool(b) => JsonView::Bool(b),
        Json::Number(n) => JsonView::Number(n.deep_view()),
        Json::Text(t) => JsonView::Text(t@),
        Json::Array(items) => JsonView::Array(
            Seq::new(
                items@.len(),
                |i: int|
                    if 0 <= i < items@.len() {
                        json_view(items@[i])
                    } else {
                        JsonView::Null
                    },
            ),
        ),
        Json::Object(entries) => JsonView::Object(
            Seq::new(
                entries@.len(),
                |i: int|
                    if 0 <= i < entries@.len() {
                        (entries@[i].0@, json_view(entries@[i].1))
                    } else {
                        (Seq::empty(), JsonView::Null)
                    },
            ),
        ),
    }
}

impl DeepView for Json {
    type V = JsonView;

    open spec fn deep_view(&self) -> JsonView {
        json_view(*self)
    }
}

/// The model of an array is the array of its items' models.
pub broadcast proof fn json_view_array(items: Vec<Json>)
    ensures
        #[trigger] json_view(Json::Array(items)) == JsonView::Array(items.deep_view()),
{
    assert(json_view(Json::Array(items))->Array_0 =~= items.deep_view());
}

/// The model of an object is the object of its entries' models.
pub broadcast proof fn json_view_object(entries: Vec<(String, Json)>)
    ensures
        #[trigger] json_view(Json::Object(entries)) == JsonView::Object(entries.deep_view()),
{
    assert(json_view(Json::Object(entries))->Object_0 =~= entries.deep_view());
}

/// The models of arrays and objects.
pub broadcast group group_json_view {
    json_view_array,
    json_view_object,
}

/// One level of a `serde_json::Value`.
pub enum ValueNode {
    Null,
    Bool(bool),
    Number(JsonNumber),
    Text(String),
    Array(Vec<serde_json::Value>),
    Object(serde_json::Map<String, serde_json::Value>),
}

/// The tree whose top level is `node`.
pub open spec fn node_tree(node: ValueNode) -> JsonView {
    match node {
        ValueNode::Null => JsonView::Null,
        ValueNode::Bool(b) => JsonView::Bool(b),
        ValueNode::Number(n) => JsonView::Number(n.deep_view()),
        ValueNode::Text(t) => JsonView::Text(t@),
        ValueNode::Array(items) => JsonView::Array(
            Seq::new(items@.len(), |i: int| value_tree(items@[i])),
        ),
        ValueNode::Object(map) => JsonView::Object(map_held(map)),
    }
}

/// The entries that keys and values make up.
pub open spec fn pairs(entries: Seq<(String, serde_json::Value)>) -> Seq<(Seq<char>, JsonView)> {
    Seq::new(entries.len(), |i: int| (entries[i].0@, value_tree(entries[i].1)))
}

/// The entries, in the order of their keys, with another put in: in the place of the one
/// with its key, or else between those that go before it and those that do not.
pub open spec fn entry_put(
    entries: Seq<(Seq<char>, JsonView)>,
    item: (Seq<char>, JsonView),
) -> Seq<(Seq<char>, JsonView)>
    decreases entries.len(),
{
    if entries.len() == 0 || less(entries.last().0, item.0) {
        entries.push(item)
    } else if entries.last().0 == item.0 {
        entries.drop_last().push(item)
    } else {
        entry_put(entries.drop_last(), item).push(entries.last())
    }
}

/// The entries in the order of their keys, the last of those that share one.
pub open spec fn map_entries(entries: Seq<(Seq<char>, JsonView)>) -> Seq<(Seq<char>, JsonView)>
    decreases entries.len(),
{
    if entries.len() == 0 {
        Seq::empty()
    } else {
        entry_put(map_entries(entries.drop_last()), entries.last())
    }
}

/// Calls `serde_json::Map::new`. The contract claims that the map holds nothing.
#[verifier::external_body]
fn new_map() -> (map: serde_json::Map<String, serde_json::Value>)
    ensures
        map_held(map) == Seq::<(Seq<char>, JsonView)>::empty(),
{
    serde_json::Map::new()
}

/// Calls `serde_json::Map::insert`. The contract claims that the entry comes in the place of
/// the one with its key, and else among the others by the order of the keys: the map is a
/// `BTreeMap`, and strings are ordered by their characters.
#[verifier::external_body]
fn insert_entry(
    map: &mut serde_json::Map<String, serde_json::Value>,
    key: String,
    value: serde_json::Value,
)
    ensures
        map_held(*final(map)) == entry_put(map_held(*old(map)), (key@, value_tree(value))),
{
    map.insert(key, value);
}

/// Calls the `into_iter` of a `serde_json::Map`. The contract claims that it hands out the
/// entries that the map holds.
#[verifier::external_body]
fn map_items(
    map: serde_json::Map<String, serde_json::Value>,
) -> (entries: Vec<(String, serde_json::Value)>)
    ensures
        pairs(entries@) == map_held(map),
{
    map.into_iter().collect()
}

/// Takes the top level of a `serde_json::Value` apart by its variants; a number
/// by `Number::as_u64` and `Number::as_i64`. The contract claims that the parts make up
/// the value's tree.
#[verifier::external_body]
fn open_value(value: serde_json::Value) -> (node: ValueNode)
    ensures
        node_tree(node) == value_tree(value),
{
    match value {
        serde_json::Value::Null => ValueNode::Null,
        serde_json::Value::Bool(b) => ValueNode::Bool(b),
        serde_json::Value::Number(n) => match (n.as_u64(), n.as_i64()) {
            (Some(u), _) => ValueNode::Number(JsonNumber::Unsigned(u)),
            (None, Some(i)) => ValueNode::Number(JsonNumber::Negative(i)),
            (None, None) => ValueNode::Number(JsonNumber::Other(OtherNumber { number: n })),
        },
        serde_json::Value::String(s) => ValueNode::Text(s),
        serde_json::Value::Array(a) => ValueNode::Array(a),
        serde_json::Value::Object(m) => ValueNode::Object(m),
    }
}

/// A number as a `serde_json::Number` keeps it: a whole number that is not negative is
/// unsigned.
pub open spec fn number_form(n: NumberView) -> NumberView {
    match n {
        NumberView::Negative(k) if k >= 0 => NumberView::Unsigned(k as u64),
        other => other,
    }
}

/// Puts one level of a `serde_json::Value` together: `Number::from` for whole numbers. The
/// contract claims that the value holds the tree of the parts, a number as `serde_json`
/// keeps it.
#[verifier::external_body]
fn close_value(node: ValueNode) -> (value: serde_json::Value)
    ensures
        match node_tree(node) {
            JsonView::Number(n) => value_tree(value) == JsonView::Number(number_form(n)),
            tree => value_tree(value) == tree,
        },
{
    match node {
        ValueNode::Null => serde_json::Value::Null,
        ValueNode::Bool(b) => serde_json::Value::Bool(b),
        ValueNode::Number(JsonNumber::Unsigned(n)) => serde_json::Value::Number(n.into()),
        ValueNode::Number(JsonNumber::Negative(n)) => serde_json::Value::Number(n.into()),
        ValueNode::Number(JsonNumber::Other(n)) => serde_json::Value::Number(n.number),
        ValueNode::Text(s) => serde_json::Value::String(s),
        ValueNode::Array(a) => serde_json::Value::Array(a),
        ValueNode::Object(map) => serde_json::Value::Object(map),
    }
}

/// Calls `serde_json::from_str` for a `Value`. The contract names what comes back:
/// the tree that was read, or the printed error.
#[verifier::external_body]
fn read_value(text: &str) -> (r: Result<serde_json::Value, String>)
    ensures
        match r {
            Ok(value) => json_read(text@) == Ok::<JsonView, Seq<char>>(value_tree(value)),
            Err(error) => json_read(text@) == Err::<JsonView, Seq<char>>(error@),
        },
{
    serde_json::from_str::<serde_json::Value>(text).map_err(|error| error.to_string())
}

/// Whether a tree is at most `depth` levels deep and all its numbers are whole numbers of
/// 64 bits.
pub open spec fn plain(tree: JsonView, depth: nat) -> bool
    decreases depth,
{
    match tree {
        JsonView::Array(items) => depth > 0 && forall|i: int|
            0 <= i < items.len() ==> #[trigger] plain(items[i], (depth - 1) as nat),
        JsonView::Object(entries) => depth > 0 && forall|i: int|
            0 <= i < entries.len() ==> #[trigger] plain(entries[i].1, (depth - 1) as nat),
        JsonView::Number(NumberView::Other(_)) => false,
        _ => true,
    }
}

/// Whether a text is read as the given tree.
pub open spec fn reads_as(text: Seq<char>, tree: JsonView) -> bool {
    json_read(text) == Ok::<JsonView, Seq<char>>(tree)
}

/// How many levels of arrays and objects `serde_json` reads.
pub const READABLE_DEPTH: usize = 127;

/// Calls `serde_json::Value`'s `to_string`, which prints compact JSON. The contract
/// names the printed text of the value's tree, and claims that `serde_json` reads that
/// text back as the tree. This is left unsaid of a tree that is deeper than it reads, and
/// of numbers that are not whole, which it may read as a neighbouring number.
#[verifier::external_body]
fn print_value(value: &serde_json::Value) -> (text: String)
    ensures
        text@ == json_text(value_tree(*value)),
        plain(value_tree(*value), READABLE_DEPTH as nat) ==> reads_as(text@, value_tree(*value)),
{
    value.to_string()
}

/// Specifies `serde_json::Number`'s `clone`: an equal number.
pub assume_specification[ <serde_json::Number as Clone>::clone ](
    original: &serde_json::Number,
) -> (duplicate: serde_json::Number)
    ensures
        duplicate == *original,
;

/// What stands in `entries` under `key`: the first entry with that key.
pub open spec fn entry(entries: Seq<(Seq<char>, JsonView)>, key: Seq<char>) -> Option<JsonView>
    decreases entries.len(),
{
    if entries.len() == 0 {
        None
    } else if entries[0].0 == key {
        Some(entries[0].1)
    } else {
        entry(entries.skip(1), key)
    }
}

impl JsonView {
    /// What an object holds under `key`; nothing for another kind of value.
    pub open spec fn get(self, key: Seq<char>) -> Option<JsonView> {
        match self {
            JsonView::Object(entries) => entry(entries, key),
            _ => None,
        }
    }

    /// What an object holds under `key`, with null standing for nothing.
    pub open spec fn at(self, key: Seq<char>) -> JsonView {
        match self.get(key) {
            Some(value) => value,
            None => JsonView::Null,
        }
    }

    /// The text of a text value.
    pub open spec fn text(self) -> Option<Seq<char>> {
        match self {
            JsonView::Text(t) => Some(t),
            _ => None,
        }
    }

    /// The value of a whole number that fits in an `u64`.
    pub open spec fn unsigned(self) -> Option<u64> {
        match self {
            JsonView::Number(NumberView::Unsigned(n)) => Some(n),
            _ => None,
        }
    }

    /// The items of an array.
    pub open spec fn items(self) -> Option<Seq<JsonView>> {
        match self {
            JsonView::Array(items) => Some(items),
            _ => None,
        }
    }

    /// The truth value of a boolean.
    pub open spec fn flag(self) -> Option<bool> {
        match self {
            JsonView::Bool(b) => Some(b),
            _ => None,
        }
    }
}

impl JsonView {
    /// What an object holds under `key`, where null counts as nothing.
    pub open spec fn filled(self, key: Seq<char>) -> Option<JsonView> {
        match self.get(key) {
            Some(JsonView::Null) => None,
            other => other,
        }
    }

    /// The text that an object may hold under `key`; `None` where something else stands
    /// there.
    pub open spec fn optional_text(self, key: Seq<char>) -> Option<Option<Seq<char>>> {
        match self.filled(key) {
            None => Some(None),
            Some(JsonView::Text(t)) => Some(Some(t)),
            Some(_) => None,
        }
    }

    /// The truth value that an object may hold under `key`; `None` where something else
    /// stands there.
    pub open spec fn optional_flag(self, key: Seq<char>) -> Option<Option<bool>> {
        match self.filled(key) {
            None => Some(None),
            Some(JsonView::Bool(b)) => Some(Some(b)),
            Some(_) => None,
        }
    }

    /// The count that an object may hold under `key`; `None` where something else stands
    /// there.
    pub open spec fn optional_unsigned(self, key: Seq<char>) -> Option<Option<u64>> {
        match self.filled(key) {
            None => Some(None),
            Some(value) => match value.unsigned() {
                Some(n) => Some(Some(n)),
                None => None,
            },
        }
    }

    /// The items that an object may hold under `key`: none where it has no such entry, and
    /// `None` where something else stands there.
    pub open spec fn items_or_none(self, key: Seq<char>) -> Option<Seq<JsonView>> {
        match self.get(key) {
            None => Some(Seq::empty()),
            Some(value) => value.items(),
        }
    }

    /// The value of a whole number that fits in an `i64`.
    pub open spec fn signed(self) -> Option<i64> {
        match self {
            JsonView::Number(NumberView::Unsigned(n)) => if n <= i64::MAX {
                Some(n as i64)
            } else {
                None
            },
            JsonView::Number(NumberView::Negative(n)) => Some(n),
            _ => None,
        }
    }
}

/// The tree of the value that `Json::to_value` makes of a tree.
pub open spec fn value_form(tree: JsonView) -> JsonView
    decreases tree,
{
    match tree {
        JsonView::Array(items) => JsonView::Array(
            Seq::new(
                items.len(),
                |i: int|
                    if 0 <= i < items.len() {
                        value_form(items[i])
                    } else {
                        JsonView::Null
                    },
            ),
        ),
        JsonView::Object(entries) => JsonView::Object(map_entries(entry_forms(entries))),
        JsonView::Number(n) => JsonView::Number(number_form(n)),
        other => other,
    }
}

/// The entries with `value_form` applied to each value.
pub open spec fn entry_forms(entries: Seq<(Seq<char>, JsonView)>) -> Seq<(Seq<char>, JsonView)>
    decreases entries,
{
    Seq::new(
        entries.len(),
        |i: int|
            if 0 <= i < entries.len() {
                (entries[i].0, value_form(entries[i].1))
            } else {
                (Seq::empty(), JsonView::Null)
            },
    )
}

/// The compact text of a tree.
pub open spec fn printed(tree: JsonView) -> Seq<char> {
    json_text(value_form(tree))
}

impl Clone for JsonNumber {
    fn clone(&self) -> (r: JsonNumber)
        ensures
            r.deep_view() == self.deep_view(),
    {
        match self {
            JsonNumber::Unsigned(n) => JsonNumber::Unsigned(*n),
            JsonNumber::Negative(n) => JsonNumber::Negative(*n),
            JsonNumber::Other(n) => JsonNumber::Other(OtherNumber { number: n.number.clone() }),
        }
    }
}

impl Json {
    /// The tree that `value` holds.
    #[verifier::loop_isolation(false)]
    pub fn from_value(value: serde_json::Value) -> (json: Json)
        ensures
            json.deep_view() == value_tree(value),
        decreases value_tree(value),
    {
        broadcast use group_json_view;

        let ghost tree = value_tree(value);
        match open_value(value) {
            ValueNode::Null => Json::Null,
            ValueNode::Bool(b) => Json::Bool(b),
            ValueNode::Number(n) => Json::Number(n),
            ValueNode::Text(t) => Json::Text(t),
            ValueNode::Array(items) => {
                let mut out: Vec<Json> = Vec::new();
                let ghost all = items@;
                for item in it: items
                    invariant
                        it.seq() == all,
                        tree == JsonView::Array(Seq::new(all.len(), |i: int| value_tree(all[i]))),
                        out@.len() == it.index(),
                        forall|k: int|
                            0 <= k < out@.len() ==> (#[trigger] out@[k]).deep_view() == value_tree(
                                all[k],
                            ),
                {
                    proof {
                        assert(tree->Array_0[it.index() as int] == value_tree(item));
                        assert(decreases_to!(tree => tree->Array_0[it.index() as int]));
                    }
                    out.push(Json::from_value(item));
                }
                proof {
                    assert(out.deep_view() =~= tree->Array_0);
                }
                Json::Array(out)
            },
            ValueNode::Object(map) => {
                let mut out: Vec<(String, Json)> = Vec::new();
                let entries = map_items(map);
                let ghost all = entries@;
                for pair in it: entries
                    invariant
                        it.seq() == all,
                        tree == JsonView::Object(pairs(all)),
                        out@.len() == it.index(),
                        forall|k: int|
                            0 <= k < out@.len() ==> (#[trigger] out@[k]).deep_view() == (
                                all[k].0@,
                                value_tree(all[k].1),
                            ),
                {
                    let (key, item) = pair;
                    proof {
                        let at = tree->Object_0[it.index() as int];
                        assert(at == (key@, value_tree(item)));
                        assert(decreases_to!(tree => at.1));
                    }
                    out.push((key, Json::from_value(item)));
                }
                proof {
                    assert(out.deep_view() =~= tree->Object_0);
                }
                Json::Object(out)
            },
        }
    }

    /// The `serde_json` value of the tree.
    pub fn to_value(&self) -> (value: serde_json::Value)
        ensures
            value_tree(value) == value_form(self.deep_view()),
        decreases self,
    {
        broadcast use group_json_view;

        match self {
            Json::Null => close_value(ValueNode::Null),
            Json::Bool(b) => close_value(ValueNode::Bool(*b)),
            Json::Number(n) => close_value(ValueNode::Number(n.clone())),
            Json::Text(t) => close_value(ValueNode::Text(t.clone())),
            Json::Array(items) => {
                let mut out: Vec<serde_json::Value> = Vec::new();
                let mut i: usize = 0;
                while i < items.len()
                    invariant
                        i <= items@.len(),
                        *self == Json::Array(*items),
                        out@.len() == i,
                        forall|k: int|
                            0 <= k < i ==> value_tree(#[trigger] out@[k]) == value_form(
                                items@[k].deep_view(),
                            ),
                    decreases items@.len() - i,
                {
                    assert(decreases_to!(*self => self->Array_0));
                    assert(decreases_to!(self->Array_0 => self->Array_0@));
                    assert(decreases_to!(items@ => items@[i as int]));
                    out.push(items[i].to_value());
                    i = i + 1;
                }
                let node = ValueNode::Array(out);
                assert(node_tree(node)->Array_0 =~= value_form(self.deep_view())->Array_0);
                close_value(node)
            },
            Json::Object(entries) => {
                let mut map = new_map();
                let mut i: usize = 0;
                let ghost all = entry_forms(entries.deep_view());
                assert(map_held(map) =~= map_entries(all.take(0)));
                while i < entries.len()
                    invariant
                        i <= entries@.len(),
                        *self == Json::Object(*entries),
                        all == entry_forms(entries.deep_view()),
                        map_held(map) == map_entries(all.take(i as int)),
                    decreases entries@.len() - i,
                {
                    assert(decreases_to!(*self => self->Object_0));
                    assert(decreases_to!(self->Object_0 => self->Object_0@));
                    assert(decreases_to!(entries@ => entries@[i as int]));
                    assert(decreases_to!(entries@[i as int] => entries@[i as int].1));
                    assert(all.take(i + 1).drop_last() =~= all.take(i as int));
                    let value = entries[i].1.to_value();
                    insert_entry(&mut map, entries[i].0.clone(), value);
                    i = i + 1;
                }
                assert(all.take(i as int) =~= all);
                close_value(ValueNode::Object(map))
            },
        }
    }

    /// The tree that `text` spells, or what is wrong with it.
    pub fn parse(text: &str) -> (r: Result<Json, String>)
        ensures
            match r {
                Ok(json) => json_read(text@) == Ok::<JsonView, Seq<char>>(json.deep_view()),
                Err(error) => json_read(text@) == Err::<JsonView, Seq<char>>(error@),
            },
    {
        match read_value(text) {
            Ok(value) => Ok(Json::from_value(value)),
            Err(error) => Err(error),
        }
    }

    /// The tree as compact text.
    pub fn print(&self) -> (text: String)
        ensures
            text@ == printed(self.deep_view()),
            plain(value_form(self.deep_view()), READABLE_DEPTH as nat) ==> reads_as(
                text@,
                value_form(self.deep_view()),
            ),
    {
        print_value(&self.to_value())
    }

    /// What an object holds under `key`.
    pub fn get(&self, key: &str) -> (r: Option<&Json>)
        ensures
            match r {
                Some(value) => self.deep_view().get(key@) == Some(value.deep_view()),
                None => self.deep_view().get(key@) is None,
            },
            r matches Some(value) ==> decreases_to!(*self => *value),
    {
        broadcast use group_json_view;

        match self {
            Json::Object(entries) => {
                let mut i: usize = 0;
                assert(entries.deep_view().skip(0) =~= entries.deep_view());
                while i < entries.len()
                    invariant
                        i <= entries@.len(),
                        *self == Json::Object(*entries),
                        self.deep_view().get(key@) == entry(
                            entries.deep_view().skip(i as int),
                            key@,
                        ),
                    decreases entries@.len() - i,
                {
                    let ghost rest = entries.deep_view().skip(i as int);
                    assert(rest[0] == entries@[i as int].deep_view());
                    if same(entries[i].0.as_str(), key) {
                        assert(decreases_to!(*self => entries@[i as int]));
                        return Some(&entries[i].1);
                    }
                    assert(rest.skip(1) =~= entries.deep_view().skip(i + 1));
                    i = i + 1;
                }
                None
            },
            _ => None,
        }
    }

    /// The text that an object holds under `key`.
    pub fn text_at(&self, key: &str) -> (r: Option<&String>)
        ensures
            r.deep_view() == self.deep_view().at(key@).text(),
    {
        match self.get(key) {
            Some(value) => value.as_text(),
            None => None,
        }
    }

    /// The whole number that an object holds under `key`.
    pub fn unsigned_at(&self, key: &str) -> (r: Option<u64>)
        ensures
            r == self.deep_view().at(key@).unsigned(),
    {
        match self.get(key) {
            Some(value) => value.as_unsigned(),
            None => None,
        }
    }

    /// The items of the array that an object holds under `key`.
    pub fn items_at(&self, key: &str) -> (r: Option<&Vec<Json>>)
        ensures
            r.deep_view() == self.deep_view().at(key@).items(),
    {
        match self.get(key) {
            Some(value) => value.as_items(),
            None => None,
        }
    }

    /// What an object holds under `key`, where null counts as nothing.
    pub fn filled_at(&self, key: &str) -> (r: Option<&Json>)
        ensures
            r.deep_view() == self.deep_view().filled(key@),
    {
        match self.get(key) {
            Some(Json::Null) => None,
            other => other,
        }
    }

    /// The text that an object may hold under `key`; `None` where something else stands
    /// there.
    pub fn optional_text_at(&self, key: &str) -> (r: Option<Option<String>>)
        ensures
            r.deep_view() == self.deep_view().optional_text(key@),
    {
        match self.filled_at(key) {
            None => Some(None),
            Some(Json::Text(t)) => Some(Some(t.clone())),
            Some(_) => None,
        }
    }

    /// The truth value that an object may hold under `key`; `None` where something else
    /// stands there.
    pub fn optional_flag_at(&self, key: &str) -> (r: Option<Option<bool>>)
        ensures
            r == self.deep_view().optional_flag(key@),
    {
        match self.filled_at(key) {
            None => Some(None),
            Some(Json::Bool(b)) => Some(Some(*b)),
            Some(_) => None,
        }
    }

    /// The count that an object may hold under `key`; `None` where something else stands
    /// there.
    pub fn optional_unsigned_at(&self, key: &str) -> (r: Option<Option<u64>>)
        ensures
            r == self.deep_view().optional_unsigned(key@),
    {
        match self.filled_at(key) {
            None => Some(None),
            Some(value) => match value.as_unsigned() {
                Some(n) => Some(Some(n)),
                None => None,
            },
        }
    }

    /// Whether the value is an object.
    pub fn is_object(&self) -> (r: bool)
        ensures
            r == (self.deep_view() is Object),
    {
        match self {
            Json::Object(_) => true,
            _ => false,
        }
    }

    /// The value of a whole number that fits in an `i64`.
    pub fn as_signed(&self) -> (r: Option<i64>)
        ensures
            r == self.deep_view().signed(),
    {
        match self {
            Json::Number(JsonNumber::Unsigned(n)) => if *n <= 0x7fff_ffff_ffff_ffff {
                Some(*n as i64)
            } else {
                None
            },
            Json::Number(JsonNumber::Negative(n)) => Some(*n),
            _ => None,
        }
    }

    /// The text of a text value.
    pub fn as_text(&self) -> (r: Option<&String>)
        ensures
            r.deep_view() == self.deep_view().text(),
    {
        match self {
            Json::Text(t) => Some(t),
            _ => None,
        }
    }

    /// The value of a whole number that fits in an `u64`.
    pub fn as_unsigned(&self) -> (r: Option<u64>)
        ensures
            r == self.deep_view().unsigned(),
    {
        match self {
            Json::Number(JsonNumber::Unsigned(n)) => Some(*n),
            _ => None,
        }
    }

    /// The items of an array.
    pub fn as_items(&self) -> (r: Option<&Vec<Json>>)
        ensures
            r.deep_view() == self.deep_view().items(),
            r matches Some(items) ==> *self == Json::Array(*items),
    {
        broadcast use group_json_view;

        match self {
            Json::Array(items) => Some(items),
            _ => None,
        }
    }

    /// The truth value of a boolean.
    pub fn as_flag(&self) -> (r: Option<bool>)
        ensures
            r == self.deep_view().flag(),
    {
        match self {
            Json::Bool(b) => Some(*b),
            _ => None,
        }
    }
}

/// No entries.
pub open spec fn no_fields() -> Seq<(Seq<char>, JsonView)> {
    Seq::empty()
}

/// No entries.
pub fn empty_fields() -> (r: Vec<(String, Json)>)
    ensures
        r.deep_view() == no_fields(),
{
    let r: Vec<(String, Json)> = Vec::new();
    assert(r.deep_view() =~= no_fields());
    r
}

/// An entry put behind others is found where none before it has its key.
pub broadcast proof fn entry_push(
    fields: Seq<(Seq<char>, JsonView)>,
    key: Seq<char>,
    value: JsonView,
    wanted: Seq<char>,
)
    ensures
        #[trigger] entry(fields.push((key, value)), wanted) == if entry(fields, wanted) is Some {
            entry(fields, wanted)
        } else if key == wanted {
            Some(value)
        } else {
            None
        },
    decreases fields.len(),
{
    let more = fields.push((key, value));
    if fields.len() == 0 {
        assert(more.skip(1) =~= Seq::empty());
        reveal_with_fuel(entry, 2);
    } else {
        assert(more.skip(1) =~= fields.skip(1).push((key, value)));
        entry_push(fields.skip(1), key, value, wanted);
    }
}

/// Puts an entry behind `fields`.
pub fn put(fields: &mut Vec<(String, Json)>, key: &str, value: Json)
    ensures
        final(fields).deep_view() == old(fields).deep_view().push((key@, value.deep_view())),
{
    let ghost before = fields.deep_view();
    fields.push((key.to_owned(), value));
    assert(fields.deep_view() =~= before.push((key@, value.deep_view())));
}

/// A text value.
pub fn text(t: &str) -> (json: Json)
    ensures
        json.deep_view() == JsonView::Text(t@),
{
    Json::Text(t.to_owned())
}

/// An object of the given entries.
pub fn object(fields: Vec<(String, Json)>) -> (json: Json)
    ensures
        json.deep_view() == JsonView::Object(fields.deep_view()),
{
    broadcast use group_json_view;

    Json::Object(fields)
}

/// An array of the given items.
pub fn array(items: Vec<Json>) -> (json: Json)
    ensures
        json.deep_view() == JsonView::Array(items.deep_view()),
{
    broadcast use group_json_view;

    Json::Array(items)
}

/// A whole number.
pub fn number(n: u64) -> (json: Json)
    ensures
        json.deep_view() == JsonView::Number(NumberView::Unsigned(n)),
{
    Json::Number(JsonNumber::Unsigned(n))
}

impl Clone for Json {
    fn clone(&self) -> (r: Json)
        ensures
            r.deep_view() == self.deep_view(),
        decreases self,
    {
        broadcast use group_json_view;

        match self {
            Json::Null => Json::Null,
            Json::Bool(b) => Json::Bool(*b),
            Json::Number(n) => Json::Number(n.clone()),
            Json::Text(t) => Json::Text(t.clone()),
            Json::Array(items) => {
                let mut out: Vec<Json> = Vec::new();
                let mut i: usize = 0;
                while i < items.len()
                    invariant
                        i <= items@.len(),
                        *self == Json::Array(*items),
                        out@.len() == i,
                        forall|k: int|
                            0 <= k < i ==> (#[trigger] out@[k]).deep_view()
                                == items@[k].deep_view(),
                    decreases items@.len() - i,
                {
                    assert(decreases_to!(*self => self->Array_0));
                    assert(decreases_to!(self->Array_0 => self->Array_0@));
                    assert(decreases_to!(items@ => items@[i as int]));
                    out.push(items[i].clone());
                    i = i + 1;
                }
                assert(out.deep_view() =~= items.deep_view());
                Json::Array(out)
            },
            Json::Object(entries) => {
                let mut out: Vec<(String, Json)> = Vec::new();
                let mut i: usize = 0;
                while i < entries.len()
                    invariant
                        i <= entries@.len(),
                        *self == Json::Object(*entries),
                        out@.len() == i,
                        forall|k: int|
                            0 <= k < i ==> (#[trigger] out@[k]).deep_view()
                                == entries@[k].deep_view(),
                    decreases entries@.len() - i,
                {
                    assert(decreases_to!(*self => self->Object_0));
                    assert(decreases_to!(self->Object_0 => self->Object_0@));
                    assert(decreases_to!(entries@ => entries@[i as int]));
                    assert(decreases_to!(entries@[i as int] => entries@[i as int].1));
                    out.push((entries[i].0.clone(), entries[i].1.clone()));
                    i = i + 1;
                }
                assert(out.deep_view() =~= entries.deep_view());
                Json::Object(out)
            },
        }
    }
}

} // verus!
