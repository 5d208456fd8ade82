//! JSON values.

use vstd::prelude::*;
use crate::table::{distinct, has_name, lookup, mapped, put, rows, Table};
use crate::table::{lemma_mapped, lemma_mapped_put, lemma_value_is_smaller, put_changes_one_name};
use crate::text::{
    comes_before, decimal, decimal_int, decimal_int_text, decimal_text, join, joined,
    joining_puts_one_separator_between, lemma_order, precedes, texts,
};

verus! {

/// A JSON number: an integer of at most 64 bits, or any other number by its
/// JSON literal.
#[derive(Debug, PartialEq, Eq)]
pub enum Number {
    PosInt(u64),
    NegInt(i64),
    Float(String),
}

/// A JSON value.
#[derive(Debug, PartialEq)]
pub enum Value {
    Null,
    Bool(bool),
    Number(Number),
    String(String),
    Array(Vec<Value>),
    Object(Table<Value>),
}

/// What a [`Number`] is.
pub enum JsonNumber {
    PosInt(u64),
    NegInt(i64),
    Float(Seq<char>),
}

/// What a [`Value`] is: an object is the sequence of its members.
pub enum Json {
    Null,
    Bool(bool),
    Number(JsonNumber),
    String(Seq<char>),
    Array(Seq<Json>),
    Object(Seq<(Seq<char>, Json)>),
}

impl View for Number {
    type V = JsonNumber;

    open spec fn view(&self) -> JsonNumber {
        match *self {
            Number::PosInt(n) => JsonNumber::PosInt(n),
            Number::NegInt(n) => JsonNumber::NegInt(n),
            Number::Float(s) => JsonNumber::Float(s@),
        }
    }
}

/// The JSON value that `v` is.
pub open spec fn json_of(v: Value) -> Json
    decreases v, 0int,
{
    match v {
        Value::Null => Json::Null,
        Value::Bool(b) => Json::Bool(b),
        Value::Number(n) => Json::Number(n@),
        Value::String(s) => Json::String(s@),
        Value::Array(items) => Json::Array(items_of(items@, items@.len() as int)),
        Value::Object(table) => Json::Object(members_of(table, table@.len() as int)),
    }
}

/// The first `n` of the items, as JSON.
pub open spec fn items_of(items: Seq<Value>, n: int) -> Seq<Json>
    decreases items, n,
{
    if n <= 0 || n > items.len() {
        Seq::empty()
    } else {
        items_of(items, n - 1).push(json_of(items[n - 1]))
    }
}

/// The first `n` rows of the table, as the members of a JSON object.
pub open spec fn members_of(table: Table<Value>, n: int) -> Seq<(Seq<char>, Json)>
    decreases table, n,
{
    if n <= 0 || n > table@.len() {
        Seq::empty()
    } else {
        proof {
            lemma_value_is_smaller(table, n - 1);
        }
        members_of(table, n - 1).push((table@[n - 1].0, json_of(table@[n - 1].1)))
    }
}

impl View for Value {
    type V = Json;

    open spec fn view(&self) -> Json {
        json_of(*self)
    }
}

/// The items of an array, as JSON.
pub open spec fn items(values: Seq<Value>) -> Seq<Json> {
    items_of(values, values.len() as int)
}

/// The members of the JSON object that the table is.
pub open spec fn members(table: Table<Value>) -> Seq<(Seq<char>, Json)> {
    members_of(table, table@.len() as int)
}

proof fn lemma_items_of(values: Seq<Value>, n: int)
    requires
        0 <= n <= values.len(),
    ensures
        items_of(values, n).len() == n,
        forall|i: int| 0 <= i < n ==> (#[trigger] items_of(values, n)[i]) == values[i]@,
    decreases n,
{
    if n > 0 {
        lemma_items_of(values, n - 1);
    }
}

/// An array has one item for each value, in order.
pub proof fn lemma_items(values: Seq<Value>)
    ensures
        items(values) == values.map_values(|v: Value| v@),
{
    lemma_items_of(values, values.len() as int);
    assert(items(values) =~= values.map_values(|v: Value| v@));
}

proof fn lemma_members_of(table: Table<Value>, n: int)
    requires
        0 <= n <= table@.len(),
    ensures
        members_of(table, n).len() == n,
        forall|i: int|
            0 <= i < n ==> (#[trigger] members_of(table, n)[i]) == (table@[i].0, table@[i].1@),
    decreases n,
{
    if n > 0 {
        lemma_members_of(table, n - 1);
    }
}

/// An object has one member for each row of the table.
pub proof fn lemma_members(table: Table<Value>)
    ensures
        members(table) == mapped(table@, |v: Value| v@),
{
    lemma_members_of(table, table@.len() as int);
    assert(members(table) =~= mapped(table@, |v: Value| v@));
}

/// A name is looked up in an object as in the table.
pub proof fn lemma_member(table: Table<Value>, key: Seq<char>)
    ensures
        has_name(members(table), key) == has_name(table@, key),
        lookup(members(table), key) == match lookup(table@, key) {
            Some(v) => Some(v@),
            None => None,
        },
{
    lemma_members(table);
    lemma_mapped(table@, |v: Value| v@, key);
}

/// The integer that a JSON value is, where it is one that fits 64 signed bits.
pub open spec fn json_int(j: Json) -> Option<i64> {
    match j {
        Json::Number(JsonNumber::PosInt(n)) => if n <= i64::MAX {
            Some(n as i64)
        } else {
            None
        },
        Json::Number(JsonNumber::NegInt(n)) => Some(n),
        _ => None,
    }
}

/// The member `key` of a JSON value, where it is an object that has one.
pub open spec fn json_member(j: Json, key: Seq<char>) -> Option<Json> {
    match j {
        Json::Object(m) => lookup(m, key),
        _ => None,
    }
}

impl Value {
    pub fn as_str(&self) -> (r: Option<&str>)
        ensures
            match self@ {
                Json::String(s) => r matches Some(t) && t@ == s,
                _ => r is None,
            },
    {
        match self {
            Value::String(s) => Some(s.as_str()),
            _ => None,
        }
    }

    pub fn as_i64(&self) -> (r: Option<i64>)
        ensures
            r == json_int(self@),
    {
        match self {
            Value::Number(Number::PosInt(n)) => if *n <= 9223372036854775807u64 {
                Some(*n as i64)
            } else {
                None
            },
            Value::Number(Number::NegInt(n)) => Some(*n),
            _ => None,
        }
    }

    pub fn as_bool(&self) -> (r: Option<bool>)
        ensures
            r == match self@ {
                Json::Bool(b) => Some(b),
                _ => None,
            },
    {
        match self {
            Value::Bool(b) => Some(*b),
            _ => None,
        }
    }

    pub fn as_object(&self) -> (r: Option<&Table<Value>>)
        ensures
            match self@ {
                Json::Object(m) => r matches Some(t) && members(*t) == m,
                _ => r is None,
            },
    {
        match self {
            Value::Object(t) => Some(t),
            _ => None,
        }
    }

    /// The member `key` of an object.
    pub fn get(&self, key: &str) -> (r: Option<&Value>)
        ensures
            match json_member(self@, key@) {
                Some(j) => r matches Some(v) && v@ == j,
                None => r is None,
            },
    {
        match self {
            Value::Object(t) => {
                proof {
                    lemma_member(*t, key@);
                }
                t.get(key)
            },
            _ => None,
        }
    }
}

/// The members that a list of entries stands for.
pub open spec fn entry_members(entries: Seq<(String, Value)>) -> Seq<(Seq<char>, Json)> {
    entries.map_values(|e: (String, Value)| (e.0@, e.1@))
}

/// The JSON value of a value that may be left out.
pub open spec fn optional(v: Option<Value>) -> Option<Json> {
    match v {
        Some(v) => Some(v@),
        None => None,
    }
}

impl Value {
    /// The string with the given text.
    pub fn text(s: &str) -> (r: Self)
        ensures
            r@ == Json::String(s@),
    {
        Value::String(s.to_owned())
    }

    /// The array of the given values.
    pub fn array(values: Vec<Value>) -> (r: Self)
        ensures
            r@ == Json::Array(values@.map_values(|v: Value| v@)),
    {
        proof {
            lemma_items(values@);
        }
        Value::Array(values)
    }

    /// The object with the given members, whose names are distinct.
    pub fn object(entries: Vec<(String, Value)>) -> (r: Self)
        requires
            distinct(entry_members(entries@)),
        ensures
            r@ == Json::Object(entry_members(entries@)),
    {
        proof {
            assert forall|i: int, j: int| 0 <= i < j < entries@.len() implies (
            #[trigger] rows(entries@)[i]).0 != (#[trigger] rows(entries@)[j]).0 by {
                assert(entry_members(entries@)[i].0 != entry_members(entries@)[j].0);
            }
        }
        let table: Table<Value> = Table::from_entries(entries);
        proof {
            lemma_members(table);
            assert(members(table) =~= entry_members(entries@));
        }
        Value::Object(table)
    }
}

impl Clone for Number {
    fn clone(&self) -> (r: Self)
        ensures
            r@ == self@,
    {
        match self {
            Number::PosInt(n) => Number::PosInt(*n),
            Number::NegInt(n) => Number::NegInt(*n),
            Number::Float(s) => Number::Float(s.clone()),
        }
    }
}

impl Clone for Value {
    fn clone(&self) -> (r: Self)
        ensures
            r@ == self@,
        decreases self,
    {
        match self {
            Value::Null => Value::Null,
            Value::Bool(b) => Value::Bool(*b),
            Value::Number(n) => Value::Number(n.clone()),
            Value::String(s) => Value::String(s.clone()),
            Value::Array(values) => {
                let mut copy: Vec<Value> = Vec::new();
                let mut i: usize = 0;
                while i < values.len()
                    invariant
                        i <= values.len(),
                        *self == Value::Array(*values),
                        copy.len() == i,
                        forall|j: int| 0 <= j < i ==> (#[trigger] copy@[j])@ == values@[j]@,
                    decreases values.len() - i,
                {
                    assert(decreases_to!(*self => self->Array_0));
                    assert(decreases_to!(*values => values@));
                    assert(decreases_to!(values@ => values@[i as int]));
                    copy.push(values[i].clone());
                    i = i + 1;
                }
                proof {
                    lemma_items(copy@);
                    lemma_items(values@);
                    assert(items(copy@) =~= items(values@));
                }
                Value::Array(copy)
            },
            Value::Object(table) => Value::Object(copied_members(table)),
        }
    }
}

/// A copy of the table, value by value.
pub fn copied_members(table: &Table<Value>) -> (r: Table<Value>)
    ensures
        members(r) == members(*table),
    decreases table,
{
    let mut copy: Table<Value> = Table::new();
    let mut i: usize = 0;
    let n: usize = table.len();
    while i < n
        invariant
            i <= n,
            n == table@.len(),
            distinct(table@),
            copy@.len() == i,
            forall|j: int|
                0 <= j < i ==> (#[trigger] copy@[j]).0 == table@[j].0 && copy@[j].1@
                    == table@[j].1@,
        decreases n - i,
    {
        proof {
            lemma_value_is_smaller(*table, i as int);
            if has_name(copy@, table@[i as int].0) {
                let j = choose|j: int|
                    0 <= j < copy@.len() && (#[trigger] copy@[j]).0 == table@[i as int].0;
                assert(table@[j].0 != table@[i as int].0);
            }
        }
        copy.insert(table.name(i).to_owned(), table.value(i).clone());
        i = i + 1;
    }
    proof {
        lemma_members(copy);
        lemma_members(*table);
        assert(members(copy) =~= members(*table));
    }
    copy
}

/// Gives the member `key` the value `value`.
pub fn set_member(table: &mut Table<Value>, key: &str, value: Value)
    ensures
        members(*final(table)) == put(members(*old(table)), key@, value@),
{
    proof {
        lemma_members(*table);
        lemma_mapped_put(table@, |v: Value| v@, key@, value);
    }
    table.insert(key.to_owned(), value);
    proof {
        lemma_members(*table);
    }
}

/// The escape of one character inside a JSON string.
pub open spec fn escaped(c: char) -> Seq<char> {
    if c == '"' {
        seq!['\\', '"']
    } else if c == '\\' {
        seq!['\\', '\\']
    } else if c == '\u{8}' {
        seq!['\\', 'b']
    } else if c == '\t' {
        seq!['\\', 't']
    } else if c == '\n' {
        seq!['\\', 'n']
    } else if c == '\u{c}' {
        seq!['\\', 'f']
    } else if c == '\r' {
        seq!['\\', 'r']
    } else if (c as u32) < 32 {
        seq!['\\', 'u', '0', '0', hex_digit(c as nat / 16), hex_digit(c as nat % 16)]
    } else {
        seq![c]
    }
}

/// The lower-case digit of a number below sixteen.
pub open spec fn hex_digit(n: nat) -> char {
    if n < 10 {
        (48 + n) as char
    } else {
        (87 + n) as char
    }
}

/// The text with every character escaped.
pub open spec fn escaped_text(s: Seq<char>) -> Seq<char>
    decreases s.len(),
{
    if s.len() == 0 {
        Seq::empty()
    } else {
        escaped_text(s.drop_last()) + escaped(s.last())
    }
}

/// The JSON literal of a string.
pub open spec fn quoted(s: Seq<char>) -> Seq<char> {
    seq!['"'] + escaped_text(s) + seq!['"']
}

/// `serde_json::to_string` of a string: its JSON literal, in which the quotation
/// mark, the backslash and the characters below the space are escaped and every
/// other character stands for itself. Writing a string does not fail.
#[verifier::external_body]
fn quote(s: &str) -> (r: String)
    ensures
        r@ == quoted(s@),
{
    serde_json::to_string(s).unwrap()
}

/// The JSON literal of a number.
pub open spec fn number_text(n: JsonNumber) -> Seq<char> {
    match n {
        JsonNumber::PosInt(n) => decimal(n as nat),
        JsonNumber::NegInt(n) => decimal_int(n as int),
        JsonNumber::Float(s) => s,
    }
}

/// The list with an item put where its name stands in order, after those of the
/// same name.
pub open spec fn inserted(
    list: Seq<(Seq<char>, Seq<char>)>,
    item: (Seq<char>, Seq<char>),
) -> Seq<(Seq<char>, Seq<char>)>
    decreases list.len(),
{
    if list.len() > 0 && comes_before(item.0, list.last().0) {
        inserted(list.drop_last(), item).push(list.last())
    } else {
        list.push(item)
    }
}

/// The list in the order of its names.
pub open spec fn in_order(list: Seq<(Seq<char>, Seq<char>)>) -> Seq<(Seq<char>, Seq<char>)>
    decreases list.len(),
{
    if list.len() == 0 {
        list
    } else {
        inserted(in_order(list.drop_last()), list.last())
    }
}

/// The members of an object, each with its name and its text.
pub open spec fn listed_members(list: Seq<(Seq<char>, Seq<char>)>) -> Seq<Seq<char>> {
    list.map_values(|m: (Seq<char>, Seq<char>)| quoted(m.0) + ":"@ + m.1)
}

/// The compact JSON text of a value. The members of an object stand in the order
/// of their names.
pub open spec fn json_text(j: Json) -> Seq<char>
    decreases j, 0int,
{
    match j {
        Json::Null => "null"@,
        Json::Bool(b) => if b {
            "true"@
        } else {
            "false"@
        },
        Json::Number(n) => number_text(n),
        Json::String(s) => quoted(s),
        Json::Array(items) => "["@ + join(item_texts(items, items.len() as int), ","@) + "]"@,
        Json::Object(members) => "{"@ + join(
            listed_members(in_order(member_texts(members, members.len() as int))),
            ","@,
        ) + "}"@,
    }
}

/// The texts of the first `n` items.
pub open spec fn item_texts(items: Seq<Json>, n: int) -> Seq<Seq<char>>
    decreases items, n,
{
    if n <= 0 || n > items.len() {
        Seq::empty()
    } else {
        item_texts(items, n - 1).push(json_text(items[n - 1]))
    }
}

/// The names and the texts of the first `n` members.
pub open spec fn member_texts(members: Seq<(Seq<char>, Json)>, n: int) -> Seq<
    (Seq<char>, Seq<char>),
>
    decreases members, n,
{
    if n <= 0 || n > members.len() {
        Seq::empty()
    } else {
        member_texts(members, n - 1).push((members[n - 1].0, json_text(members[n - 1].1)))
    }
}

/// The texts of the pairs of a list.
pub open spec fn text_pairs(list: Seq<(String, String)>) -> Seq<(Seq<char>, Seq<char>)> {
    list.map_values(|p: (String, String)| (p.0@, p.1@))
}

/// Puts an item where its name stands in order.
fn insert_in_order(list: &mut Vec<(String, String)>, name: &str, text: String)
    ensures
        text_pairs(final(list)@) == inserted(text_pairs(old(list)@), (name@, text@)),
{
    let ghost all = text_pairs(list@);
    let ghost item = (name@, text@);
    let mut i: usize = list.len();
    proof {
        assert(all.take(i as int) =~= all);
        assert(inserted(all, item) =~= inserted(all.take(i as int), item) + all.skip(i as int));
    }
    while i > 0 && precedes(name, &list[i - 1].0)
        invariant
            i <= list.len(),
            all == text_pairs(list@),
            item.0 == name@,
            inserted(all, item) == inserted(all.take(i as int), item) + all.skip(i as int),
        decreases i,
    {
        proof {
            let front = all.take(i as int);
            assert(front.last() == all[i - 1]);
            assert(front.drop_last() =~= all.take(i - 1));
            assert(inserted(all.take(i - 1), item).push(all[i - 1]) + all.skip(i as int)
                =~= inserted(all.take(i - 1), item) + all.skip(i - 1));
        }
        i = i - 1;
    }
    proof {
        if i > 0 {
            assert(all.take(i as int).last() == all[i - 1]);
        }
        assert(inserted(all.take(i as int), item) =~= all.take(i as int).push(item));
    }
    list.insert(i, (name.to_owned(), text));
    proof {
        assert(text_pairs(list@) =~= all.take(i as int).push(item) + all.skip(i as int));
    }
}

/// The members of an object, from its list of names and texts.
fn member_list(list: &Vec<(String, String)>) -> (r: Vec<String>)
    ensures
        texts(r@) == listed_members(text_pairs(list@)),
{
    let mut r: Vec<String> = Vec::new();
    let mut i: usize = 0;
    while i < list.len()
        invariant
            i <= list.len(),
            r.len() == i,
            forall|j: int|
                0 <= j < i ==> (#[trigger] r@[j])@ == quoted(list@[j].0@) + ":"@ + list@[j].1@,
        decreases list.len() - i,
    {
        r.push(quote(&list[i].0).concat(":").concat(&list[i].1));
        i = i + 1;
    }
    proof {
        assert(texts(r@) =~= listed_members(text_pairs(list@)));
    }
    r
}

impl Value {
    /// The compact JSON text of the value.
    pub fn to_text(&self) -> (r: String)
        ensures
            r@ == json_text(self@),
        decreases self,
    {
        match self {
            Value::Null => "null".to_owned(),
            Value::Bool(b) => if *b {
                "true".to_owned()
            } else {
                "false".to_owned()
            },
            Value::Number(Number::PosInt(n)) => decimal_text(*n),
            Value::Number(Number::NegInt(n)) => decimal_int_text(*n),
            Value::Number(Number::Float(s)) => s.clone(),
            Value::String(s) => quote(s),
            Value::Array(values) => {
                let mut list: Vec<String> = Vec::new();
                let mut i: usize = 0;
                proof {
                    lemma_items(values@);
                    assert(texts(list@) =~= item_texts(items(values@), 0));
                }
                while i < values.len()
                    invariant
                        i <= values.len(),
                        *self == Value::Array(*values),
                        items(values@) == values@.map_values(|v: Value| v@),
                        texts(list@) == item_texts(items(values@), i as int),
                    decreases values.len() - i,
                {
                    assert(decreases_to!(*self => self->Array_0));
                    assert(decreases_to!(*values => values@));
                    assert(decreases_to!(values@ => values@[i as int]));
                    assert(items(values@)[i as int] == values@[i as int]@);
                    let ghost before = texts(list@);
                    let text: String = values[i].to_text();
                    list.push(text);
                    proof {
                        assert(texts(list@) =~= before.push(text@));
                    }
                    i = i + 1;
                }
                "[".to_owned().concat(&joined(&list, ",")).concat("]")
            },
            Value::Object(table) => {
                let mut list: Vec<(String, String)> = Vec::new();
                let mut i: usize = 0;
                let n: usize = table.len();
                proof {
                    lemma_members(*table);
                    assert(text_pairs(list@) =~= in_order(member_texts(members(*table), 0)));
                }
                while i < n
                    invariant
                        i <= n,
                        n == table@.len(),
                        *self == Value::Object(*table),
                        members(*table) == mapped(table@, |v: Value| v@),
                        text_pairs(list@) == in_order(member_texts(members(*table), i as int)),
                    decreases n - i,
                {
                    proof {
                        assert(decreases_to!(*self => self->Object_0));
                        lemma_value_is_smaller(*table, i as int);
                    }
                    let ghost row = (table@[i as int].0, table@[i as int].1@);
                    assert(members(*table)[i as int] == row);
                    let text: String = table.value(i).to_text();
                    proof {
                        let next = member_texts(members(*table), i + 1);
                        assert(next.drop_last() =~= member_texts(members(*table), i as int));
                        assert(next.last() == (row.0, text@));
                    }
                    insert_in_order(&mut list, table.name(i), text);
                    i = i + 1;
                }
                "{".to_owned().concat(&joined(&member_list(&list), ",")).concat("}")
            },
        }
    }
}

proof fn lemma_inserted(
    list: Seq<(Seq<char>, Seq<char>)>,
    item: (Seq<char>, Seq<char>),
)
    requires
        forall|i: int, j: int|
            0 <= i < j < list.len() ==> !comes_before(
                (#[trigger] list[j]).0,
                (#[trigger] list[i]).0,
            ),
    ensures
        ({
            let after = inserted(list, item);
            &&& after.to_multiset() == list.to_multiset().insert(item)
            &&& forall|i: int|
                0 <= i < after.len() ==> (#[trigger] after[i]) == item || list.contains(after[i])
            &&& forall|i: int, j: int|
                0 <= i < j < after.len() ==> !comes_before(
                    (#[trigger] after[j]).0,
                    (#[trigger] after[i]).0,
                )
        }),
    decreases list.len(),
{
    broadcast use vstd::seq_lib::group_to_multiset_ensures;

    let after = inserted(list, item);
    if list.len() > 0 && comes_before(item.0, list.last().0) {
        let init = list.drop_last();
        let last = list.last();
        lemma_inserted(init, item);
        let front = inserted(init, item);
        assert(list =~= init.push(last));
        assert(after.to_multiset() =~= list.to_multiset().insert(item));
        assert forall|i: int| 0 <= i < after.len() implies (#[trigger] after[i]) == item
            || list.contains(after[i]) by {
            if i < front.len() {
                assert(after[i] == front[i]);
                if init.contains(front[i]) {
                    let k = choose|k: int| 0 <= k < init.len() && init[k] == front[i];
                    assert(list[k] == front[i]);
                }
            } else {
                assert(list[list.len() - 1] == after[i]);
            }
        }
        assert forall|i: int, j: int| 0 <= i < j < after.len() implies !comes_before(
            (#[trigger] after[j]).0,
            (#[trigger] after[i]).0,
        ) by {
            if j < front.len() {
                assert(after[i] == front[i] && after[j] == front[j]);
            } else {
                assert(after[i] == front[i]);
                lemma_order(item.0, last.0, item.0);
                if init.contains(front[i]) {
                    let k = choose|k: int| 0 <= k < init.len() && init[k] == front[i];
                    assert(list[k] == front[i] && list[list.len() - 1] == last);
                }
            }
        }
    } else {
        assert(after.to_multiset() =~= list.to_multiset().insert(item));
        assert forall|i: int| 0 <= i < after.len() implies (#[trigger] after[i]) == item
            || list.contains(after[i]) by {
            if i < list.len() {
                assert(list[i] == after[i]);
            }
        }
        assert forall|i: int, j: int| 0 <= i < j < after.len() implies !comes_before(
            (#[trigger] after[j]).0,
            (#[trigger] after[i]).0,
        ) by {
            if j < list.len() {
                assert(after[i] == list[i] && after[j] == list[j]);
            } else {
                assert(after[i] == list[i]);
                let last = list[list.len() - 1];
                lemma_order(list[i].0, last.0, item.0);
            }
        }
    }
}

/// The members of an object are written in the order of their names, each as
/// often as it stands in the object.
pub proof fn members_are_written_in_order(list: Seq<(Seq<char>, Seq<char>)>)
    ensures
        in_order(list).to_multiset() == list.to_multiset(),
        forall|i: int, j: int|
            0 <= i < j < in_order(list).len() ==> !comes_before(
                (#[trigger] in_order(list)[j]).0,
                (#[trigger] in_order(list)[i]).0,
            ),
    decreases list.len(),
{
    broadcast use vstd::seq_lib::group_to_multiset_ensures;

    if list.len() > 0 {
        let init = list.drop_last();
        members_are_written_in_order(init);
        lemma_inserted(in_order(init), list.last());
        assert(list =~= init.push(list.last()));
    }
}

/// The texts of values that have no parts: of an integer its decimal numeral, of a
/// truth value its word, of a string its literal, and of any other number the
/// literal that it was given by.
pub proof fn simple_values_are_written_plainly(n: u64, i: i64, b: bool, s: Seq<char>)
    ensures
        json_text(Json::Number(JsonNumber::PosInt(n))) == decimal(n as nat),
        json_text(Json::Number(JsonNumber::NegInt(i))) == decimal_int(i as int),
        json_text(Json::Number(JsonNumber::Float(s))) == s,
        json_text(Json::Bool(true)) == seq!['t', 'r', 'u', 'e'],
        json_text(Json::Bool(false)) == seq!['f', 'a', 'l', 's', 'e'],
        json_text(Json::Null) == seq!['n', 'u', 'l', 'l'],
        json_text(Json::String(s)) == quoted(s),
{
    reveal_strlit("true");
    reveal_strlit("false");
    reveal_strlit("null");
    assert("true"@ =~= seq!['t', 'r', 'u', 'e']);
    assert("false"@ =~= seq!['f', 'a', 'l', 's', 'e']);
    assert("null"@ =~= seq!['n', 'u', 'l', 'l']);
}

proof fn lemma_item_texts(items: Seq<Json>, n: int)
    requires
        0 <= n <= items.len(),
    ensures
        item_texts(items, n).len() == n,
        forall|i: int| 0 <= i < n ==> #[trigger] item_texts(items, n)[i] == json_text(items[i]),
    decreases n,
{
    if n > 0 {
        lemma_item_texts(items, n - 1);
    }
}

proof fn lemma_member_texts(members: Seq<(Seq<char>, Json)>, n: int)
    requires
        0 <= n <= members.len(),
    ensures
        member_texts(members, n).len() == n,
        forall|i: int|
            0 <= i < n ==> #[trigger] member_texts(members, n)[i] == (
                members[i].0,
                json_text(members[i].1),
            ),
    decreases n,
{
    if n > 0 {
        lemma_member_texts(members, n - 1);
    }
}

/// An array is written as its items between brackets: two arrays one after the
/// other are written as the first and the second with a comma between them.
pub proof fn arrays_are_written_item_by_item(a: Seq<Json>, b: Seq<Json>, x: Json)
    ensures
        json_text(Json::Array(Seq::empty())) == seq!['[', ']'],
        json_text(Json::Array(seq![x])) == seq!['['] + json_text(x) + seq![']'],
        a.len() > 0 && b.len() > 0 ==> json_text(Json::Array(a + b)) == json_text(
            Json::Array(a),
        ).drop_last() + seq![','] + json_text(Json::Array(b)).skip(1),
{
    reveal_strlit("[");
    reveal_strlit("]");
    reveal_strlit(",");
    assert("["@ =~= seq!['[']);
    assert("]"@ =~= seq![']']);
    assert(","@ =~= seq![',']);
    let e = Seq::<Json>::empty();
    lemma_item_texts(e, 0);
    assert(item_texts(e, 0) =~= Seq::<Seq<char>>::empty());
    assert(json_text(Json::Array(e)) =~= seq!['[', ']']);
    lemma_item_texts(seq![x], 1);
    assert(item_texts(seq![x], 1) =~= seq![json_text(x)]);
    assert(json_text(Json::Array(seq![x])) =~= seq!['['] + json_text(x) + seq![']']);
    if a.len() > 0 && b.len() > 0 {
        let ab = a + b;
        lemma_item_texts(a, a.len() as int);
        lemma_item_texts(b, b.len() as int);
        lemma_item_texts(ab, ab.len() as int);
        let ta = item_texts(a, a.len() as int);
        let tb = item_texts(b, b.len() as int);
        assert(item_texts(ab, ab.len() as int) =~= ta + tb);
        joining_puts_one_separator_between(ta, tb, ","@);
        assert(json_text(Json::Array(ab)) =~= json_text(Json::Array(a)).drop_last() + seq![',']
            + json_text(Json::Array(b)).skip(1));
    }
}

/// An object is written as its members between braces, in the order of their
/// names, each as its name, a colon and its value.
pub proof fn objects_are_written_member_by_member(members: Seq<(Seq<char>, Json)>)
    ensures
        exists|order: Seq<(Seq<char>, Seq<char>)>| #[trigger]
            writes_members(members, order),
        json_text(Json::Object(Seq::empty())) == seq!['{', '}'],
        members.len() == 1 ==> json_text(Json::Object(members)) == seq!['{'] + quoted(members[0].0)
            + seq![':'] + json_text(members[0].1) + seq!['}'],
{
    reveal_strlit("{");
    reveal_strlit("}");
    reveal_strlit(",");
    reveal_strlit(":");
    assert("{"@ =~= seq!['{']);
    assert("}"@ =~= seq!['}']);
    assert(","@ =~= seq![',']);
    assert(":"@ =~= seq![':']);
    let list = member_texts(members, members.len() as int);
    lemma_member_texts(members, members.len() as int);
    let given = members.map_values(|m: (Seq<char>, Json)| (m.0, json_text(m.1)));
    assert(list =~= given);
    let order = in_order(list);
    members_are_written_in_order(list);
    let lines = order.map_values(
        |m: (Seq<char>, Seq<char>)| quoted(m.0) + seq![':'] + m.1,
    );
    assert(listed_members(order) =~= lines);
    assert(json_text(Json::Object(members)) =~= seq!['{'] + join(lines, seq![',']) + seq!['}']);
    assert(writes_members(members, order));
    let none = Seq::<(Seq<char>, Json)>::empty();
    lemma_member_texts(none, 0);
    assert(member_texts(none, 0) =~= Seq::<(Seq<char>, Seq<char>)>::empty());
    assert(listed_members(Seq::empty()) =~= Seq::<Seq<char>>::empty());
    assert(json_text(Json::Object(none)) =~= seq!['{', '}']);
    if members.len() == 1 {
        assert(list.drop_last() =~= Seq::<(Seq<char>, Seq<char>)>::empty());
        reveal_with_fuel(in_order, 2);
        assert(order =~= seq![(members[0].0, json_text(members[0].1))]);
        assert(lines.len() == 1);
        assert(json_text(Json::Object(members)) =~= seq!['{'] + quoted(members[0].0) + seq![':']
            + json_text(members[0].1) + seq!['}']);
    }
}

/// Whether an object is written with its members as `order` has them: all of them,
/// none twice as often as it stands there, in the order of their names.
pub open spec fn writes_members(
    members: Seq<(Seq<char>, Json)>,
    order: Seq<(Seq<char>, Seq<char>)>,
) -> bool {
    &&& order.to_multiset() == members.map_values(
        |m: (Seq<char>, Json)| (m.0, json_text(m.1)),
    ).to_multiset()
    &&& forall|i: int, j: int|
        0 <= i < j < order.len() ==> !comes_before((#[trigger] order[j]).0, (#[trigger] order[i]).0)
    &&& json_text(Json::Object(members)) == seq!['{'] + join(
        order.map_values(|m: (Seq<char>, Seq<char>)| quoted(m.0) + seq![':'] + m.1),
        seq![','],
    ) + seq!['}']
}

proof fn lemma_escaped_concat(a: Seq<char>, b: Seq<char>)
    ensures
        escaped_text(a + b) == escaped_text(a) + escaped_text(b),
    decreases b.len(),
{
    if b.len() == 0 {
        assert(a + b =~= a);
        assert(escaped_text(a) + escaped_text(b) =~= escaped_text(a));
    } else {
        assert((a + b).drop_last() =~= a + b.drop_last());
        lemma_escaped_concat(a, b.drop_last());
        assert(escaped_text(a + b) =~= escaped_text(a) + escaped_text(b));
    }
}

/// A string is written between quotation marks. A character from the space on that
/// is neither a quotation mark nor a backslash stands for itself, those two stand
/// behind a backslash, and what stands around a character does not change how it
/// is written.
pub proof fn strings_are_written_character_by_character(a: Seq<char>, c: char, b: Seq<char>)
    ensures
        quoted(Seq::empty()) == seq!['"', '"'],
        (c as u32) >= 32 && c != '"' && c != '\\' ==> quoted(a + seq![c] + b) == quoted(
            a,
        ).drop_last() + seq![c] + quoted(b).skip(1),
        c == '"' || c == '\\' ==> quoted(a + seq![c] + b) == quoted(a).drop_last() + seq!['\\', c]
            + quoted(b).skip(1),
        c == '\u{8}' ==> quoted(a + seq![c] + b) == quoted(a).drop_last() + seq!['\\', 'b'] + quoted(
            b,
        ).skip(1),
        c == '\t' ==> quoted(a + seq![c] + b) == quoted(a).drop_last() + seq!['\\', 't'] + quoted(
            b,
        ).skip(1),
        c == '\n' ==> quoted(a + seq![c] + b) == quoted(a).drop_last() + seq!['\\', 'n'] + quoted(
            b,
        ).skip(1),
        c == '\u{c}' ==> quoted(a + seq![c] + b) == quoted(a).drop_last() + seq!['\\', 'f'] + quoted(
            b,
        ).skip(1),
        c == '\r' ==> quoted(a + seq![c] + b) == quoted(a).drop_last() + seq!['\\', 'r'] + quoted(
            b,
        ).skip(1),
        (c as u32) < 32 ==> quoted(seq![c])[1] == '\\',
{
    assert(quoted(Seq::empty()) =~= seq!['"', '"']);
    lemma_escaped_concat(a, seq![c]);
    lemma_escaped_concat(a + seq![c], b);
    assert(seq![c].drop_last() =~= Seq::<char>::empty());
    reveal_with_fuel(escaped_text, 2);
    assert(escaped_text(seq![c]) =~= escaped(c));
    assert(quoted(a + seq![c] + b) =~= quoted(a).drop_last() + escaped(c) + quoted(b).skip(1));
}

/// A JSON number is an integer of 64 signed bits exactly where it is an integer
/// that fits, and then it is that integer.
pub proof fn integers_are_read_where_they_fit(n: u64, i: i64, s: Seq<char>)
    ensures
        n <= i64::MAX ==> (json_int(Json::Number(JsonNumber::PosInt(n))) matches Some(k) && k == n),
        n > i64::MAX ==> json_int(Json::Number(JsonNumber::PosInt(n))) is None,
        json_int(Json::Number(JsonNumber::NegInt(i))) == Some(i),
        json_int(Json::Number(JsonNumber::Float(s))) is None,
        json_int(Json::String(s)) is None,
{
}

/// A member of an object is looked up by its name, and nothing else has members.
pub proof fn members_are_looked_up_by_name(
    rows: Seq<(Seq<char>, Json)>,
    key: Seq<char>,
    value: Json,
    j: Json,
)
    ensures
        json_member(Json::Object(put(rows, key, value)), key) == Some(value),
        !has_name(rows, key) ==> json_member(Json::Object(rows), key) is None,
        !(j is Object) ==> json_member(j, key) is None,
{
    put_changes_one_name(rows, key, value, key);
}

/// A value is shown as what it holds.
pub proof fn values_are_shown_as_they_are(
    b: bool,
    n: u64,
    i: i64,
    s: String,
    values: Vec<Value>,
    table: Table<Value>,
)
    ensures
        Value::Null@ == Json::Null,
        Value::Bool(b)@ == Json::Bool(b),
        Value::Number(Number::PosInt(n))@ == Json::Number(JsonNumber::PosInt(n)),
        Value::Number(Number::NegInt(i))@ == Json::Number(JsonNumber::NegInt(i)),
        Value::Number(Number::Float(s))@ == Json::Number(JsonNumber::Float(s@)),
        Value::String(s)@ == Json::String(s@),
        Value::Array(values)@ == Json::Array(values@.map_values(|v: Value| v@)),
        Value::Object(table)@ matches Json::Object(rows) && rows.len() == table@.len() && forall|
            k: int,
        |
            0 <= k < rows.len() ==> (#[trigger] rows[k]) == (table@[k].0, table@[k].1@),
{
    lemma_items(values@);
    lemma_members(table);
    let rows = members(table);
    assert forall|k: int| 0 <= k < rows.len() implies (#[trigger] rows[k]) == (
        table@[k].0,
        table@[k].1@,
    ) by {}
}

/// A control character without an escape of its own is written as its code, in four
/// digits to the base sixteen, the letters among them small.
pub proof fn control_characters_are_written_as_their_codes(c: char)
    requires
        (c as u32) < 32,
        c != '\u{8}' && c != '\t' && c != '\n' && c != '\u{c}' && c != '\r',
    ensures
        quoted(seq![c]).len() == 8,
        quoted(seq![c]).subrange(1, 5) == seq!['\\', 'u', '0', '0'],
        quoted(seq![c])[5] == if (c as u32) < 16 {
            '0'
        } else {
            '1'
        },
        quoted(seq![c])[6] == "0123456789abcdef"@[c as u32 as int % 16],
{
    reveal_strlit("0123456789abcdef");
    assert(seq![c].drop_last() =~= Seq::<char>::empty());
    reveal_with_fuel(escaped_text, 2);
    assert(escaped_text(seq![c]) =~= escaped(c));
    assert(quoted(seq![c]).subrange(1, 5) =~= seq!['\\', 'u', '0', '0']);
}

} // verus!
