//! The values that programs compute with.

use vstd::prelude::*;
use vstd::string::*;

use crate::binary64::{Binary64, INFINITY, SIGN};
use crate::duration::Duration;
use crate::object_laws::{law_insert, law_merge, law_remove};
use crate::syntax::BinaryOperator;
use crate::text::{
    chars_of, decimal, decimal_text, no_text, same, signed_decimal, signed_decimal_text, views,
};

verus! {

// ---------------------------------------------------------------------------
// The order of texts

/// How two things compare.
#[derive(Clone, Copy, Debug, PartialEq, Eq, Structural)]
pub enum Order {
    Before,
    Same,
    After,
}

/// How two texts compare from position `from` on, by code points.
pub open spec fn order_from(left: Seq<char>, right: Seq<char>, from: int) -> Order
    decreases left.len() - from,
{
    if from >= left.len() {
        if from >= right.len() {
            Order::Same
        } else {
            Order::Before
        }
    } else if from >= right.len() {
        Order::After
    } else if (left[from] as u32) < (right[from] as u32) {
        Order::Before
    } else if (left[from] as u32) > (right[from] as u32) {
        Order::After
    } else {
        order_from(left, right, from + 1)
    }
}

/// How two texts compare.
pub open spec fn order(left: Seq<char>, right: Seq<char>) -> Order {
    order_from(left, right, 0)
}

pub fn text_order(left: &str, right: &str) -> (found: Order)
    ensures
        found == order(left@, right@),
{
    let a: Vec<char> = chars_of(left);
    let b: Vec<char> = chars_of(right);
    let mut at: usize = 0;
    while at < a.len() && at < b.len()
        invariant
            a@ == left@,
            b@ == right@,
            at <= a@.len(),
            at <= b@.len(),
            order(left@, right@) == order_from(left@, right@, at as int),
        decreases a@.len() - at,
    {
        if (a[at] as u32) < (b[at] as u32) {
            return Order::Before;
        }
        if (a[at] as u32) > (b[at] as u32) {
            return Order::After;
        }
        at += 1;
    }
    if at < a.len() {
        Order::After
    } else if at < b.len() {
        Order::Before
    } else {
        Order::Same
    }
}

// ---------------------------------------------------------------------------
// Values

/// A value of the language. `Sensitive` marks what no output may show.
#[derive(Debug, PartialEq)]
pub enum Value {
    Null,
    Boolean(bool),
    Integer(i64),
    Float(Binary64),
    String(String),
    Bytes(Vec<u8>),
    Duration(Duration),
    Array(Vec<Value>),
    Object(Object),
    Sensitive(Box<Value>),
}

/// Named values in the order of their names.
#[derive(Debug, PartialEq)]
pub struct Object {
    pub entries: Vec<Entry>,
}

/// A named value.
#[derive(Debug, PartialEq)]
pub struct Entry {
    pub name: String,
    pub value: Value,
}

pub enum ValueModel {
    Null,
    Boolean(bool),
    Integer(i64),
    Float(Binary64),
    String(Seq<char>),
    Bytes(Seq<u8>),
    Duration(Duration),
    Array(Seq<ValueModel>),
    Object(Seq<EntryModel>),
    Sensitive(Box<ValueModel>),
}

pub struct EntryModel {
    pub name: Seq<char>,
    pub value: ValueModel,
}

impl Value {
    pub open spec fn model(self) -> ValueModel
        decreases self,
    {
        match self {
            Value::Null => ValueModel::Null,
            Value::Boolean(value) => ValueModel::Boolean(value),
            Value::Integer(value) => ValueModel::Integer(value),
            Value::Float(value) => ValueModel::Float(value),
            Value::String(value) => ValueModel::String(value@),
            Value::Bytes(value) => ValueModel::Bytes(value@),
            Value::Duration(value) => ValueModel::Duration(value),
            Value::Array(values) => ValueModel::Array(value_models(values@)),
            Value::Object(object) => ValueModel::Object(object.model()),
            Value::Sensitive(value) => ValueModel::Sensitive(Box::new((*value).model())),
        }
    }
}

impl Object {
    pub open spec fn model(self) -> Seq<EntryModel>
        decreases self,
    {
        entry_models(self.entries@)
    }
}

impl Entry {
    pub open spec fn model(self) -> EntryModel
        decreases self,
    {
        EntryModel { name: self.name@, value: self.value.model() }
    }
}

pub open spec fn value_models(values: Seq<Value>) -> Seq<ValueModel>
    decreases values,
{
    Seq::new(
        values.len(),
        |i: int|
            if 0 <= i < values.len() {
                values[i].model()
            } else {
                arbitrary()
            },
    )
}

pub open spec fn entry_models(entries: Seq<Entry>) -> Seq<EntryModel>
    decreases entries,
{
    Seq::new(
        entries.len(),
        |i: int|
            if 0 <= i < entries.len() {
                entries[i].model()
            } else {
                arbitrary()
            },
    )
}

pub open spec fn optional_value(value: Option<Value>) -> Option<ValueModel> {
    match value {
        Some(value) => Some(value.model()),
        None => None,
    }
}

pub open spec fn optional_reference(value: Option<&Value>) -> Option<ValueModel> {
    match value {
        Some(value) => Some((*value).model()),
        None => None,
    }
}

/// Whether the entries stand in the order of their names, each name once.
pub open spec fn sorted(entries: Seq<EntryModel>) -> bool {
    forall|i: int, j: int|
        0 <= i < j < entries.len() ==> order(
            (#[trigger] entries[i]).name,
            (#[trigger] entries[j]).name,
        ) == Order::Before
}

/// The position of the first entry from `from` on whose name does not come
/// before `name`.
pub open spec fn place(entries: Seq<EntryModel>, name: Seq<char>, from: int) -> int
    decreases entries.len() - from,
{
    if from >= entries.len() || order(entries[from].name, name) != Order::Before {
        from
    } else {
        place(entries, name, from + 1)
    }
}

/// The entries with `name` standing for `value`.
pub open spec fn inserted(entries: Seq<EntryModel>, name: Seq<char>, value: ValueModel) -> Seq<
    EntryModel,
> {
    let at = place(entries, name, 0);
    if at < entries.len() && entries[at].name == name {
        entries.update(at, EntryModel { name, value })
    } else {
        entries.insert(at, EntryModel { name, value })
    }
}

/// The position of the first entry of the name from `from` on.
pub open spec fn find(entries: Seq<EntryModel>, name: Seq<char>, from: int) -> Option<int>
    decreases entries.len() - from,
{
    if from >= entries.len() {
        None
    } else if entries[from].name == name {
        Some(from)
    } else {
        find(entries, name, from + 1)
    }
}

/// What stands under the name.
pub open spec fn lookup(entries: Seq<EntryModel>, name: Seq<char>) -> Option<ValueModel> {
    match find(entries, name, 0) {
        Some(at) => Some(entries[at].value),
        None => None,
    }
}

/// The entries without the one of the name.
pub open spec fn removed(entries: Seq<EntryModel>, name: Seq<char>) -> Seq<EntryModel> {
    match find(entries, name, 0) {
        Some(at) => entries.remove(at),
        None => entries,
    }
}

impl Object {
    #[must_use]
    pub fn new() -> (object: Object)
        ensures
            object.model() == Seq::<EntryModel>::empty(),
            sorted(object.model()),
    {
        let object: Object = Object { entries: Vec::new() };
        proof {
            assert(object.model() =~= Seq::empty());
        }
        object
    }

    #[must_use]
    pub fn len(&self) -> (count: usize)
        ensures
            count == self.model().len(),
    {
        self.entries.len()
    }

    fn find(&self, name: &str) -> (found: Option<usize>)
        ensures
            (match found {
                Some(at) => Some(at as int),
                None => None,
            }) == find(self.model(), name@, 0),
            found matches Some(at) ==> at < self.entries@.len(),
    {
        let ghost models = self.model();
        let mut at: usize = 0;
        while at < self.entries.len()
            invariant
                models == self.model(),
                at <= self.entries@.len(),
                find(models, name@, 0) == find(models, name@, at as int),
            decreases self.entries@.len() - at,
        {
            proof {
                assert(models[at as int] == self.entries@[at as int].model());
            }
            if same(self.entries[at].name.as_str(), name) {
                return Some(at);
            }
            at += 1;
        }
        None
    }

    /// The value under the name.
    #[must_use]
    pub fn get(&self, name: &str) -> (value: Option<&Value>)
        ensures
            optional_reference(value) == lookup(self.model(), name@),
    {
        match self.find(name) {
            Some(at) => {
                proof {
                    assert(self.model()[at as int] == self.entries@[at as int].model());
                }
                Some(&self.entries[at].value)
            },
            None => None,
        }
    }

    #[must_use]
    pub fn contains_key(&self, name: &str) -> (yes: bool)
        ensures
            yes == (lookup(self.model(), name@) is Some),
    {
        self.find(name).is_some()
    }

    /// Puts `value` under the name.
    pub fn insert(&mut self, name: String, value: Value)
        ensures
            final(self).model() == inserted(old(self).model(), name@, value.model()),
            sorted(old(self).model()) ==> sorted(final(self).model()),
    {
        proof {
            if sorted(self.model()) {
                law_insert(self.model(), name@, value.model(), name@);
            }
        }
        let ghost before = self.entries@;
        let ghost models = self.model();
        let mut at: usize = 0;
        loop
            invariant_except_break
                self.entries@ == before,
                models == entry_models(before),
                at <= before.len(),
                place(models, name@, 0) == place(models, name@, at as int),
            ensures
                self.entries@ == before,
                models == entry_models(before),
                at <= before.len(),
                place(models, name@, 0) == at,
            decreases before.len() - at,
        {
            if at >= self.entries.len() {
                break;
            }
            proof {
                assert(models[at as int] == before[at as int].model());
            }
            if text_order(self.entries[at].name.as_str(), name.as_str()) != Order::Before {
                break;
            }
            at += 1;
        }
        let replace: bool = at < self.entries.len() && same(
            self.entries[at].name.as_str(),
            name.as_str(),
        );
        let entry: Entry = Entry { name, value };
        if replace {
            self.entries.set(at, entry);
            proof {
                assert(models[at as int] == before[at as int].model());
                assert(self.model() =~= models.update(at as int, entry.model()));
            }
        } else {
            self.entries.insert(at, entry);
            proof {
                if at < before.len() {
                    assert(models[at as int] == before[at as int].model());
                }
                assert(self.model() =~= models.insert(at as int, entry.model()));
            }
        }
    }

    /// Takes the value under the name out.
    pub fn remove(&mut self, name: &str) -> (value: Option<Value>)
        ensures
            final(self).model() == removed(old(self).model(), name@),
            optional_value(value) == lookup(old(self).model(), name@),
            sorted(old(self).model()) ==> sorted(final(self).model()),
    {
        proof {
            if sorted(self.model()) {
                law_remove(self.model(), name@, name@);
            }
        }
        match self.find(name) {
            Some(at) => {
                let ghost before = self.entries@;
                let entry: Entry = self.entries.remove(at);
                proof {
                    assert(entry_models(before)[at as int] == before[at as int].model());
                    assert(self.model() =~= entry_models(before).remove(at as int));
                }
                Some(entry.value)
            },
            None => None,
        }
    }

    /// The same entries once more.
    pub fn duplicate(&self) -> (copy: Object)
        ensures
            copy.model() == self.model(),
        decreases self,
    {
        let mut entries: Vec<Entry> = Vec::new();
        let mut at: usize = 0;
        while at < self.entries.len()
            invariant
                at <= self.entries@.len(),
                entries@.len() == at,
                forall|i: int|
                    0 <= i < at ==> (#[trigger] entries@[i]).model() == self.entries@[i].model(),
            decreases self.entries@.len() - at,
        {
            let ghost held = entries@;
            let name: String = self.entries[at].name.clone();
            let value: Value = self.entries[at].value.duplicate();
            entries.push(Entry { name, value });
            at += 1;
        }
        let copy: Object = Object { entries };
        proof {
            assert(copy.model() =~= self.model());
        }
        copy
    }
}

impl Clone for Object {
    fn clone(&self) -> (copy: Object)
        ensures
            copy.model() == self.model(),
    {
        self.duplicate()
    }
}

impl Clone for Value {
    fn clone(&self) -> (copy: Value)
        ensures
            copy.model() == self.model(),
    {
        self.duplicate()
    }
}

pub open spec fn kind_name(value: ValueModel) -> Seq<char>
    decreases value,
{
    match value {
        ValueModel::Null => "null"@,
        ValueModel::Boolean(_) => "boolean"@,
        ValueModel::Integer(_) => "integer"@,
        ValueModel::Float(_) => "number"@,
        ValueModel::String(_) => "string"@,
        ValueModel::Bytes(_) => "bytes"@,
        ValueModel::Duration(_) => "duration"@,
        ValueModel::Array(_) => "array"@,
        ValueModel::Object(_) => "object"@,
        ValueModel::Sensitive(inner) => kind_name(*inner),
    }
}

impl ValueModel {
    /// The value behind its marks of sensitivity.
    pub open spec fn revealed(self) -> ValueModel
        decreases self,
    {
        match self {
            ValueModel::Sensitive(inner) => (*inner).revealed(),
            _ => self,
        }
    }

    /// The value marked as sensitive.
    pub open spec fn sensitive(self) -> ValueModel {
        match self {
            ValueModel::Sensitive(_) => self,
            _ => ValueModel::Sensitive(Box::new(self)),
        }
    }

    /// Whether the value or something inside it is marked.
    pub open spec fn contains_sensitive(self) -> bool
        decreases self,
    {
        match self {
            ValueModel::Sensitive(_) => true,
            ValueModel::Array(values) => some_sensitive(values),
            ValueModel::Object(entries) => some_entry_sensitive(entries),
            _ => false,
        }
    }
}

pub open spec fn some_sensitive(values: Seq<ValueModel>) -> bool
    decreases values,
{
    exists|i: int| 0 <= i < values.len() && (#[trigger] values[i]).contains_sensitive()
}

pub open spec fn some_entry_sensitive(entries: Seq<EntryModel>) -> bool
    decreases entries,
{
    exists|i: int| 0 <= i < entries.len() && (#[trigger] entries[i]).value.contains_sensitive()
}

impl Value {
    /// The same value once more.
    pub fn duplicate(&self) -> (copy: Value)
        ensures
            copy.model() == self.model(),
        decreases self,
    {
        match self {
            Value::Null => Value::Null,
            Value::Boolean(value) => Value::Boolean(*value),
            Value::Integer(value) => Value::Integer(*value),
            Value::Float(value) => Value::Float(*value),
            Value::String(value) => Value::String(value.clone()),
            Value::Bytes(value) => Value::Bytes(copied_bytes(value)),
            Value::Duration(value) => Value::Duration(*value),
            Value::Array(values) => Value::Array(copied_values(values)),
            Value::Object(object) => Value::Object(object.duplicate()),
            Value::Sensitive(value) => Value::Sensitive(Box::new((**value).duplicate())),
        }
    }

    /// What error messages call the type of the value.
    #[must_use]
    pub fn kind_name(&self) -> (name: &'static str)
        ensures
            name@ == kind_name(self.model()),
        decreases self,
    {
        match self {
            Value::Null => "null",
            Value::Boolean(_) => "boolean",
            Value::Integer(_) => "integer",
            Value::Float(_) => "number",
            Value::String(_) => "string",
            Value::Bytes(_) => "bytes",
            Value::Duration(_) => "duration",
            Value::Array(_) => "array",
            Value::Object(_) => "object",
            Value::Sensitive(value) => (**value).kind_name(),
        }
    }

    #[must_use]
    pub fn as_object(&self) -> (object: Option<&Object>)
        ensures
            match object {
                Some(object) => self.model() == ValueModel::Object(object.model()),
                None => !(self.model() is Object),
            },
    {
        match self {
            Value::Object(object) => Some(object),
            _ => None,
        }
    }

    /// The value behind its marks of sensitivity.
    #[must_use]
    pub fn revealed(&self) -> (value: &Value)
        ensures
            value.model() == self.model().revealed(),
            !(value.model() is Sensitive),
        decreases self,
    {
        match self {
            Value::Sensitive(value) => (**value).revealed(),
            _ => self,
        }
    }

    /// The value marked as sensitive.
    #[must_use]
    pub fn sensitive(self) -> (value: Value)
        ensures
            value.model() == self.model().sensitive(),
    {
        match self {
            Value::Sensitive(value) => Value::Sensitive(value),
            value => Value::Sensitive(Box::new(value)),
        }
    }

    #[must_use]
    pub fn is_sensitive(&self) -> (yes: bool)
        ensures
            yes == (self.model() is Sensitive),
    {
        match self {
            Value::Sensitive(_) => true,
            _ => false,
        }
    }

    /// Whether the value or something inside it is marked as sensitive.
    #[must_use]
    pub fn contains_sensitive(&self) -> (yes: bool)
        ensures
            yes == self.model().contains_sensitive(),
        decreases self,
    {
        match self {
            Value::Sensitive(_) => true,
            Value::Array(values) => any_sensitive(values),
            Value::Object(object) => {
                proof {
                    assert(object.model() == entry_models(object.entries@));
                }
                any_entry_sensitive(&object.entries)
            },
            _ => false,
        }
    }
}

fn any_sensitive(values: &Vec<Value>) -> (yes: bool)
    ensures
        yes == some_sensitive(value_models(values@)),
    decreases values,
{
    let mut at: usize = 0;
    while at < values.len()
        invariant
            at <= values@.len(),
            forall|i: int|
                0 <= i < at ==> !(#[trigger] value_models(values@)[i]).contains_sensitive(),
        decreases values@.len() - at,
    {
        proof {
            assert(value_models(values@)[at as int] == values@[at as int].model());
        }
        if values[at].contains_sensitive() {
            return true;
        }
        at += 1;
    }
    false
}

fn any_entry_sensitive(entries: &Vec<Entry>) -> (yes: bool)
    ensures
        yes == some_entry_sensitive(entry_models(entries@)),
    decreases entries,
{
    let mut at: usize = 0;
    while at < entries.len()
        invariant
            at <= entries@.len(),
            forall|i: int|
                0 <= i < at ==> !(#[trigger] entry_models(entries@)[i]).value.contains_sensitive(),
        decreases entries@.len() - at,
    {
        proof {
            assert(entry_models(entries@)[at as int] == entries@[at as int].model());
        }
        if entries[at].value.contains_sensitive() {
            return true;
        }
        at += 1;
    }
    false
}

pub fn copied_bytes(bytes: &Vec<u8>) -> (copy: Vec<u8>)
    ensures
        copy@ == bytes@,
{
    let mut copy: Vec<u8> = Vec::new();
    let mut at: usize = 0;
    while at < bytes.len()
        invariant
            at <= bytes@.len(),
            copy@ == bytes@.subrange(0, at as int),
        decreases bytes@.len() - at,
    {
        copy.push(bytes[at]);
        at += 1;
        proof {
            assert(copy@ =~= bytes@.subrange(0, at as int));
        }
    }
    proof {
        assert(copy@ =~= bytes@);
    }
    copy
}

pub fn copied_values(values: &Vec<Value>) -> (copy: Vec<Value>)
    ensures
        value_models(copy@) == value_models(values@),
    decreases values,
{
    let mut copy: Vec<Value> = Vec::new();
    let mut at: usize = 0;
    while at < values.len()
        invariant
            at <= values@.len(),
            copy@.len() == at,
            forall|i: int| 0 <= i < at ==> (#[trigger] copy@[i]).model() == values@[i].model(),
        decreases values@.len() - at,
    {
        let value: Value = values[at].duplicate();
        copy.push(value);
        at += 1;
    }
    proof {
        assert(value_models(copy@) =~= value_models(values@));
    }
    copy
}

// ---------------------------------------------------------------------------
// Text

/// What output shows in place of a sensitive value.
pub open spec fn redacted() -> Seq<char> {
    "[REDACTED]"@
}

pub open spec fn hexadecimal(value: nat) -> char {
    if value < 10 {
        (48 + value) as char
    } else {
        (87 + value) as char
    }
}

/// A character inside a quoted text.
pub open spec fn escaped(c: char) -> Seq<char> {
    if c == '"' {
        seq!['\\', '"']
    } else if c == '\\' {
        seq!['\\', '\\']
    } else if c == '\u{08}' {
        seq!['\\', 'b']
    } else if c == '\u{0c}' {
        seq!['\\', 'f']
    } else if c == '\n' {
        seq!['\\', 'n']
    } else if c == '\r' {
        seq!['\\', 'r']
    } else if c == '\t' {
        seq!['\\', 't']
    } else if (c as u32) <= 0x1f {
        seq![
            '\\',
            'u',
            '0',
            '0',
            hexadecimal((c as u32 / 16) as nat),
            hexadecimal((c as u32 % 16) as nat),
        ]
    } else {
        seq![c]
    }
}

pub open spec fn escape_from(text: Seq<char>, from: int) -> Seq<char>
    decreases text.len() - from,
{
    if from >= text.len() {
        Seq::empty()
    } else {
        escaped(text[from]) + escape_from(text, from + 1)
    }
}

/// A text between quotation marks.
pub open spec fn quoted(text: Seq<char>) -> Seq<char> {
    seq!['"'] + escape_from(text, 0) + seq!['"']
}

/// Bytes as a list of numbers, from position `from` on.
pub open spec fn byte_list(bytes: Seq<u8>, from: int) -> Seq<char>
    decreases bytes.len() - from,
{
    if from >= bytes.len() {
        Seq::empty()
    } else {
        (if from > 0 {
            ", "@
        } else {
            Seq::empty()
        }) + decimal(bytes[from] as nat) + byte_list(bytes, from + 1)
    }
}

/// The text of a value. With `expose` it shows sensitive values too.
pub open spec fn shown(value: ValueModel, expose: bool) -> Seq<char>
    decreases value, 0int,
{
    match value {
        ValueModel::Null => "null"@,
        ValueModel::Boolean(true) => "true"@,
        ValueModel::Boolean(false) => "false"@,
        ValueModel::Integer(value) => signed_decimal(value as int),
        ValueModel::Float(value) => value.text(),
        ValueModel::String(value) => value,
        ValueModel::Bytes(value) => seq!['['] + byte_list(value, 0) + seq![']'],
        ValueModel::Duration(value) => decimal(value.nanos as nat) + "ns"@,
        ValueModel::Array(values) => seq!['['] + value_list(values, 0, expose) + seq![']'],
        ValueModel::Object(entries) => seq!['{'] + entry_list(entries, 0, expose) + seq!['}'],
        ValueModel::Sensitive(inner) => if expose {
            shown(*inner, expose)
        } else {
            redacted()
        },
    }
}

/// The text of a value inside another one, where texts are quoted.
pub open spec fn shown_inside(value: ValueModel, expose: bool) -> Seq<char>
    decreases value, 1int,
{
    match value {
        ValueModel::String(value) => quoted(value),
        ValueModel::Sensitive(inner) => if expose {
            shown_inside(*inner, expose)
        } else {
            quoted(redacted())
        },
        _ => shown(value, expose),
    }
}

pub open spec fn value_list(values: Seq<ValueModel>, from: int, expose: bool) -> Seq<char>
    decreases values, values.len() - from,
{
    if from < 0 || from >= values.len() {
        Seq::empty()
    } else {
        (if from > 0 {
            ", "@
        } else {
            Seq::empty()
        }) + shown_inside(values[from], expose) + value_list(values, from + 1, expose)
    }
}

pub open spec fn entry_list(entries: Seq<EntryModel>, from: int, expose: bool) -> Seq<char>
    decreases entries, entries.len() - from,
{
    if from < 0 || from >= entries.len() {
        Seq::empty()
    } else {
        (if from > 0 {
            ", "@
        } else {
            Seq::empty()
        }) + quoted(entries[from].name) + ": "@ + shown_inside(entries[from].value, expose)
            + entry_list(entries, from + 1, expose)
    }
}

fn hexadecimal_char(value: u32) -> (c: char)
    requires
        value < 16,
    ensures
        c == hexadecimal(value as nat),
{
    if value < 10 {
        (48 + value as u8) as char
    } else {
        (87 + value as u8) as char
    }
}

fn push_escaped(text: &mut String, c: char)
    ensures
        final(text)@ == old(text)@ + escaped(c),
{
    if c == '"' {
        text.push('\\');
        text.push('"');
    } else if c == '\\' {
        text.push('\\');
        text.push('\\');
    } else if c == '\u{08}' {
        text.push('\\');
        text.push('b');
    } else if c == '\u{0c}' {
        text.push('\\');
        text.push('f');
    } else if c == '\n' {
        text.push('\\');
        text.push('n');
    } else if c == '\r' {
        text.push('\\');
        text.push('r');
    } else if c == '\t' {
        text.push('\\');
        text.push('t');
    } else if (c as u32) <= 0x1f {
        text.push('\\');
        text.push('u');
        text.push('0');
        text.push('0');
        text.push(hexadecimal_char(c as u32 / 16));
        text.push(hexadecimal_char(c as u32 % 16));
    } else {
        text.push(c);
    }
    proof {
        assert(text@ =~= old(text)@ + escaped(c));
    }
}

/// Writes the text behind `output`, between quotation marks.
pub fn push_quoted(output: &mut String, text: &str)
    ensures
        final(output)@ == old(output)@ + quoted(text@),
{
    let chars: Vec<char> = chars_of(text);
    output.push('"');
    let ghost start = output@;
    let mut at: usize = 0;
    proof {
        assert(start =~= start + Seq::<char>::empty());
    }
    while at < chars.len()
        invariant
            chars@ == text@,
            at <= chars@.len(),
            output@ + escape_from(text@, at as int) == start + escape_from(text@, 0),
        decreases chars@.len() - at,
    {
        let ghost held = output@;
        push_escaped(output, chars[at]);
        proof {
            assert(held + (escaped(text@[at as int]) + escape_from(text@, at + 1)) =~= (held
                + escaped(text@[at as int])) + escape_from(text@, at + 1));
        }
        at += 1;
    }
    output.push('"');
    proof {
        let body = escape_from(text@, 0);
        assert(output@ =~= old(output)@ + (seq!['"'] + body + seq!['"']));
    }
}

fn push_separator(output: &mut String, at: usize)
    ensures
        final(output)@ == old(output)@ + (if at > 0 {
            ", "@
        } else {
            Seq::empty()
        }),
{
    if at > 0 {
        output.append(", ");
    } else {
        proof {
            assert(output@ =~= output@ + Seq::<char>::empty());
        }
    }
}

fn push_bytes(output: &mut String, bytes: &Vec<u8>)
    ensures
        final(output)@ == old(output)@ + byte_list(bytes@, 0),
{
    let mut at: usize = 0;
    while at < bytes.len()
        invariant
            at <= bytes@.len(),
            output@ + byte_list(bytes@, at as int) == old(output)@ + byte_list(bytes@, 0),
        decreases bytes@.len() - at,
    {
        let ghost held = output@;
        push_separator(output, at);
        let ghost middle = output@;
        output.append(decimal_text(bytes[at] as u128).as_str());
        proof {
            let gap = if at > 0 {
                ", "@
            } else {
                Seq::empty()
            };
            let item = decimal(bytes@[at as int] as nat);
            let rest = byte_list(bytes@, at + 1);
            assert(held + (gap + item + rest) =~= ((held + gap) + item) + rest);
        }
        at += 1;
    }
    proof {
        assert(output@ + Seq::<char>::empty() =~= output@);
    }
}

fn push_values(output: &mut String, values: &Vec<Value>, expose: bool)
    ensures
        final(output)@ == old(output)@ + value_list(value_models(values@), 0, expose),
    decreases values, 0int,
{
    let ghost models = value_models(values@);
    let mut at: usize = 0;
    while at < values.len()
        invariant
            models == value_models(values@),
            at <= values@.len(),
            output@ + value_list(models, at as int, expose) == old(output)@ + value_list(
                models,
                0,
                expose,
            ),
        decreases values@.len() - at,
    {
        let ghost held = output@;
        push_separator(output, at);
        values[at].push_inside(output, expose);
        proof {
            assert(models[at as int] == values@[at as int].model());
            let gap = if at > 0 {
                ", "@
            } else {
                Seq::empty()
            };
            let item = shown_inside(models[at as int], expose);
            let rest = value_list(models, at + 1, expose);
            assert(held + (gap + item + rest) =~= ((held + gap) + item) + rest);
        }
        at += 1;
    }
    proof {
        assert(output@ + Seq::<char>::empty() =~= output@);
    }
}

fn push_entries(output: &mut String, entries: &Vec<Entry>, expose: bool)
    ensures
        final(output)@ == old(output)@ + entry_list(entry_models(entries@), 0, expose),
    decreases entries, 0int,
{
    let ghost models = entry_models(entries@);
    let mut at: usize = 0;
    while at < entries.len()
        invariant
            models == entry_models(entries@),
            at <= entries@.len(),
            output@ + entry_list(models, at as int, expose) == old(output)@ + entry_list(
                models,
                0,
                expose,
            ),
        decreases entries@.len() - at,
    {
        let ghost held = output@;
        push_separator(output, at);
        push_quoted(output, entries[at].name.as_str());
        output.append(": ");
        entries[at].value.push_inside(output, expose);
        proof {
            assert(models[at as int] == entries@[at as int].model());
            let gap = if at > 0 {
                ", "@
            } else {
                Seq::empty()
            };
            let name = quoted(models[at as int].name);
            let item = shown_inside(models[at as int].value, expose);
            let rest = entry_list(models, at + 1, expose);
            assert(held + (gap + name + ": "@ + item + rest) =~= ((((held + gap) + name) + ": "@)
                + item) + rest);
        }
        at += 1;
    }
    proof {
        assert(output@ + Seq::<char>::empty() =~= output@);
    }
}

impl Value {
    fn push_shown(&self, output: &mut String, expose: bool)
        ensures
            final(output)@ == old(output)@ + shown(self.model(), expose),
        decreases self, 1int,
    {
        match self {
            Value::Null => output.append("null"),
            Value::Boolean(true) => output.append("true"),
            Value::Boolean(false) => output.append("false"),
            Value::Integer(value) => output.append(signed_decimal_text(*value).as_str()),
            Value::Float(value) => output.append(value.to_text().as_str()),
            Value::String(value) => output.append(value.as_str()),
            Value::Bytes(value) => {
                output.push('[');
                push_bytes(output, value);
                output.push(']');
                proof {
                    let list = byte_list(value@, 0);
                    assert(output@ =~= old(output)@ + (seq!['['] + list + seq![']']));
                }
            },
            Value::Duration(value) => {
                output.append(decimal_text(value.nanos).as_str());
                output.append("ns");
                proof {
                    assert(output@ =~= old(output)@ + (decimal(value.nanos as nat) + "ns"@));
                }
            },
            Value::Array(values) => {
                output.push('[');
                push_values(output, values, expose);
                output.push(']');
                proof {
                    let list = value_list(value_models(values@), 0, expose);
                    assert(output@ =~= old(output)@ + (seq!['['] + list + seq![']']));
                }
            },
            Value::Object(object) => {
                output.push('{');
                push_entries(output, &object.entries, expose);
                output.push('}');
                proof {
                    assert(object.model() == entry_models(object.entries@));
                    let list = entry_list(entry_models(object.entries@), 0, expose);
                    assert(output@ =~= old(output)@ + (seq!['{'] + list + seq!['}']));
                }
            },
            Value::Sensitive(value) => if expose {
                (**value).push_shown(output, expose);
            } else {
                output.append("[REDACTED]");
            },
        }
    }

    fn push_inside(&self, output: &mut String, expose: bool)
        ensures
            final(output)@ == old(output)@ + shown_inside(self.model(), expose),
        decreases self, 2int,
    {
        match self {
            Value::String(value) => push_quoted(output, value.as_str()),
            Value::Sensitive(value) => if expose {
                (**value).push_inside(output, expose);
            } else {
                push_quoted(output, "[REDACTED]");
            },
            _ => self.push_shown(output, expose),
        }
    }

    /// The text of the value, with sensitive values redacted.
    #[must_use]
    pub fn to_text(&self) -> (text: String)
        ensures
            text@ == shown(self.model(), false),
    {
        let mut text: String = no_text();
        self.push_shown(&mut text, false);
        proof {
            assert(Seq::<char>::empty() + shown(self.model(), false) =~= shown(
                self.model(),
                false,
            ));
        }
        text
    }

    /// The text of the value, sensitive values included as they are.
    #[must_use]
    pub fn exposed_string(&self) -> (text: String)
        ensures
            text@ == shown(self.model(), true),
    {
        let mut text: String = no_text();
        self.push_shown(&mut text, true);
        proof {
            assert(Seq::<char>::empty() + shown(self.model(), true) =~= shown(self.model(), true));
        }
        text
    }
}

// ---------------------------------------------------------------------------
// Sensitive texts

/// The texts inside a value that are marked as sensitive; `marked` tells
/// whether something around the value is.
pub open spec fn sensitive_texts(value: ValueModel, marked: bool) -> Seq<Seq<char>>
    decreases value, 0int,
{
    match value {
        ValueModel::String(text) => if marked {
            seq![text]
        } else {
            Seq::empty()
        },
        ValueModel::Array(values) => listed_texts(values, 0, marked),
        ValueModel::Object(entries) => entry_texts(entries, 0, marked),
        ValueModel::Sensitive(inner) => sensitive_texts(*inner, true),
        _ => Seq::empty(),
    }
}

pub open spec fn listed_texts(values: Seq<ValueModel>, from: int, marked: bool) -> Seq<Seq<char>>
    decreases values, values.len() - from,
{
    if from < 0 || from >= values.len() {
        Seq::empty()
    } else {
        sensitive_texts(values[from], marked) + listed_texts(values, from + 1, marked)
    }
}

pub open spec fn entry_texts(entries: Seq<EntryModel>, from: int, marked: bool) -> Seq<Seq<char>>
    decreases entries, entries.len() - from,
{
    if from < 0 || from >= entries.len() {
        Seq::empty()
    } else {
        sensitive_texts(entries[from].value, marked) + entry_texts(entries, from + 1, marked)
    }
}

impl Value {
    /// Adds the sensitive texts inside the value to `texts`.
    pub fn collect_sensitive(&self, texts: &mut Vec<String>, marked: bool)
        ensures
            views(final(texts)@) == views(old(texts)@) + sensitive_texts(
                self.model(),
                marked,
            ),
        decreases self, 1int,
    {
        match self {
            Value::String(text) => if marked {
                texts.push(text.clone());
            },
            Value::Array(values) => collect_listed(values, texts, marked),
            Value::Object(object) => {
                proof {
                    assert(object.model() == entry_models(object.entries@));
                }
                collect_entries(&object.entries, texts, marked);
            },
            Value::Sensitive(value) => (**value).collect_sensitive(texts, true),
            _ => {},
        }
        proof {
            match *self {
                Value::Array(_) => {},
                Value::Object(_) => {},
                Value::Sensitive(_) => {},
                _ => {
                    assert(views(texts@) =~= views(old(texts)@) + sensitive_texts(
                        self.model(),
                        marked,
                    ));
                },
            }
        }
    }
}

fn collect_listed(values: &Vec<Value>, texts: &mut Vec<String>, marked: bool)
    ensures
        views(final(texts)@) == views(old(texts)@) + listed_texts(
            value_models(values@),
            0,
            marked,
        ),
    decreases values, 0int,
{
    let ghost models = value_models(values@);
    let ghost start = views(texts@);
    let mut at: usize = 0;
    while at < values.len()
        invariant
            models == value_models(values@),
            at <= values@.len(),
            views(texts@) + listed_texts(models, at as int, marked) == start + listed_texts(
                models,
                0,
                marked,
            ),
        decreases values@.len() - at,
    {
        let ghost held = views(texts@);
        values[at].collect_sensitive(texts, marked);
        proof {
            assert(models[at as int] == values@[at as int].model());
            let item = sensitive_texts(models[at as int], marked);
            let rest = listed_texts(models, at + 1, marked);
            assert(held + (item + rest) =~= (held + item) + rest);
        }
        at += 1;
    }
    proof {
        assert(views(texts@) + Seq::<Seq<char>>::empty() =~= views(texts@));
    }
}

fn collect_entries(entries: &Vec<Entry>, texts: &mut Vec<String>, marked: bool)
    ensures
        views(final(texts)@) == views(old(texts)@) + entry_texts(
            entry_models(entries@),
            0,
            marked,
        ),
    decreases entries, 0int,
{
    let ghost models = entry_models(entries@);
    let ghost start = views(texts@);
    let mut at: usize = 0;
    while at < entries.len()
        invariant
            models == entry_models(entries@),
            at <= entries@.len(),
            views(texts@) + entry_texts(models, at as int, marked) == start + entry_texts(
                models,
                0,
                marked,
            ),
        decreases entries@.len() - at,
    {
        let ghost held = views(texts@);
        entries[at].value.collect_sensitive(texts, marked);
        proof {
            assert(models[at as int] == entries@[at as int].model());
            let item = sensitive_texts(models[at as int].value, marked);
            let rest = entry_texts(models, at + 1, marked);
            assert(held + (item + rest) =~= (held + item) + rest);
        }
        at += 1;
    }
    proof {
        assert(views(texts@) + Seq::<Seq<char>>::empty() =~= views(texts@));
    }
}

// ---------------------------------------------------------------------------
// Comparing

impl Binary64 {
    pub open spec fn is_number(self) -> bool {
        self.magnitude() <= INFINITY
    }

    /// Numbers compare as their ranks do; the two zeros share one.
    pub open spec fn rank(self) -> int {
        if self.negative() {
            -(self.magnitude() as int)
        } else {
            self.magnitude() as int
        }
    }

    /// How two numbers compare; nothing compares with what is not a number.
    pub open spec fn compared(self, other: Binary64) -> Option<Order> {
        if !self.is_number() || !other.is_number() {
            None
        } else if self.rank() < other.rank() {
            Some(Order::Before)
        } else if self.rank() > other.rank() {
            Some(Order::After)
        } else {
            Some(Order::Same)
        }
    }

    fn ranked(self) -> (rank: i128)
        ensures
            rank == self.rank(),
    {
        if self.bits >= SIGN {
            -((self.bits - SIGN) as i128)
        } else {
            self.bits as i128
        }
    }

    #[must_use]
    pub fn compare(self, other: Binary64) -> (found: Option<Order>)
        ensures
            found == self.compared(other),
    {
        let left: i128 = self.ranked();
        let right: i128 = other.ranked();
        let top: i128 = INFINITY as i128;
        if left > top || left < -top || right > top || right < -top {
            None
        } else if left < right {
            Some(Order::Before)
        } else if left > right {
            Some(Order::After)
        } else {
            Some(Order::Same)
        }
    }
}

/// Whether two values are equal: of the same kind, with equal contents.
pub open spec fn equals(left: ValueModel, right: ValueModel) -> bool
    decreases left, 0int,
{
    match (left, right) {
        (ValueModel::Float(a), ValueModel::Float(b)) => a.compared(b) == Some(Order::Same),
        (ValueModel::Array(a), ValueModel::Array(b)) => a.len() == b.len() && equal_lists(a, b, 0),
        (ValueModel::Object(a), ValueModel::Object(b)) => a.len() == b.len() && equal_entries(
            a,
            b,
            0,
        ),
        (ValueModel::Sensitive(a), ValueModel::Sensitive(b)) => equals(*a, *b),
        _ => left == right,
    }
}

pub open spec fn equal_lists(left: Seq<ValueModel>, right: Seq<ValueModel>, from: int) -> bool
    decreases left, left.len() - from,
{
    if from < 0 || from >= left.len() {
        true
    } else {
        equals(left[from], right[from]) && equal_lists(left, right, from + 1)
    }
}

pub open spec fn equal_entries(left: Seq<EntryModel>, right: Seq<EntryModel>, from: int) -> bool
    decreases left, left.len() - from,
{
    if from < 0 || from >= left.len() {
        true
    } else {
        left[from].name == right[from].name && equals(left[from].value, right[from].value)
            && equal_entries(left, right, from + 1)
    }
}

fn same_bytes(left: &Vec<u8>, right: &Vec<u8>) -> (equal: bool)
    ensures
        equal == (left@ == right@),
{
    if left.len() != right.len() {
        return false;
    }
    let mut at: usize = 0;
    while at < left.len()
        invariant
            left@.len() == right@.len(),
            at <= left@.len(),
            forall|i: int| 0 <= i < at ==> left@[i] == right@[i],
        decreases left@.len() - at,
    {
        if left[at] != right[at] {
            return false;
        }
        at += 1;
    }
    proof {
        assert(left@ =~= right@);
    }
    true
}

fn equal_value_lists(left: &Vec<Value>, right: &Vec<Value>) -> (equal: bool)
    requires
        left@.len() == right@.len(),
    ensures
        equal == equal_lists(value_models(left@), value_models(right@), 0),
    decreases left, 0int,
{
    let ghost a = value_models(left@);
    let ghost b = value_models(right@);
    let mut at: usize = 0;
    while at < left.len()
        invariant
            left@.len() == right@.len(),
            a == value_models(left@),
            b == value_models(right@),
            at <= left@.len(),
            equal_lists(a, b, 0) == equal_lists(a, b, at as int),
        decreases left@.len() - at,
    {
        proof {
            assert(a[at as int] == left@[at as int].model());
            assert(b[at as int] == right@[at as int].model());
        }
        if !left[at].equal(&right[at]) {
            return false;
        }
        at += 1;
    }
    true
}

fn equal_entry_lists(left: &Vec<Entry>, right: &Vec<Entry>) -> (equal: bool)
    requires
        left@.len() == right@.len(),
    ensures
        equal == equal_entries(entry_models(left@), entry_models(right@), 0),
    decreases left, 0int,
{
    let ghost a = entry_models(left@);
    let ghost b = entry_models(right@);
    let mut at: usize = 0;
    while at < left.len()
        invariant
            left@.len() == right@.len(),
            a == entry_models(left@),
            b == entry_models(right@),
            at <= left@.len(),
            equal_entries(a, b, 0) == equal_entries(a, b, at as int),
        decreases left@.len() - at,
    {
        proof {
            assert(a[at as int] == left@[at as int].model());
            assert(b[at as int] == right@[at as int].model());
        }
        if !same(left[at].name.as_str(), right[at].name.as_str()) || !left[at].value.equal(
            &right[at].value,
        ) {
            return false;
        }
        at += 1;
    }
    true
}

impl Value {
    /// Whether the values are equal.
    #[must_use]
    pub fn equal(&self, other: &Value) -> (equal: bool)
        ensures
            equal == equals(self.model(), other.model()),
        decreases self, 1int,
    {
        match self {
            Value::Null => match other {
                Value::Null => true,
                _ => false,
            },
            Value::Boolean(a) => match other {
                Value::Boolean(b) => *a == *b,
                _ => false,
            },
            Value::Integer(a) => match other {
                Value::Integer(b) => *a == *b,
                _ => false,
            },
            Value::Float(a) => match other {
                Value::Float(b) => {
                    let found: Option<Order> = a.compare(*b);
                    found.is_some() && found.unwrap() == Order::Same
                },
                _ => false,
            },
            Value::String(a) => match other {
                Value::String(b) => same(a.as_str(), b.as_str()),
                _ => false,
            },
            Value::Bytes(a) => match other {
                Value::Bytes(b) => same_bytes(a, b),
                _ => false,
            },
            Value::Duration(a) => match other {
                Value::Duration(b) => a.nanos == b.nanos,
                _ => false,
            },
            Value::Array(a) => match other {
                Value::Array(b) => {
                    proof {
                        assert(self.model() == ValueModel::Array(value_models(a@)));
                        assert(other.model() == ValueModel::Array(value_models(b@)));
                    }
                    a.len() == b.len() && equal_value_lists(a, b)
                },
                _ => false,
            },
            Value::Object(a) => match other {
                Value::Object(b) => {
                    proof {
                        assert(a.model() == entry_models(a.entries@));
                        assert(b.model() == entry_models(b.entries@));
                    }
                    a.entries.len() == b.entries.len() && equal_entry_lists(
                        &a.entries,
                        &b.entries,
                    )
                },
                _ => false,
            },
            Value::Sensitive(a) => match other {
                Value::Sensitive(b) => (**a).equal(&**b),
                _ => false,
            },
        }
    }
}

/// How two values compare: only numbers of one kind, texts and spans of time
/// do.
pub open spec fn compared(left: ValueModel, right: ValueModel) -> Result<Order, Seq<char>> {
    match (left, right) {
        (ValueModel::Integer(a), ValueModel::Integer(b)) => Ok(
            if a < b {
                Order::Before
            } else if a > b {
                Order::After
            } else {
                Order::Same
            },
        ),
        (ValueModel::Float(a), ValueModel::Float(b)) => match a.compared(b) {
            Some(order) => Ok(order),
            None => Err("comparison is undefined for these values"@),
        },
        (ValueModel::String(a), ValueModel::String(b)) => Ok(order(a, b)),
        (ValueModel::Duration(a), ValueModel::Duration(b)) => Ok(
            if a.nanos < b.nanos {
                Order::Before
            } else if a.nanos > b.nanos {
                Order::After
            } else {
                Order::Same
            },
        ),
        _ => Err("cannot compare "@ + kind_name(left) + " and "@ + kind_name(right)),
    }
}

/// Whether an order is what a comparison asks for.
pub open spec fn accepts(operator: BinaryOperator, found: Order) -> bool {
    match operator {
        BinaryOperator::Less => found == Order::Before,
        BinaryOperator::LessEqual => found != Order::After,
        BinaryOperator::Greater => found == Order::After,
        BinaryOperator::GreaterEqual => found != Order::Before,
        _ => false,
    }
}

/// What a comparison of two values gives.
pub open spec fn comparison(
    left: ValueModel,
    operator: BinaryOperator,
    right: ValueModel,
) -> Result<
    bool,
    Seq<char>,
> {
    match operator {
        BinaryOperator::Equal => Ok(equals(left, right)),
        BinaryOperator::NotEqual => Ok(!equals(left, right)),
        _ => match compared(left, right) {
            Ok(found) => Ok(accepts(operator, found)),
            Err(message) => Err(message),
        },
    }
}

pub open spec fn truth_model(result: Result<bool, String>) -> Result<bool, Seq<char>> {
    match result {
        Ok(value) => Ok(value),
        Err(message) => Err(message@),
    }
}

/// Compares two values.
pub fn evaluate_binary(left: &Value, operator: BinaryOperator, right: &Value) -> (result: Result<
    bool,
    String,
>)
    ensures
        truth_model(result) == comparison(left.model(), operator, right.model()),
{
    match operator {
        BinaryOperator::Equal => {
            return Ok(left.equal(right));
        },
        BinaryOperator::NotEqual => {
            return Ok(!left.equal(right));
        },
        _ => {},
    }
    let found: Order = match (left, right) {
        (Value::Integer(a), Value::Integer(b)) => if *a < *b {
            Order::Before
        } else if *a > *b {
            Order::After
        } else {
            Order::Same
        },
        (Value::Float(a), Value::Float(b)) => match a.compare(*b) {
            Some(order) => order,
            None => {
                return Err("comparison is undefined for these values".to_owned());
            },
        },
        (Value::String(a), Value::String(b)) => text_order(a.as_str(), b.as_str()),
        (Value::Duration(a), Value::Duration(b)) => if a.nanos < b.nanos {
            Order::Before
        } else if a.nanos > b.nanos {
            Order::After
        } else {
            Order::Same
        },
        _ => {
            let mut message: String = "cannot compare ".to_owned();
            message.append(left.kind_name());
            message.append(" and ");
            message.append(right.kind_name());
            return Err(message);
        },
    };
    Ok(
        match operator {
            BinaryOperator::Less => found == Order::Before,
            BinaryOperator::LessEqual => found != Order::After,
            BinaryOperator::Greater => found == Order::After,
            BinaryOperator::GreaterEqual => found != Order::Before,
            _ => false,
        },
    )
}

// ---------------------------------------------------------------------------
// Merging

/// The entries with one more put over them: an object under a name that
/// stands for an object is merged into it, anything else takes the place.
pub open spec fn overlaid(entries: Seq<EntryModel>, entry: EntryModel) -> Seq<EntryModel>
    decreases entry, 0int,
{
    match (lookup(entries, entry.name), entry.value) {
        (Some(ValueModel::Object(held)), ValueModel::Object(source)) => entries.update(
            find(entries, entry.name, 0)->0,
            EntryModel { name: entry.name, value: ValueModel::Object(merged(held, source, 0)) },
        ),
        _ => inserted(entries, entry.name, entry.value),
    }
}

/// The entries with those of `source` from position `from` on put over them.
pub open spec fn merged(entries: Seq<EntryModel>, source: Seq<EntryModel>, from: int) -> Seq<
    EntryModel,
>
    decreases source, source.len() - from,
{
    if from < 0 || from >= source.len() {
        entries
    } else {
        merged(overlaid(entries, source[from]), source, from + 1)
    }
}

fn overlay(target: &mut Object, entry: &Entry)
    ensures
        final(target).model() == overlaid(old(target).model(), entry.model()),
    decreases entry, 1int,
{
    if let Value::Object(source) = &entry.value {
        if let Some(at) = target.find(entry.name.as_str()) {
            let ghost before = target.entries@;
            let ghost models = target.model();
            proof {
                assert(models[at as int] == before[at as int].model());
                lemma_found(models, entry.name@, 0);
            }
            let nested: bool = match &target.entries[at].value {
                Value::Object(_) => true,
                _ => false,
            };
            if nested {
                let slot: &mut Entry = &mut target.entries[at];
                if let Value::Object(held) = &mut slot.value {
                    merge_into(held, source);
                }
                proof {
                    assert(target.model() =~= overlaid(models, entry.model()));
                }
                return;
            }
        }
    }
    target.insert(entry.name.clone(), entry.value.duplicate());
}

proof fn lemma_found(entries: Seq<EntryModel>, name: Seq<char>, from: int)
    requires
        from >= 0,
    ensures
        find(entries, name, from) matches Some(at) ==> from <= at < entries.len()
            && entries[at].name == name,
    decreases entries.len() - from,
{
    if from < entries.len() && entries[from].name != name {
        lemma_found(entries, name, from + 1);
    }
}

fn merge_into(target: &mut Object, source: &Object)
    ensures
        final(target).model() == merged(old(target).model(), source.model(), 0),
    decreases source, 0int,
{
    let ghost models = source.model();
    let ghost start = target.model();
    let mut at: usize = 0;
    while at < source.entries.len()
        invariant
            models == source.model(),
            at <= source.entries@.len(),
            merged(start, models, 0) == merged(target.model(), models, at as int),
        decreases source.entries@.len() - at,
    {
        proof {
            assert(models[at as int] == source.entries@[at as int].model());
        }
        overlay(target, &source.entries[at]);
        at += 1;
    }
}

/// Puts the entries of `source` over those of `target`, objects into objects.
pub fn merge_objects(target: &mut Object, source: Object)
    ensures
        final(target).model() == merged(old(target).model(), source.model(), 0),
        sorted(old(target).model()) && sorted(source.model()) ==> sorted(final(target).model()),
{
    proof {
        if sorted(target.model()) && sorted(source.model()) {
            law_merge(target.model(), source.model(), Seq::empty());
        }
    }
    merge_into(target, &source);
}

} // verus!
