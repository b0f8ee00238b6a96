//! The values that a program computes.

use crate::error::Error;
use crate::semantics::SpecError;
use crate::text::{decimal_string, decimal_text};
use vstd::prelude::*;
use vstd::std_specs::cmp::PartialEqSpecImpl;

verus! {

/// The functions that every program starts with.
#[derive(Debug, Clone, Copy, PartialEq, Eq, Structural)]
pub enum Function {
    AddBuiltin,
    EqBuiltin,
    NotBuiltin,
    PrintBuiltin,
    ShowBuiltin,
    ChrBuiltin,
    CatBuiltin,
}

/// The kinds of value.
#[derive(Debug, Clone, Copy, PartialEq, Eq, Structural)]
pub enum Tag {
    String,
    Mapping,
    Int,
    Function,
    Bool,
}

/// A value. A mapping is the list of its entries, each a key and a value,
/// in the order in which it was made; nothing orders the entries or keeps a
/// key from standing twice. Two mappings are the same where they hold the
/// same entries in the same order.
#[derive(Debug)]
pub enum Value {
    String(String),
    Mapping(Vec<(Value, Value)>),
    Int(i128),
    Function(Function),
    Bool(bool),
}

/// What a [`Value`] stands for.
pub ghost enum SpecValue {
    String(Seq<char>),
    Mapping(Seq<(SpecValue, SpecValue)>),
    Int(int),
    Function(Function),
    Bool(bool),
}

/// The models of the entries of a map, in order.
pub open spec fn entries_view(entries: Seq<(Value, Value)>) -> Seq<(SpecValue, SpecValue)>
    decreases entries,
{
    if entries.len() == 0 {
        Seq::empty()
    } else {
        entries_view(entries.drop_last()).push(
            (value_view(entries.last().0), value_view(entries.last().1)),
        )
    }
}

/// The model of one value.
pub open spec fn value_view(value: Value) -> SpecValue
    decreases value,
{
    match value {
        Value::String(s) => SpecValue::String(s@),
        Value::Mapping(entries) => SpecValue::Mapping(entries_view(entries@)),
        Value::Int(n) => SpecValue::Int(n as int),
        Value::Function(f) => SpecValue::Function(f),
        Value::Bool(b) => SpecValue::Bool(b),
    }
}

impl View for Value {
    type V = SpecValue;

    open spec fn view(&self) -> SpecValue {
        value_view(*self)
    }
}

/// The models of a sequence of values, in order.
pub open spec fn values_view(values: Seq<Value>) -> Seq<SpecValue> {
    Seq::new(values.len(), |i: int| values[i]@)
}

/// [`entries_view`] takes the model of each entry, in place.
pub proof fn lemma_entries_view(entries: Seq<(Value, Value)>)
    ensures
        entries_view(entries).len() == entries.len(),
        forall|i: int|
            0 <= i < entries.len() ==> #[trigger] entries_view(entries)[i] == (
                entries[i].0@,
                entries[i].1@,
            ),
    decreases entries.len(),
{
    if entries.len() > 0 {
        lemma_entries_view(entries.drop_last());
    }
}

impl SpecValue {
    /// The kind of the value.
    pub open spec fn tag(self) -> Tag {
        match self {
            SpecValue::String(_) => Tag::String,
            SpecValue::Mapping(_) => Tag::Mapping,
            SpecValue::Int(_) => Tag::Int,
            SpecValue::Function(_) => Tag::Function,
            SpecValue::Bool(_) => Tag::Bool,
        }
    }
}

impl Value {
    /// The kind of the value.
    pub fn tag(&self) -> (tag: Tag)
        ensures
            tag == self@.tag(),
    {
        match self {
            Value::String(_) => Tag::String,
            Value::Mapping(_) => Tag::Mapping,
            Value::Int(_) => Tag::Int,
            Value::Function(_) => Tag::Function,
            Value::Bool(_) => Tag::Bool,
        }
    }

    /// The function that the value is.
    pub fn as_func(&self) -> (f: Result<Function, Error>)
        ensures
            match f {
                Ok(f) => self@ == SpecValue::Function(f),
                Err(e) => !(self@ is Function) && e@ == (SpecError::TypeMismatch {
                    expected: Tag::Function,
                }),
            },
    {
        match self {
            Value::Function(f) => Ok(*f),
            _ => Err(Error::TypeMismatch { expected: Tag::Function }),
        }
    }

    /// The integer that the value is.
    pub fn as_num(&self) -> (n: Result<i128, Error>)
        ensures
            match n {
                Ok(n) => self@ == SpecValue::Int(n as int),
                Err(e) => !(self@ is Int) && e@ == (SpecError::TypeMismatch {
                    expected: Tag::Int,
                }),
            },
    {
        match self {
            Value::Int(n) => Ok(*n),
            _ => Err(Error::TypeMismatch { expected: Tag::Int }),
        }
    }

    /// The boolean that the value is.
    pub fn as_bool(&self) -> (b: Result<bool, Error>)
        ensures
            match b {
                Ok(b) => self@ == SpecValue::Bool(b),
                Err(e) => !(self@ is Bool) && e@ == (SpecError::TypeMismatch {
                    expected: Tag::Bool,
                }),
            },
    {
        match self {
            Value::Bool(b) => Ok(*b),
            _ => Err(Error::TypeMismatch { expected: Tag::Bool }),
        }
    }

    /// The string that the value is.
    pub fn as_str(&self) -> (s: Result<&str, Error>)
        ensures
            match s {
                Ok(s) => self@ == SpecValue::String(s@),
                Err(e) => !(self@ is String) && e@ == (SpecError::TypeMismatch {
                    expected: Tag::String,
                }),
            },
    {
        match self {
            Value::String(s) => Ok(s.as_str()),
            _ => Err(Error::TypeMismatch { expected: Tag::String }),
        }
    }
}

fn clone_entries(entries: &Vec<(Value, Value)>) -> (copies: Vec<(Value, Value)>)
    ensures
        entries_view(copies@) == entries_view(entries@),
    decreases entries, 0int,
{
    let mut copies: Vec<(Value, Value)> = Vec::new();
    let mut i: usize = 0;
    while i < entries.len()
        invariant
            i <= entries.len(),
            copies.len() == i,
            forall|j: int|
                0 <= j < i ==> copies@[j].0@ == entries@[j].0@ && copies@[j].1@ == entries@[j].1@,
        decreases entries.len() - i,
    {
        let key = clone_value(&entries[i].0);
        let val = clone_value(&entries[i].1);
        copies.push((key, val));
        i += 1;
    }
    proof {
        lemma_entries_view(entries@);
        lemma_entries_view(copies@);
        assert(entries_view(copies@) =~= entries_view(entries@));
    }
    copies
}

/// A copy of `value`.
pub fn clone_value(value: &Value) -> (copy: Value)
    ensures
        copy@ == value@,
    decreases value, 1int,
{
    match value {
        Value::String(s) => Value::String(s.clone()),
        Value::Mapping(entries) => Value::Mapping(clone_entries(entries)),
        Value::Int(n) => Value::Int(*n),
        Value::Function(f) => Value::Function(*f),
        Value::Bool(b) => Value::Bool(*b),
    }
}

impl Clone for Value {
    fn clone(&self) -> (copy: Self)
        ensures
            copy@ == self@,
    {
        clone_value(self)
    }
}

fn entries_equal(x: &Vec<(Value, Value)>, y: &Vec<(Value, Value)>) -> (same: bool)
    ensures
        same == (entries_view(x@) == entries_view(y@)),
    decreases x, 0int,
{
    proof {
        lemma_entries_view(x@);
        lemma_entries_view(y@);
    }
    if x.len() != y.len() {
        return false;
    }
    let mut i: usize = 0;
    while i < x.len()
        invariant
            i <= x.len(),
            x.len() == y.len(),
            forall|j: int| 0 <= j < i ==> entries_view(x@)[j] == entries_view(y@)[j],
            entries_view(x@).len() == x.len(),
            entries_view(y@).len() == y.len(),
            forall|j: int|
                0 <= j < x.len() ==> #[trigger] entries_view(x@)[j] == (x@[j].0@, x@[j].1@),
            forall|j: int|
                0 <= j < y.len() ==> #[trigger] entries_view(y@)[j] == (y@[j].0@, y@[j].1@),
        decreases x.len() - i,
    {
        if !values_equal(&x[i].0, &y[i].0) || !values_equal(&x[i].1, &y[i].1) {
            assert(entries_view(x@)[i as int] != entries_view(y@)[i as int]);
            return false;
        }
        i += 1;
    }
    assert(entries_view(x@) =~= entries_view(y@));
    true
}

/// Whether two values are the same: of one kind, with the same contents.
pub fn values_equal(a: &Value, b: &Value) -> (same: bool)
    ensures
        same == (a@ == b@),
    decreases a, 1int,
{
    match (a, b) {
        (Value::String(x), Value::String(y)) => *x == *y,
        (Value::Mapping(x), Value::Mapping(y)) => entries_equal(x, y),
        (Value::Int(x), Value::Int(y)) => *x == *y,
        (Value::Function(x), Value::Function(y)) => *x == *y,
        (Value::Bool(x), Value::Bool(y)) => *x == *y,
        _ => false,
    }
}

impl PartialEq for Value {
    fn eq(&self, other: &Self) -> (same: bool) {
        values_equal(self, other)
    }
}

impl PartialEqSpecImpl for Value {
    open spec fn obeys_eq_spec() -> bool {
        true
    }

    open spec fn eq_spec(&self, other: &Self) -> bool {
        self@ == other@
    }
}

/// What `{:?}` writes for a string whose characters are `s`: the string
/// between double quotes, with the escapes that `str`'s `Debug` makes.
pub uninterp spec fn quoted_text(s: Seq<char>) -> Seq<char>;

/// Formats a string with `{:?}`, which is `<str as Debug>::fmt`. The result
/// depends on the characters alone and is named [`quoted_text`].
#[verifier::external_body]
fn quote(s: &str) -> (quoted: String)
    ensures
        quoted@ == quoted_text(s@),
{
    format!("{:?}", s)
}

impl Function {
    /// The name under which a function is written out.
    pub open spec fn name_text(self) -> Seq<char> {
        match self {
            Function::AddBuiltin => "AddBuiltin"@,
            Function::EqBuiltin => "EqBuiltin"@,
            Function::NotBuiltin => "NotBuiltin"@,
            Function::PrintBuiltin => "PrintBuiltin"@,
            Function::ShowBuiltin => "ShowBuiltin"@,
            Function::ChrBuiltin => "ChrBuiltin"@,
            Function::CatBuiltin => "CatBuiltin"@,
        }
    }

    /// The name under which a function is written out.
    pub fn name(self) -> (name: &'static str)
        ensures
            name@ == self.name_text(),
    {
        match self {
            Function::AddBuiltin => "AddBuiltin",
            Function::EqBuiltin => "EqBuiltin",
            Function::NotBuiltin => "NotBuiltin",
            Function::PrintBuiltin => "PrintBuiltin",
            Function::ShowBuiltin => "ShowBuiltin",
            Function::ChrBuiltin => "ChrBuiltin",
            Function::CatBuiltin => "CatBuiltin",
        }
    }
}

/// `true` or `false`.
pub open spec fn bool_text(b: bool) -> Seq<char> {
    if b {
        "true"@
    } else {
        "false"@
    }
}

/// `inner` in parentheses behind `tag`.
pub open spec fn tagged_text(tag: Seq<char>, inner: Seq<char>) -> Seq<char> {
    tag + "("@ + inner + ")"@
}

/// The listing of the entries of a mapping, between braces.
pub open spec fn listing_text(entries: Seq<(SpecValue, SpecValue)>) -> Seq<char>
    decreases entries, 1nat,
{
    "{"@ + entries_text(entries) + "}"@
}

/// The debug rendering of a value: the name of its kind, and in parentheses
/// its contents. A string stands there as `{:?}` writes it, a mapping as
/// its listing, a function by its name.
pub open spec fn debug_text(value: SpecValue) -> Seq<char>
    decreases value,
{
    match value {
        SpecValue::String(s) => tagged_text("String"@, quoted_text(s)),
        SpecValue::Mapping(entries) => tagged_text("Map"@, listing_text(entries)),
        SpecValue::Int(n) => tagged_text("Int"@, decimal_text(n)),
        SpecValue::Function(f) => tagged_text("Function"@, f.name_text()),
        SpecValue::Bool(b) => tagged_text("Bool"@, bool_text(b)),
    }
}

/// The entries of a map, each as `key: value` in debug rendering, with a
/// comma and a space between two of them.
pub open spec fn entries_text(entries: Seq<(SpecValue, SpecValue)>) -> Seq<char>
    decreases entries, 0nat,
{
    if entries.len() == 0 {
        Seq::empty()
    } else if entries.len() == 1 {
        debug_text(entries[0].0) + ": "@ + debug_text(entries[0].1)
    } else {
        entries_text(entries.drop_last()) + ", "@ + debug_text(entries.last().0) + ": "@
            + debug_text(entries.last().1)
    }
}

/// What `show` makes of a value: a string is itself, a map is the listing
/// of its entries between braces, an integer its decimal numeral, a boolean
/// `true` or `false`, and a function the fixed text `<function>`.
pub open spec fn show_text(value: SpecValue) -> Seq<char> {
    match value {
        SpecValue::String(s) => s,
        SpecValue::Mapping(entries) => listing_text(entries),
        SpecValue::Int(n) => decimal_text(n),
        SpecValue::Function(_) => "<function>"@,
        SpecValue::Bool(b) => bool_text(b),
    }
}

fn entries_string(entries: &Vec<(Value, Value)>) -> (s: String)
    ensures
        s@ == entries_text(entries_view(entries@)),
    decreases entries, 0int,
{
    let mut s = String::new();
    let mut i: usize = 0;
    proof {
        lemma_entries_view(entries@);
    }
    while i < entries.len()
        invariant
            i <= entries.len(),
            entries_view(entries@).len() == entries.len(),
            forall|j: int|
                0 <= j < entries.len() ==> #[trigger] entries_view(entries@)[j] == (
                    entries@[j].0@,
                    entries@[j].1@,
                ),
            s@ == entries_text(entries_view(entries@).take(i as int)),
        decreases entries.len() - i,
    {
        let ghost model = entries_view(entries@);
        if i > 0 {
            s.append(", ");
        }
        let key = debug_string(&entries[i].0);
        s.append(key.as_str());
        s.append(": ");
        let val = debug_string(&entries[i].1);
        s.append(val.as_str());
        i += 1;
        assert(model.take(i as int).drop_last() =~= model.take(i - 1));
        assert(model.take(i as int).last() == model[i - 1]);
    }
    assert(entries_view(entries@).take(i as int) =~= entries_view(entries@));
    s
}

/// Writes `inner` in parentheses behind `tag`.
pub fn tagged(tag: &str, inner: &str) -> (s: String)
    ensures
        s@ == tagged_text(tag@, inner@),
{
    let mut s = tag.to_owned();
    s.append("(");
    s.append(inner);
    s.append(")");
    s
}

fn listing_string(entries: &Vec<(Value, Value)>) -> (s: String)
    ensures
        s@ == listing_text(entries_view(entries@)),
    decreases entries, 1int,
{
    let mut s = "{".to_owned();
    s.append(entries_string(entries).as_str());
    s.append("}");
    s
}

/// Writes the debug rendering of `value`.
pub fn debug_string(value: &Value) -> (s: String)
    ensures
        s@ == debug_text(value@),
    decreases value, 2int,
{
    match value {
        Value::String(text) => tagged("String", quote(text.as_str()).as_str()),
        Value::Mapping(entries) => tagged("Map", listing_string(entries).as_str()),
        Value::Int(n) => tagged("Int", decimal_string(*n).as_str()),
        Value::Function(f) => tagged("Function", f.name()),
        Value::Bool(b) => tagged(
            "Bool",
            if *b {
                "true"
            } else {
                "false"
            },
        ),
    }
}

/// Writes what `show` makes of `value`.
pub fn show_string(value: &Value) -> (s: String)
    ensures
        s@ == show_text(value@),
{
    match value {
        Value::String(text) => text.clone(),
        Value::Mapping(entries) => listing_string(entries),
        Value::Int(n) => decimal_string(*n),
        Value::Function(_) => "<function>".to_owned(),
        Value::Bool(b) => if *b {
            "true".to_owned()
        } else {
            "false".to_owned()
        },
    }
}

} // verus!
