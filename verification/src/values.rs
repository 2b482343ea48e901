//! The tagged value model.

use vstd::prelude::*;
use vstd::std_specs::convert::FromSpecImpl;
use crate::dict::{
    distinct_names, inserted, lemma_position, lemma_position_is, position, Dict,
};
use crate::registry::{
    TYPE_NIL, TYPE_U8, TYPE_I8, TYPE_U16, TYPE_I16, TYPE_U32, TYPE_I32, TYPE_FLOAT, TYPE_STR,
    TYPE_RAW, TYPE_MAP, TYPE_AU8, TYPE_AI8, TYPE_AU16, TYPE_AI16, TYPE_AU32, TYPE_AI32,
    TYPE_AFLOAT, TYPE_ASTR, TYPE_ARAW, TYPE_AMAP, TYPE_STEP, is_array_code, is_type_code,
};

verus! {

/// A datum that can be written to and read from the wire.
///
/// `Float` holds a decimal number as a whole count of thousandths, which is
/// how the wire carries it. An array variant is meant to hold only values of
/// its element type; nothing in the type enforces this, so the encoder and the
/// decoder both check it.
#[derive(Debug, PartialEq)]
pub enum Value {
    /// Nothing.
    Nil,
    U8(u8),
    I8(i8),
    U16(u16),
    I16(i16),
    U32(u32),
    I32(i32),
    /// A decimal number, as its count of thousandths.
    Float(i32),
    /// A text.
    Str(String),
    /// Raw bytes.
    Raw(Vec<u8>),
    /// A map from field names to values.
    Dict(Dict<Value>),
    /// An array of unsigned 8-bit integers; the other array variants are
    /// named after their element types in the same way.
    AU8(Vec<Value>),
    AI8(Vec<Value>),
    AU16(Vec<Value>),
    AI16(Vec<Value>),
    AU32(Vec<Value>),
    AI32(Vec<Value>),
    AFloat(Vec<Value>),
    AStr(Vec<Value>),
    ARaw(Vec<Value>),
    AMap(Vec<Value>),
}

/// The mathematical model of a [`Value`].
///
/// The ten array variants are one variant here, which carries the code of the
/// element type (1 to 10) beside the elements.
pub enum ValueView {
    Nil,
    U8(u8),
    I8(i8),
    U16(u16),
    I16(i16),
    U32(u32),
    I32(i32),
    Float(i32),
    Str(Seq<char>),
    Raw(Seq<u8>),
    Dict(Seq<(Seq<char>, ValueView)>),
    Array(u16, Seq<ValueView>),
}

impl ValueView {
    /// The wire code of the value's type.
    pub open spec fn type_code(self) -> u16 {
        match self {
            ValueView::Nil => TYPE_NIL,
            ValueView::U8(_) => TYPE_U8,
            ValueView::I8(_) => TYPE_I8,
            ValueView::U16(_) => TYPE_U16,
            ValueView::I16(_) => TYPE_I16,
            ValueView::U32(_) => TYPE_U32,
            ValueView::I32(_) => TYPE_I32,
            ValueView::Float(_) => TYPE_FLOAT,
            ValueView::Str(_) => TYPE_STR,
            ValueView::Raw(_) => TYPE_RAW,
            ValueView::Dict(_) => TYPE_MAP,
            ValueView::Array(element, _) => (element + TYPE_STEP) as u16,
        }
    }

    /// The code that the elements of an array must carry; nil for a value
    /// that is no array.
    pub open spec fn element_code(self) -> u16 {
        match self {
            ValueView::Array(element, _) => element,
            _ => TYPE_NIL,
        }
    }

    /// The invariant of the value model: no map holds a name twice, and
    /// every array holds only values of its element type, which is one of
    /// the ten scalar, text, raw and map types. It is not built into the
    /// type: the encoder checks the arrays it is given, and the decoder
    /// makes only values that have it.
    pub open spec fn well_formed(self) -> bool
        decreases self,
    {
        match self {
            ValueView::Dict(entries) => {
                &&& distinct_names(entries)
                &&& forall|i: int|
                    0 <= i < entries.len() ==> (#[trigger] entries[i]).1.well_formed()
            },
            ValueView::Array(element, items) => {
                &&& TYPE_U8 <= element <= TYPE_MAP
                &&& forall|i: int|
                    0 <= i < items.len() ==> (#[trigger] items[i]).type_code() == element
                        && items[i].well_formed()
            },
            _ => true,
        }
    }

    /// Whether the value is one of the seven numeric kinds.
    pub open spec fn is_number(self) -> bool {
        match self {
            ValueView::U8(_)
            | ValueView::I8(_)
            | ValueView::U16(_)
            | ValueView::I16(_)
            | ValueView::U32(_)
            | ValueView::I32(_)
            | ValueView::Float(_) => true,
            _ => false,
        }
    }
}

/// The models of a sequence of values, in the same order.
pub open spec fn views_of(items: Seq<Value>) -> Seq<ValueView>
    decreases items,
{
    if items.len() == 0 {
        Seq::empty()
    } else {
        views_of(items.drop_last()).push(items.last()@)
    }
}

/// The models of the entries of a dictionary of values, in the same order.
pub open spec fn entry_views_of(entries: Seq<(String, Value)>) -> Seq<(Seq<char>, ValueView)>
    decreases entries,
{
    if entries.len() == 0 {
        Seq::empty()
    } else {
        entry_views_of(entries.drop_last()).push((entries.last().0@, entries.last().1@))
    }
}

impl View for Value {
    type V = ValueView;

    open spec fn view(&self) -> ValueView
        decreases self,
    {
        match self {
            Value::Nil => ValueView::Nil,
            Value::U8(x) => ValueView::U8(*x),
            Value::I8(x) => ValueView::I8(*x),
            Value::U16(x) => ValueView::U16(*x),
            Value::I16(x) => ValueView::I16(*x),
            Value::U32(x) => ValueView::U32(*x),
            Value::I32(x) => ValueView::I32(*x),
            Value::Float(x) => ValueView::Float(*x),
            Value::Str(s) => ValueView::Str(s@),
            Value::Raw(b) => ValueView::Raw(b@),
            Value::Dict(d) => ValueView::Dict(entry_views_of(d.entries@)),
            Value::AU8(items) => ValueView::Array(TYPE_U8, views_of(items@)),
            Value::AI8(items) => ValueView::Array(TYPE_I8, views_of(items@)),
            Value::AU16(items) => ValueView::Array(TYPE_U16, views_of(items@)),
            Value::AI16(items) => ValueView::Array(TYPE_I16, views_of(items@)),
            Value::AU32(items) => ValueView::Array(TYPE_U32, views_of(items@)),
            Value::AI32(items) => ValueView::Array(TYPE_I32, views_of(items@)),
            Value::AFloat(items) => ValueView::Array(TYPE_FLOAT, views_of(items@)),
            Value::AStr(items) => ValueView::Array(TYPE_STR, views_of(items@)),
            Value::ARaw(items) => ValueView::Array(TYPE_RAW, views_of(items@)),
            Value::AMap(items) => ValueView::Array(TYPE_MAP, views_of(items@)),
        }
    }
}

/// `views_of` keeps the length and models each value where it stands.
pub proof fn lemma_views_of(items: Seq<Value>)
    ensures
        views_of(items).len() == items.len(),
        forall|i: int| 0 <= i < items.len() ==> (#[trigger] views_of(items)[i]) == items[i]@,
    decreases items.len(),
{
    if items.len() > 0 {
        lemma_views_of(items.drop_last());
        assert(views_of(items) == views_of(items.drop_last()).push(items.last()@));
    }
}

/// `entry_views_of` keeps the length and models each entry where it stands.
pub proof fn lemma_entry_views_of(entries: Seq<(String, Value)>)
    ensures
        entry_views_of(entries).len() == entries.len(),
        forall|i: int|
            0 <= i < entries.len() ==> (#[trigger] entry_views_of(entries)[i]) == (
                entries[i].0@,
                entries[i].1@,
            ),
    decreases entries.len(),
{
    if entries.len() > 0 {
        lemma_entry_views_of(entries.drop_last());
        assert(entry_views_of(entries) == entry_views_of(entries.drop_last()).push(
            (entries.last().0@, entries.last().1@),
        ));
    }
}

/// A copy of a sequence of values with the same models.
fn clone_items(items: &Vec<Value>) -> (r: Vec<Value>)
    ensures
        views_of(r@) == views_of(items@),
    decreases items,
{
    let mut r: Vec<Value> = Vec::new();
    let mut i: usize = 0;
    while i < items.len()
        invariant
            i <= items@.len(),
            r@.len() == i,
            forall|j: int| 0 <= j < i ==> (#[trigger] r@[j])@ == items@[j]@,
        decreases items@.len() - i,
    {
        let item = items[i].clone();
        r.push(item);
        i += 1;
    }
    proof {
        lemma_views_of(r@);
        lemma_views_of(items@);
        assert(views_of(r@) =~= views_of(items@));
    }
    r
}

/// A copy of the entries of a dictionary with the same names and models.
fn clone_entries(entries: &Vec<(String, Value)>) -> (r: Vec<(String, Value)>)
    ensures
        entry_views_of(r@) == entry_views_of(entries@),
    decreases entries,
{
    let mut r: Vec<(String, Value)> = Vec::new();
    let mut i: usize = 0;
    while i < entries.len()
        invariant
            i <= entries@.len(),
            r@.len() == i,
            forall|j: int|
                0 <= j < i ==> (#[trigger] r@[j]).0@ == entries@[j].0@ && r@[j].1@
                    == entries@[j].1@,
        decreases entries@.len() - i,
    {
        let name = entries[i].0.clone();
        let value = entries[i].1.clone();
        r.push((name, value));
        i += 1;
    }
    proof {
        lemma_entry_views_of(r@);
        lemma_entry_views_of(entries@);
        assert(entry_views_of(r@) =~= entry_views_of(entries@));
    }
    r
}

impl Clone for Value {
    /// A deep copy: the result has the same model as the value it was made of.
    fn clone(&self) -> (r: Self)
        ensures
            r@ == self@,
        decreases self,
    {
        match self {
            Value::Nil => Value::Nil,
            Value::U8(x) => Value::U8(*x),
            Value::I8(x) => Value::I8(*x),
            Value::U16(x) => Value::U16(*x),
            Value::I16(x) => Value::I16(*x),
            Value::U32(x) => Value::U32(*x),
            Value::I32(x) => Value::I32(*x),
            Value::Float(x) => Value::Float(*x),
            Value::Str(s) => Value::Str(s.clone()),
            Value::Raw(b) => {
                let copy = b.clone();
                assert(copy@ =~= b@);
                Value::Raw(copy)
            },
            Value::Dict(d) => Value::Dict(Dict { entries: clone_entries(&d.entries) }),
            Value::AU8(items) => Value::AU8(clone_items(items)),
            Value::AI8(items) => Value::AI8(clone_items(items)),
            Value::AU16(items) => Value::AU16(clone_items(items)),
            Value::AI16(items) => Value::AI16(clone_items(items)),
            Value::AU32(items) => Value::AU32(clone_items(items)),
            Value::AI32(items) => Value::AI32(clone_items(items)),
            Value::AFloat(items) => Value::AFloat(clone_items(items)),
            Value::AStr(items) => Value::AStr(clone_items(items)),
            Value::ARaw(items) => Value::ARaw(clone_items(items)),
            Value::AMap(items) => Value::AMap(clone_items(items)),
        }
    }
}

/// The code that the elements of an array value must carry, or the nil code
/// for a value that is no array.
pub fn get_array_contains_type(value: &Value) -> (code: u16)
    ensures
        code == value@.element_code(),
{
    match value {
        Value::AU8(_) => TYPE_U8,
        Value::AI8(_) => TYPE_I8,
        Value::AU16(_) => TYPE_U16,
        Value::AI16(_) => TYPE_I16,
        Value::AU32(_) => TYPE_U32,
        Value::AI32(_) => TYPE_I32,
        Value::AFloat(_) => TYPE_FLOAT,
        Value::AStr(_) => TYPE_STR,
        Value::ARaw(_) => TYPE_RAW,
        Value::AMap(_) => TYPE_MAP,
        _ => TYPE_NIL,
    }
}

/// The wire code of a value's type.
pub fn get_type_by_value(value: &Value) -> (code: u16)
    ensures
        code == value@.type_code(),
        is_type_code(code),
{
    match value {
        Value::U8(_) => TYPE_U8,
        Value::I8(_) => TYPE_I8,
        Value::U16(_) => TYPE_U16,
        Value::I16(_) => TYPE_I16,
        Value::U32(_) => TYPE_U32,
        Value::I32(_) => TYPE_I32,
        Value::Float(_) => TYPE_FLOAT,
        Value::Str(_) => TYPE_STR,
        Value::Raw(_) => TYPE_RAW,
        Value::Dict(_) => TYPE_MAP,
        Value::AU8(_) => TYPE_AU8,
        Value::AI8(_) => TYPE_AI8,
        Value::AU16(_) => TYPE_AU16,
        Value::AI16(_) => TYPE_AI16,
        Value::AU32(_) => TYPE_AU32,
        Value::AI32(_) => TYPE_AI32,
        Value::AFloat(_) => TYPE_AFLOAT,
        Value::AStr(_) => TYPE_ASTR,
        Value::ARaw(_) => TYPE_ARAW,
        Value::AMap(_) => TYPE_AMAP,
        _ => TYPE_NIL,
    }
}

/// The array value with elements `items` whose type code is `code`.
pub fn make_array(code: u16, items: Vec<Value>) -> (value: Value)
    requires
        is_array_code(code),
    ensures
        value@ == ValueView::Array((code - TYPE_STEP) as u16, views_of(items@)),
{
    if code == TYPE_AU8 {
        Value::AU8(items)
    } else if code == TYPE_AI8 {
        Value::AI8(items)
    } else if code == TYPE_AU16 {
        Value::AU16(items)
    } else if code == TYPE_AI16 {
        Value::AI16(items)
    } else if code == TYPE_AU32 {
        Value::AU32(items)
    } else if code == TYPE_AI32 {
        Value::AI32(items)
    } else if code == TYPE_AFLOAT {
        Value::AFloat(items)
    } else if code == TYPE_ASTR {
        Value::AStr(items)
    } else if code == TYPE_ARAW {
        Value::ARaw(items)
    } else {
        Value::AMap(items)
    }
}

/// Two lists of entries with the same names in the same places find a name
/// at the same place.
pub proof fn lemma_position_by_names<V, W>(
    a: Seq<(Seq<char>, V)>,
    b: Seq<(Seq<char>, W)>,
    name: Seq<char>,
)
    requires
        a.len() == b.len(),
        forall|i: int| 0 <= i < a.len() ==> (#[trigger] a[i]).0 == b[i].0,
    ensures
        position(a, name) == position(b, name),
{
    lemma_position(a, name);
    let p = position(a, name);
    assert forall|j: int| 0 <= j < p implies (#[trigger] b[j]).0 != name by {
        assert(a[j].0 != name);
    }
    lemma_position_is(b, name, p);
}

/// Setting a name in a dictionary of values sets it in the dictionary's model.
pub proof fn lemma_dict_insert_view(
    before: Dict<Value>,
    after: Dict<Value>,
    name: Seq<char>,
    value: Value,
)
    requires
        after@ == inserted(before@, name, value),
    ensures
        Value::Dict(after)@ == ValueView::Dict(
            inserted(Value::Dict(before)@->Dict_0, name, value@),
        ),
{
    let old_views = entry_views_of(before.entries@);
    let new_views = entry_views_of(after.entries@);
    lemma_entry_views_of(before.entries@);
    lemma_entry_views_of(after.entries@);
    lemma_position(before@, name);
    lemma_position_by_names(before@, old_views, name);
    let target = inserted(old_views, name, value@);
    assert(after@.len() == after.entries@.len());
    assert(new_views.len() == target.len());
    assert forall|i: int| 0 <= i < new_views.len() implies new_views[i] == target[i] by {
        assert(after@[i] == (after.entries@[i].0@, after.entries@[i].1));
        if i < before@.len() {
            assert(before@[i] == (before.entries@[i].0@, before.entries@[i].1));
        }
    }
    assert(new_views =~= target);
}

impl From<u8> for Value {
    fn from(val: u8) -> (value: Value)
        ensures
            value == Value::U8(val),
    {
        Value::U8(val)
    }
}

impl FromSpecImpl<u8> for Value {
    open spec fn obeys_from_spec() -> bool {
        true
    }

    open spec fn from_spec(val: u8) -> Value {
        Value::U8(val)
    }
}

impl From<i8> for Value {
    fn from(val: i8) -> (value: Value)
        ensures
            value == Value::I8(val),
    {
        Value::I8(val)
    }
}

impl FromSpecImpl<i8> for Value {
    open spec fn obeys_from_spec() -> bool {
        true
    }

    open spec fn from_spec(val: i8) -> Value {
        Value::I8(val)
    }
}

impl From<u16> for Value {
    fn from(val: u16) -> (value: Value)
        ensures
            value == Value::U16(val),
    {
        Value::U16(val)
    }
}

impl FromSpecImpl<u16> for Value {
    open spec fn obeys_from_spec() -> bool {
        true
    }

    open spec fn from_spec(val: u16) -> Value {
        Value::U16(val)
    }
}

impl From<i16> for Value {
    fn from(val: i16) -> (value: Value)
        ensures
            value == Value::I16(val),
    {
        Value::I16(val)
    }
}

impl FromSpecImpl<i16> for Value {
    open spec fn obeys_from_spec() -> bool {
        true
    }

    open spec fn from_spec(val: i16) -> Value {
        Value::I16(val)
    }
}

impl From<u32> for Value {
    fn from(val: u32) -> (value: Value)
        ensures
            value == Value::U32(val),
    {
        Value::U32(val)
    }
}

impl FromSpecImpl<u32> for Value {
    open spec fn obeys_from_spec() -> bool {
        true
    }

    open spec fn from_spec(val: u32) -> Value {
        Value::U32(val)
    }
}

impl From<i32> for Value {
    fn from(val: i32) -> (value: Value)
        ensures
            value == Value::I32(val),
    {
        Value::I32(val)
    }
}

impl FromSpecImpl<i32> for Value {
    open spec fn obeys_from_spec() -> bool {
        true
    }

    open spec fn from_spec(val: i32) -> Value {
        Value::I32(val)
    }
}

impl From<String> for Value {
    fn from(val: String) -> (value: Value)
        ensures
            value == Value::Str(val),
    {
        Value::Str(val)
    }
}

impl FromSpecImpl<String> for Value {
    open spec fn obeys_from_spec() -> bool {
        true
    }

    open spec fn from_spec(val: String) -> Value {
        Value::Str(val)
    }
}

impl From<Vec<u8>> for Value {
    fn from(val: Vec<u8>) -> (value: Value)
        ensures
            value == Value::Raw(val),
    {
        Value::Raw(val)
    }
}

impl FromSpecImpl<Vec<u8>> for Value {
    open spec fn obeys_from_spec() -> bool {
        true
    }

    open spec fn from_spec(val: Vec<u8>) -> Value {
        Value::Raw(val)
    }
}

impl From<Dict<Value>> for Value {
    fn from(val: Dict<Value>) -> (value: Value)
        ensures
            value == Value::Dict(val),
    {
        Value::Dict(val)
    }
}

impl FromSpecImpl<Dict<Value>> for Value {
    open spec fn obeys_from_spec() -> bool {
        true
    }

    open spec fn from_spec(val: Dict<Value>) -> Value {
        Value::Dict(val)
    }
}

impl Value {
    /// What the value holds, which must be an unsigned 8-bit integer.
    pub fn into_u8(self) -> (val: u8)
        requires
            self is U8,
        ensures
            val == self->U8_0,
    {
        match self {
            Value::U8(val) => val,
            _ => unreached(),
        }
    }

    /// What the value holds, which must be a signed 8-bit integer.
    pub fn into_i8(self) -> (val: i8)
        requires
            self is I8,
        ensures
            val == self->I8_0,
    {
        match self {
            Value::I8(val) => val,
            _ => unreached(),
        }
    }

    /// What the value holds, which must be an unsigned 16-bit integer.
    pub fn into_u16(self) -> (val: u16)
        requires
            self is U16,
        ensures
            val == self->U16_0,
    {
        match self {
            Value::U16(val) => val,
            _ => unreached(),
        }
    }

    /// What the value holds, which must be a signed 16-bit integer.
    pub fn into_i16(self) -> (val: i16)
        requires
            self is I16,
        ensures
            val == self->I16_0,
    {
        match self {
            Value::I16(val) => val,
            _ => unreached(),
        }
    }

    /// What the value holds, which must be an unsigned 32-bit integer.
    pub fn into_u32(self) -> (val: u32)
        requires
            self is U32,
        ensures
            val == self->U32_0,
    {
        match self {
            Value::U32(val) => val,
            _ => unreached(),
        }
    }

    /// What the value holds, which must be a signed 32-bit integer.
    pub fn into_i32(self) -> (val: i32)
        requires
            self is I32,
        ensures
            val == self->I32_0,
    {
        match self {
            Value::I32(val) => val,
            _ => unreached(),
        }
    }

    /// What the value holds, which must be a decimal number, as its count of thousandths.
    pub fn into_float(self) -> (val: i32)
        requires
            self is Float,
        ensures
            val == self->Float_0,
    {
        match self {
            Value::Float(val) => val,
            _ => unreached(),
        }
    }

    /// What the value holds, which must be a text.
    pub fn into_string(self) -> (val: String)
        requires
            self is Str,
        ensures
            val == self->Str_0,
    {
        match self {
            Value::Str(val) => val,
            _ => unreached(),
        }
    }

    /// What the value holds, which must be raw bytes.
    pub fn into_raw(self) -> (val: Vec<u8>)
        requires
            self is Raw,
        ensures
            val == self->Raw_0,
    {
        match self {
            Value::Raw(val) => val,
            _ => unreached(),
        }
    }

    /// What the value holds, which must be a map.
    pub fn into_dict(self) -> (val: Dict<Value>)
        requires
            self is Dict,
        ensures
            val == self->Dict_0,
    {
        match self {
            Value::Dict(val) => val,
            _ => unreached(),
        }
    }
}

} // verus!
