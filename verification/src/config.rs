//! The schema: field names and indices, and the messages with their arguments.

use std::collections::HashMap;
use vstd::prelude::*;
use crate::dict::{lemma_position, lookup, position, Dict};
use crate::registry::{code_of_name, STR_TYPE_NIL};
use crate::text::same_text;

verus! {

broadcast use vstd::std_specs::hash::group_hash_axioms;

/// A named slot of a map: its index on the wire and the name of its type.
#[derive(Clone, Debug, PartialEq)]
pub struct Field {
    pub index: u16,
    pub pattern: String,
}

/// A message: its category and the type names of its arguments, in order.
#[derive(Clone, Debug, PartialEq)]
pub struct Proto {
    pub msg_type: String,
    pub args: Vec<String>,
}

/// The mathematical model of a [`Field`].
pub struct FieldView {
    pub index: u16,
    pub pattern: Seq<char>,
}

/// The mathematical model of a [`Proto`].
pub struct ProtoView {
    pub msg_type: Seq<char>,
    pub args: Seq<Seq<char>>,
}

impl FieldView {
    /// Whether this is the marker that ends a map, an array or a message:
    /// index 0 with the name of nil.
    pub open spec fn is_nil(self) -> bool {
        self.index == 0 && self.pattern == STR_TYPE_NIL@
    }
}

impl View for Field {
    type V = FieldView;

    open spec fn view(&self) -> FieldView {
        FieldView { index: self.index, pattern: self.pattern@ }
    }
}

impl View for Proto {
    type V = ProtoView;

    open spec fn view(&self) -> ProtoView {
        ProtoView { msg_type: self.msg_type@, args: self.args@.map_values(|s: String| s@) }
    }
}

impl Field {
    /// The marker field: index 0 and the name of nil.
    pub fn new_nil() -> (field: Field)
        ensures
            field@ == (FieldView { index: 0, pattern: STR_TYPE_NIL@ }),
            field@.is_nil(),
    {
        Field { index: 0, pattern: STR_TYPE_NIL.to_owned() }
    }

    /// Whether this is the marker field.
    pub fn is_nil_type(&self) -> (r: bool)
        ensures
            r == self@.is_nil(),
    {
        self.index == 0 && same_text(STR_TYPE_NIL, self.pattern.as_str())
    }

    /// A field of the given type with index 0.
    pub fn new(pattern: String) -> (field: Field)
        ensures
            field@ == (FieldView { index: 0, pattern: pattern@ }),
    {
        Field { index: 0, pattern }
    }
}

/// The schema that drives encoding and decoding. It does not change once it
/// has been made.
#[derive(Debug)]
pub struct Config {
    field: Dict<Field>,
    proto: Dict<Proto>,
    index_field: HashMap<u16, String>,
}

/// The mathematical model of a [`Config`].
pub struct ConfigView {
    /// The field of each field name.
    pub fields: Map<Seq<char>, FieldView>,
    /// The field name that each index leads to.
    pub names: Map<u16, Seq<char>>,
    /// The message of each message name.
    pub protos: Map<Seq<char>, ProtoView>,
}

/// The fields of a field dictionary by name. Where a name stands twice, its
/// first entry counts.
pub open spec fn fields_of(entries: Seq<(Seq<char>, Field)>) -> Map<Seq<char>, FieldView> {
    Map::new(
        |name: Seq<char>| lookup(entries, name) is Some,
        |name: Seq<char>| lookup(entries, name)->0@,
    )
}

/// The messages of a message dictionary by name. Where a name stands twice,
/// its first entry counts.
pub open spec fn protos_of(entries: Seq<(Seq<char>, Proto)>) -> Map<Seq<char>, ProtoView> {
    Map::new(
        |name: Seq<char>| lookup(entries, name) is Some,
        |name: Seq<char>| lookup(entries, name)->0@,
    )
}

/// The reverse index of a field dictionary: each entry's index leads to the
/// entry's name. Where an index stands twice, its last entry counts.
pub open spec fn names_of(entries: Seq<(Seq<char>, Field)>) -> Map<u16, Seq<char>>
    decreases entries.len(),
{
    if entries.len() == 0 {
        Map::empty()
    } else {
        names_of(entries.drop_last()).insert(entries.last().1.index, entries.last().0)
    }
}

impl ConfigView {
    /// The schema without fields and messages.
    pub open spec fn empty() -> ConfigView {
        ConfigView { fields: Map::empty(), names: Map::empty(), protos: Map::empty() }
    }

    /// The header that a map entry called `name` is written with: the
    /// field's index and the code of the field's type.
    pub open spec fn header_of(self, name: Seq<char>) -> Option<(u16, u16)> {
        if self.fields.contains_key(name) {
            Some((self.fields[name].index, code_of_name(self.fields[name].pattern)))
        } else {
            None
        }
    }

    /// The schema knows the field called `name`, and the field's index leads
    /// back to `name`.
    pub open spec fn leads_back(self, name: Seq<char>) -> bool {
        &&& self.fields.contains_key(name)
        &&& self.names.contains_key(self.fields[name].index)
        &&& self.names[self.fields[name].index] == name
    }

    /// Every field's index leads back to the field's name.
    pub open spec fn consistent(self) -> bool {
        forall|name: Seq<char>| #[trigger]
            self.fields.contains_key(name) ==> self.leads_back(name)
    }

    /// The schema is consistent, and no field has the index 0, which is
    /// kept for the marker.
    pub open spec fn well_formed(self) -> bool {
        forall|name: Seq<char>| #[trigger]
            self.fields.contains_key(name) ==> self.leads_back(name) && self.fields[name].index
                != 0
    }
}

/// No index occurs twice.
pub open spec fn distinct_indices(entries: Seq<(Seq<char>, Field)>) -> bool {
    forall|i: int, j: int|
        0 <= i < j < entries.len() ==> (#[trigger] entries[i]).1.index != (
        #[trigger] entries[j]).1.index
}

/// The reverse index leads from the index of an entry to the entry's name,
/// if no later entry has the same index.
pub proof fn lemma_names_of_last(entries: Seq<(Seq<char>, Field)>, i: int)
    requires
        0 <= i < entries.len(),
        forall|j: int|
            i < j < entries.len() ==> (#[trigger] entries[j]).1.index != entries[i].1.index,
    ensures
        names_of(entries).contains_key(entries[i].1.index),
        names_of(entries)[entries[i].1.index] == entries[i].0,
    decreases entries.len(),
{
    let front = entries.drop_last();
    if i < entries.len() - 1 {
        assert(front[i] == entries[i]);
        assert forall|j: int| i < j < front.len() implies (#[trigger] front[j]).1.index
            != front[i].1.index by {
            assert(front[j] == entries[j]);
        }
        lemma_names_of_last(front, i);
        assert(entries[entries.len() - 1].1.index != entries[i].1.index);
    }
}

/// Where the reverse index leads from an index, it leads to the name of an
/// entry with that index.
pub proof fn lemma_names_of_known(entries: Seq<(Seq<char>, Field)>, index: u16) -> (i: int)
    requires
        names_of(entries).contains_key(index),
    ensures
        0 <= i < entries.len(),
        entries[i].1.index == index,
        names_of(entries)[index] == entries[i].0,
    decreases entries.len(),
{
    if entries.len() == 0 {
        0
    } else if entries.last().1.index == index {
        entries.len() - 1
    } else {
        let front = entries.drop_last();
        let i = lemma_names_of_known(front, index);
        assert(front[i] == entries[i]);
        i
    }
}

/// A schema made of a field dictionary in which no name and no index occurs
/// twice is consistent.
pub proof fn lemma_distinct_is_consistent(config: ConfigView, entries: Seq<(Seq<char>, Field)>)
    requires
        config.fields == fields_of(entries),
        config.names == names_of(entries),
        crate::dict::distinct_names(entries),
        distinct_indices(entries),
    ensures
        config.consistent(),
{
    assert forall|name: Seq<char>| #[trigger]
        config.fields.contains_key(name) implies config.leads_back(name) by {
        crate::dict::lemma_position(entries, name);
        let p = crate::dict::position(entries, name);
        assert forall|j: int| p < j < entries.len() implies (#[trigger] entries[j]).1.index
            != entries[p].1.index by {
            assert(entries[p].1.index != entries[j].1.index);
        }
        lemma_names_of_last(entries, p);
    }
}

impl View for Config {
    type V = ConfigView;

    closed spec fn view(&self) -> ConfigView {
        ConfigView {
            fields: fields_of(self.field@),
            names: self.index_field@.map_values(|s: String| s@),
            protos: protos_of(self.proto@),
        }
    }
}

impl Config {
    /// A schema without fields and messages.
    pub fn new_empty() -> (config: Config)
        ensures
            config@ == ConfigView::empty(),
    {
        let config = Config { field: Dict::new(), proto: Dict::new(), index_field: HashMap::new() };
        assert(config@.fields =~= Map::empty());
        assert(config@.protos =~= Map::empty());
        assert(config@.names =~= Map::empty());
        config
    }

    /// The schema of a field dictionary and a message dictionary.
    pub fn new_by_map(field: Dict<Field>, proto: Dict<Proto>) -> (config: Config)
        ensures
            config@.fields == fields_of(field@),
            config@.names == names_of(field@),
            config@.protos == protos_of(proto@),
    {
        let mut index_field: HashMap<u16, String> = HashMap::new();
        let mut i: usize = 0;
        assert(field@.take(0) =~= Seq::empty());
        while i < field.entries.len()
            invariant
                i <= field.entries@.len(),
                field@.len() == field.entries@.len(),
                index_field@.map_values(|s: String| s@) =~= names_of(field@.take(i as int)),
            decreases field.entries@.len() - i,
        {
            let name = field.entries[i].0.clone();
            proof {
                let before = field@.take(i as int);
                let after = field@.take(i + 1);
                assert(after.drop_last() =~= before);
                assert(after.last() == field@[i as int]);
            }
            index_field.insert(field.entries[i].1.index, name);
            i += 1;
        }
        assert(field@.take(i as int) =~= field@);
        Config { field, proto, index_field }
    }

    /// Whether the schema is well formed: whether every field's index leads
    /// back to the field's name and none is 0. Two fields with one index
    /// make a schema that is not well formed.
    pub fn is_well_formed(&self) -> (r: bool)
        ensures
            r == self@.well_formed(),
    {
        let mut i: usize = 0;
        while i < self.field.entries.len()
            invariant
                i <= self.field.entries@.len(),
                self.field@.len() == self.field.entries@.len(),
                forall|k: int|
                    0 <= k < i && position(self.field@, (#[trigger] self.field@[k]).0) == k
                        ==> self@.leads_back(self.field@[k].0) && self.field@[k].1.index != 0,
            decreases self.field.entries@.len() - i,
        {
            let name = &self.field.entries[i].0;
            let index = self.field.entries[i].1.index;
            proof {
                assert(self.field@[i as int] == (name@, self.field.entries@[i as int].1));
                lemma_position(self.field@, name@);
            }
            if self.field.find(name.as_str()) == i {
                let back = match self.index_field.get(&index) {
                    Some(other) => same_text(other.as_str(), name.as_str()),
                    None => false,
                };
                if index == 0 || !back {
                    assert(self@.fields.contains_key(name@));
                    return false;
                }
            }
            i += 1;
        }
        proof {
            assert forall|name: Seq<char>| #[trigger]
                self@.fields.contains_key(name) implies self@.leads_back(name)
                && self@.fields[name].index != 0 by {
                lemma_position(self.field@, name);
                let p = position(self.field@, name);
                assert(self.field@[p].0 == name);
            }
        }
        true
    }

    /// The field called `name`.
    pub fn get_field_by_name(&self, name: &String) -> (r: Option<&Field>)
        ensures
            r is Some == self@.fields.contains_key(name@),
            r matches Some(field) ==> field@ == self@.fields[name@],
    {
        self.field.get(name.as_str())
    }

    /// The field that `index` leads to: the field called by the name that
    /// the reverse index holds for `index`.
    pub fn get_field_by_index(&self, index: &u16) -> (r: Option<&Field>)
        ensures
            r is Some == (self@.names.contains_key(*index) && self@.fields.contains_key(
                self@.names[*index],
            )),
            r matches Some(field) ==> field@ == self@.fields[self@.names[*index]],
    {
        match self.get_field_index_name(index) {
            Some(name) => self.field.get(name.as_str()),
            None => None,
        }
    }

    /// The message called `name`.
    pub fn get_proto_by_name(&self, name: &String) -> (r: Option<&Proto>)
        ensures
            r is Some == self@.protos.contains_key(name@),
            r matches Some(proto) ==> proto@ == self@.protos[name@],
    {
        self.proto.get(name.as_str())
    }

    /// The field name that `index` leads to.
    pub fn get_field_index_name(&self, index: &u16) -> (r: Option<&String>)
        ensures
            r is Some == self@.names.contains_key(*index),
            r matches Some(name) ==> name@ == self@.names[*index],
    {
        self.index_field.get(index)
    }

    /// The category of the message called `name`.
    pub fn get_proto_msg_type(&self, name: &String) -> (r: Option<&String>)
        ensures
            r is Some == self@.protos.contains_key(name@),
            r matches Some(msg_type) ==> msg_type@ == self@.protos[name@].msg_type,
    {
        match self.proto.get(name.as_str()) {
            Some(proto) => Some(&proto.msg_type),
            None => None,
        }
    }
}

} // verus!
