//! The registry of type names and type codes.

use vstd::prelude::*;
use crate::text::same_text;

verus! {

/// The distance between a type's code and the code of its array form.
pub const TYPE_STEP: u16 = 20;

pub const TYPE_NIL: u16 = 0;

pub const TYPE_U8: u16 = 1;

pub const TYPE_I8: u16 = 2;

pub const TYPE_U16: u16 = 3;

pub const TYPE_I16: u16 = 4;

pub const TYPE_U32: u16 = 5;

pub const TYPE_I32: u16 = 6;

pub const TYPE_FLOAT: u16 = 7;

pub const TYPE_STR: u16 = 8;

pub const TYPE_RAW: u16 = 9;

pub const TYPE_MAP: u16 = 10;

pub const TYPE_AU8: u16 = 21;

pub const TYPE_AI8: u16 = 22;

pub const TYPE_AU16: u16 = 23;

pub const TYPE_AI16: u16 = 24;

pub const TYPE_AU32: u16 = 25;

pub const TYPE_AI32: u16 = 26;

pub const TYPE_AFLOAT: u16 = 27;

pub const TYPE_ASTR: u16 = 28;

pub const TYPE_ARAW: u16 = 29;

pub const TYPE_AMAP: u16 = 30;

pub const STR_TYPE_NIL: &'static str = "nil";

pub const STR_TYPE_U8: &'static str = "u8";

pub const STR_TYPE_I8: &'static str = "i8";

pub const STR_TYPE_U16: &'static str = "u16";

pub const STR_TYPE_I16: &'static str = "i16";

pub const STR_TYPE_U32: &'static str = "u32";

pub const STR_TYPE_I32: &'static str = "i32";

pub const STR_TYPE_FLOAT: &'static str = "float";

pub const STR_TYPE_STR: &'static str = "str";

pub const STR_TYPE_RAW: &'static str = "raw";

pub const STR_TYPE_MAP: &'static str = "map";

pub const STR_TYPE_AU8: &'static str = "u8[]";

pub const STR_TYPE_AI8: &'static str = "i8[]";

pub const STR_TYPE_AU16: &'static str = "u16[]";

pub const STR_TYPE_AI16: &'static str = "i16[]";

pub const STR_TYPE_AU32: &'static str = "u32[]";

pub const STR_TYPE_AI32: &'static str = "i32[]";

pub const STR_TYPE_AFLOAT: &'static str = "float[]";

pub const STR_TYPE_ASTR: &'static str = "str[]";

pub const STR_TYPE_ARAW: &'static str = "raw[]";

pub const STR_TYPE_AMAP: &'static str = "map[]";

/// Whether `code` is one of the codes of the wire format: 0 for nil, 1 to 10
/// for the scalar, text, raw and map types, 21 to 30 for their array forms.
pub open spec fn is_type_code(code: u16) -> bool {
    code <= TYPE_MAP || TYPE_AU8 <= code <= TYPE_AMAP
}

/// Whether `code` is the code of an array form.
pub open spec fn is_array_code(code: u16) -> bool {
    TYPE_AU8 <= code <= TYPE_AMAP
}

/// Whether `code` is the code of one of the seven numeric types.
pub open spec fn is_number_code(code: u16) -> bool {
    TYPE_U8 <= code <= TYPE_FLOAT
}

/// The code that a type name stands for; a name that is not a type name
/// stands for nil.
pub open spec fn code_of_name(name: Seq<char>) -> u16 {
    if name == STR_TYPE_U8@ {
        TYPE_U8
    } else if name == STR_TYPE_I8@ {
        TYPE_I8
    } else if name == STR_TYPE_U16@ {
        TYPE_U16
    } else if name == STR_TYPE_I16@ {
        TYPE_I16
    } else if name == STR_TYPE_U32@ {
        TYPE_U32
    } else if name == STR_TYPE_I32@ {
        TYPE_I32
    } else if name == STR_TYPE_FLOAT@ {
        TYPE_FLOAT
    } else if name == STR_TYPE_STR@ {
        TYPE_STR
    } else if name == STR_TYPE_RAW@ {
        TYPE_RAW
    } else if name == STR_TYPE_MAP@ {
        TYPE_MAP
    } else if name == STR_TYPE_AU8@ {
        TYPE_AU8
    } else if name == STR_TYPE_AI8@ {
        TYPE_AI8
    } else if name == STR_TYPE_AU16@ {
        TYPE_AU16
    } else if name == STR_TYPE_AI16@ {
        TYPE_AI16
    } else if name == STR_TYPE_AU32@ {
        TYPE_AU32
    } else if name == STR_TYPE_AI32@ {
        TYPE_AI32
    } else if name == STR_TYPE_AFLOAT@ {
        TYPE_AFLOAT
    } else if name == STR_TYPE_ASTR@ {
        TYPE_ASTR
    } else if name == STR_TYPE_ARAW@ {
        TYPE_ARAW
    } else if name == STR_TYPE_AMAP@ {
        TYPE_AMAP
    } else {
        TYPE_NIL
    }
}

/// The name of the type with the given code; a code that is not a type code
/// is named like nil.
pub open spec fn name_of_code(code: u16) -> Seq<char> {
    if code == TYPE_U8 {
        STR_TYPE_U8@
    } else if code == TYPE_I8 {
        STR_TYPE_I8@
    } else if code == TYPE_U16 {
        STR_TYPE_U16@
    } else if code == TYPE_I16 {
        STR_TYPE_I16@
    } else if code == TYPE_U32 {
        STR_TYPE_U32@
    } else if code == TYPE_I32 {
        STR_TYPE_I32@
    } else if code == TYPE_FLOAT {
        STR_TYPE_FLOAT@
    } else if code == TYPE_STR {
        STR_TYPE_STR@
    } else if code == TYPE_RAW {
        STR_TYPE_RAW@
    } else if code == TYPE_MAP {
        STR_TYPE_MAP@
    } else if code == TYPE_AU8 {
        STR_TYPE_AU8@
    } else if code == TYPE_AI8 {
        STR_TYPE_AI8@
    } else if code == TYPE_AU16 {
        STR_TYPE_AU16@
    } else if code == TYPE_AI16 {
        STR_TYPE_AI16@
    } else if code == TYPE_AU32 {
        STR_TYPE_AU32@
    } else if code == TYPE_AI32 {
        STR_TYPE_AI32@
    } else if code == TYPE_AFLOAT {
        STR_TYPE_AFLOAT@
    } else if code == TYPE_ASTR {
        STR_TYPE_ASTR@
    } else if code == TYPE_ARAW {
        STR_TYPE_ARAW@
    } else if code == TYPE_AMAP {
        STR_TYPE_AMAP@
    } else {
        STR_TYPE_NIL@
    }
}

/// The code that a decoder works with after reading `code` from the wire:
/// the code itself if it is a type code, nil otherwise.
pub open spec fn known_code(code: u16) -> u16 {
    if is_type_code(code) {
        code
    } else {
        TYPE_NIL
    }
}

/// Makes the characters of every type name known to the verifier.
pub proof fn lemma_type_names()
    ensures
        STR_TYPE_NIL@ == seq!['n', 'i', 'l'],
        STR_TYPE_U8@ == seq!['u', '8'],
        STR_TYPE_I8@ == seq!['i', '8'],
        STR_TYPE_U16@ == seq!['u', '1', '6'],
        STR_TYPE_I16@ == seq!['i', '1', '6'],
        STR_TYPE_U32@ == seq!['u', '3', '2'],
        STR_TYPE_I32@ == seq!['i', '3', '2'],
        STR_TYPE_FLOAT@ == seq!['f', 'l', 'o', 'a', 't'],
        STR_TYPE_STR@ == seq!['s', 't', 'r'],
        STR_TYPE_RAW@ == seq!['r', 'a', 'w'],
        STR_TYPE_MAP@ == seq!['m', 'a', 'p'],
        STR_TYPE_AU8@ == seq!['u', '8', '[', ']'],
        STR_TYPE_AI8@ == seq!['i', '8', '[', ']'],
        STR_TYPE_AU16@ == seq!['u', '1', '6', '[', ']'],
        STR_TYPE_AI16@ == seq!['i', '1', '6', '[', ']'],
        STR_TYPE_AU32@ == seq!['u', '3', '2', '[', ']'],
        STR_TYPE_AI32@ == seq!['i', '3', '2', '[', ']'],
        STR_TYPE_AFLOAT@ == seq!['f', 'l', 'o', 'a', 't', '[', ']'],
        STR_TYPE_ASTR@ == seq!['s', 't', 'r', '[', ']'],
        STR_TYPE_ARAW@ == seq!['r', 'a', 'w', '[', ']'],
        STR_TYPE_AMAP@ == seq!['m', 'a', 'p', '[', ']'],
{
    reveal_strlit("nil");
    reveal_strlit("u8");
    reveal_strlit("i8");
    reveal_strlit("u16");
    reveal_strlit("i16");
    reveal_strlit("u32");
    reveal_strlit("i32");
    reveal_strlit("float");
    reveal_strlit("str");
    reveal_strlit("raw");
    reveal_strlit("map");
    reveal_strlit("u8[]");
    reveal_strlit("i8[]");
    reveal_strlit("u16[]");
    reveal_strlit("i16[]");
    reveal_strlit("u32[]");
    reveal_strlit("i32[]");
    reveal_strlit("float[]");
    reveal_strlit("str[]");
    reveal_strlit("raw[]");
    reveal_strlit("map[]");
    assert(STR_TYPE_NIL@ =~= seq!['n', 'i', 'l']);
    assert(STR_TYPE_U8@ =~= seq!['u', '8']);
    assert(STR_TYPE_I8@ =~= seq!['i', '8']);
    assert(STR_TYPE_U16@ =~= seq!['u', '1', '6']);
    assert(STR_TYPE_I16@ =~= seq!['i', '1', '6']);
    assert(STR_TYPE_U32@ =~= seq!['u', '3', '2']);
    assert(STR_TYPE_I32@ =~= seq!['i', '3', '2']);
    assert(STR_TYPE_FLOAT@ =~= seq!['f', 'l', 'o', 'a', 't']);
    assert(STR_TYPE_STR@ =~= seq!['s', 't', 'r']);
    assert(STR_TYPE_RAW@ =~= seq!['r', 'a', 'w']);
    assert(STR_TYPE_MAP@ =~= seq!['m', 'a', 'p']);
    assert(STR_TYPE_AU8@ =~= seq!['u', '8', '[', ']']);
    assert(STR_TYPE_AI8@ =~= seq!['i', '8', '[', ']']);
    assert(STR_TYPE_AU16@ =~= seq!['u', '1', '6', '[', ']']);
    assert(STR_TYPE_AI16@ =~= seq!['i', '1', '6', '[', ']']);
    assert(STR_TYPE_AU32@ =~= seq!['u', '3', '2', '[', ']']);
    assert(STR_TYPE_AI32@ =~= seq!['i', '3', '2', '[', ']']);
    assert(STR_TYPE_AFLOAT@ =~= seq!['f', 'l', 'o', 'a', 't', '[', ']']);
    assert(STR_TYPE_ASTR@ =~= seq!['s', 't', 'r', '[', ']']);
    assert(STR_TYPE_ARAW@ =~= seq!['r', 'a', 'w', '[', ']']);
    assert(STR_TYPE_AMAP@ =~= seq!['m', 'a', 'p', '[', ']']);
}

/// Names and codes correspond one to one: every type code is the code of its
/// own name, and every other code falls back to nil.
pub proof fn lemma_name_code_round_trip(code: u16)
    ensures
        code_of_name(name_of_code(code)) == known_code(code),
        code_of_name(STR_TYPE_NIL@) == TYPE_NIL,
        name_of_code(code) == STR_TYPE_NIL@ <==> known_code(code) == TYPE_NIL,
{
    lemma_type_names();
    lemma_distinct_from_nil();
    let name = name_of_code(code);
    if name.len() == 2 {
        assert(name[0] == 'u' || name[0] == 'i');
    } else if name.len() == 3 {
        assert(name[0] == 'u' || name[0] == 'i' || name[0] == 's' || name[0] == 'r' || name[0]
            == 'm' || name[0] == 'n');
        assert(name[1] == '1' || name[1] == '3' || name[1] == 't' || name[1] == 'a' || name[1]
            == 'i');
    }
}

/// Whether `name` is one of the type names.
pub open spec fn is_type_name(name: Seq<char>) -> bool {
    code_of_name(name) != TYPE_NIL || name == STR_TYPE_NIL@
}

/// Every type name is the name of its own code.
pub proof fn lemma_code_name_round_trip(name: Seq<char>)
    requires
        is_type_name(name),
    ensures
        name_of_code(code_of_name(name)) == name,
        is_type_code(code_of_name(name)),
{
}

/// No type name but nil's own is spelled like nil.
proof fn lemma_distinct_from_nil()
    ensures
        STR_TYPE_U8@ != STR_TYPE_NIL@,
        STR_TYPE_I8@ != STR_TYPE_NIL@,
        STR_TYPE_U16@ != STR_TYPE_NIL@,
        STR_TYPE_I16@ != STR_TYPE_NIL@,
        STR_TYPE_U32@ != STR_TYPE_NIL@,
        STR_TYPE_I32@ != STR_TYPE_NIL@,
        STR_TYPE_FLOAT@ != STR_TYPE_NIL@,
        STR_TYPE_STR@ != STR_TYPE_NIL@,
        STR_TYPE_RAW@ != STR_TYPE_NIL@,
        STR_TYPE_MAP@ != STR_TYPE_NIL@,
        STR_TYPE_AU8@ != STR_TYPE_NIL@,
        STR_TYPE_AI8@ != STR_TYPE_NIL@,
        STR_TYPE_AU16@ != STR_TYPE_NIL@,
        STR_TYPE_AI16@ != STR_TYPE_NIL@,
        STR_TYPE_AU32@ != STR_TYPE_NIL@,
        STR_TYPE_AI32@ != STR_TYPE_NIL@,
        STR_TYPE_AFLOAT@ != STR_TYPE_NIL@,
        STR_TYPE_ASTR@ != STR_TYPE_NIL@,
        STR_TYPE_ARAW@ != STR_TYPE_NIL@,
        STR_TYPE_AMAP@ != STR_TYPE_NIL@,
{
    lemma_type_names();
    let nil = STR_TYPE_NIL@;
    assert(nil[0] == 'n' && nil.len() == 3);
    assert(STR_TYPE_U16@[0] == 'u');
    assert(STR_TYPE_I16@[0] == 'i');
    assert(STR_TYPE_U32@[0] == 'u');
    assert(STR_TYPE_I32@[0] == 'i');
    assert(STR_TYPE_STR@[0] == 's');
    assert(STR_TYPE_RAW@[0] == 'r');
    assert(STR_TYPE_MAP@[0] == 'm');
}

/// The code of the type called `name`, or the nil code if there is no such type.
pub fn get_type_by_name(name: &str) -> (code: u16)
    ensures
        code == code_of_name(name@),
        is_type_code(code),
{
    if same_text(name, STR_TYPE_U8) {
        TYPE_U8
    } else if same_text(name, STR_TYPE_I8) {
        TYPE_I8
    } else if same_text(name, STR_TYPE_U16) {
        TYPE_U16
    } else if same_text(name, STR_TYPE_I16) {
        TYPE_I16
    } else if same_text(name, STR_TYPE_U32) {
        TYPE_U32
    } else if same_text(name, STR_TYPE_I32) {
        TYPE_I32
    } else if same_text(name, STR_TYPE_FLOAT) {
        TYPE_FLOAT
    } else if same_text(name, STR_TYPE_STR) {
        TYPE_STR
    } else if same_text(name, STR_TYPE_RAW) {
        TYPE_RAW
    } else if same_text(name, STR_TYPE_MAP) {
        TYPE_MAP
    } else if same_text(name, STR_TYPE_AU8) {
        TYPE_AU8
    } else if same_text(name, STR_TYPE_AI8) {
        TYPE_AI8
    } else if same_text(name, STR_TYPE_AU16) {
        TYPE_AU16
    } else if same_text(name, STR_TYPE_AI16) {
        TYPE_AI16
    } else if same_text(name, STR_TYPE_AU32) {
        TYPE_AU32
    } else if same_text(name, STR_TYPE_AI32) {
        TYPE_AI32
    } else if same_text(name, STR_TYPE_AFLOAT) {
        TYPE_AFLOAT
    } else if same_text(name, STR_TYPE_ASTR) {
        TYPE_ASTR
    } else if same_text(name, STR_TYPE_ARAW) {
        TYPE_ARAW
    } else if same_text(name, STR_TYPE_AMAP) {
        TYPE_AMAP
    } else {
        TYPE_NIL
    }
}

/// The name of the type with code `index`, or nil's name if there is no such type.
pub fn get_name_by_type(index: u16) -> (name: &'static str)
    ensures
        name@ == name_of_code(index),
{
    if index == TYPE_U8 {
        STR_TYPE_U8
    } else if index == TYPE_I8 {
        STR_TYPE_I8
    } else if index == TYPE_U16 {
        STR_TYPE_U16
    } else if index == TYPE_I16 {
        STR_TYPE_I16
    } else if index == TYPE_U32 {
        STR_TYPE_U32
    } else if index == TYPE_I32 {
        STR_TYPE_I32
    } else if index == TYPE_FLOAT {
        STR_TYPE_FLOAT
    } else if index == TYPE_STR {
        STR_TYPE_STR
    } else if index == TYPE_RAW {
        STR_TYPE_RAW
    } else if index == TYPE_MAP {
        STR_TYPE_MAP
    } else if index == TYPE_AU8 {
        STR_TYPE_AU8
    } else if index == TYPE_AI8 {
        STR_TYPE_AI8
    } else if index == TYPE_AU16 {
        STR_TYPE_AU16
    } else if index == TYPE_AI16 {
        STR_TYPE_AI16
    } else if index == TYPE_AU32 {
        STR_TYPE_AU32
    } else if index == TYPE_AI32 {
        STR_TYPE_AI32
    } else if index == TYPE_AFLOAT {
        STR_TYPE_AFLOAT
    } else if index == TYPE_ASTR {
        STR_TYPE_ASTR
    } else if index == TYPE_ARAW {
        STR_TYPE_ARAW
    } else if index == TYPE_AMAP {
        STR_TYPE_AMAP
    } else {
        STR_TYPE_NIL
    }
}

} // verus!
