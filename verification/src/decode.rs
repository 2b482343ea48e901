//! The decoder: from bytes in a buffer to values.

use vstd::prelude::*;
use vstd::utf8::{encode_utf8, valid_utf8};
use crate::buffer::Buffer;
use crate::config::{Config, Field, FieldView};
use crate::dict::Dict;
use crate::error::{ErrorKind, RpError, RpResult};
use crate::laws::lemma_decoded_well_formed;
use crate::registry::{
    code_of_name, get_name_by_type, get_type_by_name, is_number_code, lemma_name_code_round_trip,
    name_of_code, TYPE_AMAP, TYPE_AU8, TYPE_FLOAT, TYPE_I16, TYPE_I32, TYPE_I8, TYPE_MAP, TYPE_RAW,
    TYPE_STEP, TYPE_STR, TYPE_U16, TYPE_U32, TYPE_U8,
};
use crate::values::{
    get_type_by_value, lemma_dict_insert_view, lemma_entry_views_of, lemma_views_of, make_array,
    views_of, Value, ValueView,
};
use crate::wire::{
    args_at, bytes_at, Decoded, entries_at, field_at, header_at, items_at, lemma_field_at_bounds,
    number_at, payload_at, proto_at, text_at, i32_of, u16_of, u32_of,
};

verus! {

/// The error of `String::from_utf8`, of which nothing is read.
#[verifier::external_type_specification]
#[verifier::external_body]
pub struct ExFromUtf8Error(std::string::FromUtf8Error);

/// `String::from_utf8` succeeds exactly on valid UTF-8, and the text it gives
/// has the bytes it was given.
pub assume_specification[ String::from_utf8 ](vec: Vec<u8>) -> (r: Result<
    String,
    std::string::FromUtf8Error,
>)
    ensures
        r is Ok <==> valid_utf8(vec@),
        r matches Ok(text) ==> encode_utf8(text@) == vec@,
;

/// What a decoder of values found, as the wire format's mathematics puts it.
pub open spec fn outcome(r: RpResult<Value>) -> Result<ValueView, ErrorKind> {
    match r {
        Ok(v) => Ok(v@),
        Err(e) => Err(e@.kind()),
    }
}

/// What a decoder of bytes found.
pub open spec fn bytes_outcome(r: RpResult<Vec<u8>>) -> Result<Seq<u8>, ErrorKind> {
    match r {
        Ok(v) => Ok(v@),
        Err(e) => Err(e@.kind()),
    }
}

/// What a decoder of a list of values found.
pub open spec fn items_outcome(r: RpResult<Vec<Value>>) -> Result<Seq<ValueView>, ErrorKind> {
    match r {
        Ok(v) => Ok(views_of(v@)),
        Err(e) => Err(e@.kind()),
    }
}

/// What a decoder of messages found.
pub open spec fn proto_outcome(r: RpResult<(String, Vec<Value>)>) -> Result<
    (Seq<char>, Seq<ValueView>),
    ErrorKind,
> {
    match r {
        Ok(v) => Ok((v.0@, views_of(v.1@))),
        Err(e) => Err(e@.kind()),
    }
}

/// Reads exactly `n` bytes. Where fewer are left, takes those and fails.
fn read_bytes(buffer: &mut Buffer, n: usize) -> (r: RpResult<Vec<u8>>)
    requires
        old(buffer)@.wf(),
    ensures
        final(buffer)@ == old(buffer)@.at(
            bytes_at(old(buffer)@.readable(), old(buffer)@.rpos, n as nat).pos,
        ),
        bytes_outcome(r) == bytes_at(old(buffer)@.readable(), old(buffer)@.rpos, n as nat).res,
        final(buffer)@.wf(),
{
    let mut data = vec![0u8; n];
    let got = buffer.read(data.as_mut_slice());
    if got != n {
        return Err(RpError::from((ErrorKind::NoLeftSpaceError, "must left space to read ")));
    }
    proof {
        let b = old(buffer)@;
        assert(data@ =~= b.readable().subrange(b.rpos as int, b.rpos + n));
    }
    Ok(data)
}

/// The unsigned 16-bit integer whose two bytes, low byte first, are `data`.
fn u16_from_le(data: &Vec<u8>) -> (x: u16)
    requires
        data@.len() == 2,
    ensures
        x == u16_of(data@),
{
    data[0] as u16 + 256 * (data[1] as u16)
}

/// The unsigned 32-bit integer whose four bytes, low byte first, are `data`.
fn u32_from_le(data: &Vec<u8>) -> (x: u32)
    requires
        data@.len() == 4,
    ensures
        x == u32_of(data@),
{
    data[0] as u32 + 256 * (data[1] as u32) + 65536 * (data[2] as u32) + 16777216 * (
    data[3] as u32)
}

/// The signed integer that `bits` holds in two's complement.
fn i32_from_bits(bits: u32) -> (x: i32)
    ensures
        x == i32_of(bits),
{
    if bits >= 2147483648 {
        (bits as i64 - 4294967296) as i32
    } else {
        bits as i32
    }
}

/// Reads the payload of a number whose type code is `pattern`.
///
/// Fails, for want of bytes, if fewer bytes are left than the number takes.
pub fn decode_number(buffer: &mut Buffer, pattern: u16) -> (r: RpResult<Value>)
    requires
        old(buffer)@.wf(),
        is_number_code(pattern),
    ensures
        final(buffer)@ == old(buffer)@.at(
            number_at(old(buffer)@.readable(), old(buffer)@.rpos, pattern).pos,
        ),
        outcome(r) == number_at(old(buffer)@.readable(), old(buffer)@.rpos, pattern).res,
        final(buffer)@.wf(),
{
    if pattern == TYPE_U8 {
        let data = read_bytes(buffer, 2)?;
        Ok(Value::U8(data[0]))
    } else if pattern == TYPE_I8 {
        let data = read_bytes(buffer, 2)?;
        let bits = data[0];
        Ok(
            Value::I8(
                if bits >= 128 {
                    (bits as i16 - 256) as i8
                } else {
                    bits as i8
                },
            ),
        )
    } else if pattern == TYPE_U16 {
        let data = read_bytes(buffer, 2)?;
        Ok(Value::U16(u16_from_le(&data)))
    } else if pattern == TYPE_I16 {
        let data = read_bytes(buffer, 2)?;
        let bits = u16_from_le(&data);
        Ok(
            Value::I16(
                if bits >= 32768 {
                    (bits as i32 - 65536) as i16
                } else {
                    bits as i16
                },
            ),
        )
    } else if pattern == TYPE_U32 {
        let data = read_bytes(buffer, 4)?;
        Ok(Value::U32(u32_from_le(&data)))
    } else if pattern == TYPE_I32 {
        let data = read_bytes(buffer, 4)?;
        Ok(Value::I32(i32_from_bits(u32_from_le(&data))))
    } else {
        let data = read_bytes(buffer, 4)?;
        Ok(Value::Float(i32_from_bits(u32_from_le(&data))))
    }
}

/// Reads the payload of a text (`pattern` is the code of text) or of raw
/// bytes: the number of bytes, then the bytes.
///
/// Fails, for want of bytes, if fewer bytes are left than the payload takes,
/// and, with a text format error, if the bytes of a text are not valid UTF-8.
pub fn decode_str_raw(buffer: &mut Buffer, pattern: u16) -> (r: RpResult<Value>)
    requires
        old(buffer)@.wf(),
        pattern == TYPE_STR || pattern == TYPE_RAW,
    ensures
        final(buffer)@ == old(buffer)@.at(
            text_at(old(buffer)@.readable(), old(buffer)@.rpos, pattern).pos,
        ),
        outcome(r) == text_at(old(buffer)@.readable(), old(buffer)@.rpos, pattern).res,
        final(buffer)@.wf(),
{
    let count = read_bytes(buffer, 2)?;
    let len = u16_from_le(&count);
    let rv = read_bytes(buffer, len as usize)?;
    if pattern == TYPE_STR {
        let ghost bytes = rv@;
        match String::from_utf8(rv) {
            Ok(text) => {
                proof {
                    vstd::utf8::encode_utf8_decode_utf8(text@);
                }
                Ok(Value::Str(text))
            },
            Err(_) => Err(
                RpError::from((ErrorKind::StringFormatError, "string format error")),
            ),
        }
    } else {
        Ok(Value::Raw(rv))
    }
}

/// Reads a header: an index and a type code. The field it returns has the
/// index, and the name of the type code as its pattern.
///
/// Fails, for want of bytes, if fewer than four bytes are left.
pub fn read_field(buffer: &mut Buffer) -> (r: RpResult<Field>)
    requires
        old(buffer)@.wf(),
    ensures
        final(buffer)@ == old(buffer)@.at(
            header_at(old(buffer)@.readable(), old(buffer)@.rpos).pos,
        ),
        match r {
            Ok(field) => header_at(old(buffer)@.readable(), old(buffer)@.rpos).res matches Ok(
                header,
            ) && field@ == (FieldView { index: header.0, pattern: name_of_code(header.1) }),
            Err(e) => header_at(old(buffer)@.readable(), old(buffer)@.rpos).res == Err::<
                (u16, u16),
                ErrorKind,
            >(e@.kind()),
        },
        final(buffer)@.wf(),
{
    let index = read_bytes(buffer, 2)?;
    let pattern = read_bytes(buffer, 2)?;
    Ok(
        Field {
            index: u16_from_le(&index),
            pattern: get_name_by_type(u16_from_le(&pattern)).to_owned(),
        },
    )
}

/// Reads the payload of a map: entries, each a header and a field, up to the
/// marker.
///
/// The value of an entry is stored under the name that the schema holds for
/// the header's index, in place of an earlier value of that name. Where the
/// schema holds no name for the index, the value is read and dropped. Fails
/// as soon as a header or a field does.
pub fn decode_map(buffer: &mut Buffer, config: &Config) -> (r: RpResult<Value>)
    requires
        old(buffer)@.wf(),
    ensures
        final(buffer)@ == old(buffer)@.at(
            entries_at(
                config@,
                old(buffer)@.readable(),
                old(buffer)@.rpos,
                Seq::empty(),
            ).pos,
        ),
        outcome(r) == entries_at(
            config@,
            old(buffer)@.readable(),
            old(buffer)@.rpos,
            Seq::empty(),
        ).res,
        final(buffer)@.wf(),
    decreases old(buffer)@.wpos - old(buffer)@.rpos, 2nat,
{
    let ghost s = buffer@.readable();
    let ghost start = buffer@.rpos;
    let mut map: Dict<Value> = Dict::new();
    proof {
        assert(map@.len() == map.entries@.len());
        lemma_entry_views_of(map.entries@);
        assert(Value::Dict(map)@->Dict_0 =~= Seq::empty());
    }
    loop
        invariant
            buffer@.wf(),
            buffer@ == old(buffer)@.at(buffer@.rpos),
            s == old(buffer)@.readable(),
            start == old(buffer)@.rpos,
            start <= buffer@.rpos,
            entries_at(config@, s, start, Seq::empty()) == entries_at(
                config@,
                s,
                buffer@.rpos,
                Value::Dict(map)@->Dict_0,
            ),
        decreases buffer@.wpos - buffer@.rpos,
    {
        let ghost pos = buffer@.rpos;
        let ghost acc = Value::Dict(map)@->Dict_0;
        let field = read_field(buffer)?;
        proof {
            lemma_name_code_round_trip(header_at(s, pos).res->Ok_0.1);
        }
        if field.is_nil_type() {
            return Ok(Value::Dict(map));
        }
        proof {
            lemma_field_at_bounds(config@, s, buffer@.rpos);
        }
        let sub_value = decode_field(buffer, config)?;
        match config.get_field_index_name(&field.index) {
            None => {},
            Some(name) => {
                let ghost before = map;
                map.insert(name.clone(), sub_value);
                proof {
                    lemma_dict_insert_view(before, map, name@, sub_value);
                }
            },
        }
    }
}

/// Reads the elements of an array, each a field, up to a field that holds
/// nil. Fails, with a type that does not match, at an element whose type
/// code is not `element`, and as soon as a field does.
fn decode_items(buffer: &mut Buffer, config: &Config, element: u16) -> (r: RpResult<Vec<Value>>)
    requires
        old(buffer)@.wf(),
    ensures
        final(buffer)@ == old(buffer)@.at(
            items_at(
                config@,
                old(buffer)@.readable(),
                old(buffer)@.rpos,
                element,
                Seq::empty(),
            ).pos,
        ),
        items_outcome(r) == items_at(
            config@,
            old(buffer)@.readable(),
            old(buffer)@.rpos,
            element,
            Seq::empty(),
        ).res,
        final(buffer)@.wf(),
    decreases old(buffer)@.wpos - old(buffer)@.rpos, 1nat,
{
    let ghost s = buffer@.readable();
    let ghost start = buffer@.rpos;
    let mut value: Vec<Value> = Vec::new();
    proof {
        assert(views_of(value@) =~= Seq::empty());
    }
    loop
        invariant
            buffer@.wf(),
            buffer@ == old(buffer)@.at(buffer@.rpos),
            s == old(buffer)@.readable(),
            start == old(buffer)@.rpos,
            start <= buffer@.rpos,
            items_at(config@, s, start, element, Seq::empty()) == items_at(
                config@,
                s,
                buffer@.rpos,
                element,
                views_of(value@),
            ),
        decreases buffer@.wpos - buffer@.rpos,
    {
        proof {
            lemma_field_at_bounds(config@, s, buffer@.rpos);
        }
        let sub_value = decode_field(buffer, config)?;
        match sub_value {
            Value::Nil => {
                return Ok(value);
            },
            _ => {},
        }
        if get_type_by_value(&sub_value) != element {
            return Err(RpError::from((ErrorKind::TypeNotMatchError, "must match type")));
        }
        proof {
            assert(value@.push(sub_value).drop_last() =~= value@);
        }
        value.push(sub_value);
    }
}

/// Reads the payload that the type named by the field's pattern asks for.
fn decode_by_field(buffer: &mut Buffer, config: &Config, field: &Field) -> (r: RpResult<Value>)
    requires
        old(buffer)@.wf(),
    ensures
        final(buffer)@ == old(buffer)@.at(
            payload_at(
                config@,
                old(buffer)@.readable(),
                old(buffer)@.rpos,
                code_of_name(field.pattern@),
            ).pos,
        ),
        outcome(r) == payload_at(
            config@,
            old(buffer)@.readable(),
            old(buffer)@.rpos,
            code_of_name(field.pattern@),
        ).res,
        final(buffer)@.wf(),
    decreases old(buffer)@.wpos - old(buffer)@.rpos, 3nat,
{
    let t = get_type_by_name(field.pattern.as_str());
    if t >= TYPE_U8 && t <= TYPE_FLOAT {
        decode_number(buffer, t)
    } else if t == TYPE_STR || t == TYPE_RAW {
        decode_str_raw(buffer, t)
    } else if t == TYPE_MAP {
        decode_map(buffer, config)
    } else if t >= TYPE_AU8 && t <= TYPE_AMAP {
        let items = decode_items(buffer, config, t - TYPE_STEP)?;
        Ok(make_array(t, items))
    } else {
        Ok(Value::Nil)
    }
}

/// Reads a field: a header, then the payload that the header's type code
/// asks for. A code that is no type code counts as nil, which has no payload.
///
/// Fails for want of bytes, on a text that is not valid UTF-8, and on an
/// array element that is not of the array's element type. The read cursor
/// then stands where the failure was found. A value that was read is well
/// formed.
pub fn decode_field(buffer: &mut Buffer, config: &Config) -> (r: RpResult<Value>)
    requires
        old(buffer)@.wf(),
    ensures
        final(buffer)@ == old(buffer)@.at(
            field_at(config@, old(buffer)@.readable(), old(buffer)@.rpos).pos,
        ),
        outcome(r) == field_at(config@, old(buffer)@.readable(), old(buffer)@.rpos).res,
        r matches Ok(value) ==> value@.well_formed(),
        final(buffer)@.wf(),
    decreases old(buffer)@.wpos - old(buffer)@.rpos, 0nat,
{
    let ghost s = buffer@.readable();
    let ghost pos = buffer@.rpos;
    proof {
        lemma_decoded_well_formed(config@, s, pos);
    }
    let field = read_field(buffer)?;
    proof {
        lemma_name_code_round_trip(header_at(s, pos).res->Ok_0.1);
    }
    if field.is_nil_type() {
        return Ok(Value::Nil);
    }
    decode_by_field(buffer, config, &field)
}

/// Reads a message: its name as a text payload, then its arguments, each a
/// field, up to a field that holds nil.
///
/// Fails as soon as the name or a field does. After that it fails if the
/// schema does not know the name (the name is missing) or gives the message
/// another number of arguments than were read (a type does not match).
pub fn decode_proto(buffer: &mut Buffer, config: &Config) -> (r: RpResult<(String, Vec<Value>)>)
    requires
        old(buffer)@.wf(),
    ensures
        final(buffer)@ == old(buffer)@.at(
            proto_at(config@, old(buffer)@.readable(), old(buffer)@.rpos).pos,
        ),
        proto_outcome(r) == proto_at(config@, old(buffer)@.readable(), old(buffer)@.rpos).res,
        final(buffer)@.wf(),
{
    let ghost s = buffer@.readable();
    let name = match decode_str_raw(buffer, TYPE_STR)? {
        Value::Str(name) => name,
        _ => {
            return Err(RpError::from((ErrorKind::StringFormatError, "string format error")));
        },
    };
    let ghost start = buffer@.rpos;
    let mut value: Vec<Value> = Vec::new();
    proof {
        assert(views_of(value@) =~= Seq::empty());
    }
    loop
        invariant_except_break
            args_at(config@, s, start, Seq::empty()) == args_at(
                config@,
                s,
                buffer@.rpos,
                views_of(value@),
            ),
        invariant
            buffer@.wf(),
            buffer@ == old(buffer)@.at(buffer@.rpos),
            s == old(buffer)@.readable(),
            start == text_at(s, old(buffer)@.rpos, TYPE_STR).pos,
            text_at(s, old(buffer)@.rpos, TYPE_STR).res == Ok::<ValueView, ErrorKind>(
                ValueView::Str(name@),
            ),
        ensures
            args_at(config@, s, start, Seq::empty()) == (Decoded {
                pos: buffer@.rpos,
                res: Ok::<Seq<ValueView>, ErrorKind>(views_of(value@)),
            }),
        decreases buffer@.wpos - buffer@.rpos,
    {
        proof {
            lemma_field_at_bounds(config@, s, buffer@.rpos);
        }
        let sub_value = decode_field(buffer, config)?;
        match sub_value {
            Value::Nil => {
                break ;
            },
            _ => {},
        }
        proof {
            assert(value@.push(sub_value).drop_last() =~= value@);
        }
        value.push(sub_value);
    }
    proof {
        lemma_views_of(value@);
    }
    match config.get_proto_by_name(&name) {
        Some(val) => {
            if val.args.len() != value.len() {
                return Err(RpError::from((ErrorKind::TypeNotMatchError, "must match type")));
            }
        },
        None => {
            return Err(RpError::from((ErrorKind::MissingError, "missing the name protocol")));
        },
    }
    Ok((name, value))
}

} // verus!
