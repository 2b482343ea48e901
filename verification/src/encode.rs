//! The encoder: from values to bytes in a buffer.

use vstd::prelude::*;
use crate::buffer::{Buffer, BufferView, lemma_written, lemma_written_twice};
use crate::config::{Config, Field};
use crate::error::{ErrorKind, RpError, RpResult};
use crate::registry::{
    code_of_name, get_name_by_type, get_type_by_name, lemma_name_code_round_trip, STR_TYPE_NIL,
    TYPE_NIL,
};
use crate::values::{
    get_array_contains_type, get_type_by_value, lemma_entry_views_of, lemma_views_of, views_of,
    Value, ValueView,
};
use crate::wire::{
    args_encoding, Encoded, entries_encoding, entry_encoding, field_encoding, header_bytes,
    i32_bits, items_encoding, marker_bytes, number_bytes, payload_encoding, proto_encoding,
    text_bytes, u16_bytes, u32_bytes,
};

verus! {

/// The two bytes of `x`, low byte first.
fn u16_le(x: u16) -> (b: [u8; 2])
    ensures
        b@ == u16_bytes(x),
{
    let b = [(x % 256) as u8, (x / 256) as u8];
    assert(b@ =~= u16_bytes(x));
    b
}

/// The four bytes of `x`, low byte first.
fn u32_le(x: u32) -> (b: [u8; 4])
    ensures
        b@ == u32_bytes(x),
{
    let b = [
        (x % 256) as u8,
        (x / 256 % 256) as u8,
        (x / 65536 % 256) as u8,
        (x / 16777216) as u8,
    ];
    assert(b@ =~= u32_bytes(x));
    b
}

/// Writes the payload of a number: two bytes for the 8-bit and 16-bit kinds,
/// four for the others, low byte first. The 8-bit kinds are followed by a
/// zero byte; a decimal number is written as its count of thousandths.
pub fn encode_number(buffer: &mut Buffer, value: &Value) -> (r: RpResult<()>)
    requires
        old(buffer)@.wf(),
        value@.is_number(),
    ensures
        r is Ok,
        final(buffer)@ == old(buffer)@.written(number_bytes(value@)),
        final(buffer)@.wf(),
{
    match value {
        Value::U8(val) => {
            let b = [*val, 0u8];
            assert(b@ =~= number_bytes(value@));
            buffer.write(b.as_slice());
        },
        Value::I8(val) => {
            let bits = if *val < 0 {
                (*val as i16 + 256) as u8
            } else {
                *val as u8
            };
            let b = [bits, 0u8];
            assert(b@ =~= number_bytes(value@));
            buffer.write(b.as_slice());
        },
        Value::U16(val) => {
            let b = u16_le(*val);
            buffer.write(b.as_slice());
        },
        Value::I16(val) => {
            let bits = if *val < 0 {
                (*val as i32 + 65536) as u16
            } else {
                *val as u16
            };
            let b = u16_le(bits);
            buffer.write(b.as_slice());
        },
        Value::U32(val) => {
            let b = u32_le(*val);
            buffer.write(b.as_slice());
        },
        Value::I32(val) => {
            let b = u32_le(i32_to_bits(*val));
            buffer.write(b.as_slice());
        },
        Value::Float(val) => {
            let b = u32_le(i32_to_bits(*val));
            buffer.write(b.as_slice());
        },
        _ => {},
    }
    Ok(())
}

/// The unsigned integer that holds `x` in two's complement.
fn i32_to_bits(x: i32) -> (bits: u32)
    ensures
        bits == i32_bits(x),
{
    if x < 0 {
        (x as i64 + 4294967296) as u32
    } else {
        x as u32
    }
}

/// What an encoder owes: the buffer has received the bytes of `e`, the
/// encoder succeeded exactly if `e` came to its end, and a failure is a type
/// that does not match.
pub open spec fn encoded_as(
    before: BufferView,
    after: BufferView,
    r: RpResult<()>,
    e: Encoded,
) -> bool {
    &&& after == before.written(e.bytes)
    &&& r is Ok <==> e.ok
    &&& r matches Err(err) ==> err@.kind() == ErrorKind::TypeNotMatchError
}

/// Writes the header with index 0 and the code of the type called `pattern`.
fn write_str_field(buffer: &mut Buffer, pattern: &str) -> (r: RpResult<bool>)
    requires
        old(buffer)@.wf(),
    ensures
        r matches Ok(written) && written,
        final(buffer)@ == old(buffer)@.written(header_bytes(0, code_of_name(pattern@))),
        final(buffer)@.wf(),
{
    proof {
        lemma_written(old(buffer)@, u16_bytes(0));
        lemma_written_twice(old(buffer)@, u16_bytes(0), u16_bytes(code_of_name(pattern@)));
        lemma_written(old(buffer)@, header_bytes(0, code_of_name(pattern@)));
    }
    encode_number(buffer, &Value::U16(0))?;
    encode_number(buffer, &Value::U16(get_type_by_name(pattern)))?;
    Ok(true)
}

/// Writes `val` as it is. The wire format has no padding.
fn append_and_align(buffer: &mut Buffer, val: &[u8]) -> (r: RpResult<()>)
    requires
        old(buffer)@.wf(),
    ensures
        r is Ok,
        final(buffer)@ == old(buffer)@.written(val@),
{
    buffer.write(val);
    Ok(())
}

/// Writes the payload of a text or of raw bytes: the number of bytes as an
/// unsigned 16-bit integer, then the bytes.
pub fn encode_str_raw(buffer: &mut Buffer, value: &Value) -> (r: RpResult<()>)
    requires
        old(buffer)@.wf(),
        value is Str || value is Raw,
    ensures
        r is Ok,
        final(buffer)@ == old(buffer)@.written(text_bytes(value@)),
        final(buffer)@.wf(),
{
    match value {
        Value::Str(val) => {
            let bytes = val.as_str().as_bytes();
            proof {
                let count = u16_bytes((bytes@.len() % 65536) as u16);
                lemma_written(old(buffer)@, count);
                lemma_written_twice(old(buffer)@, count, bytes@);
            }
            encode_number(buffer, &Value::U16((bytes.len() % 65536) as u16))?;
            append_and_align(buffer, bytes)?;
        },
        Value::Raw(val) => {
            proof {
                let count = u16_bytes((val@.len() % 65536) as u16);
                lemma_written(old(buffer)@, count);
                lemma_written_twice(old(buffer)@, count, val@);
            }
            encode_number(buffer, &Value::U16((val.len() % 65536) as u16))?;
            append_and_align(buffer, val.as_slice())?;
        },
        _ => {},
    }
    Ok(())
}

/// Writes the header of a map entry, if the schema knows the entry's field:
/// the field's index and the code of the field's type. Returns whether it
/// wrote.
pub fn write_field(buffer: &mut Buffer, field: Option<&Field>) -> (r: RpResult<bool>)
    requires
        old(buffer)@.wf(),
    ensures
        r matches Ok(written) && written == field is Some,
        field is None ==> final(buffer)@ == old(buffer)@,
        field matches Some(f) ==> final(buffer)@ == old(buffer)@.written(
            header_bytes(f.index, code_of_name(f.pattern@)),
        ),
        final(buffer)@.wf(),
{
    match field {
        None => Ok(false),
        Some(field) => {
            proof {
                let index = u16_bytes(field.index);
                let code = u16_bytes(code_of_name(field.pattern@));
                lemma_written(old(buffer)@, index);
                lemma_written_twice(old(buffer)@, index, code);
                lemma_written(old(buffer)@, index + code);
            }
            encode_number(buffer, &Value::U16(field.index))?;
            encode_number(buffer, &Value::U16(get_type_by_name(field.pattern.as_str())))?;
            Ok(true)
        },
    }
}

/// Writes the payload of a map: each entry whose name the schema knows, in
/// the map's order, then the marker. An entry whose name the schema does not
/// know is left out.
pub fn encode_map(buffer: &mut Buffer, config: &Config, value: &Value) -> (r: RpResult<()>)
    requires
        old(buffer)@.wf(),
        value is Dict,
    ensures
        encoded_as(old(buffer)@, final(buffer)@, r, payload_encoding(config@, value@)),
        final(buffer)@.wf(),
    decreases value, 0nat,
{
    match value {
        Value::Dict(val) => {
            let ghost before = buffer@;
            let ghost all = value@->Dict_0;
            let ghost mut acc: Seq<u8> = Seq::empty();
            proof {
                lemma_entry_views_of(val.entries@);
                lemma_written(before, acc);
                assert(all.skip(0) =~= all);
            }
            let mut i: usize = 0;
            while i < val.entries.len()
                invariant
                    i <= val.entries@.len(),
                    before.wf(),
                    before == old(buffer)@,
                    value == Value::Dict(*val),
                    all == value@->Dict_0,
                    all.len() == val.entries@.len(),
                    forall|j: int|
                        0 <= j < all.len() ==> (#[trigger] all[j]) == (
                            val.entries@[j].0@,
                            val.entries@[j].1@,
                        ),
                    buffer@ == before.written(acc),
                    buffer@.wf(),
                    entries_encoding(config@, all).bytes == acc + entries_encoding(
                        config@,
                        all.skip(i as int),
                    ).bytes,
                    entries_encoding(config@, all).ok == entries_encoding(
                        config@,
                        all.skip(i as int),
                    ).ok,
                decreases val.entries@.len() - i,
            {
                let name = &val.entries[i].0;
                let sub_value = &val.entries[i].1;
                let ghost rest = all.skip(i as int);
                let ghost first = entry_encoding(config@, name@, sub_value@);
                proof {
                    assert(rest[0] == all[i as int]);
                    assert(rest.drop_first() =~= all.skip(i + 1));
                }
                let ghost head = match config@.header_of(name@) {
                    Some((index, code)) => header_bytes(index, code),
                    None => Seq::empty(),
                };
                proof {
                    lemma_written(buffer@, head);
                    lemma_written_twice(before, acc, head);
                }
                let wrote = write_field(buffer, config.get_field_by_name(name))?;
                if wrote {
                    let ghost sub = field_encoding(config@, sub_value@);
                    proof {
                        lemma_written_twice(before, acc + head, sub.bytes);
                        assert(first.bytes =~= head + sub.bytes);
                        assert(acc + first.bytes =~= acc + head + sub.bytes);
                    }
                    match encode_field(buffer, config, sub_value) {
                        Ok(_) => {},
                        Err(e) => {
                            proof {
                                assert(entries_encoding(config@, all).bytes =~= acc
                                    + first.bytes);
                            }
                            return Err(e);
                        },
                    }
                } else {
                    proof {
                        assert(acc + first.bytes =~= acc);
                    }
                }
                proof {
                    let tail = entries_encoding(config@, all.skip(i + 1));
                    assert(acc + (first.bytes + tail.bytes) =~= (acc + first.bytes) + tail.bytes);
                    acc = acc + first.bytes;
                }
                i += 1;
            }
            proof {
                let done = entries_encoding(config@, all).bytes;
                assert(done =~= acc);
                lemma_written_twice(before, acc, marker_bytes());
                lemma_name_code_round_trip(TYPE_NIL);
            }
            write_str_field(buffer, STR_TYPE_NIL)?;
        },
        _ => {},
    }
    Ok(())
}

/// Writes the elements of an array, each as a field. Gives up at the first
/// element whose type code is not `must_type`.
fn encode_items(buffer: &mut Buffer, config: &Config, must_type: u16, items: &Vec<Value>) -> (r:
    RpResult<()>)
    requires
        old(buffer)@.wf(),
    ensures
        encoded_as(
            old(buffer)@,
            final(buffer)@,
            r,
            items_encoding(config@, must_type, views_of(items@)),
        ),
        final(buffer)@.wf(),
    decreases items,
{
    let ghost before = buffer@;
    let ghost all = views_of(items@);
    let ghost mut acc: Seq<u8> = Seq::empty();
    proof {
        lemma_views_of(items@);
        lemma_written(before, acc);
        assert(all.skip(0) =~= all);
    }
    let mut i: usize = 0;
    while i < items.len()
        invariant
            i <= items@.len(),
            before.wf(),
            before == old(buffer)@,
            all == views_of(items@),
            all.len() == items@.len(),
            forall|j: int| 0 <= j < all.len() ==> (#[trigger] all[j]) == items@[j]@,
            buffer@ == before.written(acc),
            buffer@.wf(),
            items_encoding(config@, must_type, all).bytes == acc + items_encoding(
                config@,
                must_type,
                all.skip(i as int),
            ).bytes,
            items_encoding(config@, must_type, all).ok == items_encoding(
                config@,
                must_type,
                all.skip(i as int),
            ).ok,
        decreases items@.len() - i,
    {
        let v = &items[i];
        let ghost rest = all.skip(i as int);
        let ghost first = field_encoding(config@, v@);
        proof {
            assert(rest[0] == all[i as int]);
            assert(rest.drop_first() =~= all.skip(i + 1));
            lemma_written_twice(before, acc, first.bytes);
        }
        if must_type != get_type_by_value(v) {
            proof {
                assert(items_encoding(config@, must_type, all).bytes =~= acc);
            }
            return Err(RpError::from((ErrorKind::TypeNotMatchError, "must match type")));
        }
        match encode_field(buffer, config, v) {
            Ok(_) => {},
            Err(e) => {
                return Err(e);
            },
        }
        proof {
            let tail = items_encoding(config@, must_type, all.skip(i + 1));
            assert(acc + (first.bytes + tail.bytes) =~= (acc + first.bytes) + tail.bytes);
            acc = acc + first.bytes;
        }
        i += 1;
    }
    proof {
        assert(items_encoding(config@, must_type, all).bytes =~= acc);
    }
    Ok(())
}

/// Writes a value as a field: the header with index 0 and the code of the
/// value's type, then the payload.
///
/// Fails, with a type that does not match, at the first element of an array
/// that is not of the array's element type; the bytes up to that element
/// have then been written.
pub fn encode_field(buffer: &mut Buffer, config: &Config, value: &Value) -> (r: RpResult<()>)
    requires
        old(buffer)@.wf(),
    ensures
        encoded_as(old(buffer)@, final(buffer)@, r, field_encoding(config@, value@)),
        final(buffer)@.wf(),
    decreases value, 1nat,
{
    let code = get_type_by_value(value);
    let ghost head = header_bytes(0, code);
    let ghost body = payload_encoding(config@, value@);
    proof {
        lemma_name_code_round_trip(code);
        lemma_written_twice(old(buffer)@, head, body.bytes);
    }
    write_str_field(buffer, get_name_by_type(code))?;
    let ghost mid = buffer@;
    match value {
        Value::U8(_)
        | Value::I8(_)
        | Value::U16(_)
        | Value::I16(_)
        | Value::U32(_)
        | Value::I32(_)
        | Value::Float(_) => {
            encode_number(buffer, value)?;
            proof {
                lemma_written(mid, body.bytes);
            }
        },
        Value::Str(_) | Value::Raw(_) => {
            encode_str_raw(buffer, value)?;
            proof {
                lemma_written(mid, body.bytes);
            }
        },
        Value::Dict(_) => {
            match encode_map(buffer, config, value) {
                Ok(_) => {},
                Err(e) => {
                    return Err(e);
                },
            }
        },
        Value::Nil => {
            proof {
                lemma_written(mid, body.bytes);
            }
        },
        Value::AU8(val)
        | Value::AI8(val)
        | Value::AU16(val)
        | Value::AI16(val)
        | Value::AU32(val)
        | Value::AI32(val)
        | Value::AFloat(val)
        | Value::AStr(val)
        | Value::ARaw(val)
        | Value::AMap(val) => {
            let must_type = get_array_contains_type(value);
            let ghost elems = items_encoding(config@, must_type, views_of(val@));
            match encode_items(buffer, config, must_type, val) {
                Ok(_) => {},
                Err(e) => {
                    return Err(e);
                },
            }
            proof {
                lemma_written_twice(mid, elems.bytes, marker_bytes());
                lemma_name_code_round_trip(TYPE_NIL);
            }
            write_str_field(buffer, STR_TYPE_NIL)?;
        },
    }
    Ok(())
}

/// Writes a message: its name as a text payload, each argument as a field,
/// then the marker.
///
/// Fails, and writes nothing, if the schema does not know the name (the
/// name is missing) or gives the message another number of arguments (a type
/// does not match). Fails like [`encode_field`] if an argument does.
pub fn encode_proto(buffer: &mut Buffer, config: &Config, name: &String, infos: Vec<Value>) -> (r:
    RpResult<()>)
    requires
        old(buffer)@.wf(),
    ensures
        final(buffer)@.wf(),
        !config@.protos.contains_key(name@) ==> final(buffer)@ == old(buffer)@ && (r matches Err(
            e,
        ) && e@.kind() == ErrorKind::MissingError),
        config@.protos.contains_key(name@) && config@.protos[name@].args.len() != infos@.len()
            ==> final(buffer)@ == old(buffer)@ && (r matches Err(e) && e@.kind()
            == ErrorKind::TypeNotMatchError),
        config@.protos.contains_key(name@) && config@.protos[name@].args.len() == infos@.len()
            ==> encoded_as(
            old(buffer)@,
            final(buffer)@,
            r,
            proto_encoding(config@, name@, views_of(infos@)),
        ),
{
    let proto = match config.get_proto_by_name(name) {
        Some(proto) => proto,
        None => {
            return Err(RpError::from((ErrorKind::MissingError, "missing the name protocol")));
        },
    };
    if proto.args.len() != infos.len() {
        return Err(
            RpError::from(
                (ErrorKind::TypeNotMatchError, "the data num not match protocol args num"),
            ),
        );
    }
    let ghost start = buffer@;
    let ghost title = text_bytes(ValueView::Str(name@));
    let ghost all = views_of(infos@);
    let ghost mut acc: Seq<u8> = Seq::empty();
    proof {
        lemma_written(start, title);
    }
    encode_str_raw(buffer, &Value::Str(name.clone()))?;
    let ghost before = buffer@;
    proof {
        lemma_views_of(infos@);
        lemma_written(before, acc);
        assert(all.skip(0) =~= all);
    }
    let mut i: usize = 0;
    while i < infos.len()
        invariant
            i <= infos@.len(),
            start.wf(),
            start == old(buffer)@,
            before.wf(),
            before == start.written(title),
            title == text_bytes(ValueView::Str(name@)),
            all == views_of(infos@),
            config@.protos.contains_key(name@),
            config@.protos[name@].args.len() == infos@.len(),
            all.len() == infos@.len(),
            forall|j: int| 0 <= j < all.len() ==> (#[trigger] all[j]) == infos@[j]@,
            buffer@ == before.written(acc),
            buffer@.wf(),
            args_encoding(config@, all).bytes == acc + args_encoding(
                config@,
                all.skip(i as int),
            ).bytes,
            args_encoding(config@, all).ok == args_encoding(config@, all.skip(i as int)).ok,
        decreases infos@.len() - i,
    {
        let info = &infos[i];
        let ghost rest = all.skip(i as int);
        let ghost first = field_encoding(config@, info@);
        proof {
            assert(rest[0] == all[i as int]);
            assert(rest.drop_first() =~= all.skip(i + 1));
            lemma_written_twice(before, acc, first.bytes);
        }
        match encode_field(buffer, config, info) {
            Ok(_) => {},
            Err(e) => {
                proof {
                    lemma_written_twice(start, title, acc + first.bytes);
                }
                return Err(e);
            },
        }
        proof {
            let tail = args_encoding(config@, all.skip(i + 1));
            assert(acc + (first.bytes + tail.bytes) =~= (acc + first.bytes) + tail.bytes);
            acc = acc + first.bytes;
        }
        i += 1;
    }
    proof {
        assert(args_encoding(config@, all).bytes =~= acc);
        lemma_written_twice(before, acc, marker_bytes());
        lemma_written_twice(start, title, acc + marker_bytes());
        lemma_name_code_round_trip(TYPE_NIL);
    }
    write_str_field(buffer, STR_TYPE_NIL)?;
    Ok(())
}

} // verus!
