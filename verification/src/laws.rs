//! What holds of the wire format.
//!
//! The decoder reads back what the encoder wrote: a value
//! ([`lemma_round_trip`], [`lemma_well_formed_round_trip`]), also through a
//! buffer ([`lemma_buffer_round_trip`]), and a message
//! ([`lemma_proto_round_trip`]).
//!
//! A decoder also reads what an encoder with another schema wrote
//! ([`lemma_field_decodes`]). It drops the entries of maps whose index it
//! does not know and loses nothing else
//! ([`lemma_unknown_index_skipped`], [`lemma_older_schema_keeps_known`]),
//! and it rejects a message that its schema does not know or gives another
//! number of arguments ([`lemma_proto_decodes`]).
//!
//! Neither the encoder nor the decoder lets an array pass that holds a value
//! of another type than its element type
//! ([`lemma_mixed_array_not_encoded`], [`lemma_mixed_array_not_decoded`]),
//! and whatever the decoder makes is well formed
//! ([`lemma_decoded_well_formed`]).
//!
//! The other lemmas are the steps to these.

use vstd::prelude::*;
use vstd::utf8::{encode_utf8, encode_utf8_decode_utf8, encode_utf8_valid_utf8};
use crate::buffer::BufferView;
use crate::config::ConfigView;
use crate::dict::{distinct_names, lemma_inserted, lemma_position, lemma_position_is, position};
use crate::error::ErrorKind;
use crate::registry::{
    is_array_code, is_type_code, known_code, TYPE_MAP, TYPE_NIL, TYPE_STEP, TYPE_U8,
};
use crate::values::ValueView;
use crate::wire::{
    args_at, args_encoding, bytes_at, counted_at, counted_bytes, Decoded, entries_at,
    entries_encoding, entry_encoding, entry_stored, field_at, field_encoding, header_at,
    header_bytes, i16_bits, i16_of, i32_bits, i32_of, i8_bits, i8_of, is_marker, items_at,
    items_encoding, lemma_field_at_bounds, marker_bytes, number_at, number_bytes, number_width,
    payload_at, payload_encoding, proto_at, proto_encoding, text_at, text_bytes, u16_bytes, u16_of,
    u32_bytes, u32_of,
};

verus! {

/// Packing an unsigned 16-bit integer into bytes and unpacking the bytes
/// gives the integer.
pub proof fn lemma_u16_round_trip(x: u16)
    ensures
        u16_bytes(x).len() == 2,
        u16_of(u16_bytes(x)) == x,
{
}

/// Packing an unsigned 32-bit integer into bytes and unpacking the bytes
/// gives the integer.
pub proof fn lemma_u32_round_trip(x: u32)
    ensures
        u32_bytes(x).len() == 4,
        u32_of(u32_bytes(x)) == x,
{
}

/// Two's complement loses nothing: the signed integer that the bits of a
/// signed integer hold is that integer.
pub proof fn lemma_signed_round_trip(a: i8, b: i16, c: i32)
    ensures
        i8_of(i8_bits(a)) == a,
        i16_of(i16_bits(b)) == b,
        i32_of(i32_bits(c)) == c,
{
}

/// The bytes `bytes` stand in `s` at `pos`.
pub open spec fn holds(s: Seq<u8>, pos: nat, bytes: Seq<u8>) -> bool {
    pos + bytes.len() <= s.len() && s.subrange(pos as int, (pos + bytes.len()) as int) == bytes
}

/// Two runs of bytes stand one behind the other exactly if their join stands
/// where the first begins.
pub proof fn lemma_holds_join(s: Seq<u8>, pos: nat, a: Seq<u8>, b: Seq<u8>)
    ensures
        holds(s, pos, a + b) <==> holds(s, pos, a) && holds(s, pos + a.len(), b),
{
    if pos + a.len() + b.len() <= s.len() {
        let whole = s.subrange(pos as int, (pos + (a + b).len()) as int);
        let front = s.subrange(pos as int, (pos + a.len()) as int);
        let back = s.subrange((pos + a.len()) as int, (pos + a.len() + b.len()) as int);
        assert(whole =~= front + back);
        if whole == a + b {
            assert(front =~= (a + b).subrange(0, a.len() as int));
            assert((a + b).subrange(0, a.len() as int) =~= a);
            assert(back =~= (a + b).subrange(a.len() as int, (a + b).len() as int));
            assert((a + b).subrange(a.len() as int, (a + b).len() as int) =~= b);
        }
    }
}

/// Reading the bytes that stand at `pos` gives them and stops behind them.
pub proof fn lemma_bytes_at(s: Seq<u8>, pos: nat, bytes: Seq<u8>)
    requires
        holds(s, pos, bytes),
    ensures
        bytes_at(s, pos, bytes.len()) == (Decoded { pos: pos + bytes.len(), res: Ok(bytes) }),
{
}

/// A header that was written is read back.
pub proof fn lemma_header_round_trip(s: Seq<u8>, pos: nat, index: u16, code: u16)
    requires
        holds(s, pos, header_bytes(index, code)),
    ensures
        header_at(s, pos) == (Decoded { pos: pos + 4, res: Ok((index, code)) }),
{
    lemma_holds_join(s, pos, u16_bytes(index), u16_bytes(code));
    lemma_bytes_at(s, pos, u16_bytes(index));
    lemma_bytes_at(s, pos + 2, u16_bytes(code));
    lemma_u16_round_trip(index);
    lemma_u16_round_trip(code);
}

/// The payload of a number that was written is read back.
pub proof fn lemma_number_round_trip(s: Seq<u8>, pos: nat, v: ValueView)
    requires
        v.is_number(),
        holds(s, pos, number_bytes(v)),
    ensures
        number_at(s, pos, v.type_code()) == (Decoded {
            pos: pos + number_bytes(v).len(),
            res: Ok(v),
        }),
        number_bytes(v).len() == number_width(v.type_code()),
{
    let bytes = number_bytes(v);
    lemma_bytes_at(s, pos, bytes);
    match v {
        ValueView::I8(x) => {
            lemma_signed_round_trip(x, 0, 0);
        },
        ValueView::U16(x) => {
            lemma_u16_round_trip(x);
        },
        ValueView::I16(x) => {
            lemma_u16_round_trip(i16_bits(x));
            lemma_signed_round_trip(0, x, 0);
        },
        ValueView::U32(x) => {
            lemma_u32_round_trip(x);
        },
        ValueView::I32(x) => {
            lemma_u32_round_trip(i32_bits(x));
            lemma_signed_round_trip(0, 0, x);
        },
        ValueView::Float(x) => {
            lemma_u32_round_trip(i32_bits(x));
            lemma_signed_round_trip(0, 0, x);
        },
        _ => {},
    }
}

/// A run of at most 65535 bytes that was written behind its length is read
/// back.
pub proof fn lemma_counted_round_trip(s: Seq<u8>, pos: nat, body: Seq<u8>)
    requires
        body.len() <= 65535,
        holds(s, pos, counted_bytes(body)),
    ensures
        counted_at(s, pos) == (Decoded { pos: pos + 2 + body.len(), res: Ok(body) }),
{
    let count = u16_bytes((body.len() % 65536) as u16);
    lemma_holds_join(s, pos, count, body);
    lemma_bytes_at(s, pos, count);
    lemma_bytes_at(s, pos + 2, body);
    lemma_u16_round_trip(body.len() as u16);
}

/// Whether the payload of a text or of raw bytes can carry its length.
pub open spec fn text_fits(v: ValueView) -> bool {
    match v {
        ValueView::Str(chars) => encode_utf8(chars).len() <= 65535,
        ValueView::Raw(bytes) => bytes.len() <= 65535,
        _ => true,
    }
}

/// The payload of a text or of raw bytes that was written is read back, if
/// it is at most 65535 bytes long.
pub proof fn lemma_text_round_trip(s: Seq<u8>, pos: nat, v: ValueView)
    requires
        v is Str || v is Raw,
        text_fits(v),
        holds(s, pos, text_bytes(v)),
    ensures
        text_at(s, pos, v.type_code()) == (Decoded {
            pos: pos + text_bytes(v).len(),
            res: Ok(v),
        }),
{
    match v {
        ValueView::Str(chars) => {
            lemma_counted_round_trip(s, pos, encode_utf8(chars));
            encode_utf8_valid_utf8(chars);
            encode_utf8_decode_utf8(chars);
        },
        ValueView::Raw(bytes) => {
            lemma_counted_round_trip(s, pos, bytes);
        },
        _ => {},
    }
}

/// Whether a value can be written so that it can be read back: every text
/// and every run of raw bytes in it can carry its length, every array holds
/// only values of its element type, which is one of the ten scalar, text,
/// raw and map types, and no entry of a map is written with a header that
/// looks like the marker.
pub open spec fn sound(cfg: ConfigView, v: ValueView) -> bool
    decreases v,
{
    match v {
        ValueView::Str(_) | ValueView::Raw(_) => text_fits(v),
        ValueView::Dict(entries) => forall|i: int|
            0 <= i < entries.len() ==> {
                &&& (cfg.header_of((#[trigger] entries[i]).0) matches Some(header) ==> !is_marker(
                    header,
                ))
                &&& sound(cfg, entries[i].1)
            },
        ValueView::Array(element, items) => {
            &&& TYPE_U8 <= element <= TYPE_MAP
            &&& forall|i: int|
                0 <= i < items.len() ==> (#[trigger] items[i]).type_code() == element && sound(
                    cfg,
                    items[i],
                )
        },
        _ => true,
    }
}

/// What a decoder with the schema `dec` makes of a value that an encoder
/// with the schema `enc` wrote: the value itself, but for the maps in it.
pub open spec fn kept(enc: ConfigView, dec: ConfigView, v: ValueView) -> ValueView
    decreases v, 1nat,
{
    match v {
        ValueView::Dict(entries) => ValueView::Dict(
            kept_entries(enc, dec, entries, Seq::empty()),
        ),
        ValueView::Array(element, items) => ValueView::Array(
            element,
            kept_items(enc, dec, items),
        ),
        _ => v,
    }
}

/// What the decoder makes of each element of an array.
pub open spec fn kept_items(enc: ConfigView, dec: ConfigView, items: Seq<ValueView>) -> Seq<
    ValueView,
>
    decreases items,
{
    if items.len() == 0 {
        Seq::empty()
    } else {
        seq![kept(enc, dec, items[0])] + kept_items(enc, dec, items.drop_first())
    }
}

/// What the decoder makes of the entries of a map, after the entries `acc`.
///
/// An entry whose name the encoder's schema does not know was not written.
/// One whose index the decoder's schema does not know is dropped. Any other
/// is stored under the name that the decoder's schema holds for the index.
pub open spec fn kept_entries(
    enc: ConfigView,
    dec: ConfigView,
    entries: Seq<(Seq<char>, ValueView)>,
    acc: Seq<(Seq<char>, ValueView)>,
) -> Seq<(Seq<char>, ValueView)>
    decreases entries,
{
    if entries.len() == 0 {
        acc
    } else {
        match enc.header_of(entries[0].0) {
            None => kept_entries(enc, dec, entries.drop_first(), acc),
            Some(header) => kept_entries(
                enc,
                dec,
                entries.drop_first(),
                entry_stored(dec, acc, header.0, kept(enc, dec, entries[0].1)),
            ),
        }
    }
}

/// What the decoder makes of a value has the value's type code, and is nil
/// only if the value is.
pub proof fn lemma_kept_type(enc: ConfigView, dec: ConfigView, v: ValueView)
    ensures
        kept(enc, dec, v).type_code() == v.type_code(),
        kept(enc, dec, v) is Nil <==> v is Nil,
{
}

/// The type code of a sound value is a type code of the wire format.
pub proof fn lemma_sound_type_code(cfg: ConfigView, v: ValueView)
    requires
        sound(cfg, v),
    ensures
        is_type_code(v.type_code()),
        v is Array ==> is_array_code(v.type_code()) && v->Array_0 == v.type_code() - TYPE_STEP,
        !(v is Array) ==> !is_array_code(v.type_code()),
{
}

/// The encoder comes to the end of a sound value.
pub proof fn lemma_sound_encodes(cfg: ConfigView, v: ValueView)
    requires
        sound(cfg, v),
    ensures
        field_encoding(cfg, v).ok,
        payload_encoding(cfg, v).ok,
        field_encoding(cfg, v).bytes.len() >= 4,
    decreases v, 1nat,
{
    match v {
        ValueView::Dict(entries) => {
            lemma_sound_entries_encode(cfg, entries);
        },
        ValueView::Array(element, items) => {
            lemma_sound_items_encode(cfg, element, items);
        },
        _ => {},
    }
    lemma_u16_round_trip(0);
    lemma_u16_round_trip(v.type_code());
}

/// The encoder comes to the end of the sound elements of an array.
pub proof fn lemma_sound_items_encode(cfg: ConfigView, element: u16, items: Seq<ValueView>)
    requires
        forall|i: int|
            0 <= i < items.len() ==> (#[trigger] items[i]).type_code() == element && sound(
                cfg,
                items[i],
            ),
    ensures
        items_encoding(cfg, element, items).ok,
    decreases items,
{
    if items.len() > 0 {
        lemma_sound_encodes(cfg, items[0]);
        let rest = items.drop_first();
        assert forall|i: int| 0 <= i < rest.len() implies (#[trigger] rest[i]).type_code()
            == element && sound(cfg, rest[i]) by {
            assert(rest[i] == items[i + 1]);
        }
        lemma_sound_items_encode(cfg, element, rest);
    }
}

/// The encoder comes to the end of the sound entries of a map.
pub proof fn lemma_sound_entries_encode(cfg: ConfigView, entries: Seq<(Seq<char>, ValueView)>)
    requires
        forall|i: int| 0 <= i < entries.len() ==> sound(cfg, (#[trigger] entries[i]).1),
    ensures
        entries_encoding(cfg, entries).ok,
    decreases entries,
{
    if entries.len() > 0 {
        lemma_sound_encodes(cfg, entries[0].1);
        assert(entry_encoding(cfg, entries[0].0, entries[0].1).ok);
        let rest = entries.drop_first();
        assert forall|i: int| 0 <= i < rest.len() implies sound(cfg, (#[trigger] rest[i]).1) by {
            assert(rest[i] == entries[i + 1]);
        }
        lemma_sound_entries_encode(cfg, rest);
    }
}

/// Decoding what was encoded: where the bytes that an encoder with the
/// schema `enc` wrote for a sound value stand, a decoder with the schema
/// `dec` finds what [`kept`] says, and stops behind them.
pub proof fn lemma_field_decodes(
    enc: ConfigView,
    dec: ConfigView,
    v: ValueView,
    s: Seq<u8>,
    pos: nat,
)
    requires
        sound(enc, v),
        holds(s, pos, field_encoding(enc, v).bytes),
    ensures
        field_encoding(enc, v).ok,
        field_at(dec, s, pos) == (Decoded {
            pos: pos + field_encoding(enc, v).bytes.len(),
            res: Ok(kept(enc, dec, v)),
        }),
    decreases v, 1nat,
{
    let head = header_bytes(0, v.type_code());
    let body = payload_encoding(enc, v);
    lemma_sound_encodes(enc, v);
    lemma_sound_type_code(enc, v);
    lemma_holds_join(s, pos, head, body.bytes);
    lemma_header_round_trip(s, pos, 0, v.type_code());
    lemma_payload_decodes(enc, dec, v, s, pos + 4);
}

/// See [`lemma_field_decodes`]: the same of a payload.
pub proof fn lemma_payload_decodes(
    enc: ConfigView,
    dec: ConfigView,
    v: ValueView,
    s: Seq<u8>,
    pos: nat,
)
    requires
        sound(enc, v),
        holds(s, pos, payload_encoding(enc, v).bytes),
    ensures
        payload_at(dec, s, pos, v.type_code()) == (Decoded {
            pos: pos + payload_encoding(enc, v).bytes.len(),
            res: Ok(kept(enc, dec, v)),
        }),
    decreases v, 0nat,
{
    lemma_sound_encodes(enc, v);
    lemma_sound_type_code(enc, v);
    match v {
        ValueView::Nil => {},
        ValueView::Str(_) | ValueView::Raw(_) => {
            lemma_text_round_trip(s, pos, v);
        },
        ValueView::Dict(entries) => {
            lemma_sound_entries_encode(enc, entries);
            lemma_entries_decode(enc, dec, entries, s, pos, Seq::empty());
        },
        ValueView::Array(element, items) => {
            lemma_sound_items_encode(enc, element, items);
            lemma_items_decode(enc, dec, element, items, s, pos, Seq::empty());
            assert(Seq::<ValueView>::empty() + kept_items(enc, dec, items) =~= kept_items(
                enc,
                dec,
                items,
            ));
        },
        _ => {
            lemma_number_round_trip(s, pos, v);
        },
    }
}

/// See [`lemma_field_decodes`]: the same of the elements of an array and
/// the marker behind them.
pub proof fn lemma_items_decode(
    enc: ConfigView,
    dec: ConfigView,
    element: u16,
    items: Seq<ValueView>,
    s: Seq<u8>,
    pos: nat,
    acc: Seq<ValueView>,
)
    requires
        TYPE_U8 <= element <= TYPE_MAP,
        forall|i: int|
            0 <= i < items.len() ==> (#[trigger] items[i]).type_code() == element && sound(
                enc,
                items[i],
            ),
        holds(s, pos, items_encoding(enc, element, items).bytes + marker_bytes()),
    ensures
        items_at(dec, s, pos, element, acc) == (Decoded {
            pos: pos + items_encoding(enc, element, items).bytes.len() + 4,
            res: Ok(acc + kept_items(enc, dec, items)),
        }),
    decreases items,
{
    lemma_u16_round_trip(0);
    if items.len() == 0 {
        assert(items_encoding(enc, element, items).bytes + marker_bytes() =~= marker_bytes());
        lemma_header_round_trip(s, pos, 0, TYPE_NIL);
        assert(acc + kept_items(enc, dec, items) =~= acc);
    } else {
        let first = field_encoding(enc, items[0]);
        let rest = items.drop_first();
        let tail = items_encoding(enc, element, rest);
        assert forall|i: int| 0 <= i < rest.len() implies (#[trigger] rest[i]).type_code()
            == element && sound(enc, rest[i]) by {
            assert(rest[i] == items[i + 1]);
        }
        lemma_sound_encodes(enc, items[0]);
        lemma_sound_items_encode(enc, element, rest);
        assert(items_encoding(enc, element, items).bytes + marker_bytes() =~= first.bytes + (
        tail.bytes + marker_bytes()));
        lemma_holds_join(s, pos, first.bytes, tail.bytes + marker_bytes());
        lemma_field_decodes(enc, dec, items[0], s, pos);
        let k = kept(enc, dec, items[0]);
        lemma_kept_type(enc, dec, items[0]);
        lemma_items_decode(enc, dec, element, rest, s, pos + first.bytes.len(), acc.push(k));
        assert(acc.push(k) + kept_items(enc, dec, rest) =~= acc + kept_items(enc, dec, items));
    }
}

/// See [`lemma_field_decodes`]: the same of the entries of a map and the
/// marker behind them.
pub proof fn lemma_entries_decode(
    enc: ConfigView,
    dec: ConfigView,
    entries: Seq<(Seq<char>, ValueView)>,
    s: Seq<u8>,
    pos: nat,
    acc: Seq<(Seq<char>, ValueView)>,
)
    requires
        forall|i: int|
            0 <= i < entries.len() ==> {
                &&& (enc.header_of((#[trigger] entries[i]).0) matches Some(header) ==> !is_marker(
                    header,
                ))
                &&& sound(enc, entries[i].1)
            },
        holds(s, pos, entries_encoding(enc, entries).bytes + marker_bytes()),
    ensures
        entries_at(dec, s, pos, acc) == (Decoded {
            pos: pos + entries_encoding(enc, entries).bytes.len() + 4,
            res: Ok(ValueView::Dict(kept_entries(enc, dec, entries, acc))),
        }),
    decreases entries,
{
    lemma_u16_round_trip(0);
    if entries.len() == 0 {
        assert(entries_encoding(enc, entries).bytes + marker_bytes() =~= marker_bytes());
        lemma_header_round_trip(s, pos, 0, TYPE_NIL);
    } else {
        let rest = entries.drop_first();
        let tail = entries_encoding(enc, rest);
        let first = entry_encoding(enc, entries[0].0, entries[0].1);
        assert forall|i: int| 0 <= i < rest.len() implies {
            &&& (enc.header_of((#[trigger] rest[i]).0) matches Some(header) ==> !is_marker(header))
            &&& sound(enc, rest[i].1)
        } by {
            assert(rest[i] == entries[i + 1]);
        }
        assert(sound(enc, entries[0].1));
        lemma_sound_encodes(enc, entries[0].1);
        lemma_sound_entries_encode(enc, rest);
        assert(entries_encoding(enc, entries).bytes + marker_bytes() =~= first.bytes + (
        tail.bytes + marker_bytes()));
        lemma_holds_join(s, pos, first.bytes, tail.bytes + marker_bytes());
        match enc.header_of(entries[0].0) {
            None => {
                lemma_entries_decode(enc, dec, rest, s, pos, acc);
            },
            Some(header) => {
                let head = header_bytes(header.0, header.1);
                let sub = field_encoding(enc, entries[0].1);
                assert(first.bytes =~= head + sub.bytes);
                lemma_holds_join(s, pos, head, sub.bytes);
                lemma_header_round_trip(s, pos, header.0, header.1);
                lemma_field_decodes(enc, dec, entries[0].1, s, pos + 4);
                let stored = entry_stored(dec, acc, header.0, kept(enc, dec, entries[0].1));
                lemma_entries_decode(enc, dec, rest, s, pos + first.bytes.len(), stored);
            },
        }
    }
}

/// Whether a decoder with the schema `cfg` can tell every entry of every map
/// in the value: no map holds a name twice, and the schema knows every name
/// and is led back to it by the index of its field.
pub open spec fn faithful(cfg: ConfigView, v: ValueView) -> bool
    decreases v,
{
    match v {
        ValueView::Dict(entries) => {
            &&& distinct_names(entries)
            &&& forall|i: int|
                0 <= i < entries.len() ==> cfg.leads_back((#[trigger] entries[i]).0) && faithful(
                    cfg,
                    entries[i].1,
                )
        },
        ValueView::Array(_, items) => forall|i: int|
            0 <= i < items.len() ==> faithful(cfg, #[trigger] items[i]),
        _ => true,
    }
}

/// Whether a value holds no map, however deep.
pub open spec fn plain(v: ValueView) -> bool
    decreases v,
{
    match v {
        ValueView::Dict(_) => false,
        ValueView::Array(_, items) => forall|i: int|
            0 <= i < items.len() ==> plain(#[trigger] items[i]),
        _ => true,
    }
}

/// A value without maps asks nothing of the schema: whether it is sound does
/// not depend on the schema, and a decoder with any schema can tell it.
pub proof fn lemma_plain(cfg: ConfigView, other: ConfigView, v: ValueView)
    requires
        plain(v),
    ensures
        faithful(cfg, v),
        sound(cfg, v) == sound(other, v),
    decreases v,
{
    match v {
        ValueView::Array(element, items) => {
            assert forall|i: int| 0 <= i < items.len() implies faithful(cfg, #[trigger] items[i])
                && sound(cfg, items[i]) == sound(other, items[i]) by {
                lemma_plain(cfg, other, items[i]);
            }
        },
        _ => {},
    }
}

/// The decoder makes of a faithful value the value itself.
pub proof fn lemma_kept_faithful(cfg: ConfigView, v: ValueView)
    requires
        faithful(cfg, v),
    ensures
        kept(cfg, cfg, v) == v,
    decreases v, 1nat,
{
    match v {
        ValueView::Dict(entries) => {
            assert(Seq::<(Seq<char>, ValueView)>::empty() + entries =~= entries);
            lemma_kept_entries_faithful(cfg, entries, Seq::empty());
        },
        ValueView::Array(_, items) => {
            lemma_kept_items_faithful(cfg, items);
        },
        _ => {},
    }
}

/// See [`lemma_kept_faithful`]: the same of the elements of an array.
pub proof fn lemma_kept_items_faithful(cfg: ConfigView, items: Seq<ValueView>)
    requires
        forall|i: int| 0 <= i < items.len() ==> faithful(cfg, #[trigger] items[i]),
    ensures
        kept_items(cfg, cfg, items) == items,
    decreases items,
{
    if items.len() > 0 {
        let rest = items.drop_first();
        assert forall|i: int| 0 <= i < rest.len() implies faithful(cfg, #[trigger] rest[i]) by {
            assert(rest[i] == items[i + 1]);
        }
        lemma_kept_faithful(cfg, items[0]);
        lemma_kept_items_faithful(cfg, rest);
        assert(seq![items[0]] + rest =~= items);
    } else {
        assert(kept_items(cfg, cfg, items) =~= items);
    }
}

/// See [`lemma_kept_faithful`]: the same of the entries of a map that come
/// after the entries `acc`.
pub proof fn lemma_kept_entries_faithful(
    cfg: ConfigView,
    entries: Seq<(Seq<char>, ValueView)>,
    acc: Seq<(Seq<char>, ValueView)>,
)
    requires
        distinct_names(acc + entries),
        forall|i: int|
            0 <= i < entries.len() ==> cfg.leads_back((#[trigger] entries[i]).0) && faithful(
                cfg,
                entries[i].1,
            ),
    ensures
        kept_entries(cfg, cfg, entries, acc) == acc + entries,
    decreases entries,
{
    if entries.len() > 0 {
        let rest = entries.drop_first();
        let first = entries[0];
        let all = acc + entries;
        assert forall|i: int| 0 <= i < rest.len() implies cfg.leads_back((#[trigger] rest[i]).0)
            && faithful(cfg, rest[i].1) by {
            assert(rest[i] == entries[i + 1]);
        }
        assert(cfg.leads_back(first.0));
        lemma_kept_faithful(cfg, first.1);
        assert forall|j: int| 0 <= j < acc.len() implies (#[trigger] acc[j]).0 != first.0 by {
            assert(all[j] == acc[j]);
            assert(all[acc.len() as int] == first);
        }
        lemma_position_is(acc, first.0, acc.len() as int);
        let stored = entry_stored(cfg, acc, cfg.fields[first.0].index, first.1);
        assert(stored == acc.push(first));
        assert(stored + rest =~= all);
        lemma_kept_entries_faithful(cfg, rest, stored);
    } else {
        assert(acc + entries =~= acc);
    }
}

/// Where the bytes that the encoder wrote for a value stand, the
/// decoder finds the value and stops behind them, under the same schema.
///
/// The value must be sound and faithful. A value without maps is faithful
/// under every schema ([`lemma_plain`]), and is sound unless a text or a run
/// of raw bytes in it is longer than 65535 bytes or an array in it holds a
/// value that is not of its element type.
pub proof fn lemma_round_trip(cfg: ConfigView, v: ValueView, s: Seq<u8>, pos: nat)
    requires
        sound(cfg, v),
        faithful(cfg, v),
        holds(s, pos, field_encoding(cfg, v).bytes),
    ensures
        field_encoding(cfg, v).ok,
        field_at(cfg, s, pos) == (Decoded {
            pos: pos + field_encoding(cfg, v).bytes.len(),
            res: Ok(v),
        }),
{
    lemma_field_decodes(cfg, cfg, v, s, pos);
    lemma_kept_faithful(cfg, v);
}

/// Through a buffer: after the encoder has written a sound and
/// faithful value to a buffer, a decoder that starts where the write began
/// finds the value and stops at the write cursor.
pub proof fn lemma_buffer_round_trip(b: BufferView, cfg: ConfigView, v: ValueView)
    requires
        b.wf(),
        sound(cfg, v),
        faithful(cfg, v),
    ensures
        ({
            let after = b.written(field_encoding(cfg, v).bytes);
            field_at(cfg, after.readable(), b.wpos) == (Decoded { pos: after.wpos, res: Ok(v) })
        }),
{
    let bytes = field_encoding(cfg, v).bytes;
    lemma_written_holds(b, bytes);
    lemma_round_trip(cfg, v, b.written(bytes).readable(), b.wpos);
}

/// What was written to a buffer stands, among the bytes that a reader may
/// see, where the write cursor was.
pub proof fn lemma_written_holds(b: BufferView, bytes: Seq<u8>)
    requires
        b.wf(),
    ensures
        holds(b.written(bytes).readable(), b.wpos, bytes),
{
    let after = b.written(bytes);
    assert(after.readable().subrange(b.wpos as int, (b.wpos + bytes.len()) as int) =~= bytes);
}

/// An entry of a map whose index the schema does not
/// know is read to its end and dropped. The decoder goes on behind it with
/// the entries it had.
pub proof fn lemma_unknown_index_skipped(
    cfg: ConfigView,
    s: Seq<u8>,
    pos: nat,
    acc: Seq<(Seq<char>, ValueView)>,
)
    requires
        pos <= s.len(),
        header_at(s, pos).res matches Ok(header) && !is_marker(header) && !cfg.names.contains_key(
            header.0,
        ),
        field_at(cfg, s, pos + 4).res is Ok,
    ensures
        entries_at(cfg, s, pos, acc) == entries_at(cfg, s, field_at(cfg, s, pos + 4).pos, acc),
{
    lemma_field_at_bounds(cfg, s, pos + 4);
}

/// Whether two schemas agree on a name: the encoder's schema knows it, and
/// if the decoder's schema knows the index that the encoder writes for it,
/// that index leads the decoder to the same name.
pub open spec fn agree_on(enc: ConfigView, dec: ConfigView, name: Seq<char>) -> bool {
    &&& enc.fields.contains_key(name)
    &&& dec.names.contains_key(enc.fields[name].index) ==> dec.names[enc.fields[name].index]
        == name
}

/// Of a map that an encoder with the
/// schema `enc` wrote, a decoder with the schema `dec` keeps the entries
/// whose index it knows, in their order, and drops the others, if the two
/// schemas agree on the names of the map and the map holds no name twice.
pub proof fn lemma_older_schema_keeps_known(
    enc: ConfigView,
    dec: ConfigView,
    entries: Seq<(Seq<char>, ValueView)>,
    acc: Seq<(Seq<char>, ValueView)>,
)
    requires
        distinct_names(acc + entries),
        forall|i: int| 0 <= i < entries.len() ==> agree_on(enc, dec, (#[trigger] entries[i]).0),
    ensures
        kept_entries(enc, dec, entries, acc) == acc + known_entries(enc, dec, entries),
    decreases entries,
{
    if entries.len() > 0 {
        let rest = entries.drop_first();
        let first = entries[0];
        let all = acc + entries;
        let index = enc.fields[first.0].index;
        assert forall|i: int| 0 <= i < rest.len() implies agree_on(
            enc,
            dec,
            (#[trigger] rest[i]).0,
        ) by {
            assert(rest[i] == entries[i + 1]);
        }
        assert(agree_on(enc, dec, first.0));
        if dec.names.contains_key(index) {
            let k = kept(enc, dec, first.1);
            assert forall|j: int| 0 <= j < acc.len() implies (#[trigger] acc[j]).0 != first.0 by {
                assert(all[j] == acc[j]);
                assert(all[acc.len() as int] == first);
            }
            lemma_position_is(acc, first.0, acc.len() as int);
            let stored = entry_stored(dec, acc, index, k);
            assert(stored == acc.push((first.0, k)));
            assert forall|i: int, j: int| 0 <= i < j < (stored + rest).len() implies (
            #[trigger] (stored + rest)[i]).0 != (#[trigger] (stored + rest)[j]).0 by {
                assert((stored + rest)[i].0 == all[i].0);
                assert((stored + rest)[j].0 == all[j].0);
            }
            lemma_older_schema_keeps_known(enc, dec, rest, stored);
            assert(stored + known_entries(enc, dec, rest) =~= acc + known_entries(
                enc,
                dec,
                entries,
            ));
        } else {
            assert forall|i: int, j: int| 0 <= i < j < (acc + rest).len() implies (#[trigger] (acc
                + rest)[i]).0 != (#[trigger] (acc + rest)[j]).0 by {
                if i < acc.len() {
                    assert((acc + rest)[i] == all[i]);
                } else {
                    assert((acc + rest)[i] == all[i + 1]);
                }
                if j < acc.len() {
                    assert((acc + rest)[j] == all[j]);
                } else {
                    assert((acc + rest)[j] == all[j + 1]);
                }
            }
            lemma_older_schema_keeps_known(enc, dec, rest, acc);
        }
    } else {
        assert(acc + known_entries(enc, dec, entries) =~= acc);
    }
}

/// The entries of a map whose index the decoder's schema knows, each with
/// what the decoder makes of its value.
pub open spec fn known_entries(
    enc: ConfigView,
    dec: ConfigView,
    entries: Seq<(Seq<char>, ValueView)>,
) -> Seq<(Seq<char>, ValueView)>
    decreases entries.len(),
{
    if entries.len() == 0 {
        Seq::empty()
    } else if dec.names.contains_key(enc.fields[entries[0].0].index) {
        seq![(entries[0].0, kept(enc, dec, entries[0].1))] + known_entries(
            enc,
            dec,
            entries.drop_first(),
        )
    } else {
        known_entries(enc, dec, entries.drop_first())
    }
}

/// The encoder does not come to the end of an
/// array that holds a value whose type code is not the array's element code,
/// so that [`crate::encode::encode_field`] fails on it with a type that does
/// not match.
pub proof fn lemma_mixed_array_not_encoded(
    cfg: ConfigView,
    element: u16,
    items: Seq<ValueView>,
    i: int,
)
    requires
        0 <= i < items.len(),
        items[i].type_code() != element,
    ensures
        !items_encoding(cfg, element, items).ok,
        !payload_encoding(cfg, ValueView::Array(element, items)).ok,
        !field_encoding(cfg, ValueView::Array(element, items)).ok,
    decreases items.len(),
{
    if i > 0 {
        let rest = items.drop_first();
        assert(rest[i - 1] == items[i]);
        lemma_mixed_array_not_encoded(cfg, element, rest, i - 1);
    }
}

/// Where the fields of sound values
/// stand one behind the other, the last of which neither is nil nor has the
/// element code while all before it have, the decoder of an array fails with
/// a type that does not match.
pub proof fn lemma_mixed_array_not_decoded(
    enc: ConfigView,
    dec: ConfigView,
    element: u16,
    items: Seq<ValueView>,
    s: Seq<u8>,
    pos: nat,
    acc: Seq<ValueView>,
)
    requires
        items.len() > 0,
        forall|i: int| 0 <= i < items.len() ==> sound(enc, #[trigger] items[i]),
        forall|i: int| 0 <= i < items.len() - 1 ==> (#[trigger] items[i]).type_code() == element,
        items.last().type_code() != element,
        !(items.last() is Nil),
        TYPE_U8 <= element <= TYPE_MAP,
        holds(s, pos, args_encoding(enc, items).bytes),
    ensures
        items_at(dec, s, pos, element, acc).res == Err::<Seq<ValueView>, ErrorKind>(
            ErrorKind::TypeNotMatchError,
        ),
    decreases items.len(),
{
    let first = field_encoding(enc, items[0]);
    let rest = items.drop_first();
    let tail = args_encoding(enc, rest);
    lemma_sound_encodes(enc, items[0]);
    assert(args_encoding(enc, items).bytes =~= first.bytes + tail.bytes);
    lemma_holds_join(s, pos, first.bytes, tail.bytes);
    lemma_field_decodes(enc, dec, items[0], s, pos);
    lemma_kept_type(enc, dec, items[0]);
    if items.len() > 1 {
        assert forall|i: int| 0 <= i < rest.len() implies sound(enc, #[trigger] rest[i]) by {
            assert(rest[i] == items[i + 1]);
        }
        assert forall|i: int| 0 <= i < rest.len() - 1 implies (#[trigger] rest[i]).type_code()
            == element by {
            assert(rest[i] == items[i + 1]);
        }
        assert(rest.last() == items.last());
        assert(items[0].type_code() == element);
        lemma_mixed_array_not_decoded(
            enc,
            dec,
            element,
            rest,
            s,
            pos + first.bytes.len(),
            acc.push(kept(enc, dec, items[0])),
        );
    } else {
        assert(items[0] == items.last());
    }
}

/// See [`lemma_field_decodes`]: the same of the arguments of a message and
/// the marker behind them. No argument may be nil, for a nil ends them.
pub proof fn lemma_args_decode(
    enc: ConfigView,
    dec: ConfigView,
    args: Seq<ValueView>,
    s: Seq<u8>,
    pos: nat,
    acc: Seq<ValueView>,
)
    requires
        forall|i: int| 0 <= i < args.len() ==> sound(enc, #[trigger] args[i]) && !(args[i] is Nil),
        holds(s, pos, args_encoding(enc, args).bytes + marker_bytes()),
    ensures
        args_encoding(enc, args).ok,
        args_at(dec, s, pos, acc) == (Decoded {
            pos: pos + args_encoding(enc, args).bytes.len() + 4,
            res: Ok(acc + kept_items(enc, dec, args)),
        }),
    decreases args.len(),
{
    lemma_u16_round_trip(0);
    if args.len() == 0 {
        assert(args_encoding(enc, args).bytes + marker_bytes() =~= marker_bytes());
        lemma_header_round_trip(s, pos, 0, TYPE_NIL);
        assert(acc + kept_items(enc, dec, args) =~= acc);
    } else {
        let first = field_encoding(enc, args[0]);
        let rest = args.drop_first();
        let tail = args_encoding(enc, rest);
        assert forall|i: int| 0 <= i < rest.len() implies sound(enc, #[trigger] rest[i]) && !(
        rest[i] is Nil) by {
            assert(rest[i] == args[i + 1]);
        }
        lemma_sound_encodes(enc, args[0]);
        assert(args_encoding(enc, args).bytes + marker_bytes() =~= first.bytes + (tail.bytes
            + marker_bytes()));
        lemma_holds_join(s, pos, first.bytes, tail.bytes + marker_bytes());
        lemma_field_decodes(enc, dec, args[0], s, pos);
        let k = kept(enc, dec, args[0]);
        lemma_kept_type(enc, dec, args[0]);
        lemma_args_decode(enc, dec, rest, s, pos + first.bytes.len(), acc.push(k));
        assert(acc.push(k) + kept_items(enc, dec, rest) =~= acc + kept_items(enc, dec, args));
    }
}

/// `kept_items` keeps the number of elements.
pub proof fn lemma_kept_items_len(enc: ConfigView, dec: ConfigView, items: Seq<ValueView>)
    ensures
        kept_items(enc, dec, items).len() == items.len(),
    decreases items.len(),
{
    if items.len() > 0 {
        lemma_kept_items_len(enc, dec, items.drop_first());
    }
}

/// Where the bytes stand that an encoder wrote for a message
/// with sound arguments, none of them nil, and a name of at most 65535
/// bytes, a decoder stops behind them. It fails with a missing name if its
/// schema does not know the name, and with a type that does not match if its
/// schema gives the message another number of arguments. Else it finds the
/// name and what [`kept`] says of each argument.
pub proof fn lemma_proto_decodes(
    enc: ConfigView,
    dec: ConfigView,
    name: Seq<char>,
    args: Seq<ValueView>,
    s: Seq<u8>,
    pos: nat,
)
    requires
        encode_utf8(name).len() <= 65535,
        forall|i: int| 0 <= i < args.len() ==> sound(enc, #[trigger] args[i]) && !(args[i] is Nil),
        holds(s, pos, proto_encoding(enc, name, args).bytes),
    ensures
        proto_encoding(enc, name, args).ok,
        proto_at(dec, s, pos) == (Decoded {
            pos: pos + proto_encoding(enc, name, args).bytes.len(),
            res: if !dec.protos.contains_key(name) {
                Err(ErrorKind::MissingError)
            } else if dec.protos[name].args.len() != args.len() {
                Err(ErrorKind::TypeNotMatchError)
            } else {
                Ok((name, kept_items(enc, dec, args)))
            },
        }),
{
    let title = text_bytes(ValueView::Str(name));
    let body = args_encoding(enc, args);
    lemma_sound_args_encode(enc, args);
    assert(proto_encoding(enc, name, args).bytes =~= title + (body.bytes + marker_bytes()));
    lemma_holds_join(s, pos, title, body.bytes + marker_bytes());
    lemma_text_round_trip(s, pos, ValueView::Str(name));
    lemma_args_decode(enc, dec, args, s, pos + title.len(), Seq::empty());
    assert(Seq::<ValueView>::empty() + kept_items(enc, dec, args) =~= kept_items(enc, dec, args));
    lemma_kept_items_len(enc, dec, args);
}

/// The encoder comes to the end of sound arguments.
pub proof fn lemma_sound_args_encode(cfg: ConfigView, args: Seq<ValueView>)
    requires
        forall|i: int| 0 <= i < args.len() ==> sound(cfg, #[trigger] args[i]),
    ensures
        args_encoding(cfg, args).ok,
    decreases args.len(),
{
    if args.len() > 0 {
        lemma_sound_encodes(cfg, args[0]);
        let rest = args.drop_first();
        assert forall|i: int| 0 <= i < rest.len() implies sound(cfg, #[trigger] rest[i]) by {
            assert(rest[i] == args[i + 1]);
        }
        lemma_sound_args_encode(cfg, rest);
    }
}

/// Under the same schema, which knows the name and
/// gives the message as many arguments as it has, the decoder finds the name
/// and the arguments that the encoder wrote, if they are sound, faithful
/// and not nil and the name has at most 65535 bytes.
pub proof fn lemma_proto_round_trip(
    cfg: ConfigView,
    name: Seq<char>,
    args: Seq<ValueView>,
    s: Seq<u8>,
    pos: nat,
)
    requires
        cfg.protos.contains_key(name),
        cfg.protos[name].args.len() == args.len(),
        encode_utf8(name).len() <= 65535,
        forall|i: int|
            0 <= i < args.len() ==> sound(cfg, #[trigger] args[i]) && faithful(cfg, args[i]) && !(
            args[i] is Nil),
        holds(s, pos, proto_encoding(cfg, name, args).bytes),
    ensures
        proto_encoding(cfg, name, args).ok,
        proto_at(cfg, s, pos) == (Decoded {
            pos: pos + proto_encoding(cfg, name, args).bytes.len(),
            res: Ok((name, args)),
        }),
{
    lemma_proto_decodes(cfg, cfg, name, args, s, pos);
    lemma_kept_items_faithful(cfg, args);
}

/// What the decoder makes is well formed: a value that it found holds no
/// name twice in a map and no value in an array that is not of the array's
/// element type.
pub proof fn lemma_decoded_well_formed(cfg: ConfigView, s: Seq<u8>, pos: nat)
    requires
        pos <= s.len(),
    ensures
        field_at(cfg, s, pos).res matches Ok(v) ==> v.well_formed(),
    decreases s.len() - pos, 0nat,
{
    let h = header_at(s, pos);
    if let Ok(header) = h.res {
        lemma_payload_well_formed(cfg, s, h.pos, header.1);
    }
}

/// See [`lemma_decoded_well_formed`]: the same of a payload.
pub proof fn lemma_payload_well_formed(cfg: ConfigView, s: Seq<u8>, pos: nat, code: u16)
    requires
        pos <= s.len(),
    ensures
        payload_at(cfg, s, pos, known_code(code)).res matches Ok(v) ==> v.well_formed(),
    decreases s.len() - pos, 3nat,
{
    let code = known_code(code);
    if code == TYPE_MAP {
        lemma_entries_well_formed(cfg, s, pos, Seq::empty());
    } else if is_array_code(code) {
        lemma_items_well_formed(cfg, s, pos, (code - TYPE_STEP) as u16, Seq::empty());
    }
}

/// See [`lemma_decoded_well_formed`]: the same of a map, if the entries
/// found so far are well formed.
pub proof fn lemma_entries_well_formed(
    cfg: ConfigView,
    s: Seq<u8>,
    pos: nat,
    acc: Seq<(Seq<char>, ValueView)>,
)
    requires
        pos <= s.len(),
        ValueView::Dict(acc).well_formed(),
    ensures
        entries_at(cfg, s, pos, acc).res matches Ok(v) ==> v.well_formed(),
    decreases s.len() - pos, 2nat,
{
    let h = header_at(s, pos);
    if let Ok(header) = h.res {
        if !is_marker(header) {
            let f = field_at(cfg, s, h.pos);
            lemma_field_at_bounds(cfg, s, h.pos);
            lemma_decoded_well_formed(cfg, s, h.pos);
            if let Ok(v) = f.res {
                let stored = entry_stored(cfg, acc, header.0, v);
                if cfg.names.contains_key(header.0) {
                    let name = cfg.names[header.0];
                    lemma_inserted(acc, name, v);
                    lemma_position(acc, name);
                    assert forall|i: int| 0 <= i < stored.len() implies (
                    #[trigger] stored[i]).1.well_formed() by {
                        if i < acc.len() && i != position(acc, name) {
                            assert(stored[i] == acc[i]);
                        }
                    }
                }
                lemma_entries_well_formed(cfg, s, f.pos, stored);
            }
        }
    }
}

/// See [`lemma_decoded_well_formed`]: the same of the elements of an array,
/// if those found so far are well formed and of the element type.
pub proof fn lemma_items_well_formed(
    cfg: ConfigView,
    s: Seq<u8>,
    pos: nat,
    element: u16,
    acc: Seq<ValueView>,
)
    requires
        pos <= s.len(),
        ValueView::Array(element, acc).well_formed(),
    ensures
        items_at(cfg, s, pos, element, acc).res matches Ok(found) ==> ValueView::Array(
            element,
            found,
        ).well_formed(),
    decreases s.len() - pos, 1nat,
{
    let f = field_at(cfg, s, pos);
    lemma_field_at_bounds(cfg, s, pos);
    lemma_decoded_well_formed(cfg, s, pos);
    let before = ValueView::Array(element, acc);
    assert(before.well_formed());
    assert(before matches ValueView::Array(e, items) && e == element && items == acc);
    if let Ok(v) = f.res {
        if !(v is Nil) && v.type_code() == element {
            let next = acc.push(v);
            assert forall|i: int| 0 <= i < next.len() implies (#[trigger] next[i]).type_code()
                == element && next[i].well_formed() by {
                if i < acc.len() {
                    assert(next[i] == acc[i]);
                    assert(acc[i].type_code() == element && acc[i].well_formed());
                } else {
                    assert(next[i] == v);
                }
            }
            lemma_items_well_formed(cfg, s, f.pos, element, next);
        }
    }
}

/// Whether every text and every run of raw bytes in a value can carry its
/// length: whether none is longer than 65535 bytes.
pub open spec fn fits(v: ValueView) -> bool
    decreases v,
{
    match v {
        ValueView::Str(_) | ValueView::Raw(_) => text_fits(v),
        ValueView::Dict(entries) => forall|i: int|
            0 <= i < entries.len() ==> fits((#[trigger] entries[i]).1),
        ValueView::Array(_, items) => forall|i: int|
            0 <= i < items.len() ==> fits(#[trigger] items[i]),
        _ => true,
    }
}

/// Whether the schema knows every name of every map in a value.
pub open spec fn known(cfg: ConfigView, v: ValueView) -> bool
    decreases v,
{
    match v {
        ValueView::Dict(entries) => forall|i: int|
            0 <= i < entries.len() ==> cfg.fields.contains_key((#[trigger] entries[i]).0)
                && known(cfg, entries[i].1),
        ValueView::Array(_, items) => forall|i: int|
            0 <= i < items.len() ==> known(cfg, #[trigger] items[i]),
        _ => true,
    }
}

/// Under a well-formed schema, a well-formed value whose texts fit and whose
/// names the schema knows is sound and faithful.
pub proof fn lemma_sound_and_faithful(cfg: ConfigView, v: ValueView)
    requires
        cfg.well_formed(),
        v.well_formed(),
        fits(v),
        known(cfg, v),
    ensures
        sound(cfg, v),
        faithful(cfg, v),
    decreases v,
{
    match v {
        ValueView::Dict(entries) => {
            assert forall|i: int| 0 <= i < entries.len() implies {
                &&& (cfg.header_of((#[trigger] entries[i]).0) matches Some(header) ==> !is_marker(
                    header,
                ))
                &&& sound(cfg, entries[i].1)
                &&& cfg.leads_back(entries[i].0)
                &&& faithful(cfg, entries[i].1)
            } by {
                assert(cfg.fields.contains_key(entries[i].0));
                lemma_sound_and_faithful(cfg, entries[i].1);
            }
        },
        ValueView::Array(_, items) => {
            assert forall|i: int| 0 <= i < items.len() implies sound(cfg, #[trigger] items[i])
                && faithful(cfg, items[i]) by {
                lemma_sound_and_faithful(cfg, items[i]);
            }
        },
        _ => {},
    }
}

/// In the terms of the data model: under a well-formed schema,
/// which [`crate::config::Config::is_well_formed`] tests, the decoder finds
/// every well-formed value whose texts fit and whose names the schema knows
/// where the encoder wrote it.
pub proof fn lemma_well_formed_round_trip(cfg: ConfigView, v: ValueView, s: Seq<u8>, pos: nat)
    requires
        cfg.well_formed(),
        v.well_formed(),
        fits(v),
        known(cfg, v),
        holds(s, pos, field_encoding(cfg, v).bytes),
    ensures
        field_encoding(cfg, v).ok,
        field_at(cfg, s, pos) == (Decoded {
            pos: pos + field_encoding(cfg, v).bytes.len(),
            res: Ok(v),
        }),
{
    lemma_sound_and_faithful(cfg, v);
    lemma_round_trip(cfg, v, s, pos);
}

} // verus!
