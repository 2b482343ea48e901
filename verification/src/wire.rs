//! The wire format, as mathematics: which bytes stand for a value, and which
//! value a run of bytes stands for.
//!
//! Every integer is little-endian. A field is a header of four bytes, the
//! index and the type code as two unsigned 16-bit integers, followed by a
//! payload that depends on the type. The header with index 0 and the code of
//! nil ends a map, an array and a message.

use vstd::prelude::*;
use vstd::utf8::{decode_utf8, encode_utf8, valid_utf8};
use crate::config::ConfigView;
use crate::dict::inserted;
use crate::error::ErrorKind;
use crate::registry::{
    is_array_code, is_number_code, known_code, TYPE_I16, TYPE_I32, TYPE_I8, TYPE_MAP, TYPE_NIL,
    TYPE_RAW, TYPE_STEP, TYPE_STR, TYPE_U16, TYPE_U32, TYPE_U8,
};
use crate::values::ValueView;

verus! {

/// The two bytes of an unsigned 16-bit integer, low byte first.
pub open spec fn u16_bytes(x: u16) -> Seq<u8> {
    seq![(x % 256) as u8, (x / 256) as u8]
}

/// The four bytes of an unsigned 32-bit integer, low byte first.
pub open spec fn u32_bytes(x: u32) -> Seq<u8> {
    seq![
        (x % 256) as u8,
        (x / 256 % 256) as u8,
        (x / 65536 % 256) as u8,
        (x / 16777216) as u8,
    ]
}

/// The unsigned 16-bit integer whose two bytes, low byte first, begin `b`.
pub open spec fn u16_of(b: Seq<u8>) -> u16 {
    (b[0] + 256 * b[1]) as u16
}

/// The unsigned 32-bit integer whose four bytes, low byte first, begin `b`.
pub open spec fn u32_of(b: Seq<u8>) -> u32 {
    (b[0] + 256 * b[1] + 65536 * b[2] + 16777216 * b[3]) as u32
}

/// The byte that holds `x` in two's complement.
pub open spec fn i8_bits(x: i8) -> u8 {
    if x < 0 {
        (x + 256) as u8
    } else {
        x as u8
    }
}

/// The unsigned integer that holds `x` in two's complement.
pub open spec fn i16_bits(x: i16) -> u16 {
    if x < 0 {
        (x + 65536) as u16
    } else {
        x as u16
    }
}

/// The unsigned integer that holds `x` in two's complement.
pub open spec fn i32_bits(x: i32) -> u32 {
    if x < 0 {
        (x + 4294967296) as u32
    } else {
        x as u32
    }
}

/// The signed integer that `b` holds in two's complement.
pub open spec fn i8_of(b: u8) -> i8 {
    if b >= 128 {
        (b - 256) as i8
    } else {
        b as i8
    }
}

/// The signed integer that `b` holds in two's complement.
pub open spec fn i16_of(b: u16) -> i16 {
    if b >= 32768 {
        (b - 65536) as i16
    } else {
        b as i16
    }
}

/// The signed integer that `b` holds in two's complement.
pub open spec fn i32_of(b: u32) -> i32 {
    if b >= 2147483648 {
        (b - 4294967296) as i32
    } else {
        b as i32
    }
}

/// The header of a field: its index, then its type code.
pub open spec fn header_bytes(index: u16, code: u16) -> Seq<u8> {
    u16_bytes(index) + u16_bytes(code)
}

/// The marker that ends a map, an array and a message.
pub open spec fn marker_bytes() -> Seq<u8> {
    header_bytes(0, TYPE_NIL)
}

/// The payload of a number. The 8-bit kinds take a slot of two bytes, the
/// data byte and a zero; the others take their own width. A decimal number
/// is written like the 32-bit signed count of its thousandths.
pub open spec fn number_bytes(v: ValueView) -> Seq<u8> {
    match v {
        ValueView::U8(x) => seq![x, 0u8],
        ValueView::I8(x) => seq![i8_bits(x), 0u8],
        ValueView::U16(x) => u16_bytes(x),
        ValueView::I16(x) => u16_bytes(i16_bits(x)),
        ValueView::U32(x) => u32_bytes(x),
        ValueView::I32(x) => u32_bytes(i32_bits(x)),
        ValueView::Float(x) => u32_bytes(i32_bits(x)),
        _ => Seq::empty(),
    }
}

/// A run of bytes behind its length. The length is written as an unsigned
/// 16-bit integer, so of a longer run only the low 16 bits of the length are
/// written: such a run cannot be read back.
pub open spec fn counted_bytes(body: Seq<u8>) -> Seq<u8> {
    u16_bytes((body.len() % 65536) as u16) + body
}

/// The payload of a text (its UTF-8 bytes behind their number) or of raw
/// bytes (the bytes behind their number).
pub open spec fn text_bytes(v: ValueView) -> Seq<u8> {
    match v {
        ValueView::Str(chars) => counted_bytes(encode_utf8(chars)),
        ValueView::Raw(bytes) => counted_bytes(bytes),
        _ => Seq::empty(),
    }
}

/// What an encoder has written: the bytes, and whether it came to the end.
/// Where it did not, `bytes` are those written before it gave up.
pub struct Encoded {
    pub bytes: Seq<u8>,
    pub ok: bool,
}

impl Encoded {
    /// These bytes, then what `next` wrote.
    pub open spec fn followed_by(self, next: Encoded) -> Encoded {
        Encoded { bytes: self.bytes + next.bytes, ok: next.ok }
    }

    /// These bytes, then `more`, if the encoder came this far.
    pub open spec fn closed_by(self, more: Seq<u8>) -> Encoded {
        if self.ok {
            Encoded { bytes: self.bytes + more, ok: true }
        } else {
            self
        }
    }
}

/// The encoding of a value as a field: the header with index 0 and the
/// value's type code, then the payload.
pub open spec fn field_encoding(cfg: ConfigView, v: ValueView) -> Encoded
    decreases v, 1nat,
{
    (Encoded { bytes: header_bytes(0, v.type_code()), ok: true }).followed_by(
        payload_encoding(cfg, v),
    )
}

/// The payload of a value.
///
/// A map is written entry by entry and ended by the marker. An array is
/// written element by element, each as a field, and ended by the marker; the
/// encoder gives up at the first element that is not of the element type.
pub open spec fn payload_encoding(cfg: ConfigView, v: ValueView) -> Encoded
    decreases v, 0nat,
{
    match v {
        ValueView::Nil => Encoded { bytes: Seq::empty(), ok: true },
        ValueView::Str(_) | ValueView::Raw(_) => Encoded { bytes: text_bytes(v), ok: true },
        ValueView::Dict(entries) => entries_encoding(cfg, entries).closed_by(marker_bytes()),
        ValueView::Array(element, items) => items_encoding(cfg, element, items).closed_by(
            marker_bytes(),
        ),
        _ => Encoded { bytes: number_bytes(v), ok: true },
    }
}

/// The encoding of the elements of an array whose elements must carry the
/// code `element`, without the marker.
pub open spec fn items_encoding(cfg: ConfigView, element: u16, items: Seq<ValueView>) -> Encoded
    decreases items,
{
    if items.len() == 0 {
        Encoded { bytes: Seq::empty(), ok: true }
    } else if items[0].type_code() != element {
        Encoded { bytes: Seq::empty(), ok: false }
    } else {
        let first = field_encoding(cfg, items[0]);
        if first.ok {
            first.followed_by(items_encoding(cfg, element, items.drop_first()))
        } else {
            first
        }
    }
}

/// The encoding of one entry of a map: nothing, if the schema does not know
/// the name; else the header with the field's index and the code of the
/// field's type, then the value as a field.
pub open spec fn entry_encoding(cfg: ConfigView, name: Seq<char>, v: ValueView) -> Encoded
    decreases v, 2nat,
{
    match cfg.header_of(name) {
        None => Encoded { bytes: Seq::empty(), ok: true },
        Some((index, code)) => (Encoded { bytes: header_bytes(index, code), ok: true }).followed_by(
            field_encoding(cfg, v),
        ),
    }
}

/// The encoding of the entries of a map, in their order, without the marker.
pub open spec fn entries_encoding(cfg: ConfigView, entries: Seq<(Seq<char>, ValueView)>) -> Encoded
    decreases entries,
{
    if entries.len() == 0 {
        Encoded { bytes: Seq::empty(), ok: true }
    } else {
        let first = entry_encoding(cfg, entries[0].0, entries[0].1);
        if first.ok {
            first.followed_by(entries_encoding(cfg, entries.drop_first()))
        } else {
            first
        }
    }
}

/// The encoding of the arguments of a message, each as a field, without the
/// marker.
pub open spec fn args_encoding(cfg: ConfigView, args: Seq<ValueView>) -> Encoded
    decreases args.len(),
{
    if args.len() == 0 {
        Encoded { bytes: Seq::empty(), ok: true }
    } else {
        let first = field_encoding(cfg, args[0]);
        if first.ok {
            first.followed_by(args_encoding(cfg, args.drop_first()))
        } else {
            first
        }
    }
}

/// The encoding of a message whose name the schema knows and whose
/// arguments are as many as the schema says: the name as a text payload,
/// the arguments, the marker.
pub open spec fn proto_encoding(cfg: ConfigView, name: Seq<char>, args: Seq<ValueView>) -> Encoded {
    (Encoded { bytes: text_bytes(ValueView::Str(name)), ok: true }).followed_by(
        args_encoding(cfg, args).closed_by(marker_bytes()),
    )
}

/// Where a decoder stands after its work, and what it found.
pub struct Decoded<T> {
    /// The read cursor after the work.
    pub pos: nat,
    /// The value, or the kind of failure.
    pub res: Result<T, ErrorKind>,
}

/// Reading `n` bytes at `pos`. Where fewer are left, the read takes those
/// and fails.
pub open spec fn bytes_at(s: Seq<u8>, pos: nat, n: nat) -> Decoded<Seq<u8>> {
    if pos + n <= s.len() {
        Decoded { pos: pos + n, res: Ok(s.subrange(pos as int, (pos + n) as int)) }
    } else {
        Decoded { pos: s.len(), res: Err(ErrorKind::NoLeftSpaceError) }
    }
}

/// The number of bytes that the payload of a number with code `code` takes.
pub open spec fn number_width(code: u16) -> nat {
    if code == TYPE_U8 || code == TYPE_I8 || code == TYPE_U16 || code == TYPE_I16 {
        2
    } else {
        4
    }
}

/// The number that `b`, a payload of the right width, holds.
pub open spec fn number_of(code: u16, b: Seq<u8>) -> ValueView {
    if code == TYPE_U8 {
        ValueView::U8(b[0])
    } else if code == TYPE_I8 {
        ValueView::I8(i8_of(b[0]))
    } else if code == TYPE_U16 {
        ValueView::U16(u16_of(b))
    } else if code == TYPE_I16 {
        ValueView::I16(i16_of(u16_of(b)))
    } else if code == TYPE_U32 {
        ValueView::U32(u32_of(b))
    } else if code == TYPE_I32 {
        ValueView::I32(i32_of(u32_of(b)))
    } else {
        ValueView::Float(i32_of(u32_of(b)))
    }
}

/// Decoding the payload of a number with code `code` at `pos`.
pub open spec fn number_at(s: Seq<u8>, pos: nat, code: u16) -> Decoded<ValueView> {
    let b = bytes_at(s, pos, number_width(code));
    match b.res {
        Ok(bytes) => Decoded { pos: b.pos, res: Ok(number_of(code, bytes)) },
        Err(e) => Decoded { pos: b.pos, res: Err(e) },
    }
}

/// Decoding a run of bytes behind its length at `pos`.
pub open spec fn counted_at(s: Seq<u8>, pos: nat) -> Decoded<Seq<u8>> {
    let n = bytes_at(s, pos, 2);
    match n.res {
        Ok(bytes) => bytes_at(s, n.pos, u16_of(bytes) as nat),
        Err(e) => Decoded { pos: n.pos, res: Err(e) },
    }
}

/// Decoding the payload of a text (`code` is the code of text) or of raw
/// bytes at `pos`. A text must be valid UTF-8.
pub open spec fn text_at(s: Seq<u8>, pos: nat, code: u16) -> Decoded<ValueView> {
    let b = counted_at(s, pos);
    match b.res {
        Ok(bytes) => if code != TYPE_STR {
            Decoded { pos: b.pos, res: Ok(ValueView::Raw(bytes)) }
        } else if valid_utf8(bytes) {
            Decoded { pos: b.pos, res: Ok(ValueView::Str(decode_utf8(bytes))) }
        } else {
            Decoded { pos: b.pos, res: Err(ErrorKind::StringFormatError) }
        },
        Err(e) => Decoded { pos: b.pos, res: Err(e) },
    }
}

/// Decoding a header at `pos`: the index and the type code, each read on
/// its own.
pub open spec fn header_at(s: Seq<u8>, pos: nat) -> Decoded<(u16, u16)> {
    let index = bytes_at(s, pos, 2);
    match index.res {
        Ok(i) => {
            let code = bytes_at(s, index.pos, 2);
            match code.res {
                Ok(c) => Decoded { pos: code.pos, res: Ok((u16_of(i), u16_of(c))) },
                Err(e) => Decoded { pos: code.pos, res: Err(e) },
            }
        },
        Err(e) => Decoded { pos: index.pos, res: Err(e) },
    }
}

/// Whether a header is the marker: index 0 and a code that is nil or no
/// type code at all.
pub open spec fn is_marker(header: (u16, u16)) -> bool {
    header.0 == 0 && known_code(header.1) == TYPE_NIL
}

/// Decoding a field at `pos`: the header, then the payload that the header's
/// type code asks for. The header's index plays no part, and a code that is
/// no type code counts as nil.
pub open spec fn field_at(cfg: ConfigView, s: Seq<u8>, pos: nat) -> Decoded<ValueView>
    decreases s.len() - pos, 0nat,
{
    let h = header_at(s, pos);
    match h.res {
        Ok(header) => payload_at(cfg, s, h.pos, known_code(header.1)),
        Err(e) => Decoded { pos: h.pos, res: Err(e) },
    }
}

/// Decoding the payload of a value with type code `code` at `pos`.
pub open spec fn payload_at(cfg: ConfigView, s: Seq<u8>, pos: nat, code: u16) -> Decoded<ValueView>
    decreases s.len() - pos, 3nat,
{
    if is_number_code(code) {
        number_at(s, pos, code)
    } else if code == TYPE_STR || code == TYPE_RAW {
        text_at(s, pos, code)
    } else if code == TYPE_MAP {
        entries_at(cfg, s, pos, Seq::empty())
    } else if is_array_code(code) {
        let element = (code - TYPE_STEP) as u16;
        let items = items_at(cfg, s, pos, element, Seq::empty());
        match items.res {
            Ok(found) => Decoded { pos: items.pos, res: Ok(ValueView::Array(element, found)) },
            Err(e) => Decoded { pos: items.pos, res: Err(e) },
        }
    } else {
        Decoded { pos, res: Ok(ValueView::Nil) }
    }
}

/// Decoding the rest of a map at `pos`, after the entries `acc`.
///
/// Each entry is a header and a field. The field's value is stored under the
/// name that the header's index leads to, replacing an earlier value of that
/// name; where the index leads nowhere the value is dropped. The marker ends
/// the map.
pub open spec fn entries_at(
    cfg: ConfigView,
    s: Seq<u8>,
    pos: nat,
    acc: Seq<(Seq<char>, ValueView)>,
) -> Decoded<ValueView>
    decreases s.len() - pos, 2nat,
{
    let h = header_at(s, pos);
    match h.res {
        Ok(header) => if is_marker(header) {
            Decoded { pos: h.pos, res: Ok(ValueView::Dict(acc)) }
        } else {
            let f = field_at(cfg, s, h.pos);
            match f.res {
                Ok(v) => if pos < f.pos <= s.len() {
                    entries_at(cfg, s, f.pos, entry_stored(cfg, acc, header.0, v))
                } else {
                    // A field never ends before it began nor beyond the
                    // bytes; the bound makes the definition well-founded.
                    Decoded { pos: f.pos, res: Err(ErrorKind::NoLeftSpaceError) }
                },
                Err(e) => Decoded { pos: f.pos, res: Err(e) },
            }
        },
        Err(e) => Decoded { pos: h.pos, res: Err(e) },
    }
}

/// The entries of a map after a value has arrived under `index`.
pub open spec fn entry_stored(
    cfg: ConfigView,
    acc: Seq<(Seq<char>, ValueView)>,
    index: u16,
    v: ValueView,
) -> Seq<(Seq<char>, ValueView)> {
    if cfg.names.contains_key(index) {
        inserted(acc, cfg.names[index], v)
    } else {
        acc
    }
}

/// Decoding the rest of an array at `pos`, after the elements `acc`.
///
/// Each element is a field. A field that holds nil ends the array; any other
/// must carry the code `element`.
pub open spec fn items_at(
    cfg: ConfigView,
    s: Seq<u8>,
    pos: nat,
    element: u16,
    acc: Seq<ValueView>,
) -> Decoded<Seq<ValueView>>
    decreases s.len() - pos, 1nat,
{
    let f = field_at(cfg, s, pos);
    match f.res {
        Ok(v) => if v is Nil {
            Decoded { pos: f.pos, res: Ok(acc) }
        } else if v.type_code() != element {
            Decoded { pos: f.pos, res: Err(ErrorKind::TypeNotMatchError) }
        } else if pos < f.pos <= s.len() {
            items_at(cfg, s, f.pos, element, acc.push(v))
        } else {
            // As in `entries_at`: this bound always holds.
            Decoded { pos: f.pos, res: Err(ErrorKind::NoLeftSpaceError) }
        },
        Err(e) => Decoded { pos: f.pos, res: Err(e) },
    }
}

/// Decoding the rest of the arguments of a message at `pos`, after the
/// arguments `acc`. Each is a field; a field that holds nil ends them.
pub open spec fn args_at(cfg: ConfigView, s: Seq<u8>, pos: nat, acc: Seq<ValueView>) -> Decoded<
    Seq<ValueView>,
>
    decreases s.len() - pos,
{
    let f = field_at(cfg, s, pos);
    match f.res {
        Ok(v) => if v is Nil {
            Decoded { pos: f.pos, res: Ok(acc) }
        } else if pos < f.pos <= s.len() {
            args_at(cfg, s, f.pos, acc.push(v))
        } else {
            // As in `entries_at`: this bound always holds.
            Decoded { pos: f.pos, res: Err(ErrorKind::NoLeftSpaceError) }
        },
        Err(e) => Decoded { pos: f.pos, res: Err(e) },
    }
}

/// Decoding a message at `pos`: its name as a text payload, then its
/// arguments. The schema must know the name, and must give the message as
/// many arguments as were found.
pub open spec fn proto_at(cfg: ConfigView, s: Seq<u8>, pos: nat) -> Decoded<
    (Seq<char>, Seq<ValueView>),
> {
    let t = text_at(s, pos, TYPE_STR);
    match t.res {
        Ok(ValueView::Str(name)) => {
            let a = args_at(cfg, s, t.pos, Seq::empty());
            match a.res {
                Ok(args) => if !cfg.protos.contains_key(name) {
                    Decoded { pos: a.pos, res: Err(ErrorKind::MissingError) }
                } else if cfg.protos[name].args.len() != args.len() {
                    Decoded { pos: a.pos, res: Err(ErrorKind::TypeNotMatchError) }
                } else {
                    Decoded { pos: a.pos, res: Ok((name, args)) }
                },
                Err(e) => Decoded { pos: a.pos, res: Err(e) },
            }
        },
        Ok(_) => Decoded { pos: t.pos, res: Err(ErrorKind::StringFormatError) },
        Err(e) => Decoded { pos: t.pos, res: Err(e) },
    }
}

/// A decoder never moves the cursor back nor beyond the bytes, and a field
/// that was decoded spans at least its header.
pub proof fn lemma_field_at_bounds(cfg: ConfigView, s: Seq<u8>, pos: nat)
    requires
        pos <= s.len(),
    ensures
        pos <= field_at(cfg, s, pos).pos <= s.len(),
        field_at(cfg, s, pos).res is Ok ==> pos + 4 <= field_at(cfg, s, pos).pos,
    decreases s.len() - pos, 0nat,
{
    let h = header_at(s, pos);
    if let Ok(header) = h.res {
        lemma_payload_at_bounds(cfg, s, h.pos, known_code(header.1));
    }
}

/// See [`lemma_field_at_bounds`].
pub proof fn lemma_payload_at_bounds(cfg: ConfigView, s: Seq<u8>, pos: nat, code: u16)
    requires
        pos <= s.len(),
    ensures
        pos <= payload_at(cfg, s, pos, code).pos <= s.len(),
    decreases s.len() - pos, 3nat,
{
    if is_number_code(code) {
    } else if code == TYPE_STR || code == TYPE_RAW {
    } else if code == TYPE_MAP {
        lemma_entries_at_bounds(cfg, s, pos, Seq::empty());
    } else if is_array_code(code) {
        lemma_items_at_bounds(cfg, s, pos, (code - TYPE_STEP) as u16, Seq::empty());
    }
}

/// See [`lemma_field_at_bounds`].
pub proof fn lemma_entries_at_bounds(
    cfg: ConfigView,
    s: Seq<u8>,
    pos: nat,
    acc: Seq<(Seq<char>, ValueView)>,
)
    requires
        pos <= s.len(),
    ensures
        pos <= entries_at(cfg, s, pos, acc).pos <= s.len(),
    decreases s.len() - pos, 2nat,
{
    let h = header_at(s, pos);
    if let Ok(header) = h.res {
        if !is_marker(header) {
            let f = field_at(cfg, s, h.pos);
            lemma_field_at_bounds(cfg, s, h.pos);
            if let Ok(v) = f.res {
                lemma_entries_at_bounds(cfg, s, f.pos, entry_stored(cfg, acc, header.0, v));
            }
        }
    }
}

/// See [`lemma_field_at_bounds`].
pub proof fn lemma_items_at_bounds(
    cfg: ConfigView,
    s: Seq<u8>,
    pos: nat,
    element: u16,
    acc: Seq<ValueView>,
)
    requires
        pos <= s.len(),
    ensures
        pos <= items_at(cfg, s, pos, element, acc).pos <= s.len(),
    decreases s.len() - pos, 1nat,
{
    let f = field_at(cfg, s, pos);
    lemma_field_at_bounds(cfg, s, pos);
    if let Ok(v) = f.res {
        if !(v is Nil) && v.type_code() == element {
            lemma_items_at_bounds(cfg, s, f.pos, element, acc.push(v));
        }
    }
}

/// See [`lemma_field_at_bounds`].
pub proof fn lemma_args_at_bounds(cfg: ConfigView, s: Seq<u8>, pos: nat, acc: Seq<ValueView>)
    requires
        pos <= s.len(),
    ensures
        pos <= args_at(cfg, s, pos, acc).pos <= s.len(),
    decreases s.len() - pos,
{
    let f = field_at(cfg, s, pos);
    lemma_field_at_bounds(cfg, s, pos);
    if let Ok(v) = f.res {
        if !(v is Nil) {
            lemma_args_at_bounds(cfg, s, f.pos, acc.push(v));
        }
    }
}

} // verus!
