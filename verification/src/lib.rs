//! A schema-driven codec for a compact tag-length-value wire format, together
//! with the cursor-based byte buffer it reads and writes.
//!
//! - [`registry`]: the type names and type codes of the format.
//! - [`values`]: the tagged values that the format carries, and their model.
//! - [`dict`]: the dictionary that maps and schemas are made of.
//! - [`buffer`]: the byte store with its read cursor and its write cursor.
//! - [`config`]: the schema of fields and messages.
//! - [`wire`]: the format itself, as mathematics.
//! - [`encode`] and [`decode`]: the encoder and the decoder, each proved to
//!   do what [`wire`] says.
//! - [`laws`]: what holds of the format, first of all that the decoder reads
//!   back what the encoder wrote.
//! - [`error`]: the kinds of failure.
//! - [`text`]: comparing names.

pub mod text;
pub mod dict;
pub mod registry;
pub mod values;
pub mod error;
pub mod buffer;
pub mod config;
pub mod wire;
pub mod encode;
pub mod decode;
pub mod laws;

pub use buffer::{Buffer, BufferView};
pub use config::{Config, ConfigView, Field, FieldView, Proto, ProtoView};
pub use decode::{
    decode_field, decode_map, decode_number, decode_proto, decode_str_raw, read_field,
};
pub use dict::Dict;
pub use encode::{
    encode_field, encode_map, encode_number, encode_proto, encode_str_raw, write_field,
};
pub use error::{make_extension_error, ErrorKind, RpError, RpErrorView, RpResult};
pub use registry::{
    get_name_by_type, get_type_by_name, TYPE_STEP, TYPE_NIL, TYPE_U8, TYPE_I8, TYPE_U16,
    TYPE_I16, TYPE_U32, TYPE_I32, TYPE_FLOAT, TYPE_STR, TYPE_RAW, TYPE_MAP, TYPE_AU8, TYPE_AI8,
    TYPE_AU16, TYPE_AI16, TYPE_AU32, TYPE_AI32, TYPE_AFLOAT, TYPE_ASTR, TYPE_ARAW, TYPE_AMAP,
    STR_TYPE_NIL, STR_TYPE_U8, STR_TYPE_I8, STR_TYPE_U16, STR_TYPE_I16, STR_TYPE_U32,
    STR_TYPE_I32, STR_TYPE_FLOAT, STR_TYPE_STR, STR_TYPE_RAW, STR_TYPE_MAP, STR_TYPE_AU8,
    STR_TYPE_AI8, STR_TYPE_AU16, STR_TYPE_AI16, STR_TYPE_AU32, STR_TYPE_AI32, STR_TYPE_AFLOAT,
    STR_TYPE_ASTR, STR_TYPE_ARAW, STR_TYPE_AMAP,
};
pub use values::{get_array_contains_type, get_type_by_value, Value, ValueView};
