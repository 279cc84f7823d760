//! A library for simple binary network protocols: values are written to and
//! read from byte streams in a compact, self-delimiting binary representation.
use vstd::prelude::*;

pub mod buffered;
pub mod derived;
pub mod endian;
pub mod error;
pub mod impls;
pub mod laws;
pub mod length_prefixed;
pub mod nonempty;
pub mod protocol;
pub mod stream;
pub mod websocket;

pub use crate::buffered::{handle_stream_event, try_read_buffered, StreamEvent, StreamStep};
pub use crate::derived::{discriminant_width, read_discriminant, write_discriminant, write_via, DiscriminantWidth};
pub use crate::impls::basic::{read_bool, read_two_variants, write_variant_of_two, BoolReadError};
pub use crate::impls::btree::{read_btree_map, read_btree_set, write_btree_map, write_btree_set};
pub use crate::impls::bit_vec::{read_bit_vec, write_bit_vec, Bits};
pub use crate::impls::chrono_types::{read_date_time_fields, write_date_time_fields};
pub use crate::impls::decimal::{read_decimal, write_decimal, DecimalProxy};
pub use crate::impls::nbt_blob::{read_blob, write_blob};
pub use crate::impls::nonzero::{read_nonzero, NonzeroRepr};
pub use crate::impls::proxies::{read_duration, write_duration, DurationProxy, F32Proxy, F64Proxy};
pub use crate::error::{
    ErrorContext, IoErrorKind, ReadError, ReadErrorKind, WriteError, WriteErrorKind, WsCloseFrame,
    WsMessage,
};
pub use crate::impls::vec::{read_entries, write_entries, write_pair_entries};
pub use crate::length_prefixed::{read_len, write_len, LengthPrefixed};
pub use crate::nonempty::{
    read_nevec, read_nonempty_entries, write_nevec, NonEmptyVec, write_prefixed_entries, write_prefixed_pair_entries,
};
pub use crate::protocol::{Canonical, Protocol};
pub use crate::stream::Reader;
pub use crate::websocket::{
    read_warp_event, read_warp_message, read_ws_event, read_ws_message, write_ws_message, WarpStep, WsEvent,
};
