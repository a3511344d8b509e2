//! An append-only, self-describing log of structured values.
//!
//! A value (booleans, small integers, tuples, structs) is written once as a
//! sequence of framed records. Writing it again over the same stream appends
//! only the records that changed, each behind a forwarding record that names
//! the position it replaces, so that every earlier version stays readable and
//! unchanged data is never written again. A pass of writing is committed by a
//! commit marker, which points back at the commit before it; the latest
//! commit is found by searching backwards from the end of the stream.
//!
//! # The stream
//!
//! Every record is a tag byte, the length of its payload as eight
//! little-endian bytes, and the payload:
//!
//! | tag | record | payload |
//! |----:|--------|---------|
//! | 1 | boolean | one byte, 0 or 1 |
//! | 2 | small integer | one byte |
//! | 3 | opening of a tuple | its length, eight little-endian bytes |
//! | 4 | marker before an element | none |
//! | 5 | closing of a tuple | none |
//! | 6 | opening of a struct | the number of fields, eight little-endian bytes, then the name |
//! | 7 | marker before a field | the name of the field |
//! | 8 | closing of a struct | none |
//! | 9 | forwarding record | three offsets |
//! | 10 | commit marker | the magic number as an offset, then two optional offsets |
//!
//! An offset inside a forwarding record or a commit marker is written as the
//! sixteen hexadecimal digits of its eight little-endian bytes; an optional
//! offset is a flag byte followed by an offset. Such records therefore always
//! take the same room, which is what allows room for a forwarding record to
//! be reserved first and filled in later.
//!
//! # The modules
//!
//! - [`fixed`], [`frame`], [`meta`], [`scmd`]: the records and their bytes.
//! - [`state`]: the byte store with its cursor.
//! - [`log`]: reading a slot through the forwarding records that replace what
//!   was first written there.
//! - [`session`]: the state of a write session as plain mathematics, and
//!   [`ser`], [`de`]: the encoder and the decoder, specified against it.
//! - [`laws`], [`recovery`]: what holds of streams, proved.

pub mod bytes;
pub mod de;
pub mod error;
pub mod fixed;
pub mod frame;
pub mod laws;
pub mod log;
pub mod meta;
pub mod recovery;
pub mod scmd;
pub mod ser;
pub mod session;
pub mod state;

pub use de::Deserializer;
pub use error::Error;
pub use ser::Serializer;
