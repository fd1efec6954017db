//! A codec for ID3v2.4 tags, the metadata at the start of an MP3 file.
//!
//! A tag is cut from a file (`extract`), decoded into a model (`parse`,
//! `tag`), edited through setters for its well-known fields (`edit`), and
//! serialized again with an exact size field (`tag`). Sizes are stored as
//! synchsafe integers (`utility`). The functions work on byte buffers and
//! do no I/O.
//!
//! Every executable function carries a contract over the mathematical
//! value of its arguments: a `Seq<u8>` for a buffer, a `TagView` for a tag.
//! `laws` and `roundtrip` prove what relates the functions to each other.

pub mod edit;
pub mod error;
pub mod extract;
pub mod laws;
pub mod parse;
pub mod roundtrip;
pub mod tag;
pub mod utility;
