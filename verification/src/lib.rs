//! The Internet Printing Protocol wire format: the typed attribute model of a
//! request or response, and the codec between that model and its bytes.
//!
//! Every executable function carries a contract over the mathematical view of
//! the data it handles. Decoding is specified as a function of the bytes
//! alone, which gives the message or the first fault of the stream, and the
//! decoder is proved to compute it. The encoder and the decoder are proved to
//! be inverses of each other on well-formed messages.
//!
//! The model: [`value`] holds the values and attributes, [`attribute`] the
//! groups, [`header`] the header, [`request`] the message as a whole, with
//! [`operation`] for the codes it knows by name and [`payload`] for the
//! document data it carries along.
//!
//! The codec: [`wire`] and [`text`] deal with numbers and text as bytes,
//! [`token`] with the flat run of delimiters and records, [`grammar`] with
//! what such a run means, [`encoder`] and [`parser`] with writing and
//! reading, and [`roundtrip`] holds the laws that tie the two together.
//! [`wellformed`] shows that what decoding returns is well formed,
//! [`validate`] tells at run time whether a model is, [`reader`] hands a
//! message out as one stream of bytes, and [`buffer`] states what is taken
//! on trust of the byte buffers of the `bytes` crate.
pub mod attribute;
pub mod buffer;
pub mod encoder;
pub mod error;
pub mod grammar;
pub mod header;
pub mod operation;
pub mod parser;
pub mod payload;
pub mod reader;
pub mod request;
pub mod roundtrip;
pub mod tag;
pub mod text;
pub mod token;
pub mod validate;
pub mod value;
pub mod wellformed;
pub mod wire;
