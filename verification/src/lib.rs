//! IES TM-25 ray files (`.TM25RAY`): header parser and writer, ray record
//! layouts, a zero-copy view over the ray block, the decisions of a
//! streaming reader, and subsampling, all over the raw little-endian bytes.
//!
//! TM-25 describes a light source as individual rays (start point in mm,
//! unit direction, flux) rather than an angular intensity table.
//!
//! Every `f32` of the format is carried as its IEEE-754 bit pattern
//! (`f32::to_bits`), so the header and the rays round-trip bit for bit.

pub mod bits;
pub mod cursor;
pub mod error;
pub mod farfield;
pub mod header;
pub mod le;
pub mod parse;
pub mod prefix;
pub mod ray;
pub mod reader;
pub mod record;
pub mod roundtrip;
pub mod sample;
pub mod text;
pub mod writer;

pub use error::{ErrorModel, Tm25Error};
pub use farfield::IntensityUnit;
pub use header::{
    columns_from_flags, Column, FluxKind, Header, KnownDataFlags, ParseOptions, SpectralId,
    SpectralTable, TextFields, FIXED_HEADER_SIZE, MAGIC, VERSION_2013,
};
pub use ray::{from_bevy, to_bevy, Ray, RayIter, RayLayout, RayView};
pub use reader::{header_step, HeaderStep, StreamDecoder, Tm25File, FIRST_HEADER_READ};
pub use sample::{subsample_indices, subsample_rays, ReservoirSlots, Rng64};
pub use writer::{encode_header, to_bytes};
