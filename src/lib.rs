//! Typed, transactional key-value state objects over a byte store.
//!
//! Keys and values are turned into bytes by a [`codec::Codec`]; a
//! [`typed_map::TypedMap`] files them under its namespace in the store that an
//! execution [`context::Context`] routes to; [`uint_map::UInt128Map`] layers
//! default-zero, overflow- and underflow-checked 128-bit counters on top.
#![allow(unused_imports)]

pub mod codec;
pub mod context;
pub mod error;
pub mod typed_map;
pub mod uint_map;
