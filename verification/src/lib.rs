//! Verified core of an OpenSSL provider toolkit: bounded digest output,
//! parameter cells and descriptor tables, dispatch-table construction and the
//! adapters that turn provider callbacks into digest operations.

#![allow(non_camel_case_types)]

pub mod bindings;
pub mod digest;
pub mod digests;
pub mod params;
pub mod provider;
pub mod shakes;
pub mod vtable;
