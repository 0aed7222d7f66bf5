//! A verified core for a desktop display/audio profile switcher.
//!
//! A `Profile` bundles a monitor arrangement and an audio device selection
//! under a caller-chosen identifier.  The library keeps the collection of
//! profiles (`store`), renders it to and parses it back from its on-disk
//! JSON form (`codec`), turns raw enumeration results into device records
//! (`devices`), and computes the helper-process invocations that applying
//! a profile requires (`ops`).  All file, process and OS work is left to
//! the surrounding application.

pub mod model;
pub mod devices;
pub mod store;
pub mod text;
pub mod codec;
pub mod ops;
