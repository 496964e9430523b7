//! Reading blocks of ASAM MDF (measurement data format) version 4 files.

pub mod mdf;
pub mod mdf4;
pub mod text;
