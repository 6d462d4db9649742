//! Fixed values of the configuration document.

pub mod clash_constant;
