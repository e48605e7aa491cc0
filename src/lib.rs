//! Finds which processes hold open descriptors on GPU device nodes, and
//! names each GPU through the PCI vendor/device identity database.
//!
//! The library is pure: the caller reads sysfs, procfs and the identity
//! database, and hands their contents to the functions here.

pub mod correlate;
pub mod gpu;
pub mod process;
pub mod text;
