//! zessionz: the first zoxide session picker, which names each directory's session so that
//! it differs from the sessions of the other directories listed.
pub mod item;
pub mod ui;
pub mod zoxide;

/// zessionz reads the same KDL configuration keys as seshmin.
pub use crate::seshmin::config;
