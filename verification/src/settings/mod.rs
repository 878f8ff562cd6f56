//! Options: in [`param`] the machinery, in [`option`] the options built with
//! it.

pub mod option;
pub mod param;
