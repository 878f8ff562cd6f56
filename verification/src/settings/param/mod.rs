//! Parameters of an option. [`types`] and [`value`] hold the value grammars,
//! [`simple_param`] and [`multi_param`] the two kinds of parameter, [`arena`]
//! the parameters of one option side by side, and [`parser`] the pass over
//! the user's arguments.

pub mod arena;
pub mod error;
pub mod multi_param;
pub mod parser;
pub mod simple_param;
pub mod text;
pub mod types;
pub mod value;
