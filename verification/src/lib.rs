//! The verified core of a load generator for wide-column database clusters.
//!
//! [`settings`] turns the arguments that follow an option on the command line
//! into typed values: value grammars, leaf and compound parameters, and the
//! parser that picks the first group of parameters that fits what was given.
//! [`java_generate`] computes the token under which the cluster places a
//! partition key, from any number of writes of the key's bytes.

pub mod java_generate;
pub mod settings;
