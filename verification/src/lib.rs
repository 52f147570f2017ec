//! Random password generation from configurable character pools.
//!
//! A [`config::Config`] selects which character categories (capital
//! letters, lowercase letters, special symbols, digits) may appear and the
//! target length. [`generator::generate`] builds a pool from the enabled
//! categories, shuffles it, truncates it, and retries until every enabled
//! category is represented in the result.

pub mod charset;
pub mod config;
pub mod generator;
