//! Build-time retry wrapping for test functions.
//!
//! The crate's logic has three parts: parsing the attribute's optional
//! `count` argument into a [`config::Configuration`], the execution model of
//! the generated retry loop in [`retry`], and the synthesis of the
//! replacement function's source text in [`codegen`].

pub mod codegen;
pub mod config;
pub mod retry;
