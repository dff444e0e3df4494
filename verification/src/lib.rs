//! Verified core of an Elder Scrolls Online addon manager: a BBCode
//! tokenizer and tree parser, the intermediate representation used to
//! render addon descriptions, text sanitizers and the pure bookkeeping
//! behind the addon views.

pub mod text;
pub mod bbcode;
pub mod lexer;
pub mod parser;
pub mod sexp;
pub mod decode;
pub mod sanitize;
pub mod style;
pub mod service;
pub mod config;
pub mod order;
pub mod views;
pub mod render;
pub mod ir;
pub mod addons;
pub mod deps;
pub mod scan;
pub mod catalogue;
pub mod cli;
pub mod promise;
pub mod details;
pub mod api;
pub mod control;
pub mod sync;
pub mod install;
pub mod settings;
pub mod search;
pub mod corpus;
pub mod basic;
pub mod suggest;
