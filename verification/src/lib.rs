//! Platform context of 1C:Enterprise 8.3: reading the syntax-assistant
//! container, parsing its help pages, indexing types, methods, properties and
//! system enumerations, and validating BSL fragments against the index.
use vstd::prelude::*;

pub mod seqs;
pub mod text;
pub mod entities;
pub mod page_models;
pub mod mapper;
pub mod storage;
pub mod format;
pub mod check;
pub mod hbk_models;
pub mod toc;
pub mod container;
pub mod content;
pub mod lexis;
pub mod scope;
pub mod expression;
pub mod search;
pub mod html;
pub mod blocks;
pub mod pages;
pub mod visitor;
pub mod loader;
pub mod server;
pub mod config;
pub mod laws;

verus! {
} // verus!
