//! A runtime-constructed PEG (Parsing Expression Grammar) engine.
//!
//! A host program registers named rules, either as expression trees built
//! programmatically or as human-readable rule strings, and then validates or
//! parses input text against them. Matching is a recursive descent with
//! backtracking driven by a cursor that keeps a stack of speculative
//! positions.

pub mod code_tokenizer;
pub mod expression_tokenizer;
pub mod expression;
pub mod semantics;
pub mod parser;
pub mod roundtrip;
