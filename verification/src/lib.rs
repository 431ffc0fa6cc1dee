//! A parser for GraphQL query documents.
//!
//! Source text is turned into tokens by the [`lexer`], and the tokens into a
//! syntax tree by the recursive-descent functions of [`document`] and
//! [`value`], which see the tokens through the [`parser`], one token ahead.
//! Every node of the tree carries the range of source text it was read
//! from, and every failure carries the place where it was noticed.
//!
//! Each executable function is specified against a mathematical description
//! of what it computes: [`scan`] and [`lexer`] say what the tokens of a
//! text are, [`grammar`] and [`value`] what tree the tokens make.
//!
//! What holds whatever the text is proved once and for all. [`stream`]
//! shows that the tokens of a text are in order, and [`results`] that every
//! tree the grammar returns has the [`shape`] it should have. [`written`]
//! says what it means for tokens to spell a tree, and [`reading`] shows
//! that tokens which spell a tree are parsed to that tree. [`laws`] draws
//! the conclusions: among them the round trip from a document to a text
//! and back.
//!
//! The library does no arithmetic on floating-point numbers: a number with
//! a fraction or an exponent is kept as the text that was written.

pub mod position;
pub mod text;
pub mod token;
pub mod scan;
pub mod lexer;
pub mod stream;
pub mod ast;
pub mod copy;
pub mod parser;
pub mod shape;
pub mod value;
pub mod grammar;
pub mod document;
pub mod pointers;
pub mod form;
pub mod bare;
pub mod laws;
pub mod results;
pub mod written;
pub mod reading;
