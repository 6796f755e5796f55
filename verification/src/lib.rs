//! An interactive evaluator for an untyped lambda calculus.
//!
//! A line of text is scanned into tokens ([`lexer`]), the tokens are parsed
//! into a tree of statements ([`ast`], [`parse`]), and the tree is reduced
//! one beta step at a time in normal order ([`app`]). Each form that the
//! program takes on the way can be written out as text ([`render`]).
//!
//! Every function is verified against a contract over plain data: the view
//! of a token is a [`lexer::tokens::TokenView`], the view of a statement an
//! [`ast::StatementView`]. The grammar is [`parse::parse_statements_at`], a
//! step of reduction is [`app::reduction::step_of`], and [`roundtrip`] relates
//! statements to the tokens they are written with.

pub mod app;
pub mod ast;
pub mod error;
pub mod lexer;
pub mod parse;
pub mod render;
pub mod roundtrip;
