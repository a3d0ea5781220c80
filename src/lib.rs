//! A small arithmetic-expression library: a recursive-descent parser that
//! turns one line of text into an expression tree, with a grammar of numbers,
//! unary signs, `+ - * / %`, parentheses and absolute-value bars.
pub mod expression;
pub mod parser;
pub mod whitespace;
