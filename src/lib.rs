//! Translation of nested JSON boolean formulas into parenthesised SQL
//! boolean expressions.
//!
//! A formula is first decoded into a [`json::JsonValue`], turned into an
//! [`expr::Expression`] tree by [`parse::parse`], and rendered as SQL text
//! by [`expr::Expression::to_sql`]; [`decode::translate`] does all three
//! on JSON text.

pub mod expr;
pub mod json;
pub mod parse;
pub mod decode;
