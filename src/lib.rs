//! A lexer for a small parenthesised language, and a traffic-light cycle.

pub mod tokenizer;
pub mod traffic_light;
