//! A small template engine (`mini_fmt`) and the request rules of a
//! translation client (`translate`).

pub mod mini_fmt;
pub mod text;
pub mod translate;
