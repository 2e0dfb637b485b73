//! Native filters of a jq interpreter, with their meaning stated and proved.

pub mod array_laws;
pub mod call_laws;
pub mod codepoints;
pub mod dispatch;
pub mod escape;
pub mod filters;
pub mod json;
pub mod json_laws;
pub mod laws;
pub mod name_laws;
pub mod names;
pub mod natives;
pub mod order;
pub mod range;
pub mod regex;
pub mod search;
pub mod select;
pub mod sort;
pub mod stream;
pub mod stream_laws;
pub mod text;
pub mod text_laws;
pub mod time;
pub mod val;
