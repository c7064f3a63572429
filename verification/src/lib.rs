//! A URL path router: route patterns may contain named variable segments
//! (`user/:userid/invoices`); registered patterns are compiled to anchored
//! regular expressions and a concrete request path resolves to the first
//! registered route that matches it, together with the captured variable
//! values by name.

pub mod tokens;
pub mod compiler;
pub mod table;
pub mod regexes;
pub mod router;
