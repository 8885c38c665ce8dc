//! The scanners for the single kinds of token.

pub mod comment;
pub mod fstring;
pub mod indent;
pub mod name;
pub mod number;
pub mod operator;
pub mod run;
pub mod scan;
pub mod string;

pub use comment::collect_comment;
pub use fstring::collect_fstring;
pub use indent::collect_indent;
pub use name::collect_name;
pub use number::collect_number;
pub use operator::collect_operator;
pub use string::collect_string;
