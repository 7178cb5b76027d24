pub mod bytes;
pub mod classes;
pub mod error;
pub mod ops;
pub mod parser;
pub mod scanner;
pub mod token;

pub use error::Error;
pub use ops::JoinOp;
pub use ops::SignOp;
pub use parser::advance;
pub use parser::finish;
pub use parser::parse;
pub use parser::ParseState;
pub use parser::Step;
pub use parser::Expr;
pub use parser::ExprGroup;
pub use parser::ExprGroupItem;
pub use parser::ExprGroups;
pub use scanner::Scanner;
pub use token::Token;
