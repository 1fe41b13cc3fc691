pub mod text;
pub mod value;
pub mod tokenizer;
pub mod parser;
pub mod eval;
pub mod math;
pub mod variables;
pub mod ast;
pub mod fuzzy_finder;

pub use value::{Error, Ratio, ReturnValue};
pub use tokenizer::{Operation, Token, tokenize_expression};
pub use parser::{MathNode, parse_math_expression};
pub use math::{is_math_parsable, math_expression};
pub use variables::{Variables, expand_variables};
pub use ast::{exec_ast, ASTNode, Config, Function, If, IfElse};
pub use fuzzy_finder::fuzzy_find;
