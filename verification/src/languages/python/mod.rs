pub mod current_context;
pub mod current_line;
pub mod current_scope;
pub mod current_symbol;
pub mod function_parameters;
pub mod function_summary;
pub mod parser;
pub mod signature;
pub mod syntax;

pub use current_context::describe_current_context;
pub use current_line::describe_current_line;
pub use current_scope::describe_current_scope;
pub use current_symbol::describe_current_symbol;
pub use function_parameters::describe_function_parameter_list;
pub use function_summary::describe_function_summary;
pub use syntax::{SyntaxNode, SyntaxTree};
