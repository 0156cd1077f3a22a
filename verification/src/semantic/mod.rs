use vstd::prelude::*;

pub mod analyzer;
pub mod declarations;
pub mod expression_checker;
pub mod symbol_table;
pub mod type_system;
pub mod typing;

pub use analyzer::{SemanticAnalyzer, SemanticContext};
pub use crate::errors::SemanticError;
pub use expression_checker::{ExpressionChecker, ExpressionType};
pub use symbol_table::SymbolTable;
pub use type_system::{NormalizedType, ProtocolInfo, TypeEnvironment, TypeInfo};
