//! Translation of documentation comments written against a C-level type
//! system into the markup of the target language's documentation, with every
//! reference to a symbol resolved against a symbol index.

pub mod blocks;
pub mod diagnostic;
pub mod engine;
pub mod index;
pub mod link;
pub mod resolve;
pub mod scan;
pub mod seqs;
pub mod text;

pub use blocks::{code_blocks_transformation, reformat_doc};
pub use diagnostic::{Diagnostic, DiagnosticLog, Problem, Severity};
pub use index::{
    ConstantInfo, EnumInfo, FunctionInfo, MemberInfo, MethodInfo, ObjectInfo, RecordInfo,
    SymbolIndex, TypeName,
};
