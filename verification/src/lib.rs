//! A compiler and interpreter for a small logic-programming language built
//! on a register-based abstract machine in the Warren style.
//!
//! The machine state is a heap of tagged cells, a register file, an
//! environment stack and a unification work list.  Terms are compiled to a
//! flat instruction stream; executing a compiled query against compiled
//! clauses either fails or produces variable bindings.

pub mod ast;
pub mod cells;
pub mod compile;
pub mod machine;
pub mod session;
pub mod syntax;

pub use ast::Atom;
pub use ast::Compound;
pub use ast::Rule;
pub use ast::Structuralize;
pub use ast::Term;
pub use ast::Var;
pub use cells::Cell;
pub use cells::Functor;
pub use cells::Register;
pub use cells::Store;
pub use compile::allocate_program_registers;
pub use compile::allocate_query_registers;
pub use compile::collect_permanent_variables;
pub use compile::compile_fact;
pub use compile::compile_query;
pub use compile::compile_rule;
pub use compile::find_variables;
pub use machine::Instruction;
pub use machine::Machine;
pub use machine::MachineError;
pub use session::collect_bindings;
pub use session::program;
pub use session::program_term;
pub use session::query;
pub use session::query_term;
pub use session::resolve_term;
pub use session::run_query;
pub use session::run_query_terms;
