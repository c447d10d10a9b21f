// A small declarative expression language over named scalar cells. A
// program declares input parameters and derived cells; evaluating it
// against bindings yields every cell's binary64 value. The pipeline is a
// scanner, a recursive-descent parser, a dependency analyzer, a lowering
// to linear stack code, and two evaluators — a tree walker and a stack
// machine — plus the plan a native back end emits from. Numbers travel as
// IEEE-754 bit patterns; their arithmetic is done in software behind a few
// trusted calls, and everything else is verified against the mathematical
// models each module states.

pub mod ast_interpreter;
pub mod deps;
pub mod error;
pub mod ir;
pub mod jit;
pub mod laws;
pub mod num;
pub mod parser;
pub mod printer;
pub mod scanner;
pub mod strutil;
pub mod vm;
