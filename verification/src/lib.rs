//! A small machine for programs whose only data are bit strings.
//!
//! A program is a set of functions, each a list of alternatives: patterns
//! for the arguments, and an expression. The compiler ([`translator`]) turns
//! each expression into bytecode for a stack machine ([`vm`]), which runs it
//! step by step.
//!
//! Every type has a mathematical content, its view, and every function says
//! over these contents what it returns:
//!
//! - [`bitstring`]: bits and bit strings, as sequences of bits;
//! - [`value`], [`callable`], [`coded_function`], [`native_function`]: what
//!   programs compute with and call;
//! - [`bindings`]: environments, as maps from names to values;
//! - [`pattern`]: patterns and what a match binds;
//! - [`ast`], [`bytecode`], [`compiled`]: programs before and after compiling;
//! - [`translator`]: the compiler, against the function `lower`;
//! - [`vm`]: tasks and the machine, against the functions `task_step` and
//!   `vm_step`;
//! - [`stack_shape`]: compiled code keeps the value stack in shape;
//! - [`fusion`]: a call in tail position returns what an ordinary call returns.

pub mod ast;
pub mod bindings;
pub mod bitstring;
pub mod bytecode;
pub mod callable;
pub mod coded_function;
pub mod compiled;
pub mod fusion;
pub mod native_function;
pub mod pattern;
pub mod stack_shape;
pub mod translator;
pub mod value;
pub mod vm;
