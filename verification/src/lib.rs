//! The evaluation core of nana, a small homoiconic language whose macros
//! rewrite syntax before it is evaluated.
//!
//! Source text is read into syntax (`parsers::nana`), syntax is expanded into
//! runtime expressions by a pass that lets each macro name take as many of
//! the following forms as the macro has parameters (`parsers::macros`), and
//! expressions are evaluated (`eval`) with the functions and macros of the
//! standard library (`standard_library`).
//!
//! Evaluation is a trampoline (`process`): a process is advanced one step at
//! a time, so that a program runs in a native stack that does not grow with
//! the number of calls it makes in tail position, and so that several
//! processes can be interleaved by a round-robin scheduler. What a process
//! does next, and what follows it, is plain data. A step is a total function
//! from a process and the store to the next process and the store, and its
//! contract says exactly which ones. Because a program need not end, every
//! function that runs one takes a budget of rounds, and hands back what is
//! left to run when the budget is spent.
//!
//! Names are bound in persistent environments, and what they are bound to
//! lives in a store of write-once cells (`environment`). A definition
//! reserves the cell of its name before its value is evaluated, which lets a
//! function refer to itself.
//!
//! The top-level driver (`execution`) runs the forms of a program one after
//! the other and threads what they define from each to the next.
//!
//! Every executable type has a mathematical model, and every contract is
//! stated over models. The laws that hold of several functions together are
//! proved beside them as `lemma_` functions. Three of them have a module of
//! their own: that nothing but a definition fills the cell that it has
//! reserved (`forward`), that the scheduler reports results in the order in
//! which the processes complete (`order`), and that a function that calls
//! itself in tail position ends for every count in a process that does not
//! grow (`recursion`).

pub mod component;
pub mod environment;
pub mod errors;
pub mod eval;
pub mod example_tests;
pub mod execution;
pub mod expressions;
pub mod forward;
pub mod helpers;
pub mod order;
pub mod parsers;
pub mod persistent;
pub mod process;
pub mod queue;
pub mod recursion;
pub mod standard_library;
