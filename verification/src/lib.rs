//! A virtual CPU core for actor machines: quad-cell memory, a garbage-collected
//! heap, event and continuation queues, and an instruction interpreter.
pub mod value;
pub mod quad;
pub mod cpu;
pub mod lists;
pub mod machine;
pub mod gc;
pub mod interp;
pub mod image;
pub mod laws;
pub mod dict_laws;
pub mod queue_laws;
pub mod op_laws;
pub mod deque_laws;
pub mod run_laws;
pub mod dispatch_laws;
pub mod instr_laws;
pub mod list_op_laws;
