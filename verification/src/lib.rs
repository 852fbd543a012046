//! Verified routing core: RIB pipelines, session policy and OSPF planning.

pub mod addr;
pub mod babel;
pub mod delta;
pub mod events;
pub mod list;
pub mod ordmap;
pub mod ospf;
pub mod route;
pub mod router;
pub mod select;
pub mod seqs;
pub mod session;
pub mod task;
pub mod timers;
pub mod value;
