//! The OSPF plane: what areas accept, how their routes merge and which LSAs
//! a border router owes each of them.

pub mod adjacency;
pub mod area;
pub mod asbr;
pub mod external;
pub mod facts;
pub mod grace;
pub mod lsa;
pub mod merge;
pub mod plan;
pub mod summary;
pub mod summary_v3;
pub mod table;
pub mod tables;
pub mod topology;
