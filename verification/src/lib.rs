pub mod ident;
pub mod records;
pub mod command;
pub mod model;
pub mod table;
pub mod search;
pub mod snapshot;
pub mod contract;
pub mod hashing;
pub mod laws;

pub use command::Command;
pub use contract::CourseReg;
pub use ident::{AccountId, CourseId, Timestamp};
pub use records::{Course, CourseRegistration, CourseRegistrationSwapProposal, Error};
pub use snapshot::{Member, Snapshot};
