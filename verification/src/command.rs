use vstd::prelude::*;
use crate::ident::{AccountId, CourseId, Timestamp};

verus! {

/// The operations that change a school, one variant for each, with the arguments
/// that the caller chooses. Who calls and when is not among them: the host says
/// that with every call.
#[derive(Debug, Clone, Copy, PartialEq, Eq)]
pub enum Command {
    /// admit `account` as a teacher
    AdmitAsTeacher { account: AccountId },
    /// admit `account` as a student
    AdmitAsStudent { account: AccountId },
    /// create the course `course_id` with `capacity` seats, to start at `start_date`
    CreateCourse { course_id: CourseId, capacity: u32, start_date: Timestamp },
    /// take a seat in the course `course_id`
    RegisterToCourse { course_id: CourseId },
    /// offer the caller's seat in the course `course_id` for a swap
    ProposeSwap { course_id: CourseId },
    /// put the caller's seat in `counter_course_id` up against the seat of
    /// `course_id` that `offerer` offers
    CounterSwapProposal { course_id: CourseId, offerer: AccountId, counter_course_id: CourseId },
    /// accept, for the caller's offer of a seat in `offered_course_id`, the seat in
    /// `accepted_course_id` that `accepted_owner` has put up against it
    AcceptCounterOffer {
        offered_course_id: CourseId,
        accepted_course_id: CourseId,
        accepted_owner: AccountId,
    },
}

/// One call as the host makes it: a command, the caller and the time.
pub struct Call {
    pub caller: AccountId,
    pub now: Timestamp,
    pub command: Command,
}

} // verus!
