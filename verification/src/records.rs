use vstd::prelude::*;
use crate::ident::{same_id, AccountId, CourseId, Timestamp};

verus! {

/// Why an operation was turned down.
#[derive(Debug, Clone, Copy, PartialEq, Eq, Structural)]
pub enum Error {
    InsufficientPermissions,
    NonexistentCourse,
    CourseCapacityFull,
    AlreadyRegistered,
    NoRegistrations,
    CourseAlreadyStarted,
    NoSwappableRegistrations,
    NoProposedSwap,
}

/// A registration token: the right of `owner` to one seat in the course `course_id`.
#[derive(Debug, Clone, Copy, Eq)]
pub struct CourseRegistration {
    /// the owner of the token
    pub owner: AccountId,
    /// the id of the course
    pub course_id: CourseId,
}

impl PartialEq for CourseRegistration {
    fn eq(&self, other: &Self) -> (r: bool) {
        self.owner == other.owner && same_id(&self.course_id, &other.course_id)
    }
}

impl vstd::std_specs::cmp::PartialEqSpecImpl for CourseRegistration {
    open spec fn obeys_eq_spec() -> bool {
        true
    }

    open spec fn eq_spec(&self, other: &Self) -> bool {
        *self == *other
    }
}

/// A course as the catalog holds it.
#[derive(Debug, PartialEq)]
pub struct Course {
    /// the teacher who created the course
    pub teacher: AccountId,
    /// the id of the course
    pub course_id: CourseId,
    /// the max number of students who can register
    pub capacity: u32,
    /// the registered students, in the order in which their seats were taken
    pub registrations: Vec<AccountId>,
    /// the starting time of the course
    pub start_date: Timestamp,
}

/// What a `Course` holds, as mathematical values.
#[verifier::ext_equal]
pub struct CourseView {
    pub teacher: AccountId,
    pub course_id: CourseId,
    pub capacity: u32,
    pub registrations: Seq<AccountId>,
    pub start_date: Timestamp,
}

impl View for Course {
    type V = CourseView;

    open spec fn view(&self) -> CourseView {
        CourseView {
            teacher: self.teacher,
            course_id: self.course_id,
            capacity: self.capacity,
            registrations: self.registrations@,
            start_date: self.start_date,
        }
    }
}

/// A pending offer to trade one seat away, with the tokens put up against it.
#[derive(Debug, PartialEq)]
pub struct CourseRegistrationSwapProposal {
    /// the offered token
    pub offer: CourseRegistration,
    /// the tokens offered in exchange, oldest first
    pub counter_offers: Vec<CourseRegistration>,
}

/// What a `CourseRegistrationSwapProposal` holds, as mathematical values.
#[verifier::ext_equal]
pub struct SwapProposalView {
    pub offer: CourseRegistration,
    pub counter_offers: Seq<CourseRegistration>,
}

impl View for CourseRegistrationSwapProposal {
    type V = SwapProposalView;

    open spec fn view(&self) -> SwapProposalView {
        SwapProposalView { offer: self.offer, counter_offers: self.counter_offers@ }
    }
}

/// The views of a sequence of proposals, in the same order.
pub open spec fn swap_views(swaps: Seq<CourseRegistrationSwapProposal>) -> Seq<SwapProposalView> {
    swaps.map_values(|p: CourseRegistrationSwapProposal| p@)
}

impl Course {
    /// An independent copy of the course.
    pub fn duplicate(&self) -> (copy: Course)
        ensures
            copy@ == self@,
    {
        Course {
            teacher: self.teacher,
            course_id: self.course_id,
            capacity: self.capacity,
            registrations: self.registrations.clone(),
            start_date: self.start_date,
        }
    }
}

impl CourseRegistrationSwapProposal {
    /// An independent copy of the proposal.
    pub fn duplicate(&self) -> (copy: CourseRegistrationSwapProposal)
        ensures
            copy@ == self@,
    {
        CourseRegistrationSwapProposal {
            offer: self.offer,
            counter_offers: self.counter_offers.clone(),
        }
    }
}

} // verus!
