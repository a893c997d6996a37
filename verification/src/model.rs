use vstd::prelude::*;
use crate::command::{Call, Command};
use crate::ident::{AccountId, CourseId, Timestamp};
use crate::records::{CourseRegistration, CourseView, Error, SwapProposalView};

verus! {

/// The whole state of the school, as mathematical values: who is a member, which
/// courses exist and who sits in them, which swaps are pending, and which tokens
/// their owners hold at the moment.
///
/// Every operation of the engine is defined here as a function from a state and
/// the call's arguments to either the next state or an error. An error never comes
/// with a changed state: an operation is applied in full or not at all.
#[verifier::ext_equal]
pub struct State {
    /// the school leader, the only account that admits members
    pub owner: AccountId,
    /// the members of the school; the value says whether the member is a teacher
    pub members: Map<AccountId, bool>,
    /// the courses by their id
    pub courses: Map<CourseId, CourseView>,
    /// the pending swap proposals of all courses, oldest first
    pub swaps: Seq<SwapProposalView>,
    /// the tokens that their owners hold (not in escrow), oldest first
    pub registrations: Seq<CourseRegistration>,
}

/// The token for one seat of `owner` in the course `course_id`.
pub open spec fn token(owner: AccountId, course_id: CourseId) -> CourseRegistration {
    CourseRegistration { owner, course_id }
}

/// The offered tokens of a sequence of proposals, in the same order.
pub open spec fn offers(swaps: Seq<SwapProposalView>) -> Seq<CourseRegistration> {
    swaps.map_values(|p: SwapProposalView| p.offer)
}

/// The tokens of `ledger` that belong to `account`, in the same order.
pub open spec fn tokens_of(ledger: Seq<CourseRegistration>, account: AccountId) -> Seq<
    CourseRegistration,
> {
    ledger.filter(|t: CourseRegistration| t.owner == account)
}

/// The proposals of `swaps` that offer a seat of the course `course_id`, in the same
/// order.
pub open spec fn swaps_for(swaps: Seq<SwapProposalView>, course_id: CourseId) -> Seq<
    SwapProposalView,
> {
    swaps.filter(|p: SwapProposalView| p.offer.course_id == course_id)
}

/// A proposal for `offer` that nobody has countered yet.
pub open spec fn fresh_proposal(offer: CourseRegistration) -> SwapProposalView {
    SwapProposalView { offer, counter_offers: Seq::empty() }
}

/// The number of tokens that a sequence of proposals holds in escrow: for each
/// proposal the offered token and every counter-offer.
pub open spec fn escrowed(swaps: Seq<SwapProposalView>) -> nat
    decreases swaps.len(),
{
    if swaps.len() == 0 {
        0
    } else {
        escrowed(swaps.drop_last()) + 1 + swaps.last().counter_offers.len()
    }
}

impl State {
    /// The state of a school that `owner` has just founded: the owner is its only
    /// member, and a teacher.
    pub open spec fn initial(owner: AccountId) -> State {
        State {
            owner,
            members: Map::empty().insert(owner, true),
            courses: Map::empty(),
            swaps: Seq::empty(),
            registrations: Seq::empty(),
        }
    }

    pub open spec fn is_school_member(self, account: AccountId) -> bool {
        self.members.contains_key(account)
    }

    pub open spec fn is_teacher(self, account: AccountId) -> bool {
        self.members.contains_key(account) && self.members[account]
    }

    /// The tokens that `account` holds, oldest first.
    pub open spec fn own_registrations(self, account: AccountId) -> Seq<CourseRegistration> {
        tokens_of(self.registrations, account)
    }

    /// The pending proposals that offer a seat of the course `course_id`, oldest first.
    pub open spec fn proposed_swaps(self, course_id: CourseId) -> Seq<SwapProposalView> {
        swaps_for(self.swaps, course_id)
    }

    /// The number of tokens in the state, held or in escrow.
    pub open spec fn token_count(self) -> nat {
        self.registrations.len() + escrowed(self.swaps)
    }

    /// No course lists more students than it has seats.
    pub open spec fn capacity_respected(self) -> bool {
        forall|id: CourseId| #[trigger]
            self.courses.contains_key(id) ==> self.courses[id].registrations.len()
                <= self.courses[id].capacity
    }

    /// No course lists an account twice.
    pub open spec fn rosters_distinct(self) -> bool {
        forall|id: CourseId| #[trigger]
            self.courses.contains_key(id) ==> self.courses[id].registrations.no_duplicates()
    }

    /// The owner admits `account`, as a teacher or as a student. An earlier
    /// admission of the same account is overwritten.
    pub open spec fn admit_member(self, caller: AccountId, account: AccountId, teacher: bool) -> Result<
        State,
        Error,
    > {
        if caller != self.owner {
            Err(Error::InsufficientPermissions)
        } else {
            Ok(State { members: self.members.insert(account, teacher), ..self })
        }
    }

    /// A teacher creates a course without students. A course that is already stored
    /// under `course_id` is overwritten.
    pub open spec fn create_course(
        self,
        caller: AccountId,
        course_id: CourseId,
        capacity: u32,
        start_date: Timestamp,
    ) -> Result<State, Error> {
        if !self.is_teacher(caller) {
            Err(Error::InsufficientPermissions)
        } else {
            let course = CourseView {
                teacher: caller,
                course_id,
                capacity,
                registrations: Seq::empty(),
                start_date,
            };
            Ok(State { courses: self.courses.insert(course_id, course), ..self })
        }
    }

    /// A member takes a seat in a course at the time `now`. The checks come in
    /// this order, and the first that fails decides the error.
    pub open spec fn register(self, caller: AccountId, course_id: CourseId, now: Timestamp) -> Result<
        State,
        Error,
    > {
        if !self.is_school_member(caller) {
            Err(Error::InsufficientPermissions)
        } else if !self.courses.contains_key(course_id) {
            Err(Error::NonexistentCourse)
        } else {
            let course = self.courses[course_id];
            if course.registrations.len() >= course.capacity {
                Err(Error::CourseCapacityFull)
            } else if course.registrations.contains(caller) {
                Err(Error::AlreadyRegistered)
            } else if course.start_date <= now {
                Err(Error::CourseAlreadyStarted)
            } else {
                let seated = CourseView {
                    registrations: course.registrations.push(caller),
                    ..course
                };
                Ok(
                    State {
                        courses: self.courses.insert(course_id, seated),
                        registrations: self.registrations.push(token(caller, course_id)),
                        ..self
                    },
                )
            }
        }
    }

    /// The caller puts the oldest token that they hold for `course_id` in escrow,
    /// as the offer of a new proposal.
    pub open spec fn propose_swap(self, caller: AccountId, course_id: CourseId) -> Result<
        State,
        Error,
    > {
        let offer = token(caller, course_id);
        match self.registrations.index_of_first(offer) {
            None => Err(Error::NoSwappableRegistrations),
            Some(held) => Ok(
                State {
                    registrations: self.registrations.remove(held),
                    swaps: self.swaps.push(fresh_proposal(offer)),
                    ..self
                },
            ),
        }
    }

    /// The caller puts the oldest token that they hold for `counter_course_id` in
    /// escrow, as a counter-offer to the oldest proposal in which `offerer` offers a
    /// seat of `course_id`.
    pub open spec fn counter_swap_proposal(
        self,
        caller: AccountId,
        course_id: CourseId,
        offerer: AccountId,
        counter_course_id: CourseId,
    ) -> Result<State, Error> {
        let stake = token(caller, counter_course_id);
        match (
            self.registrations.index_of_first(stake),
            offers(self.swaps).index_of_first(token(offerer, course_id)),
        ) {
            (Some(held), Some(at)) => {
                let countered = SwapProposalView {
                    counter_offers: self.swaps[at].counter_offers.push(stake),
                    ..self.swaps[at]
                };
                Ok(
                    State {
                        registrations: self.registrations.remove(held),
                        swaps: self.swaps.update(at, countered),
                        ..self
                    },
                )
            },
            _ => Err(Error::NoProposedSwap),
        }
    }

    /// In the roster of the course `course_id`, the first entry that names `replace`
    /// comes to name `with`. The roster keeps its order and its length.
    pub open spec fn replace_roster_entry(
        self,
        course_id: CourseId,
        replace: AccountId,
        with: AccountId,
    ) -> Result<State, Error> {
        if !self.courses.contains_key(course_id) {
            Err(Error::NoProposedSwap)
        } else {
            let course = self.courses[course_id];
            match course.registrations.index_of_first(replace) {
                None => Err(Error::NoProposedSwap),
                Some(seat) => {
                    let changed = CourseView {
                        registrations: course.registrations.update(seat, with),
                        ..course
                    };
                    Ok(State { courses: self.courses.insert(course_id, changed), ..self })
                },
            }
        }
    }

    /// The counter-offers that an acceptance by `caller` leaves without a holder:
    /// all those of the accepted proposal but the accepted one. They leave the state
    /// together with the proposal, and nobody gets them back.
    pub open spec fn stranded_by_accept(
        self,
        caller: AccountId,
        offered_course_id: CourseId,
        accepted_course_id: CourseId,
        accepted_owner: AccountId,
    ) -> Seq<CourseRegistration> {
        match offers(self.swaps).index_of_first(token(caller, offered_course_id)) {
            None => Seq::empty(),
            Some(at) => self.swaps[at].counter_offers.remove_value(
                token(accepted_owner, accepted_course_id),
            ),
        }
    }

    /// The caller accepts, for the oldest proposal in which they offer a seat of
    /// `offered_course_id`, the counter-offer of `accepted_owner` for a seat of
    /// `accepted_course_id`. The proposal leaves the pending list with all its
    /// counter-offers; the two parties get a new token each, for the other's course,
    /// and take each other's place in the two rosters.
    pub open spec fn accept_counter_offer(
        self,
        caller: AccountId,
        offered_course_id: CourseId,
        accepted_course_id: CourseId,
        accepted_owner: AccountId,
    ) -> Result<State, Error> {
        match offers(self.swaps).index_of_first(token(caller, offered_course_id)) {
            None => Err(Error::NoProposedSwap),
            Some(at) => {
                if !self.swaps[at].counter_offers.contains(
                    token(accepted_owner, accepted_course_id),
                ) {
                    Err(Error::NoProposedSwap)
                } else {
                    match self.replace_roster_entry(accepted_course_id, accepted_owner, caller) {
                        Err(e) => Err(e),
                        Ok(half) => match half.replace_roster_entry(
                            offered_course_id,
                            caller,
                            accepted_owner,
                        ) {
                            Err(e) => Err(e),
                            Ok(swapped) => Ok(
                                State {
                                    swaps: self.swaps.remove(at),
                                    registrations: self.registrations.push(
                                        token(caller, accepted_course_id),
                                    ).push(token(accepted_owner, offered_course_id)),
                                    ..swapped
                                },
                            ),
                        },
                    }
                }
            },
        }
    }

    /// What the command does to the state when `caller` gives it at the time `now`.
    pub open spec fn step(self, caller: AccountId, now: Timestamp, command: Command) -> Result<
        State,
        Error,
    > {
        match command {
            Command::AdmitAsTeacher { account } => self.admit_member(caller, account, true),
            Command::AdmitAsStudent { account } => self.admit_member(caller, account, false),
            Command::CreateCourse { course_id, capacity, start_date } => self.create_course(
                caller,
                course_id,
                capacity,
                start_date,
            ),
            Command::RegisterToCourse { course_id } => self.register(caller, course_id, now),
            Command::ProposeSwap { course_id } => self.propose_swap(caller, course_id),
            Command::CounterSwapProposal {
                course_id,
                offerer,
                counter_course_id,
            } => self.counter_swap_proposal(caller, course_id, offerer, counter_course_id),
            Command::AcceptCounterOffer {
                offered_course_id,
                accepted_course_id,
                accepted_owner,
            } => self.accept_counter_offer(
                caller,
                offered_course_id,
                accepted_course_id,
                accepted_owner,
            ),
        }
    }

    /// The state after the calls `calls`, made one after the other. A call that is
    /// refused leaves the state as it was.
    pub open spec fn after(self, calls: Seq<Call>) -> State
        decreases calls.len(),
    {
        if calls.len() == 0 {
            self
        } else {
            let before = self.after(calls.drop_last());
            let call = calls.last();
            match before.step(call.caller, call.now, call.command) {
                Ok(next) => next,
                Err(_) => before,
            }
        }
    }
}

/// Whether `post` and `reply` are what an operation leaves behind that was called in
/// the state `pre` and whose outcome the model gives as `outcome`.
pub open spec fn applied(
    pre: State,
    outcome: Result<State, Error>,
    post: State,
    reply: Result<(), Error>,
) -> bool {
    match outcome {
        Ok(next) => reply == Ok::<(), Error>(()) && post == next,
        Err(e) => reply == Err::<(), Error>(e) && post == pre,
    }
}

} // verus!
