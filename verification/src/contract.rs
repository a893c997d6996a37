use vstd::prelude::*;
use crate::command::Command;
use crate::ident::{same_id, AccountId, CourseId, Timestamp};
use crate::model::{applied, fresh_proposal, swaps_for, token, tokens_of, State};
use crate::records::{
    swap_views, Course, CourseRegistration, CourseRegistrationSwapProposal, Error,
};
use crate::snapshot::{
    course_key, course_val, lemma_capacity_respected_fits_rows,
    lemma_fitting_rows_respect_capacity, member_key, member_val, Member, Snapshot,
};
use crate::search::{
    lemma_index_found, position_of_account, position_of_offer, position_of_token,
};
use crate::table::{
    as_map, keys_distinct, lemma_key_not_in_map, lemma_push_row, lemma_row_in_map,
    lemma_update_row,
};

verus! {

/// The engine: the membership list, the course catalog, the pending swaps and the
/// ledger of tokens of one school.
///
/// The four tables are flat. What the engine holds is read through its view, a
/// `State`; each operation is held to its counterpart there.
pub struct CourseReg {
    /// the owner of the school, the school leader
    owner: AccountId,
    /// the members of the school, one row for each admitted account
    school_members: Vec<Member>,
    /// the courses created by the teachers, one row for each course id
    courses: Vec<Course>,
    /// the proposed swaps of all courses, oldest first
    swaps: Vec<CourseRegistrationSwapProposal>,
    /// the registration tokens that their owners hold, oldest first
    registrations: Vec<CourseRegistration>,
}

impl View for CourseReg {
    type V = State;

    closed spec fn view(&self) -> State {
        State {
            owner: self.owner,
            members: as_map(self.school_members@, member_key(), member_val()),
            courses: as_map(self.courses@, course_key(), course_val()),
            swaps: swap_views(self.swaps@),
            registrations: self.registrations@,
        }
    }
}

impl CourseReg {
    /// No account has two rows in the membership list, and no course id two rows in
    /// the catalog.
    pub closed spec fn well_keyed(&self) -> bool {
        &&& keys_distinct(self.school_members@, member_key())
        &&& keys_distinct(self.courses@, course_key())
    }

    /// The validity of an engine: every constructor gives it and every operation
    /// keeps it.
    pub open spec fn wf(&self) -> bool {
        &&& self.well_keyed()
        &&& self@.capacity_respected()
    }

    /// A school that `owner` leads. The owner is its first member, as a teacher.
    pub fn new(owner: AccountId) -> (school: Self)
        ensures
            school.wf(),
            school@ == State::initial(owner),
    {
        let first = Member { account: owner, teacher: true };
        let mut school_members: Vec<Member> = Vec::new();
        school_members.push(first);
        let school = CourseReg {
            owner,
            school_members,
            courses: Vec::new(),
            swaps: Vec::new(),
            registrations: Vec::new(),
        };
        proof {
            let none = Seq::<Member>::empty();
            lemma_push_row(none, member_key(), member_val(), first);
            assert(school.school_members@ =~= none.push(first));
            assert(as_map(none, member_key(), member_val()) =~= Map::empty());
            assert(school@.courses =~= Map::empty());
            assert(school@.swaps =~= Seq::empty());
            assert(school@ =~= State::initial(owner));
        }
        school
    }

    /// The engine that works on the tables of `snapshot`, where they are valid.
    pub fn restore(snapshot: Snapshot) -> (restored: Option<Self>)
        ensures
            match restored {
                Some(school) => snapshot.valid() && school.wf() && school@ == snapshot.state(),
                None => !snapshot.valid(),
            },
    {
        if !snapshot.is_valid() {
            return None;
        }
        proof {
            lemma_fitting_rows_respect_capacity(snapshot.courses@);
        }
        Some(
            CourseReg {
                owner: snapshot.owner,
                school_members: snapshot.school_members,
                courses: snapshot.courses,
                swaps: snapshot.swaps,
                registrations: snapshot.registrations,
            },
        )
    }

    /// The tables of the engine, from which `restore` gives the same state again.
    pub fn into_snapshot(self) -> (snapshot: Snapshot)
        requires
            self.wf(),
        ensures
            snapshot.valid(),
            snapshot.state() == self@,
    {
        proof {
            assert(self@.courses == as_map(self.courses@, course_key(), course_val()));
            lemma_capacity_respected_fits_rows(self.courses@);
        }
        Snapshot {
            owner: self.owner,
            school_members: self.school_members,
            courses: self.courses,
            swaps: self.swaps,
            registrations: self.registrations,
        }
    }

    /// A school that the caller leads.
    pub fn default(caller: AccountId) -> (school: Self)
        ensures
            school.wf(),
            school@ == State::initial(caller),
    {
        Self::new(caller)
    }

    /// The row of `account` in the membership list.
    fn member_row(&self, account: &AccountId) -> (at: Option<usize>)
        ensures
            at matches Some(i) ==> i < self.school_members.len() && self.school_members[i as int].account
                == *account,
            at is None ==> forall|i: int|
                0 <= i < self.school_members.len() ==> (#[trigger] self.school_members[i]).account
                    != *account,
    {
        let mut i: usize = 0;
        while i < self.school_members.len()
            invariant
                i <= self.school_members.len(),
                forall|j: int| 0 <= j < i ==> (#[trigger] self.school_members[j]).account != *account,
            decreases self.school_members.len() - i,
        {
            if self.school_members[i].account == *account {
                return Some(i);
            }
            i += 1;
        }
        None
    }

    /// The row of the course `course_id` in the catalog.
    fn course_row(&self, course_id: &CourseId) -> (at: Option<usize>)
        ensures
            at matches Some(i) ==> i < self.courses.len() && self.courses[i as int].course_id
                == *course_id,
            at is None ==> forall|i: int|
                0 <= i < self.courses.len() ==> (#[trigger] self.courses[i]).course_id != *course_id,
    {
        let mut i: usize = 0;
        while i < self.courses.len()
            invariant
                i <= self.courses.len(),
                forall|j: int| 0 <= j < i ==> (#[trigger] self.courses[j]).course_id != *course_id,
            decreases self.courses.len() - i,
        {
            if same_id(&self.courses[i].course_id, course_id) {
                return Some(i);
            }
            i += 1;
        }
        None
    }

    /// Creates a token for the course `course_id` and hands it to `owner`.
    fn add_registration(&mut self, course_id: CourseId, owner: AccountId)
        requires
            old(self).wf(),
        ensures
            final(self).wf(),
            final(self)@ == (State {
                registrations: old(self)@.registrations.push(token(owner, course_id)),
                ..old(self)@
            }),
    {
        self.registrations.push(CourseRegistration { owner, course_id });
        proof {
            assert(self@.courses == old(self)@.courses);
        }
    }

    /// Puts `proposal` at the end of the pending proposals.
    fn add_proposal(&mut self, proposal: CourseRegistrationSwapProposal)
        requires
            old(self).wf(),
        ensures
            final(self).wf(),
            final(self)@ == (State { swaps: old(self)@.swaps.push(proposal@), ..old(self)@ }),
    {
        self.swaps.push(proposal);
        proof {
            assert(final(self)@.swaps =~= old(self)@.swaps.push(proposal@));
        }
    }

    /// Whether the course `course_id` exists and lists `account`.
    fn holds_seat(&self, course_id: CourseId, account: &AccountId) -> (held: bool)
        requires
            self.wf(),
        ensures
            held == (self@.courses.contains_key(course_id)
                && self@.courses[course_id].registrations.contains(*account)),
    {
        match self.course_row(&course_id) {
            None => {
                proof {
                    lemma_key_not_in_map(self.courses@, course_key(), course_val(), course_id);
                }
                false
            },
            Some(row) => {
                proof {
                    lemma_row_in_map(self.courses@, course_key(), course_val(), row as int);
                }
                position_of_account(&self.courses[row].registrations, account).is_some()
            },
        }
    }

    /// In the roster of the course `course_id`, puts `with` in the place of `replace`.
    fn replace_registration_in_reg_list(
        &mut self,
        course_id: CourseId,
        replace: AccountId,
        with: AccountId,
    ) -> (reply: Result<(), Error>)
        requires
            old(self).wf(),
        ensures
            final(self).wf(),
            applied(
                old(self)@,
                old(self)@.replace_roster_entry(course_id, replace, with),
                final(self)@,
                reply,
            ),
    {
        let row = match self.course_row(&course_id) {
            Some(row) => row,
            None => {
                proof {
                    lemma_key_not_in_map(self.courses@, course_key(), course_val(), course_id);
                }
                return Err(Error::NoProposedSwap);
            },
        };
        proof {
            lemma_row_in_map(self.courses@, course_key(), course_val(), row as int);
        }
        let seat = match position_of_account(&self.courses[row].registrations, &replace) {
            Some(seat) => seat,
            None => {
                return Err(Error::NoProposedSwap);
            },
        };
        self.courses[row].registrations[seat] = with;
        proof {
            let before = old(self).courses@;
            let changed = self.courses@[row as int];
            assert(self.courses@ =~= before.update(row as int, changed));
            lemma_update_row(before, course_key(), course_val(), row as int, changed);
            let next = old(self)@.replace_roster_entry(course_id, replace, with)->Ok_0;
            assert(changed@ =~= next.courses[course_id]);
            assert(self@.courses =~= next.courses);
            assert(self@ =~= next);
        }
        Ok(())
    }

    /// Accepts a counter-offer to a swap that the caller proposed.
    ///
    /// The caller's oldest proposal for `offered_course_id` is closed: the caller
    /// gets a token for `accepted_course_id`, `accepted_owner` one for
    /// `offered_course_id`, and the two take each other's place in the rosters of
    /// the two courses. The other counter-offers of that proposal leave the state
    /// with it and are not given back. All conditions are checked before anything
    /// is changed.
    pub fn accept_counter_offer(
        &mut self,
        caller: AccountId,
        offered_course_id: CourseId,
        accepted_course_id: CourseId,
        accepted_owner: AccountId,
    ) -> (reply: Result<(), Error>)
        requires
            old(self).wf(),
        ensures
            final(self).wf(),
            applied(
                old(self)@,
                old(self)@.accept_counter_offer(
                    caller,
                    offered_course_id,
                    accepted_course_id,
                    accepted_owner,
                ),
                final(self)@,
                reply,
            ),
    {
        let offer = CourseRegistration { owner: caller, course_id: offered_course_id };
        let wanted = CourseRegistration { owner: accepted_owner, course_id: accepted_course_id };
        let at = match position_of_offer(&self.swaps, &offer) {
            Some(at) => at,
            None => {
                return Err(Error::NoProposedSwap);
            },
        };
        if position_of_token(&self.swaps[at].counter_offers, &wanted).is_none() {
            return Err(Error::NoProposedSwap);
        }
        if !self.holds_seat(accepted_course_id, &accepted_owner) {
            proof {
                lemma_index_found(
                    self@.courses[accepted_course_id].registrations,
                    accepted_owner,
                );
            }
            return Err(Error::NoProposedSwap);
        }
        let ghost roster = self@.courses[accepted_course_id].registrations;
        let ghost half = self@.replace_roster_entry(accepted_course_id, accepted_owner, caller)->Ok_0;
        proof {
            lemma_index_found(roster, accepted_owner);
            let seat = roster.index_of_first(accepted_owner)->Some_0;
            assert(roster.update(seat, caller)[seat] == caller);
            lemma_index_found(half.courses[offered_course_id].registrations, caller);
        }
        if !same_id(&offered_course_id, &accepted_course_id) && !self.holds_seat(
            offered_course_id,
            &caller,
        ) {
            return Err(Error::NoProposedSwap);
        }
        // Every condition holds. Neither replacement can fail any more, so neither
        // `return` below is ever reached with something changed.
        if let Err(e) = self.replace_registration_in_reg_list(
            accepted_course_id,
            accepted_owner,
            caller,
        ) {
            return Err(e);
        }
        if let Err(e) = self.replace_registration_in_reg_list(
            offered_course_id,
            caller,
            accepted_owner,
        ) {
            return Err(e);
        }
        self.swaps.remove(at);
        proof {
            assert(self@.swaps =~= old(self)@.swaps.remove(at as int));
        }
        self.add_registration(accepted_course_id, caller);
        self.add_registration(offered_course_id, accepted_owner);
        Ok(())
    }

    /// Places a counter-offer on a swap proposal.
    ///
    /// The caller's oldest token for `counter_course_id` goes into escrow, at the
    /// end of the counter-offers of the oldest proposal in which `offerer` offers a
    /// seat of `course_id`. Both are looked up before anything is changed.
    pub fn counter_swap_proposal(
        &mut self,
        caller: AccountId,
        course_id: CourseId,
        offerer: AccountId,
        counter_course_id: CourseId,
    ) -> (reply: Result<(), Error>)
        requires
            old(self).wf(),
        ensures
            final(self).wf(),
            applied(
                old(self)@,
                old(self)@.counter_swap_proposal(caller, course_id, offerer, counter_course_id),
                final(self)@,
                reply,
            ),
    {
        let stake = CourseRegistration { owner: caller, course_id: counter_course_id };
        let target = CourseRegistration { owner: offerer, course_id };
        let held = match position_of_token(&self.registrations, &stake) {
            Some(held) => held,
            None => {
                return Err(Error::NoProposedSwap);
            },
        };
        let at = match position_of_offer(&self.swaps, &target) {
            Some(at) => at,
            None => {
                return Err(Error::NoProposedSwap);
            },
        };
        let escrow = self.registrations.remove(held);
        self.swaps[at].counter_offers.push(escrow);
        proof {
            let next = old(self)@.counter_swap_proposal(
                caller,
                course_id,
                offerer,
                counter_course_id,
            )->Ok_0;
            assert(self@.swaps[at as int] =~= next.swaps[at as int]);
            assert(self@.swaps =~= next.swaps);
            assert(self@.courses == old(self)@.courses);
            assert(self@ =~= next);
        }
        Ok(())
    }

    /// Registers the caller to a course at the time `now`.
    ///
    /// The caller must be an admitted member, the course must exist and have a free
    /// seat, the caller must not sit in it yet, and the course must not have
    /// started: `now` must lie before its start date. The first of these that fails,
    /// in this order, decides the error. On success the caller comes last in the
    /// roster and gets a token for the course.
    pub fn register_to_course(&mut self, caller: AccountId, course_id: CourseId, now: Timestamp) -> (reply:
        Result<(), Error>)
        requires
            old(self).wf(),
        ensures
            final(self).wf(),
            applied(
                old(self)@,
                old(self)@.register(caller, course_id, now),
                final(self)@,
                reply,
            ),
            old(self)@.rosters_distinct() ==> final(self)@.rosters_distinct(),
    {
        if !self.is_school_member_inner(&caller) {
            return Err(Error::InsufficientPermissions);
        }
        let row = match self.course_row(&course_id) {
            Some(row) => row,
            None => {
                proof {
                    lemma_key_not_in_map(self.courses@, course_key(), course_val(), course_id);
                }
                return Err(Error::NonexistentCourse);
            },
        };
        proof {
            lemma_row_in_map(self.courses@, course_key(), course_val(), row as int);
        }
        if self.courses[row].registrations.len() >= self.courses[row].capacity as usize {
            return Err(Error::CourseCapacityFull);
        }
        if position_of_account(&self.courses[row].registrations, &caller).is_some() {
            return Err(Error::AlreadyRegistered);
        }
        if self.courses[row].start_date <= now {
            return Err(Error::CourseAlreadyStarted);
        }
        self.courses[row].registrations.push(caller);
        proof {
            let before = old(self).courses@;
            let seated = self.courses@[row as int];
            assert(self.courses@ =~= before.update(row as int, seated));
            lemma_update_row(before, course_key(), course_val(), row as int, seated);
            let next = old(self)@.register(caller, course_id, now)->Ok_0;
            assert(seated@ =~= next.courses[course_id]);
            assert(self@.courses =~= next.courses);
            assert(self@.capacity_respected());
        }
        self.add_registration(course_id, caller);
        proof {
            let next = old(self)@.register(caller, course_id, now)->Ok_0;
            assert(self@ =~= next);
            if old(self)@.rosters_distinct() {
                let roster = old(self)@.courses[course_id].registrations;
                assert(roster.no_duplicates());
                assert(roster.push(caller).no_duplicates());
            }
        }
        Ok(())
    }

    /// Proposes a swap: the caller's oldest token for `course_id` goes into escrow,
    /// as the offer of a new proposal at the end of the pending proposals.
    pub fn propose_swap(&mut self, caller: AccountId, course_id: CourseId) -> (reply: Result<
        (),
        Error,
    >)
        requires
            old(self).wf(),
        ensures
            final(self).wf(),
            applied(old(self)@, old(self)@.propose_swap(caller, course_id), final(self)@, reply),
    {
        let offer = CourseRegistration { owner: caller, course_id };
        let held = match position_of_token(&self.registrations, &offer) {
            Some(held) => held,
            None => {
                return Err(Error::NoSwappableRegistrations);
            },
        };
        let escrow = self.registrations.remove(held);
        proof {
            assert(self@.courses == old(self)@.courses);
        }
        let proposal = CourseRegistrationSwapProposal { offer: escrow, counter_offers: Vec::new() };
        proof {
            assert(proposal@ =~= fresh_proposal(token(caller, course_id)));
        }
        self.add_proposal(proposal);
        Ok(())
    }

    /// Creates a course without students, with the caller as its teacher. The
    /// caller must be a teacher. A course that exists under `course_id` gives way to
    /// the new one.
    pub fn create_course(
        &mut self,
        caller: AccountId,
        course_id: CourseId,
        course_cap: u32,
        course_start: Timestamp,
    ) -> (reply: Result<(), Error>)
        requires
            old(self).wf(),
        ensures
            final(self).wf(),
            applied(
                old(self)@,
                old(self)@.create_course(caller, course_id, course_cap, course_start),
                final(self)@,
                reply,
            ),
            old(self)@.rosters_distinct() ==> final(self)@.rosters_distinct(),
    {
        if !self.is_teacher_inner(&caller) {
            return Err(Error::InsufficientPermissions);
        }
        let course = Course {
            teacher: caller,
            course_id,
            capacity: course_cap,
            registrations: Vec::new(),
            start_date: course_start,
        };
        let ghost next = old(self)@.create_course(caller, course_id, course_cap, course_start)->Ok_0;
        proof {
            assert(course@ =~= next.courses[course_id]);
        }
        match self.course_row(&course_id) {
            Some(row) => {
                proof {
                    lemma_update_row(
                        self.courses@,
                        course_key(),
                        course_val(),
                        row as int,
                        course,
                    );
                }
                self.courses[row] = course;
                proof {
                    assert(self.courses@ =~= old(self).courses@.update(row as int, course));
                }
            },
            None => {
                proof {
                    lemma_push_row(self.courses@, course_key(), course_val(), course);
                }
                self.courses.push(course);
            },
        }
        proof {
            assert(self@.courses =~= next.courses);
            assert(self@ =~= next);
        }
        Ok(())
    }

    fn is_school_member_inner(&self, account: &AccountId) -> (member: bool)
        ensures
            member == self@.is_school_member(*account),
    {
        match self.member_row(account) {
            Some(row) => {
                proof {
                    assert(member_key()(self.school_members@[row as int]) == *account);
                }
                true
            },
            None => {
                proof {
                    lemma_key_not_in_map(
                        self.school_members@,
                        member_key(),
                        member_val(),
                        *account,
                    );
                }
                false
            },
        }
    }

    fn is_teacher_inner(&self, account: &AccountId) -> (teacher: bool)
        requires
            self.wf(),
        ensures
            teacher == self@.is_teacher(*account),
    {
        match self.member_row(account) {
            Some(row) => {
                proof {
                    lemma_row_in_map(
                        self.school_members@,
                        member_key(),
                        member_val(),
                        row as int,
                    );
                }
                self.school_members[row].teacher
            },
            None => {
                proof {
                    lemma_key_not_in_map(
                        self.school_members@,
                        member_key(),
                        member_val(),
                        *account,
                    );
                }
                false
            },
        }
    }

    /// Returns true if the caller is the owner of the school.
    fn is_owner(&self, caller: &AccountId) -> (owns: bool)
        ensures
            owns == (*caller == self@.owner),
    {
        *caller == self.owner
    }

    /// Writes the admission of `account` into the membership list, over an earlier
    /// one of the same account.
    fn enroll(&mut self, account: AccountId, teacher: bool)
        requires
            old(self).wf(),
        ensures
            final(self).wf(),
            final(self)@ == (State {
                members: old(self)@.members.insert(account, teacher),
                ..old(self)@
            }),
    {
        let member = Member { account, teacher };
        match self.member_row(&account) {
            Some(row) => {
                proof {
                    lemma_update_row(
                        self.school_members@,
                        member_key(),
                        member_val(),
                        row as int,
                        member,
                    );
                }
                self.school_members[row] = member;
                proof {
                    assert(self.school_members@ =~= old(self).school_members@.update(
                        row as int,
                        member,
                    ));
                }
            },
            None => {
                proof {
                    lemma_push_row(self.school_members@, member_key(), member_val(), member);
                }
                self.school_members.push(member);
            },
        }
        proof {
            assert(self@.courses == old(self)@.courses);
        }
    }

    /// Admits the account to the school, as a teacher. Only the owner may do so.
    pub fn admit_as_teacher(&mut self, caller: AccountId, account: AccountId) -> (reply: Result<
        (),
        Error,
    >)
        requires
            old(self).wf(),
        ensures
            final(self).wf(),
            applied(
                old(self)@,
                old(self)@.admit_member(caller, account, true),
                final(self)@,
                reply,
            ),
    {
        if !self.is_owner(&caller) {
            return Err(Error::InsufficientPermissions);
        }
        self.enroll(account, true);
        Ok(())
    }

    /// Admits the account to the school, as a student. Only the owner may do so.
    pub fn admit_as_student(&mut self, caller: AccountId, account: AccountId) -> (reply: Result<
        (),
        Error,
    >)
        requires
            old(self).wf(),
        ensures
            final(self).wf(),
            applied(
                old(self)@,
                old(self)@.admit_member(caller, account, false),
                final(self)@,
                reply,
            ),
    {
        if !self.is_owner(&caller) {
            return Err(Error::InsufficientPermissions);
        }
        self.enroll(account, false);
        Ok(())
    }

    /// Returns true if the account is a member of the school.
    pub fn is_school_member(&self, account: AccountId) -> (member: bool)
        requires
            self.wf(),
        ensures
            member == self@.is_school_member(account),
    {
        self.is_school_member_inner(&account)
    }

    /// Returns true if the account is a teacher.
    pub fn is_teacher(&self, account: AccountId) -> (teacher: bool)
        requires
            self.wf(),
        ensures
            teacher == self@.is_teacher(account),
    {
        self.is_teacher_inner(&account)
    }

    /// Gets the tokens that the caller holds, oldest first. Tokens in escrow are not
    /// among them. A caller who holds none gets `NoRegistrations`.
    pub fn get_own_registrations(&self, caller: AccountId) -> (reply: Result<
        Vec<CourseRegistration>,
        Error,
    >)
        requires
            self.wf(),
        ensures
            match reply {
                Ok(own) => own@ == self@.own_registrations(caller) && own@.len() > 0,
                Err(e) => e == Error::NoRegistrations && self@.own_registrations(caller).len()
                    == 0,
            },
    {
        let mut own: Vec<CourseRegistration> = Vec::new();
        let mut i: usize = 0;
        while i < self.registrations.len()
            invariant
                i <= self.registrations.len(),
                own@ == tokens_of(self.registrations@.take(i as int), caller),
            decreases self.registrations.len() - i,
        {
            let held = self.registrations[i];
            proof {
                let longer = self.registrations@.take(i + 1);
                assert(longer.drop_last() =~= self.registrations@.take(i as int));
                assert(longer.last() == held);
                reveal(Seq::filter);
            }
            if held.owner == caller {
                own.push(held);
            }
            i += 1;
        }
        proof {
            assert(self.registrations@.take(i as int) =~= self.registrations@);
        }
        if own.len() == 0 {
            Err(Error::NoRegistrations)
        } else {
            Ok(own)
        }
    }

    /// Gets the info of a course.
    pub fn get_course_info(&self, course_id: CourseId) -> (reply: Result<Course, Error>)
        requires
            self.wf(),
        ensures
            match reply {
                Ok(course) => self@.courses.contains_key(course_id) && course@
                    == self@.courses[course_id],
                Err(e) => e == Error::NonexistentCourse && !self@.courses.contains_key(
                    course_id,
                ),
            },
    {
        match self.course_row(&course_id) {
            Some(row) => {
                proof {
                    lemma_row_in_map(self.courses@, course_key(), course_val(), row as int);
                }
                Ok(self.courses[row].duplicate())
            },
            None => {
                proof {
                    lemma_key_not_in_map(self.courses@, course_key(), course_val(), course_id);
                }
                Err(Error::NonexistentCourse)
            },
        }
    }

    /// Retrieves the pending swap proposals that offer a seat of the course
    /// `course_id`, oldest first. Where there is none, the reply is
    /// `NoProposedSwap`.
    pub fn get_proposed_swaps(&self, course_id: CourseId) -> (reply: Result<
        Vec<CourseRegistrationSwapProposal>,
        Error,
    >)
        requires
            self.wf(),
        ensures
            match reply {
                Ok(found) => swap_views(found@) == self@.proposed_swaps(course_id) && found@.len()
                    > 0,
                Err(e) => e == Error::NoProposedSwap && self@.proposed_swaps(course_id).len()
                    == 0,
            },
    {
        let ghost all = swap_views(self.swaps@);
        let mut found: Vec<CourseRegistrationSwapProposal> = Vec::new();
        let mut i: usize = 0;
        while i < self.swaps.len()
            invariant
                i <= self.swaps.len(),
                all == swap_views(self.swaps@),
                swap_views(found@) == swaps_for(all.take(i as int), course_id),
            decreases self.swaps.len() - i,
        {
            proof {
                let longer = all.take(i + 1);
                assert(longer.drop_last() =~= all.take(i as int));
                assert(longer.last() == self.swaps@[i as int]@);
                reveal(Seq::filter);
            }
            if same_id(&self.swaps[i].offer.course_id, &course_id) {
                let ghost before = found@;
                let copy = self.swaps[i].duplicate();
                found.push(copy);
                proof {
                    assert(swap_views(found@) =~= swap_views(before).push(copy@));
                }
            }
            i += 1;
        }
        proof {
            assert(all.take(i as int) =~= all);
        }
        if found.len() == 0 {
            Err(Error::NoProposedSwap)
        } else {
            Ok(found)
        }
    }

    /// Carries out one command that `caller` gives at the time `now`: the one entry
    /// through which a host can route every call that changes the school.
    pub fn dispatch(&mut self, caller: AccountId, now: Timestamp, command: Command) -> (reply: Result<
        (),
        Error,
    >)
        requires
            old(self).wf(),
        ensures
            final(self).wf(),
            applied(old(self)@, old(self)@.step(caller, now, command), final(self)@, reply),
    {
        match command {
            Command::AdmitAsTeacher { account } => self.admit_as_teacher(caller, account),
            Command::AdmitAsStudent { account } => self.admit_as_student(caller, account),
            Command::CreateCourse { course_id, capacity, start_date } => self.create_course(
                caller,
                course_id,
                capacity,
                start_date,
            ),
            Command::RegisterToCourse { course_id } => self.register_to_course(
                caller,
                course_id,
                now,
            ),
            Command::ProposeSwap { course_id } => self.propose_swap(caller, course_id),
            Command::CounterSwapProposal {
                course_id,
                offerer,
                counter_course_id,
            } => self.counter_swap_proposal(caller, course_id, offerer, counter_course_id),
            Command::AcceptCounterOffer {
                offered_course_id,
                accepted_course_id,
                accepted_owner,
            } => self.accept_counter_offer(
                caller,
                offered_course_id,
                accepted_course_id,
                accepted_owner,
            ),
        }
    }
}

} // verus!
