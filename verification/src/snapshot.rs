use vstd::prelude::*;
use crate::ident::{same_id, AccountId, CourseId};
use crate::model::State;
use crate::records::{
    swap_views, Course, CourseRegistration, CourseRegistrationSwapProposal, CourseView,
};
use crate::table::{as_map, keys_distinct, lemma_row_in_map};

verus! {

/// One admission: an account and whether it was admitted as a teacher.
pub struct Member {
    pub account: AccountId,
    pub teacher: bool,
}

/// The key of a row of the membership list: the account.
pub open spec fn member_key() -> spec_fn(Member) -> AccountId {
    |m: Member| m.account
}

/// What a row of the membership list says of its account: whether it is a teacher.
pub open spec fn member_val() -> spec_fn(Member) -> bool {
    |m: Member| m.teacher
}

/// The key of a row of the catalog: the course's id.
pub open spec fn course_key() -> spec_fn(Course) -> CourseId {
    |c: Course| c.course_id
}

/// What a row of the catalog says of its course.
pub open spec fn course_val() -> spec_fn(Course) -> CourseView {
    |c: Course| c@
}

/// Every course of `courses` lists at most as many students as it has seats.
pub open spec fn rosters_fit(courses: Seq<Course>) -> bool {
    forall|i: int|
        0 <= i < courses.len() ==> (#[trigger] courses[i]).registrations.len()
            <= courses[i].capacity
}

/// All that an engine holds, as plain tables: what a host keeps between two calls.
pub struct Snapshot {
    /// the owner of the school
    pub owner: AccountId,
    /// the members of the school
    pub school_members: Vec<Member>,
    /// the courses
    pub courses: Vec<Course>,
    /// the pending swap proposals of all courses, oldest first
    pub swaps: Vec<CourseRegistrationSwapProposal>,
    /// the tokens that their owners hold, oldest first
    pub registrations: Vec<CourseRegistration>,
}

impl Snapshot {
    /// The state that the tables describe.
    pub open spec fn state(&self) -> State {
        State {
            owner: self.owner,
            members: as_map(self.school_members@, member_key(), member_val()),
            courses: as_map(self.courses@, course_key(), course_val()),
            swaps: swap_views(self.swaps@),
            registrations: self.registrations@,
        }
    }

    /// The tables describe a state that an engine can work on: no account has two
    /// rows in the membership list, no course id has two rows in the catalog, and no
    /// course lists more students than it has seats.
    pub open spec fn valid(&self) -> bool {
        &&& keys_distinct(self.school_members@, member_key())
        &&& keys_distinct(self.courses@, course_key())
        &&& rosters_fit(self.courses@)
    }

    /// Decides whether the tables are valid.
    pub fn is_valid(&self) -> (ok: bool)
        ensures
            ok == self.valid(),
    {
        accounts_distinct(&self.school_members) && course_ids_distinct(&self.courses)
            && all_rosters_fit(&self.courses)
    }
}

/// Valid tables describe a state in which every course respects its capacity.
pub proof fn lemma_fitting_rows_respect_capacity(courses: Seq<Course>)
    requires
        rosters_fit(courses),
    ensures
        forall|id: CourseId| #[trigger]
            as_map(courses, course_key(), course_val()).contains_key(id) ==> as_map(
                courses,
                course_key(),
                course_val(),
            )[id].registrations.len() <= as_map(courses, course_key(), course_val())[id].capacity,
{
}

/// Rows with distinct ids whose map respects every capacity fit their capacities.
pub proof fn lemma_capacity_respected_fits_rows(courses: Seq<Course>)
    requires
        keys_distinct(courses, course_key()),
        forall|id: CourseId| #[trigger]
            as_map(courses, course_key(), course_val()).contains_key(id) ==> as_map(
                courses,
                course_key(),
                course_val(),
            )[id].registrations.len() <= as_map(courses, course_key(), course_val())[id].capacity,
    ensures
        rosters_fit(courses),
{
    assert forall|i: int| 0 <= i < courses.len() implies (#[trigger] courses[i]).registrations.len()
        <= courses[i].capacity by {
        lemma_row_in_map(courses, course_key(), course_val(), i);
    }
}

/// Decides whether every account has at most one row.
fn accounts_distinct(members: &Vec<Member>) -> (ok: bool)
    ensures
        ok == keys_distinct(members@, member_key()),
{
    let mut j: usize = 0;
    while j < members.len()
        invariant
            j <= members.len(),
            forall|a: int, b: int|
                0 <= a < b < j ==> (#[trigger] members[a]).account != (#[trigger] members[b]).account,
        decreases members.len() - j,
    {
        let mut i: usize = 0;
        while i < j
            invariant
                i <= j < members.len(),
                forall|a: int| 0 <= a < i ==> (#[trigger] members[a]).account != members[j as int].account,
            decreases j - i,
        {
            if members[i].account == members[j].account {
                proof {
                    assert(member_key()(members@[i as int]) == member_key()(members@[j as int]));
                }
                return false;
            }
            i += 1;
        }
        j += 1;
    }
    true
}

/// Decides whether every course id has at most one row.
fn course_ids_distinct(courses: &Vec<Course>) -> (ok: bool)
    ensures
        ok == keys_distinct(courses@, course_key()),
{
    let mut j: usize = 0;
    while j < courses.len()
        invariant
            j <= courses.len(),
            forall|a: int, b: int|
                0 <= a < b < j ==> (#[trigger] courses[a]).course_id != (#[trigger] courses[b]).course_id,
        decreases courses.len() - j,
    {
        let mut i: usize = 0;
        while i < j
            invariant
                i <= j < courses.len(),
                forall|a: int| 0 <= a < i ==> (#[trigger] courses[a]).course_id != courses[j as int].course_id,
            decreases j - i,
        {
            if same_id(&courses[i].course_id, &courses[j].course_id) {
                proof {
                    assert(course_key()(courses@[i as int]) == course_key()(courses@[j as int]));
                }
                return false;
            }
            i += 1;
        }
        j += 1;
    }
    true
}

/// Decides whether every course lists at most as many students as it has seats.
fn all_rosters_fit(courses: &Vec<Course>) -> (ok: bool)
    ensures
        ok == rosters_fit(courses@),
{
    let mut i: usize = 0;
    while i < courses.len()
        invariant
            i <= courses.len(),
            forall|a: int| 0 <= a < i ==> (#[trigger] courses[a]).registrations.len() <= courses[a].capacity,
        decreases courses.len() - i,
    {
        if courses[i].registrations.len() > courses[i].capacity as usize {
            return false;
        }
        i += 1;
    }
    true
}

} // verus!
