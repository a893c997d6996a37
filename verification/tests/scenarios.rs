use course_reg::{
    AccountId, Course, CourseId, CourseReg, CourseRegistration, CourseRegistrationSwapProposal,
    Error, Timestamp,
};

const OWNER: [u8; 32] = [0x0; 32];
const TEACHER: [u8; 32] = [0x1; 32];
const C1: CourseId = [0xc1; 32];
const C2: CourseId = [0xc2; 32];
const C3: CourseId = [0xc3; 32];
const START: Timestamp = 1_000;
const NOW: Timestamp = 10;

fn account(byte: u8) -> AccountId {
    AccountId::from([byte; 32])
}

fn token(owner: AccountId, course_id: CourseId) -> CourseRegistration {
    CourseRegistration { owner, course_id }
}

/// A school with one teacher, the students 0x0a to 0x0d, and the courses C1, C2 and
/// C3 with `capacity` seats each.
fn school(capacity: u32) -> CourseReg {
    let owner = AccountId::from(OWNER);
    let teacher = AccountId::from(TEACHER);
    let mut school = CourseReg::new(owner);
    assert_eq!(school.admit_as_teacher(owner, teacher), Ok(()));
    for byte in 0x0a..=0x0d {
        assert_eq!(school.admit_as_student(owner, account(byte)), Ok(()));
    }
    for id in [C1, C2, C3] {
        assert_eq!(school.create_course(teacher, id, capacity, START), Ok(()));
    }
    school
}

/// The tokens of the school that the given accounts hold or that lie in escrow.
fn count_tokens(school: &CourseReg, accounts: &[AccountId], courses: &[CourseId]) -> usize {
    let mut n = 0;
    for a in accounts {
        n += school.get_own_registrations(*a).map(|v| v.len()).unwrap_or(0);
    }
    for c in courses {
        for p in school.get_proposed_swaps(*c).unwrap_or_default() {
            n += 1 + p.counter_offers.len();
        }
    }
    n
}

#[test]
fn new_school_has_owner_as_teacher() {
    let owner = account(0x42);
    let school = CourseReg::new(owner);
    assert!(school.is_school_member(owner));
    assert!(school.is_teacher(owner));
    assert!(!school.is_school_member(account(0x43)));
    assert!(!school.is_teacher(account(0x43)));
}

#[test]
fn default_school_is_led_by_caller() {
    let caller = account(0x42);
    let mut school = CourseReg::default(caller);
    assert!(school.is_teacher(caller));
    assert_eq!(school.admit_as_student(caller, account(0x01)), Ok(()));
    assert_eq!(school.create_course(caller, C1, 1, START), Ok(()));
}

#[test]
fn only_owner_admits() {
    let mut school = school(3);
    let teacher = AccountId::from(TEACHER);
    assert_eq!(
        school.admit_as_teacher(teacher, account(0x20)),
        Err(Error::InsufficientPermissions)
    );
    assert_eq!(
        school.admit_as_student(account(0x0a), account(0x20)),
        Err(Error::InsufficientPermissions)
    );
    assert!(!school.is_school_member(account(0x20)));
}

#[test]
fn later_admission_overwrites_role() {
    let mut school = school(3);
    let owner = AccountId::from(OWNER);
    let teacher = AccountId::from(TEACHER);
    assert_eq!(school.admit_as_student(owner, teacher), Ok(()));
    assert!(school.is_school_member(teacher));
    assert!(!school.is_teacher(teacher));
    assert_eq!(
        school.create_course(teacher, [0x77; 32], 5, START),
        Err(Error::InsufficientPermissions)
    );
    assert_eq!(school.admit_as_teacher(owner, account(0x0a)), Ok(()));
    assert!(school.is_teacher(account(0x0a)));
}

#[test]
fn student_cannot_create_course() {
    let mut school = school(3);
    assert_eq!(
        school.create_course(account(0x0a), [0x77; 32], 5, START),
        Err(Error::InsufficientPermissions)
    );
    assert_eq!(
        school.create_course(account(0x99), [0x77; 32], 5, START),
        Err(Error::InsufficientPermissions)
    );
    assert_eq!(
        school.get_course_info([0x77; 32]),
        Err(Error::NonexistentCourse)
    );
}

#[test]
fn created_course_is_empty() {
    let school = school(3);
    assert_eq!(
        school.get_course_info(C1),
        Ok(Course {
            teacher: AccountId::from(TEACHER),
            course_id: C1,
            capacity: 3,
            registrations: vec![],
            start_date: START,
        })
    );
}

#[test]
fn creating_again_overwrites_course() {
    let mut school = school(3);
    let owner = AccountId::from(OWNER);
    assert_eq!(school.register_to_course(account(0x0a), C1, NOW), Ok(()));
    assert_eq!(school.create_course(owner, C1, 7, 2_000), Ok(()));
    assert_eq!(
        school.get_course_info(C1),
        Ok(Course {
            teacher: owner,
            course_id: C1,
            capacity: 7,
            registrations: vec![],
            start_date: 2_000,
        })
    );
    // the token of the earlier registration stays with its owner
    assert_eq!(
        school.get_own_registrations(account(0x0a)),
        Ok(vec![token(account(0x0a), C1)])
    );
    assert_eq!(
        school.get_course_info(C2).map(|c| c.capacity),
        Ok(3)
    );
}

#[test]
fn registration_appends_to_roster_and_issues_token() {
    let mut school = school(3);
    assert_eq!(school.register_to_course(account(0x0b), C1, NOW), Ok(()));
    assert_eq!(school.register_to_course(account(0x0a), C1, NOW), Ok(()));
    assert_eq!(school.register_to_course(account(0x0a), C2, NOW), Ok(()));
    assert_eq!(
        school.get_course_info(C1).unwrap().registrations,
        vec![account(0x0b), account(0x0a)]
    );
    assert_eq!(
        school.get_own_registrations(account(0x0a)),
        Ok(vec![token(account(0x0a), C1), token(account(0x0a), C2)])
    );
    assert_eq!(
        school.get_own_registrations(account(0x0b)),
        Ok(vec![token(account(0x0b), C1)])
    );
    assert_eq!(
        school.get_own_registrations(account(0x0c)),
        Err(Error::NoRegistrations)
    );
}

#[test]
fn registration_checks_in_order() {
    let mut school = school(1);
    let stranger = account(0x99);
    // a stranger is turned away before the course is looked at
    assert_eq!(
        school.register_to_course(stranger, [0x77; 32], START),
        Err(Error::InsufficientPermissions)
    );
    assert_eq!(
        school.register_to_course(account(0x0a), [0x77; 32], START),
        Err(Error::NonexistentCourse)
    );
    assert_eq!(school.register_to_course(account(0x0a), C1, NOW), Ok(()));
    // a full course is reported before a double registration and before the start
    assert_eq!(
        school.register_to_course(account(0x0a), C1, START),
        Err(Error::CourseCapacityFull)
    );
    assert_eq!(
        school.register_to_course(account(0x0b), C1, START + 1),
        Err(Error::CourseCapacityFull)
    );
}

#[test]
fn second_registration_is_refused() {
    let mut school = school(10);
    assert_eq!(school.register_to_course(account(0x0a), C1, NOW), Ok(()));
    assert_eq!(
        school.register_to_course(account(0x0a), C1, NOW),
        Err(Error::AlreadyRegistered)
    );
    // also where the course has started meanwhile
    assert_eq!(
        school.register_to_course(account(0x0a), C1, START + 5),
        Err(Error::AlreadyRegistered)
    );
    assert_eq!(
        school.get_course_info(C1).unwrap().registrations,
        vec![account(0x0a)]
    );
    assert_eq!(
        school.get_own_registrations(account(0x0a)),
        Ok(vec![token(account(0x0a), C1)])
    );
}

#[test]
fn registration_closes_at_start_date() {
    let mut school = school(10);
    assert_eq!(
        school.register_to_course(account(0x0a), C1, START - 1),
        Ok(())
    );
    assert_eq!(
        school.register_to_course(account(0x0b), C1, START),
        Err(Error::CourseAlreadyStarted)
    );
    assert_eq!(
        school.register_to_course(account(0x0b), C1, START + 1),
        Err(Error::CourseAlreadyStarted)
    );
    assert_eq!(
        school.register_to_course(account(0x0b), C1, u64::MAX),
        Err(Error::CourseAlreadyStarted)
    );
    assert_eq!(
        school.get_own_registrations(account(0x0b)),
        Err(Error::NoRegistrations)
    );
}

#[test]
fn course_without_seats_takes_nobody() {
    let mut school = school(0);
    assert_eq!(
        school.register_to_course(account(0x0a), C1, NOW),
        Err(Error::CourseCapacityFull)
    );
}

#[test]
fn rosters_stay_within_capacity_and_without_duplicates() {
    let mut school = school(2);
    let students = [account(0x0a), account(0x0b), account(0x0c), account(0x0d)];
    for round in 0..3 {
        for s in students {
            for id in [C1, C2] {
                let _ = school.register_to_course(s, id, NOW + round);
            }
        }
    }
    for id in [C1, C2] {
        let course = school.get_course_info(id).unwrap();
        assert_eq!(course.registrations, vec![account(0x0a), account(0x0b)]);
        assert!(course.registrations.len() <= course.capacity as usize);
    }
    assert_eq!(school.get_course_info(C3).unwrap().registrations, vec![]);
}

#[test]
fn full_course_refuses_second_student() {
    let owner = AccountId::from(OWNER);
    let (a, b) = (account(0x0a), account(0x0b));
    let mut school = CourseReg::new(owner);
    assert_eq!(school.admit_as_student(owner, a), Ok(()));
    assert_eq!(school.admit_as_student(owner, b), Ok(()));
    let c1 = CourseReg::hash_keccak_256("C1".as_bytes());
    assert_eq!(school.create_course(owner, c1, 1, START), Ok(()));
    assert_eq!(school.register_to_course(a, c1, NOW), Ok(()));
    assert_eq!(
        school.register_to_course(b, c1, NOW),
        Err(Error::CourseCapacityFull)
    );
}

#[test]
fn proposal_needs_a_held_token() {
    let mut school = school(3);
    let a = account(0x0a);
    assert_eq!(
        school.propose_swap(a, C1),
        Err(Error::NoSwappableRegistrations)
    );
    assert_eq!(school.register_to_course(a, C2, NOW), Ok(()));
    assert_eq!(
        school.propose_swap(a, C1),
        Err(Error::NoSwappableRegistrations)
    );
    assert_eq!(school.propose_swap(a, C2), Ok(()));
    // the token is in escrow now
    assert_eq!(
        school.propose_swap(a, C2),
        Err(Error::NoSwappableRegistrations)
    );
    assert_eq!(school.get_own_registrations(a), Err(Error::NoRegistrations));
}

#[test]
fn proposal_escrows_the_token() {
    let mut school = school(3);
    let a = account(0x0a);
    assert_eq!(school.register_to_course(a, C1, NOW), Ok(()));
    assert_eq!(school.register_to_course(a, C2, NOW), Ok(()));
    assert_eq!(school.register_to_course(a, C3, NOW), Ok(()));
    assert_eq!(school.propose_swap(a, C2), Ok(()));
    assert_eq!(
        school.get_own_registrations(a),
        Ok(vec![token(a, C1), token(a, C3)])
    );
    assert_eq!(
        school.get_proposed_swaps(C2),
        Ok(vec![CourseRegistrationSwapProposal {
            offer: token(a, C2),
            counter_offers: vec![],
        }])
    );
    assert_eq!(school.get_proposed_swaps(C1), Err(Error::NoProposedSwap));
}

#[test]
fn proposals_are_listed_by_course_oldest_first() {
    let mut school = school(3);
    let (a, b, c) = (account(0x0a), account(0x0b), account(0x0c));
    for s in [a, b, c] {
        assert_eq!(school.register_to_course(s, C1, NOW), Ok(()));
    }
    assert_eq!(school.register_to_course(a, C2, NOW), Ok(()));
    assert_eq!(school.propose_swap(b, C1), Ok(()));
    assert_eq!(school.propose_swap(a, C2), Ok(()));
    assert_eq!(school.propose_swap(a, C1), Ok(()));
    let offers: Vec<CourseRegistration> = school
        .get_proposed_swaps(C1)
        .unwrap()
        .iter()
        .map(|p| p.offer)
        .collect();
    assert_eq!(offers, vec![token(b, C1), token(a, C1)]);
    let offers: Vec<CourseRegistration> = school
        .get_proposed_swaps(C2)
        .unwrap()
        .iter()
        .map(|p| p.offer)
        .collect();
    assert_eq!(offers, vec![token(a, C2)]);
    assert_eq!(school.get_proposed_swaps(C3), Err(Error::NoProposedSwap));
}

#[test]
fn counter_offer_needs_token_and_proposal() {
    let mut school = school(3);
    let (a, b) = (account(0x0a), account(0x0b));
    assert_eq!(school.register_to_course(a, C1, NOW), Ok(()));
    assert_eq!(school.propose_swap(a, C1), Ok(()));
    // b holds nothing
    assert_eq!(
        school.counter_swap_proposal(b, C1, a, C2),
        Err(Error::NoProposedSwap)
    );
    assert_eq!(school.register_to_course(b, C2, NOW), Ok(()));
    // b holds no token for C3
    assert_eq!(
        school.counter_swap_proposal(b, C1, a, C3),
        Err(Error::NoProposedSwap)
    );
    // nobody proposed a swap of C3, and b did not propose one of C1
    assert_eq!(
        school.counter_swap_proposal(b, C3, a, C2),
        Err(Error::NoProposedSwap)
    );
    assert_eq!(
        school.counter_swap_proposal(b, C1, b, C2),
        Err(Error::NoProposedSwap)
    );
    // a refused counter-offer leaves the token with its owner
    assert_eq!(school.get_own_registrations(b), Ok(vec![token(b, C2)]));
    assert_eq!(
        school.get_proposed_swaps(C1),
        Ok(vec![CourseRegistrationSwapProposal {
            offer: token(a, C1),
            counter_offers: vec![],
        }])
    );
    assert_eq!(school.counter_swap_proposal(b, C1, a, C2), Ok(()));
    assert_eq!(school.get_own_registrations(b), Err(Error::NoRegistrations));
    assert_eq!(
        school.get_proposed_swaps(C1),
        Ok(vec![CourseRegistrationSwapProposal {
            offer: token(a, C1),
            counter_offers: vec![token(b, C2)],
        }])
    );
}

#[test]
fn counter_offers_go_to_the_oldest_proposal_of_the_offerer() {
    let mut school = school(3);
    let owner = AccountId::from(OWNER);
    let (a, b, c) = (account(0x0a), account(0x0b), account(0x0c));
    assert_eq!(school.register_to_course(a, C1, NOW), Ok(()));
    assert_eq!(school.propose_swap(a, C1), Ok(()));
    assert_eq!(school.register_to_course(c, C1, NOW), Ok(()));
    assert_eq!(school.propose_swap(c, C1), Ok(()));
    // a second token of a for C1: the course is created anew and a registers again
    assert_eq!(school.create_course(owner, C1, 3, START), Ok(()));
    assert_eq!(school.register_to_course(a, C1, NOW), Ok(()));
    assert_eq!(school.propose_swap(a, C1), Ok(()));
    assert_eq!(school.register_to_course(b, C2, NOW), Ok(()));
    assert_eq!(school.register_to_course(b, C3, NOW), Ok(()));
    assert_eq!(school.counter_swap_proposal(b, C1, a, C3), Ok(()));
    assert_eq!(school.counter_swap_proposal(b, C1, a, C2), Ok(()));
    assert_eq!(
        school.get_proposed_swaps(C1),
        Ok(vec![
            CourseRegistrationSwapProposal {
                offer: token(a, C1),
                counter_offers: vec![token(b, C3), token(b, C2)],
            },
            CourseRegistrationSwapProposal {
                offer: token(c, C1),
                counter_offers: vec![],
            },
            CourseRegistrationSwapProposal {
                offer: token(a, C1),
                counter_offers: vec![],
            },
        ])
    );
}

#[test]
fn tokens_are_conserved_by_proposal_and_counter_offer() {
    let mut school = school(3);
    let (a, b) = (account(0x0a), account(0x0b));
    let accounts = [a, b];
    let courses = [C1, C2, C3];
    assert_eq!(school.register_to_course(a, C1, NOW), Ok(()));
    assert_eq!(school.register_to_course(a, C3, NOW), Ok(()));
    assert_eq!(school.register_to_course(b, C2, NOW), Ok(()));
    assert_eq!(count_tokens(&school, &accounts, &courses), 3);
    assert_eq!(school.propose_swap(a, C1), Ok(()));
    assert_eq!(count_tokens(&school, &accounts, &courses), 3);
    assert_eq!(
        school.propose_swap(b, C1),
        Err(Error::NoSwappableRegistrations)
    );
    assert_eq!(count_tokens(&school, &accounts, &courses), 3);
    assert_eq!(school.counter_swap_proposal(b, C1, a, C2), Ok(()));
    assert_eq!(count_tokens(&school, &accounts, &courses), 3);
    assert_eq!(
        school.counter_swap_proposal(a, C2, b, C3),
        Err(Error::NoProposedSwap)
    );
    assert_eq!(count_tokens(&school, &accounts, &courses), 3);
    // two leave the escrow, two are handed out
    assert_eq!(school.accept_counter_offer(a, C1, C2, b), Ok(()));
    assert_eq!(count_tokens(&school, &accounts, &courses), 3);
}

#[test]
fn swap_round_trip() {
    let owner = AccountId::from(OWNER);
    let (a, b) = (account(0x0a), account(0x0b));
    let mut school = CourseReg::new(owner);
    assert_eq!(school.admit_as_student(owner, a), Ok(()));
    assert_eq!(school.admit_as_student(owner, b), Ok(()));
    assert_eq!(school.create_course(owner, C1, 5, START), Ok(()));
    assert_eq!(school.create_course(owner, C2, 5, START), Ok(()));
    assert_eq!(school.register_to_course(a, C1, NOW), Ok(()));
    assert_eq!(school.propose_swap(a, C1), Ok(()));
    assert_eq!(school.register_to_course(b, C2, NOW), Ok(()));
    assert_eq!(school.counter_swap_proposal(b, C1, a, C2), Ok(()));
    assert_eq!(school.accept_counter_offer(a, C1, C2, b), Ok(()));
    assert_eq!(school.get_own_registrations(a), Ok(vec![token(a, C2)]));
    assert_eq!(school.get_own_registrations(b), Ok(vec![token(b, C1)]));
    // the proposal is closed, and the two have changed places in the rosters
    assert_eq!(school.get_proposed_swaps(C1), Err(Error::NoProposedSwap));
    assert_eq!(school.get_course_info(C1).unwrap().registrations, vec![b]);
    assert_eq!(school.get_course_info(C2).unwrap().registrations, vec![a]);
    // the tokens that went into escrow are spent
    assert_eq!(
        school.propose_swap(a, C1),
        Err(Error::NoSwappableRegistrations)
    );
    assert_eq!(
        school.propose_swap(b, C2),
        Err(Error::NoSwappableRegistrations)
    );
    assert_eq!(
        school.accept_counter_offer(a, C1, C2, b),
        Err(Error::NoProposedSwap)
    );
}

#[test]
fn roster_entry_is_replaced_in_place() {
    let mut school = school(4);
    let (a, b, c, d) = (account(0x0a), account(0x0b), account(0x0c), account(0x0d));
    for s in [c, a, d] {
        assert_eq!(school.register_to_course(s, C1, NOW), Ok(()));
    }
    for s in [d, b, c] {
        assert_eq!(school.register_to_course(s, C2, NOW), Ok(()));
    }
    assert_eq!(school.propose_swap(a, C1), Ok(()));
    assert_eq!(school.counter_swap_proposal(b, C1, a, C2), Ok(()));
    assert_eq!(school.accept_counter_offer(a, C1, C2, b), Ok(()));
    assert_eq!(
        school.get_course_info(C1).unwrap().registrations,
        vec![c, b, d]
    );
    assert_eq!(
        school.get_course_info(C2).unwrap().registrations,
        vec![d, a, c]
    );
}

#[test]
fn unaccepted_counter_offer_is_lost_with_the_proposal() {
    let mut school = school(3);
    let (a, b, c) = (account(0x0a), account(0x0b), account(0x0c));
    assert_eq!(school.register_to_course(a, C1, NOW), Ok(()));
    assert_eq!(school.propose_swap(a, C1), Ok(()));
    assert_eq!(school.register_to_course(b, C2, NOW), Ok(()));
    assert_eq!(school.register_to_course(c, C3, NOW), Ok(()));
    assert_eq!(school.counter_swap_proposal(b, C1, a, C2), Ok(()));
    assert_eq!(school.counter_swap_proposal(c, C1, a, C3), Ok(()));
    assert_eq!(count_tokens(&school, &[a, b, c], &[C1, C2, C3]), 3);
    assert_eq!(school.accept_counter_offer(a, C1, C2, b), Ok(()));
    assert_eq!(school.get_own_registrations(a), Ok(vec![token(a, C2)]));
    assert_eq!(school.get_own_registrations(b), Ok(vec![token(b, C1)]));
    // the second counter-offer went with the proposal; its owner does not get it back
    assert_eq!(school.get_own_registrations(c), Err(Error::NoRegistrations));
    assert_eq!(school.get_proposed_swaps(C1), Err(Error::NoProposedSwap));
    assert_eq!(
        school.accept_counter_offer(a, C1, C3, c),
        Err(Error::NoProposedSwap)
    );
    assert_eq!(
        school.propose_swap(c, C3),
        Err(Error::NoSwappableRegistrations)
    );
    assert_eq!(count_tokens(&school, &[a, b, c], &[C1, C2, C3]), 2);
    // c still sits in the roster of C3
    assert_eq!(school.get_course_info(C3).unwrap().registrations, vec![c]);
}

#[test]
fn refused_acceptance_changes_nothing() {
    let mut school = school(3);
    let (a, b, c) = (account(0x0a), account(0x0b), account(0x0c));
    assert_eq!(school.register_to_course(a, C1, NOW), Ok(()));
    assert_eq!(school.register_to_course(b, C2, NOW), Ok(()));
    // no proposal at all
    assert_eq!(
        school.accept_counter_offer(a, C1, C2, b),
        Err(Error::NoProposedSwap)
    );
    assert_eq!(school.propose_swap(a, C1), Ok(()));
    // a proposal without counter-offer
    assert_eq!(
        school.accept_counter_offer(a, C1, C2, b),
        Err(Error::NoProposedSwap)
    );
    assert_eq!(school.counter_swap_proposal(b, C1, a, C2), Ok(()));
    // a counter-offer that was never made, and a proposal of somebody else
    assert_eq!(
        school.accept_counter_offer(a, C1, C3, b),
        Err(Error::NoProposedSwap)
    );
    assert_eq!(
        school.accept_counter_offer(a, C1, C2, c),
        Err(Error::NoProposedSwap)
    );
    assert_eq!(
        school.accept_counter_offer(b, C1, C2, b),
        Err(Error::NoProposedSwap)
    );
    let pending = vec![CourseRegistrationSwapProposal {
        offer: token(a, C1),
        counter_offers: vec![token(b, C2)],
    }];
    assert_eq!(school.get_proposed_swaps(C1), Ok(pending));
    assert_eq!(school.get_course_info(C1).unwrap().registrations, vec![a]);
    assert_eq!(school.get_course_info(C2).unwrap().registrations, vec![b]);
    assert_eq!(school.get_own_registrations(a), Err(Error::NoRegistrations));
    assert_eq!(school.accept_counter_offer(a, C1, C2, b), Ok(()));
}

#[test]
fn acceptance_fails_where_a_roster_lacks_its_party() {
    let mut school = school(3);
    let owner = AccountId::from(OWNER);
    let (a, b) = (account(0x0a), account(0x0b));
    assert_eq!(school.register_to_course(a, C1, NOW), Ok(()));
    assert_eq!(school.register_to_course(b, C2, NOW), Ok(()));
    assert_eq!(school.propose_swap(a, C1), Ok(()));
    assert_eq!(school.counter_swap_proposal(b, C1, a, C2), Ok(()));
    // C1 is created anew: its roster is empty and lacks a
    assert_eq!(school.create_course(owner, C1, 3, START), Ok(()));
    assert_eq!(
        school.accept_counter_offer(a, C1, C2, b),
        Err(Error::NoProposedSwap)
    );
    // nothing was handed out, nothing was taken, and the roster of C2 is as it was
    assert_eq!(school.get_own_registrations(a), Err(Error::NoRegistrations));
    assert_eq!(school.get_own_registrations(b), Err(Error::NoRegistrations));
    assert_eq!(school.get_course_info(C2).unwrap().registrations, vec![b]);
    assert_eq!(
        school.get_proposed_swaps(C1).map(|v| v.len()),
        Ok(1)
    );
}

#[test]
fn swap_within_one_course() {
    let mut school = school(3);
    let (a, b) = (account(0x0a), account(0x0b));
    assert_eq!(school.register_to_course(a, C1, NOW), Ok(()));
    assert_eq!(school.register_to_course(b, C1, NOW), Ok(()));
    assert_eq!(school.propose_swap(a, C1), Ok(()));
    assert_eq!(school.counter_swap_proposal(b, C1, a, C1), Ok(()));
    assert_eq!(school.accept_counter_offer(a, C1, C1, b), Ok(()));
    assert_eq!(school.get_own_registrations(a), Ok(vec![token(a, C1)]));
    assert_eq!(school.get_own_registrations(b), Ok(vec![token(b, C1)]));
    assert_eq!(
        school.get_course_info(C1).unwrap().registrations,
        vec![b, a]
    );
}

#[test]
fn keccak_256_of_known_inputs() {
    assert_eq!(
        CourseReg::hash_keccak_256(b""),
        [
            0xc5, 0xd2, 0x46, 0x01, 0x86, 0xf7, 0x23, 0x3c, 0x92, 0x7e, 0x7d, 0xb2, 0xdc, 0xc7,
            0x03, 0xc0, 0xe5, 0x00, 0xb6, 0x53, 0xca, 0x82, 0x27, 0x3b, 0x7b, 0xfa, 0xd8, 0x04,
            0x5d, 0x85, 0xa4, 0x70,
        ]
    );
    assert_eq!(
        CourseReg::hash_keccak_256(b"DEAD_BEEF"),
        [
            24, 230, 209, 59, 127, 30, 158, 244, 60, 177, 132, 150, 167, 244, 64, 69, 184, 123,
            185, 44, 211, 199, 208, 179, 14, 64, 126, 140, 217, 69, 36, 216,
        ]
    );
}

#[test]
fn keccak_256_tells_names_apart() {
    let one = CourseReg::hash_keccak_256("test_course1".as_bytes());
    let two = CourseReg::hash_keccak_256("test_course2".as_bytes());
    assert_ne!(one, two);
    assert_eq!(one, CourseReg::hash_keccak_256("test_course1".as_bytes()));
    // a digest of 32 bytes is not the 32 bytes that were put in
    let input = [0x11u8; 32];
    assert_ne!(CourseReg::hash_keccak_256(&input), input);
}

#[test]
fn account_ids_compare_by_their_bytes() {
    let mut bytes = [0x5a; 32];
    let a = AccountId::from(bytes);
    assert_eq!(a, AccountId::from([0x5a; 32]));
    bytes[31] = 0x5b;
    assert_ne!(a, AccountId::from(bytes));
    assert_eq!(token(a, C1), token(AccountId::from([0x5a; 32]), C1));
    assert_ne!(token(a, C1), token(a, C2));
    assert_ne!(token(a, C1), token(AccountId::from(bytes), C1));
}
