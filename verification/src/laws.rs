use vstd::prelude::*;
use crate::ident::{AccountId, CourseId, Timestamp};
use crate::command::{Call, Command};
use crate::model::{escrowed, offers, token, State};
use crate::records::{CourseRegistration, Error, SwapProposalView};
use crate::search::lemma_index_found;

verus! {

/// A proposal more holds its offer and its counter-offers more in escrow.
pub proof fn lemma_escrowed_push(swaps: Seq<SwapProposalView>, proposal: SwapProposalView)
    ensures
        escrowed(swaps.push(proposal)) == escrowed(swaps) + 1 + proposal.counter_offers.len(),
{
    assert(swaps.push(proposal).drop_last() =~= swaps);
}

/// A proposal that gives way to another changes the escrow by the difference of
/// their counter-offers.
pub proof fn lemma_escrowed_update(swaps: Seq<SwapProposalView>, at: int, proposal: SwapProposalView)
    requires
        0 <= at < swaps.len(),
    ensures
        escrowed(swaps.update(at, proposal)) + swaps[at].counter_offers.len() == escrowed(swaps)
            + proposal.counter_offers.len(),
    decreases swaps.len(),
{
    let changed = swaps.update(at, proposal);
    if at == swaps.len() - 1 {
        assert(changed.drop_last() =~= swaps.drop_last());
    } else {
        assert(changed.drop_last() =~= swaps.drop_last().update(at, proposal));
        lemma_escrowed_update(swaps.drop_last(), at, proposal);
    }
}

/// A proposal that leaves takes its offer and its counter-offers out of escrow.
pub proof fn lemma_escrowed_remove(swaps: Seq<SwapProposalView>, at: int)
    requires
        0 <= at < swaps.len(),
    ensures
        escrowed(swaps.remove(at)) + 1 + swaps[at].counter_offers.len() == escrowed(swaps),
    decreases swaps.len(),
{
    let rest = swaps.remove(at);
    if at == swaps.len() - 1 {
        assert(rest =~= swaps.drop_last());
    } else {
        assert(rest.drop_last() =~= swaps.drop_last().remove(at));
        assert(rest.last() == swaps.last());
        lemma_escrowed_remove(swaps.drop_last(), at);
    }
}

/// A new school has no course, so no roster that is too long or names an account
/// twice.
pub proof fn initial_rosters_are_sound(owner: AccountId)
    ensures
        State::initial(owner).capacity_respected(),
        State::initial(owner).rosters_distinct(),
{
}

/// No call, whatever it asks for, makes a course list more students than it has
/// seats.
pub proof fn call_respects_capacity(s: State, caller: AccountId, now: Timestamp, command: Command)
    requires
        s.capacity_respected(),
    ensures
        s.step(caller, now, command) matches Ok(next) ==> next.capacity_respected(),
{
    if let Ok(next) = s.step(caller, now, command) {
        match command {
            Command::AcceptCounterOffer {
                offered_course_id,
                accepted_course_id,
                accepted_owner,
            } => {
                let half = s.replace_roster_entry(accepted_course_id, accepted_owner, caller)->Ok_0;
                lemma_index_found(s.courses[accepted_course_id].registrations, accepted_owner);
                lemma_index_found(half.courses[offered_course_id].registrations, caller);
                assert(half.capacity_respected()) by {
                    assert forall|id: CourseId| #[trigger]
                        half.courses.contains_key(id) implies half.courses[id].registrations.len()
                        <= half.courses[id].capacity by {
                        if id != accepted_course_id {
                            assert(s.courses.contains_key(id));
                        }
                    }
                }
                assert forall|id: CourseId| #[trigger]
                    next.courses.contains_key(id) implies next.courses[id].registrations.len()
                    <= next.courses[id].capacity by {
                    if id != offered_course_id {
                        assert(half.courses.contains_key(id));
                    }
                }
            },
            Command::RegisterToCourse { course_id } => {
                assert forall|id: CourseId| #[trigger]
                    next.courses.contains_key(id) implies next.courses[id].registrations.len()
                    <= next.courses[id].capacity by {
                    if id != course_id {
                        assert(s.courses.contains_key(id));
                    }
                }
            },
            Command::CreateCourse { course_id, capacity, start_date } => {
                assert forall|id: CourseId| #[trigger]
                    next.courses.contains_key(id) implies next.courses[id].registrations.len()
                    <= next.courses[id].capacity by {
                    if id != course_id {
                        assert(s.courses.contains_key(id));
                    }
                }
            },
            _ => {},
        }
    }
}

/// No call but an acceptance makes a roster name an account twice that named none
/// twice before. (An acceptance can: it seats the caller in the accepted course,
/// where they may sit already.)
pub proof fn call_keeps_rosters_distinct(
    s: State,
    caller: AccountId,
    now: Timestamp,
    command: Command,
)
    requires
        s.rosters_distinct(),
        !(command is AcceptCounterOffer),
    ensures
        s.step(caller, now, command) matches Ok(next) ==> next.rosters_distinct(),
{
    if let Ok(next) = s.step(caller, now, command) {
        match command {
            Command::RegisterToCourse { course_id } => {
                let roster = s.courses[course_id].registrations;
                assert(roster.no_duplicates());
                assert(roster.push(caller).no_duplicates());
                assert forall|id: CourseId| #[trigger]
                    next.courses.contains_key(
                        id,
                    ) implies next.courses[id].registrations.no_duplicates() by {
                    if id != course_id {
                        assert(s.courses.contains_key(id));
                    }
                }
            },
            Command::CreateCourse { course_id, capacity, start_date } => {
                assert forall|id: CourseId| #[trigger]
                    next.courses.contains_key(
                        id,
                    ) implies next.courses[id].registrations.no_duplicates() by {
                    if id != course_id {
                        assert(s.courses.contains_key(id));
                    }
                }
            },
            _ => {},
        }
    }
}

/// In every state that a school can reach, no course lists more students than it
/// has seats: whatever calls are made, accepted or refused.
pub proof fn capacity_respected_after_calls(s: State, calls: Seq<Call>)
    requires
        s.capacity_respected(),
    ensures
        s.after(calls).capacity_respected(),
    decreases calls.len(),
{
    if calls.len() > 0 {
        capacity_respected_after_calls(s, calls.drop_last());
        let call = calls.last();
        call_respects_capacity(s.after(calls.drop_last()), call.caller, call.now, call.command);
    }
}

/// After any sequence of calls without an acceptance, and so after any sequence
/// of registrations, no roster names an account twice.
pub proof fn rosters_distinct_after_calls(s: State, calls: Seq<Call>)
    requires
        s.rosters_distinct(),
        forall|i: int| 0 <= i < calls.len() ==> !((#[trigger] calls[i]).command is AcceptCounterOffer),
    ensures
        s.after(calls).rosters_distinct(),
    decreases calls.len(),
{
    if calls.len() > 0 {
        let earlier = calls.drop_last();
        assert forall|i: int| 0 <= i < earlier.len() implies !((#[trigger] earlier[i]).command
            is AcceptCounterOffer) by {
            assert(earlier[i] == calls[i]);
        }
        rosters_distinct_after_calls(s, earlier);
        let call = calls.last();
        call_keeps_rosters_distinct(s.after(earlier), call.caller, call.now, call.command);
    }
}

/// Who has taken a seat in a course is refused a second one, at whatever time
/// they ask: as `AlreadyRegistered` while the course has a free seat, as
/// `CourseCapacityFull` once it has none.
pub proof fn second_registration_is_refused(
    s: State,
    caller: AccountId,
    course_id: CourseId,
    now: Timestamp,
    later: Timestamp,
)
    requires
        s.register(caller, course_id, now) is Ok,
    ensures
        ({
            let next = s.register(caller, course_id, now)->Ok_0;
            let course = next.courses[course_id];
            next.register(caller, course_id, later) == Err::<State, Error>(
                if course.registrations.len() >= course.capacity {
                    Error::CourseCapacityFull
                } else {
                    Error::AlreadyRegistered
                },
            )
        }),
{
    let roster = s.courses[course_id].registrations;
    assert(roster.push(caller)[roster.len() as int] == caller);
}

/// From the start date of a course on, nobody is registered to it. The error is
/// `CourseAlreadyStarted` for a member who asks for a free seat of the course and
/// does not sit in it yet; for the others an earlier check decides.
pub proof fn late_registration_is_refused(
    s: State,
    caller: AccountId,
    course_id: CourseId,
    now: Timestamp,
)
    requires
        s.courses.contains_key(course_id),
        now >= s.courses[course_id].start_date,
    ensures
        s.register(caller, course_id, now) is Err,
        ({
            let course = s.courses[course_id];
            s.is_school_member(caller) && course.registrations.len() < course.capacity
                && !course.registrations.contains(caller) ==> s.register(caller, course_id, now)
                == Err::<State, Error>(Error::CourseAlreadyStarted)
        }),
{
}

/// A proposal moves one token from its owner into escrow: the number of tokens
/// in the state is the same before and after.
pub proof fn propose_swap_conserves_tokens(s: State, caller: AccountId, course_id: CourseId)
    ensures
        s.propose_swap(caller, course_id) matches Ok(next) ==> next.token_count()
            == s.token_count(),
{
    if let Ok(next) = s.propose_swap(caller, course_id) {
        let offer = token(caller, course_id);
        lemma_index_found(s.registrations, offer);
        lemma_escrowed_push(s.swaps, next.swaps.last());
    }
}

/// A counter-offer moves one token from its owner into escrow: the number of
/// tokens in the state is the same before and after.
pub proof fn counter_swap_proposal_conserves_tokens(
    s: State,
    caller: AccountId,
    course_id: CourseId,
    offerer: AccountId,
    counter_course_id: CourseId,
)
    ensures
        s.counter_swap_proposal(caller, course_id, offerer, counter_course_id) matches Ok(next)
            ==> next.token_count() == s.token_count(),
{
    if let Ok(next) = s.counter_swap_proposal(caller, course_id, offerer, counter_course_id) {
        lemma_index_found(s.registrations, token(caller, counter_course_id));
        lemma_index_found(offers(s.swaps), token(offerer, course_id));
        let at = offers(s.swaps).index_of_first(token(offerer, course_id))->Some_0;
        lemma_escrowed_update(s.swaps, at, next.swaps[at]);
    }
}

/// An acceptance takes two tokens out of escrow for good, the offer and the
/// accepted counter-offer, and hands out two new ones. The other counter-offers of
/// the proposal leave the state with it: by their number, and by no more, the
/// state holds fewer tokens afterwards.
pub proof fn accept_counter_offer_token_balance(
    s: State,
    caller: AccountId,
    offered_course_id: CourseId,
    accepted_course_id: CourseId,
    accepted_owner: AccountId,
)
    ensures
        s.accept_counter_offer(caller, offered_course_id, accepted_course_id, accepted_owner)
            matches Ok(next) ==> {
            let stranded = s.stranded_by_accept(
                caller,
                offered_course_id,
                accepted_course_id,
                accepted_owner,
            );
            &&& next.registrations.len() == s.registrations.len() + 2
            &&& escrowed(next.swaps) + 2 + stranded.len() == escrowed(s.swaps)
            &&& next.token_count() + stranded.len() == s.token_count()
        },
{
    if let Ok(next) = s.accept_counter_offer(
        caller,
        offered_course_id,
        accepted_course_id,
        accepted_owner,
    ) {
        let offer = token(caller, offered_course_id);
        let wanted = token(accepted_owner, accepted_course_id);
        lemma_index_found(offers(s.swaps), offer);
        let at = offers(s.swaps).index_of_first(offer)->Some_0;
        lemma_index_found(s.swaps[at].counter_offers, wanted);
        lemma_escrowed_remove(s.swaps, at);
    }
}

/// Propose, counter, accept, one after the other: the proposer then holds a token
/// for the course of the counter-offer and the counter-offerer one for the course
/// that was offered. Of the ledger exactly this has changed: the oldest token of
/// the proposer for the offered course and the oldest of the counter-offerer for
/// their own are gone, and the two new tokens stand at its end.
pub proof fn swap_round_trip(
    s: State,
    proposer: AccountId,
    offered_course_id: CourseId,
    counterer: AccountId,
    counter_course_id: CourseId,
)
    requires
        s.propose_swap(proposer, offered_course_id) is Ok,
        s.propose_swap(proposer, offered_course_id)->Ok_0.counter_swap_proposal(
            counterer,
            offered_course_id,
            proposer,
            counter_course_id,
        ) is Ok,
        s.propose_swap(proposer, offered_course_id)->Ok_0.counter_swap_proposal(
            counterer,
            offered_course_id,
            proposer,
            counter_course_id,
        )->Ok_0.accept_counter_offer(proposer, offered_course_id, counter_course_id, counterer)
            is Ok,
    ensures
        ({
            let end = s.propose_swap(proposer, offered_course_id)->Ok_0.counter_swap_proposal(
                counterer,
                offered_course_id,
                proposer,
                counter_course_id,
            )->Ok_0.accept_counter_offer(
                proposer,
                offered_course_id,
                counter_course_id,
                counterer,
            )->Ok_0;
            &&& end.own_registrations(proposer).contains(token(proposer, counter_course_id))
            &&& end.own_registrations(counterer).contains(token(counterer, offered_course_id))
            &&& end.registrations == s.registrations.remove_value(
                token(proposer, offered_course_id),
            ).remove_value(token(counterer, counter_course_id)).push(
                token(proposer, counter_course_id),
            ).push(token(counterer, offered_course_id))
        }),
{
    let proposed = s.propose_swap(proposer, offered_course_id)->Ok_0;
    let countered = proposed.counter_swap_proposal(
        counterer,
        offered_course_id,
        proposer,
        counter_course_id,
    )->Ok_0;
    let end = countered.accept_counter_offer(
        proposer,
        offered_course_id,
        counter_course_id,
        counterer,
    )->Ok_0;
    let ledger = end.registrations;
    let n = ledger.len() as int;
    assert(ledger[n - 2] == token(proposer, counter_course_id));
    assert(ledger[n - 1] == token(counterer, offered_course_id));
    ledger.lemma_filter_contains(|t: CourseRegistration| t.owner == proposer, n - 2);
    ledger.lemma_filter_contains(|t: CourseRegistration| t.owner == counterer, n - 1);
}

} // verus!
