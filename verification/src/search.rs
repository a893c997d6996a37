use vstd::prelude::*;
use crate::ident::AccountId;
use crate::model::offers;
use crate::records::{swap_views, CourseRegistration, CourseRegistrationSwapProposal};

verus! {

/// An index that holds `a`, with no `a` before it, is the first index of `a`.
pub proof fn lemma_first_index<A>(s: Seq<A>, a: A, i: int)
    requires
        0 <= i < s.len(),
        s[i] == a,
        forall|j: int| 0 <= j < i ==> s[j] != a,
    ensures
        s.index_of_first(a) == Some(i),
{
    s.index_of_first_ensures(a);
    assert(s.contains(a));
}

/// A value that the sequence does not hold has no first index.
pub proof fn lemma_no_index<A>(s: Seq<A>, a: A)
    requires
        forall|j: int| 0 <= j < s.len() ==> s[j] != a,
    ensures
        s.index_of_first(a) is None,
        !s.contains(a),
{
    s.index_of_first_ensures(a);
}

/// What `index_of_first` says of the index it gives.
pub proof fn lemma_index_found<A>(s: Seq<A>, a: A)
    ensures
        s.index_of_first(a) is Some <==> s.contains(a),
        s.index_of_first(a) matches Some(i) ==> 0 <= i < s.len() && s[i] == a && forall|j: int|
            0 <= j < i ==> s[j] != a,
{
    s.index_of_first_ensures(a);
}

/// The first place at which `accounts` holds `wanted`.
pub fn position_of_account(accounts: &Vec<AccountId>, wanted: &AccountId) -> (at: Option<usize>)
    ensures
        accounts@.index_of_first(*wanted) == match at {
            Some(i) => Some(i as int),
            None => None,
        },
        at matches Some(i) ==> i < accounts.len() && accounts[i as int] == *wanted,
        at is None ==> !accounts@.contains(*wanted),
{
    let mut i: usize = 0;
    while i < accounts.len()
        invariant
            i <= accounts.len(),
            forall|j: int| 0 <= j < i ==> accounts[j] != *wanted,
        decreases accounts.len() - i,
    {
        if accounts[i] == *wanted {
            proof {
                lemma_first_index(accounts@, *wanted, i as int);
            }
            return Some(i);
        }
        i += 1;
    }
    proof {
        lemma_no_index(accounts@, *wanted);
    }
    None
}

/// The first place at which `tokens` holds `wanted`.
pub fn position_of_token(tokens: &Vec<CourseRegistration>, wanted: &CourseRegistration) -> (at:
    Option<usize>)
    ensures
        tokens@.index_of_first(*wanted) == match at {
            Some(i) => Some(i as int),
            None => None,
        },
        at matches Some(i) ==> i < tokens.len() && tokens[i as int] == *wanted,
        at is None ==> !tokens@.contains(*wanted),
{
    let mut i: usize = 0;
    while i < tokens.len()
        invariant
            i <= tokens.len(),
            forall|j: int| 0 <= j < i ==> tokens[j] != *wanted,
        decreases tokens.len() - i,
    {
        if tokens[i] == *wanted {
            proof {
                lemma_first_index(tokens@, *wanted, i as int);
            }
            return Some(i);
        }
        i += 1;
    }
    proof {
        lemma_no_index(tokens@, *wanted);
    }
    None
}

/// The place of the oldest proposal in `swaps` that offers `offer`.
pub fn position_of_offer(swaps: &Vec<CourseRegistrationSwapProposal>, offer: &CourseRegistration) -> (at:
    Option<usize>)
    ensures
        offers(swap_views(swaps@)).index_of_first(*offer) == match at {
            Some(i) => Some(i as int),
            None => None,
        },
        at matches Some(i) ==> i < swaps.len() && swaps[i as int].offer == *offer,
{
    let ghost offered = offers(swap_views(swaps@));
    let mut i: usize = 0;
    while i < swaps.len()
        invariant
            i <= swaps.len(),
            offered == offers(swap_views(swaps@)),
            forall|j: int| 0 <= j < i ==> offered[j] != *offer,
        decreases swaps.len() - i,
    {
        if swaps[i].offer == *offer {
            proof {
                lemma_first_index(offered, *offer, i as int);
            }
            return Some(i);
        }
        i += 1;
    }
    proof {
        lemma_no_index(offered, *offer);
    }
    None
}

} // verus!
