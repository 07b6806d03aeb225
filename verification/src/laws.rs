//! Laws of the ledger, stated and proved over the model.

use crate::account::AccountId;
use crate::derivation::classifier_of;
use crate::ledger::{read_result, MailError, MailModel};
use vstd::prelude::*;

verus! {

broadcast use vstd::seq_lib::group_to_multiset_ensures, vstd::multiset::group_multiset_axioms;

/// After a send under a fresh mail id, the id stands in the sender's sent
/// index and in the recipient's received index exactly once.
pub proof fn lemma_send_indexes_once(
    m: MailModel,
    from: AccountId,
    to: AccountId,
    id: Seq<char>,
    phrase: Seq<char>,
    now: u64,
)
    requires
        m.wf(),
        !m.timestamps.contains_key(id),
    ensures
        m.after_send(from, to, id, phrase, now).sent_of(from).to_multiset().count(id) == 1,
        m.after_send(from, to, id, phrase, now).received_of(to).to_multiset().count(id) == 1,
{
    let m2 = m.after_send(from, to, id, phrase, now);
    assert(m2.sent_of(from) == m.sent_of(from).push(id));
    assert(m2.received_of(to) == m.received_of(to).push(id));
    assert(!m.sent_of(from).contains(id)) by {
        if m.sent_of(from).contains(id) {
            let i = choose|i: int| 0 <= i < m.sent_of(from).len() && m.sent_of(from)[i] == id;
            assert(m.timestamps.contains_key(m.sent_of(from)[i]));
        }
    }
    assert(!m.received_of(to).contains(id)) by {
        if m.received_of(to).contains(id) {
            let i = choose|i: int|
                0 <= i < m.received_of(to).len() && m.received_of(to)[i] == id;
            assert(m.timestamps.contains_key(m.received_of(to)[i]));
        }
    }
    m.sent_of(from).to_multiset_ensures();
    m.received_of(to).to_multiset_ensures();
    assert(m.sent_of(from).to_multiset().count(id) == 0);
    assert(m.received_of(to).to_multiset().count(id) == 0);
}

/// A mail's mask and classifier read the same for its sender as for its
/// recipient, and both reads succeed.
pub proof fn lemma_read_same_for_both_parties(
    m: MailModel,
    from: AccountId,
    to: AccountId,
    id: Seq<char>,
    phrase: Seq<char>,
    now: u64,
)
    ensures
        ({
            let m2 = m.after_send(from, to, id, phrase, now);
            &&& read_result(m2, from, id) == read_result(m2, to, id)
            &&& read_result(m2, from, id) is Ok
        }),
{
    let m2 = m.after_send(from, to, id, phrase, now);
    assert(m2.sent_of(from).contains(id)) by {
        assert(m2.sent_of(from)[m2.sent_of(from).len() - 1] == id);
    }
    assert(m2.received_of(to).contains(id)) by {
        assert(m2.received_of(to)[m2.received_of(to).len() - 1] == id);
    }
}

/// An account that neither sent nor received a mail is denied its mask and
/// classifier.
pub proof fn lemma_read_denied_for_third_party(
    m: MailModel,
    from: AccountId,
    to: AccountId,
    id: Seq<char>,
    phrase: Seq<char>,
    now: u64,
    other: AccountId,
)
    requires
        m.wf(),
        !m.timestamps.contains_key(id),
        other != from,
        other != to,
    ensures
        read_result(m.after_send(from, to, id, phrase, now), other, id) == Err::<
            (Seq<char>, Seq<u8>),
            MailError,
        >(MailError::Unauthorized),
{
    let m2 = m.after_send(from, to, id, phrase, now);
    assert(m2.sent_of(other) == m.sent_of(other));
    assert(m2.received_of(other) == m.received_of(other));
    assert(!m.sent_of(other).contains(id)) by {
        if m.sent_of(other).contains(id) {
            let i = choose|i: int| 0 <= i < m.sent_of(other).len() && m.sent_of(other)[i] == id;
            assert(m.timestamps.contains_key(m.sent_of(other)[i]));
        }
    }
    assert(!m.received_of(other).contains(id)) by {
        if m.received_of(other).contains(id) {
            let i = choose|i: int|
                0 <= i < m.received_of(other).len() && m.received_of(other)[i] == id;
            assert(m.timestamps.contains_key(m.received_of(other)[i]));
        }
    }
}

/// Each of the three classifier values lies in [0, 3).
pub proof fn lemma_classifier_in_range(p: Seq<u8>)
    ensures
        classifier_of(p).len() == 3,
        forall|j: int| 0 <= j < 3 ==> #[trigger] classifier_of(p)[j] < 3,
{
}

/// Mask derivation is a pure function of the timestamp, the phrase and the
/// rolling state at call time: sends with equal inputs from states with
/// equal rolling state record equal masks, whoever sends to whomever.
pub proof fn lemma_mask_deterministic(
    m1: MailModel,
    m2: MailModel,
    from1: AccountId,
    to1: AccountId,
    from2: AccountId,
    to2: AccountId,
    id: Seq<char>,
    phrase: Seq<char>,
    now: u64,
)
    requires
        m1.code == m2.code,
    ensures
        m1.after_send(from1, to1, id, phrase, now).masks[id] == m2.after_send(
            from2,
            to2,
            id,
            phrase,
            now,
        ).masks[id],
{
}

} // verus!
