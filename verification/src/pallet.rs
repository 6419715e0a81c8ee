//! The question ledger: its state, the validation rule, and the submission
//! transition.

use std::collections::HashMap;
use vstd::prelude::*;

verus! {

/// Smallest question length, in bytes, that validation accepts (inclusive).
pub const MIN_QUESTION_LEN: usize = 5;

/// Largest question length, in bytes, that validation accepts (inclusive).
pub const MAX_QUESTION_LEN: usize = 500;

/// The two ways a submission can be rejected. Both are caller-input errors;
/// the ledger has no internal failure modes.
#[derive(Clone, Copy, Debug, PartialEq, Eq, Structural)]
pub enum Error {
    /// The question is shorter than [`MIN_QUESTION_LEN`] bytes.
    QuestionTooShort,
    /// The question is longer than [`MAX_QUESTION_LEN`] bytes.
    QuestionTooLong,
}

/// A notification, emitted exactly once per accepted submission and never
/// read back by the ledger itself.
#[derive(Debug)]
pub enum Event {
    DivinationPerformed { account: u64, question: Vec<u8> },
}

impl View for Event {
    type V = (u64, Seq<u8>);

    open spec fn view(&self) -> (u64, Seq<u8>) {
        match self {
            Event::DivinationPerformed { account, question } => (*account, question@),
        }
    }
}

/// Whether a question of `n` bytes passes validation. Both bounds are
/// inclusive.
pub open spec fn question_len_ok(n: nat) -> bool {
    MIN_QUESTION_LEN <= n <= MAX_QUESTION_LEN
}

/// The ordered question contents of the notifications in `evs` whose account
/// is `a`.
pub open spec fn questions_by(evs: Seq<(u64, Seq<u8>)>, a: u64) -> Seq<Seq<u8>>
    decreases evs.len(),
{
    if evs.len() == 0 {
        Seq::empty()
    } else if evs.last().0 == a {
        questions_by(evs.drop_last(), a).push(evs.last().1)
    } else {
        questions_by(evs.drop_last(), a)
    }
}

/// The whole ledger state: a counter of accepted submissions, the per-account
/// histories, and the notification log. The host owns one value of this type,
/// created at genesis by [`Pallet::new`] and mutated only by
/// [`Pallet::perform_divination`].
pub struct Pallet {
    divination_count: u64,
    user_records: HashMap<u64, Vec<Vec<u8>>>,
    events: Vec<Event>,
}

impl Pallet {
    /// Total number of accepted submissions, across all accounts.
    pub closed spec fn count(self) -> u64 {
        self.divination_count
    }

    /// The history of account `a`: an account with no accepted submissions
    /// reads as the empty sequence, not as an error.
    pub closed spec fn records(self, a: u64) -> Seq<Seq<u8>> {
        if self.user_records@.contains_key(a) {
            self.user_records@[a]@.map_values(|q: Vec<u8>| q@)
        } else {
            Seq::empty()
        }
    }

    /// All notifications emitted so far, as `(account, question)` pairs in
    /// emission order.
    pub closed spec fn emitted(self) -> Seq<(u64, Seq<u8>)> {
        self.events@.map_values(|e: Event| e@)
    }

    /// Well-formedness: the counter equals the number of notifications, every
    /// stored question is within the validation bounds, and each account's
    /// history is exactly the sequence of question contents of that account's
    /// notifications.
    pub closed spec fn wf(self) -> bool {
        &&& self.divination_count == self.emitted().len()
        &&& forall|i: int|
            0 <= i < self.emitted().len() ==> question_len_ok(
                (#[trigger] self.emitted()[i]).1.len(),
            )
        &&& forall|a: u64| #[trigger] self.records(a) == questions_by(self.emitted(), a)
    }

    /// Genesis state: counter at zero, no histories, no notifications.
    pub fn new() -> (s: Pallet)
        ensures
            s.wf(),
            s.count() == 0,
            s.emitted() == Seq::<(u64, Seq<u8>)>::empty(),
            forall|a: u64| #[trigger] s.records(a) == Seq::<Seq<u8>>::empty(),
    {
        let s = Pallet {
            divination_count: 0,
            user_records: HashMap::new(),
            events: Vec::new(),
        };
        proof {
            assert(s.emitted() =~= Seq::<(u64, Seq<u8>)>::empty());
            assert forall|a: u64| #[trigger] s.records(a) == Seq::<Seq<u8>>::empty() by {
                assert(!s.user_records@.contains_key(a));
            }
        }
        s
    }

    /// The single operation of the ledger. The host hands in the identity of
    /// an already-authenticated caller together with the raw question bytes.
    ///
    /// On acceptance the counter rises by exactly one, a copy of the question
    /// is appended to the caller's history, and one notification is emitted;
    /// on rejection the state is left exactly as it was and no notification
    /// is emitted.
    pub fn perform_divination(&mut self, who: u64, question: Vec<u8>) -> (r: Result<(), Error>)
        requires
            old(self).wf(),
            question_len_ok(question@.len()) ==> old(self).count() < u64::MAX,
        ensures
            final(self).wf(),
            r is Ok <==> question_len_ok(question@.len()),
            question@.len() < MIN_QUESTION_LEN ==> r == Err::<(), Error>(Error::QuestionTooShort)
                && *final(self) == *old(self),
            question@.len() > MAX_QUESTION_LEN ==> r == Err::<(), Error>(Error::QuestionTooLong)
                && *final(self) == *old(self),
            question_len_ok(question@.len()) ==> ({
                &&& r == Ok::<(), Error>(())
                &&& final(self).count() == old(self).count() + 1
                &&& final(self).records(who) == old(self).records(who).push(question@)
                &&& forall|a: u64|
                    a != who ==> #[trigger] final(self).records(a) == old(self).records(a)
                &&& final(self).emitted() == old(self).emitted().push((who, question@))
            }),
    {
        match validate_question(&question) {
            Err(e) => {
                return Err(e);
            },
            Ok(()) => {},
        }
        let ghost q = question@;
        let ghost m0 = self.user_records@;

        self.divination_count = self.divination_count + 1;

        let mut records = match self.user_records.remove(&who) {
            Some(stored) => stored,
            None => Vec::new(),
        };
        let ghost recs0 = records@;
        records.push(copy_question(&question));
        let ghost recs1 = records@;
        self.user_records.insert(who, records);
        let ghost m2 = self.user_records@;

        self.events.push(Event::DivinationPerformed { account: who, question });

        proof {
            let ev = (who, q);
            let pre = *old(self);
            let post = *self;

            // The notification log grew by exactly the new notification.
            assert(post.emitted() =~= pre.emitted().push(ev));

            // The caller's history grew by exactly the new question.
            assert(m0.contains_key(who) ==> recs0 == m0[who]@);
            assert(!m0.contains_key(who) ==> recs0 == Seq::<Vec<u8>>::empty());
            assert(pre.records(who) =~= recs0.map_values(|x: Vec<u8>| x@));
            assert(m2[who]@ == recs1);
            assert(recs1 == recs0.push(recs1.last()));
            assert(post.records(who) =~= pre.records(who).push(q));

            // Every other history is untouched.
            assert forall|a: u64|
                a != who implies #[trigger] post.records(a) == pre.records(a) by {
                assert(m2.contains_key(a) == m0.contains_key(a));
                if m0.contains_key(a) {
                    assert(m2[a] == m0[a]);
                }
            }

            // Well-formedness carries over to the new state.
            assert forall|a: u64| #[trigger] post.records(a) == questions_by(
                post.emitted(),
                a,
            ) by {
                lemma_questions_by_push(pre.emitted(), ev, a);
            }
            assert forall|i: int|
                0 <= i < post.emitted().len() implies question_len_ok(
                (#[trigger] post.emitted()[i]).1.len(),
            ) by {
                if i < pre.emitted().len() {
                    assert(post.emitted()[i] == pre.emitted()[i]);
                } else {
                    assert(post.emitted()[i] == ev);
                }
            }
        }
        Ok(())
    }

    /// The current value of the global counter.
    pub fn divination_count(&self) -> (r: u64)
        ensures
            r == self.count(),
    {
        self.divination_count
    }

    /// An owned copy of the history of `who`. An account with no accepted
    /// submissions reads as an empty list, mirroring the default-value
    /// semantics of the storage cell.
    pub fn user_records(&self, who: u64) -> (r: Vec<Vec<u8>>)
        ensures
            r@.map_values(|q: Vec<u8>| q@) == self.records(who),
    {
        let mut r: Vec<Vec<u8>> = Vec::new();
        match self.user_records.get(&who) {
            Some(stored) => {
                let mut i: usize = 0;
                while i < stored.len()
                    invariant
                        i <= stored.len(),
                        r@.len() == i as int,
                        forall|j: int| 0 <= j < i ==> (#[trigger] r@[j])@ == stored@[j]@,
                    decreases stored.len() - i,
                {
                    r.push(copy_question(&stored[i]));
                    i = i + 1;
                }
                proof {
                    assert(self.records(who) =~= r@.map_values(|q: Vec<u8>| q@));
                }
            },
            None => {
                proof {
                    assert(self.records(who) =~= r@.map_values(|q: Vec<u8>| q@));
                }
            },
        }
        r
    }

    /// All notifications emitted so far, oldest first.
    pub fn events(&self) -> (r: &Vec<Event>)
        ensures
            r@.map_values(|e: Event| e@) == self.emitted(),
    {
        &self.events
    }
}

/// Validation: decides acceptability of a candidate question before any
/// state mutation, from its length alone — the bytes themselves are never
/// inspected. Both bounds are inclusive.
pub fn validate_question(question: &Vec<u8>) -> (r: Result<(), Error>)
    ensures
        r is Ok <==> question_len_ok(question@.len()),
        question@.len() < MIN_QUESTION_LEN ==> r == Err::<(), Error>(Error::QuestionTooShort),
        question@.len() > MAX_QUESTION_LEN ==> r == Err::<(), Error>(Error::QuestionTooLong),
{
    if question.len() < MIN_QUESTION_LEN {
        Err(Error::QuestionTooShort)
    } else if question.len() > MAX_QUESTION_LEN {
        Err(Error::QuestionTooLong)
    } else {
        Ok(())
    }
}

/// An owned byte-for-byte copy of `q`: one copy goes into the caller's
/// history while the original moves into the notification.
fn copy_question(q: &Vec<u8>) -> (r: Vec<u8>)
    ensures
        r@ == q@,
{
    let mut r: Vec<u8> = Vec::new();
    let mut i: usize = 0;
    while i < q.len()
        invariant
            i <= q.len(),
            r@ == q@.subrange(0, i as int),
        decreases q.len() - i,
    {
        let b = q[i];
        r.push(b);
        i = i + 1;
        proof {
            assert(r@ =~= q@.subrange(0, i as int));
        }
    }
    proof {
        assert(r@ =~= q@);
    }
    r
}

/// Appending one notification extends the history of its account by its
/// question and leaves every other account's history as it was.
proof fn lemma_questions_by_push(evs: Seq<(u64, Seq<u8>)>, ev: (u64, Seq<u8>), a: u64)
    ensures
        questions_by(evs.push(ev), a) == (if ev.0 == a {
            questions_by(evs, a).push(ev.1)
        } else {
            questions_by(evs, a)
        }),
{
    let s = evs.push(ev);
    assert(s.drop_last() =~= evs);
    assert(s.last() == ev);
}

/// Law: the global counter always equals the total number of accepted
/// submissions since genesis — exactly one notification is emitted per
/// accepted submission, so the counter equals the length of the notification
/// log, cumulatively across all accounts.
pub proof fn lemma_count_is_total_accepted(s: Pallet)
    requires
        s.wf(),
    ensures
        s.count() == s.emitted().len(),
{
}

/// Law: the history of account `a` is exactly the ordered sequence of
/// question contents from the accepted submissions of `a`, in submission
/// order, with no entries from any other account.
pub proof fn lemma_ledger_is_account_history(s: Pallet, a: u64)
    requires
        s.wf(),
    ensures
        s.records(a) == questions_by(s.emitted(), a),
{
}

/// Law: every stored question is within the validation bounds — the bounds
/// are checked before acceptance, never stored violated.
pub proof fn lemma_stored_within_bounds(s: Pallet, a: u64)
    requires
        s.wf(),
    ensures
        forall|j: int|
            0 <= j < s.records(a).len() ==> question_len_ok((#[trigger] s.records(a)[j]).len()),
{
    lemma_questions_by_within(s.emitted(), a);
}

proof fn lemma_questions_by_within(evs: Seq<(u64, Seq<u8>)>, a: u64)
    requires
        forall|i: int| 0 <= i < evs.len() ==> question_len_ok((#[trigger] evs[i]).1.len()),
    ensures
        forall|j: int|
            0 <= j < questions_by(evs, a).len() ==> question_len_ok(
                (#[trigger] questions_by(evs, a)[j]).len(),
            ),
    decreases evs.len(),
{
    if evs.len() > 0 {
        let rest = evs.drop_last();
        assert(forall|i: int|
            0 <= i < rest.len() ==> question_len_ok((#[trigger] rest[i]).1.len()));
        lemma_questions_by_within(rest, a);
        let q = questions_by(evs, a);
        let qr = questions_by(rest, a);
        if evs.last().0 == a {
            assert(q == qr.push(evs.last().1));
            assert(evs.last() == evs[evs.len() - 1]);
            assert forall|j: int| 0 <= j < q.len() implies question_len_ok(
                (#[trigger] q[j]).len(),
            ) by {
                if j < qr.len() {
                    assert(q[j] == qr[j]);
                } else {
                    assert(q[j] == evs.last().1);
                }
            }
        } else {
            assert(q == qr);
        }
    }
}

} // verus!
