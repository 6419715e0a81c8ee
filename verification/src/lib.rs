//! A minimal deterministic question ledger.
//!
//! The library keeps a global counter of accepted submissions, a per-account
//! ordered history of accepted question contents, and a log of one
//! notification per accepted submission. Its single operation,
//! [`Pallet::perform_divination`], validates the length of a submitted
//! question and either mutates all three cells atomically or rejects the
//! submission leaving the state untouched. The host that drives it is
//! responsible for authenticating the caller and serializing invocations.

mod pallet;

pub use pallet::{
    lemma_count_is_total_accepted, lemma_ledger_is_account_history, lemma_stored_within_bounds,
    question_len_ok, questions_by, validate_question, Error, Event, Pallet, MAX_QUESTION_LEN,
    MIN_QUESTION_LEN,
};
