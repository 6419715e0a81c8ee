use pallet_tarot::{validate_question, Error, Event, Pallet};

#[test]
fn test_question_validation() {
    let valid_question = b"This is a valid question".to_vec();
    let too_short = b"Hi".to_vec();
    let too_long = vec![0; 501];

    assert!(valid_question.len() >= 5 && valid_question.len() <= 500);
    assert!(too_short.len() < 5);
    assert!(too_long.len() > 500);

    assert_eq!(validate_question(&valid_question), Ok(()));
    assert_eq!(validate_question(&too_short), Err(Error::QuestionTooShort));
    assert_eq!(validate_question(&too_long), Err(Error::QuestionTooLong));
}

#[test]
fn test_basic_compilation() {
    assert!(true, "Pallet编译成功");
}

#[test]
fn test_perform_divination_works() {
    let mut pallet = Pallet::new();
    let question = b"Will this test pass?".to_vec();

    assert!(pallet.perform_divination(1, question.clone()).is_ok());

    assert_eq!(pallet.divination_count(), 1);

    let user_records = pallet.user_records(1);
    assert_eq!(user_records, vec![question]);
}

#[test]
fn test_question_too_short() {
    let mut pallet = Pallet::new();
    let short_question = b"Hi".to_vec();

    assert_eq!(
        pallet.perform_divination(1, short_question),
        Err(Error::QuestionTooShort)
    );
    assert_eq!(pallet.divination_count(), 0);
    assert!(pallet.user_records(1).is_empty());
}

#[test]
fn test_question_too_long() {
    let mut pallet = Pallet::new();
    let long_question = vec![0; 501];

    assert_eq!(
        pallet.perform_divination(1, long_question),
        Err(Error::QuestionTooLong)
    );
    assert_eq!(pallet.divination_count(), 0);
    assert!(pallet.user_records(1).is_empty());
}

#[test]
fn boundary_length_five_accepted_four_rejected() {
    let mut pallet = Pallet::new();
    assert_eq!(
        pallet.perform_divination(1, vec![b'x'; 4]),
        Err(Error::QuestionTooShort)
    );
    assert_eq!(pallet.perform_divination(1, vec![b'x'; 5]), Ok(()));
    assert_eq!(pallet.divination_count(), 1);
    assert_eq!(pallet.user_records(1), vec![vec![b'x'; 5]]);
}

#[test]
fn boundary_length_500_accepted_501_rejected() {
    let mut pallet = Pallet::new();
    assert_eq!(
        pallet.perform_divination(1, vec![b'x'; 501]),
        Err(Error::QuestionTooLong)
    );
    assert_eq!(pallet.perform_divination(1, vec![b'x'; 500]), Ok(()));
    assert_eq!(pallet.divination_count(), 1);
    assert_eq!(pallet.user_records(1), vec![vec![b'x'; 500]]);
}

#[test]
fn fresh_submission_counts_records_and_notifies() {
    let mut pallet = Pallet::new();
    let question = b"This is a valid question".to_vec();

    assert_eq!(pallet.perform_divination(1, question.clone()), Ok(()));

    assert_eq!(pallet.divination_count(), 1);
    assert_eq!(pallet.user_records(1), vec![question.clone()]);

    let events = pallet.events();
    assert_eq!(events.len(), 1);
    match &events[0] {
        Event::DivinationPerformed { account, question: q } => {
            assert_eq!(*account, 1);
            assert_eq!(*q, question);
        }
    }
}

#[test]
fn short_submission_leaves_fresh_state_untouched() {
    let mut pallet = Pallet::new();
    let question = b"Hi".to_vec();

    assert_eq!(
        pallet.perform_divination(1, question),
        Err(Error::QuestionTooShort)
    );

    assert_eq!(pallet.divination_count(), 0);
    assert!(pallet.user_records(1).is_empty());
    assert!(pallet.events().is_empty());
}

#[test]
fn long_submission_leaves_fresh_state_untouched() {
    let mut pallet = Pallet::new();
    let question = vec![0u8; 501];

    assert_eq!(
        pallet.perform_divination(1, question),
        Err(Error::QuestionTooLong)
    );

    assert_eq!(pallet.divination_count(), 0);
    assert!(pallet.user_records(1).is_empty());
    assert!(pallet.events().is_empty());
}

#[test]
fn submissions_accumulate_per_account_in_order() {
    let mut pallet = Pallet::new();
    let first = b"What does tomorrow hold?".to_vec();
    let second = b"Should I take the offer?".to_vec();
    let third = b"Will the harvest be good?".to_vec();

    assert_eq!(pallet.perform_divination(1, first.clone()), Ok(()));
    assert_eq!(pallet.perform_divination(1, second.clone()), Ok(()));
    assert_eq!(pallet.perform_divination(2, third.clone()), Ok(()));

    assert_eq!(pallet.divination_count(), 3);
    assert_eq!(pallet.user_records(1), vec![first.clone(), second.clone()]);
    assert_eq!(pallet.user_records(2), vec![third.clone()]);

    let events = pallet.events();
    assert_eq!(events.len(), 3);
    let expected = [(1u64, &first), (1u64, &second), (2u64, &third)];
    for (event, (account, question)) in events.iter().zip(expected.iter()) {
        match event {
            Event::DivinationPerformed { account: a, question: q } => {
                assert_eq!(a, account);
                assert_eq!(q, *question);
            }
        }
    }
}

#[test]
fn rejection_after_acceptance_keeps_earlier_state() {
    let mut pallet = Pallet::new();
    let kept = b"A perfectly fine question".to_vec();

    assert_eq!(pallet.perform_divination(3, kept.clone()), Ok(()));
    assert_eq!(
        pallet.perform_divination(3, b"no".to_vec()),
        Err(Error::QuestionTooShort)
    );

    assert_eq!(pallet.divination_count(), 1);
    assert_eq!(pallet.user_records(3), vec![kept]);
    assert_eq!(pallet.events().len(), 1);
}

#[test]
fn absent_account_reads_as_empty() {
    let pallet = Pallet::new();
    assert_eq!(pallet.divination_count(), 0);
    assert!(pallet.user_records(42).is_empty());
    assert!(pallet.events().is_empty());
}
