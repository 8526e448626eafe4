use quitz::answer::{answer_decision, parse_index, submit_answer, tabulate, Update};
use quitz::error::QuizError;
use quitz::question::{create_question, create_text_question, CreatePayload, Question};

fn choice_question(labels: &[&str]) -> Question {
    let payload = CreatePayload {
        q: Some(String::from("pick one")),
        c: Some(labels.iter().map(|s| s.to_string()).collect()),
        mc: None,
    };
    create_question(payload).unwrap()
}

fn multi_question(labels: &[&str]) -> Question {
    let payload = CreatePayload {
        q: Some(String::from("pick any")),
        c: None,
        mc: Some(labels.iter().map(|s| s.to_string()).collect()),
    };
    create_question(payload).unwrap()
}

fn tallies_of(q: &Question) -> Vec<u32> {
    match q {
        Question::Choice { tallies, .. } => tallies.clone(),
        Question::MultiChoice { tallies, .. } => tallies.clone(),
        Question::FreeText { .. } => Vec::new(),
    }
}

#[test]
fn fresh_choice_question_has_zero_tallies() {
    let q = choice_question(&["a", "b"]);
    assert_eq!(tallies_of(&q), vec![0, 0]);
    let q3 = multi_question(&["a", "b", "c"]);
    assert_eq!(tallies_of(&q3), vec![0, 0, 0]);
}

#[test]
fn single_choice_increments_exactly_one_slot() {
    let mut q = choice_question(&["a", "b", "c"]);
    assert!(submit_answer(&mut q, "1").is_ok());
    assert_eq!(tallies_of(&q), vec![0, 1, 0]);
    assert!(submit_answer(&mut q, "0").is_ok());
    assert_eq!(tallies_of(&q), vec![1, 1, 0]);
}

#[test]
fn single_choice_out_of_range_rejected_without_mutation() {
    let mut q = choice_question(&["a", "b"]);
    assert_eq!(submit_answer(&mut q, "2"), Err(QuizError::ClientError));
    assert_eq!(submit_answer(&mut q, "9"), Err(QuizError::ClientError));
    assert_eq!(tallies_of(&q), vec![0, 0]);
}

#[test]
fn single_choice_non_numeric_rejected_without_mutation() {
    let mut q = choice_question(&["a", "b"]);
    assert_eq!(submit_answer(&mut q, "abc"), Err(QuizError::ClientError));
    assert_eq!(submit_answer(&mut q, ""), Err(QuizError::ClientError));
    assert_eq!(submit_answer(&mut q, "-1"), Err(QuizError::ClientError));
    assert_eq!(tallies_of(&q), vec![0, 0]);
}

#[test]
fn multi_choice_mask_increments_selected_slots() {
    let mut q = multi_question(&["a", "b", "c"]);
    // mask 5 = 0b101 selects slots 0 and 2
    assert!(submit_answer(&mut q, "5").is_ok());
    assert_eq!(tallies_of(&q), vec![1, 0, 1]);
    // mask 7 = 0b111 selects all three in one submission
    assert!(submit_answer(&mut q, "7").is_ok());
    assert_eq!(tallies_of(&q), vec![2, 1, 2]);
}

#[test]
fn multi_choice_rejects_zero_and_oversized_masks() {
    let mut q = multi_question(&["a", "b", "c"]);
    assert_eq!(submit_answer(&mut q, "0"), Err(QuizError::ClientError));
    // 8 = 0b1000 exceeds 2^3 - 1
    assert_eq!(submit_answer(&mut q, "8"), Err(QuizError::ClientError));
    assert_eq!(submit_answer(&mut q, "xyz"), Err(QuizError::ClientError));
    assert_eq!(tallies_of(&q), vec![0, 0, 0]);
}

#[test]
fn free_text_appends_in_arrival_order() {
    let mut q = create_text_question(String::from("thoughts?")).unwrap();
    assert!(submit_answer(&mut q, "first").is_ok());
    assert!(submit_answer(&mut q, "second").is_ok());
    match &q {
        Question::FreeText { answers, .. } => {
            assert_eq!(answers, &vec![String::from("first"), String::from("second")]);
        }
        _ => panic!("expected a free-text question"),
    }
}

#[test]
fn free_text_oversized_token_rejected_without_mutation() {
    let mut q = create_text_question(String::from("thoughts?")).unwrap();
    let long = "x".repeat(301);
    assert_eq!(submit_answer(&mut q, &long), Err(QuizError::ClientError));
    let exact = "y".repeat(300);
    assert!(submit_answer(&mut q, &exact).is_ok());
    match &q {
        Question::FreeText { answers, .. } => assert_eq!(answers.len(), 1),
        _ => panic!("expected a free-text question"),
    }
}

#[test]
fn repeated_submissions_to_one_option_all_count() {
    let mut q = choice_question(&["a", "b"]);
    for _ in 0..5 {
        assert!(submit_answer(&mut q, "0").is_ok());
    }
    assert_eq!(tallies_of(&q), vec![5, 0]);
}

#[test]
fn create_then_answer_scenario() {
    let payload = CreatePayload {
        q: Some(String::from("pick one")),
        c: Some(vec![String::from("a"), String::from("b")]),
        mc: None,
    };
    let mut q = create_question(payload).unwrap();
    assert_eq!(tallies_of(&q), vec![0, 0]);
    assert!(submit_answer(&mut q, "1").is_ok());
    assert_eq!(tallies_of(&q), vec![0, 1]);
    assert_eq!(submit_answer(&mut q, "5"), Err(QuizError::ClientError));
    assert_eq!(tallies_of(&q), vec![0, 1]);
}

#[test]
fn tabulate_single_choice_names_the_slot() {
    let q = choice_question(&["a", "b", "c"]);
    match tabulate(&q, "2") {
        Ok(Update::Increment { slots }) => assert_eq!(slots, vec![2]),
        _ => panic!("expected an increment update"),
    }
}

#[test]
fn tabulate_mask_names_selected_slots_in_order() {
    let q = multi_question(&["a", "b", "c", "d"]);
    // mask 11 = 0b1011 selects slots 0, 1, 3
    match tabulate(&q, "11") {
        Ok(Update::Increment { slots }) => assert_eq!(slots, vec![0, 1, 3]),
        _ => panic!("expected an increment update"),
    }
}

#[test]
fn tabulate_free_text_carries_the_token() {
    let q = create_text_question(String::from("why?")).unwrap();
    match tabulate(&q, "because") {
        Ok(Update::Append { token }) => assert_eq!(token, "because"),
        _ => panic!("expected an append update"),
    }
}

#[test]
fn answer_decision_treats_missing_question_as_server_error() {
    assert_eq!(answer_decision(None, "1").unwrap_err(), QuizError::ServerError);
    let q = choice_question(&["a", "b"]);
    match answer_decision(Some(&q), "1") {
        Ok(Update::Increment { slots }) => assert_eq!(slots, vec![1]),
        _ => panic!("expected an increment update"),
    }
    assert_eq!(
        answer_decision(Some(&q), "2").unwrap_err(),
        QuizError::ClientError
    );
}

#[test]
fn parse_index_accepts_plain_and_signed_decimals() {
    assert_eq!(parse_index("0"), Some(0));
    assert_eq!(parse_index("7"), Some(7));
    assert_eq!(parse_index("+7"), Some(7));
    assert_eq!(parse_index("007"), Some(7));
    assert_eq!(parse_index("4294967295"), Some(u32::MAX));
}

#[test]
fn parse_index_rejects_malformed_and_oversized_tokens() {
    assert_eq!(parse_index(""), None);
    assert_eq!(parse_index("+"), None);
    assert_eq!(parse_index("1a"), None);
    assert_eq!(parse_index("-1"), None);
    assert_eq!(parse_index(" 1"), None);
    assert_eq!(parse_index("4294967296"), None);
    assert_eq!(parse_index("99999999999999999999"), None);
}
