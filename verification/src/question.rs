//! The question model and creation-time validation.

use vstd::prelude::*;
use crate::error::QuizError;

verus! {

/// Longest accepted question text or free-text answer, in characters.
pub const MAX_TEXT_LEN: usize = 300;

/// Most options a choice or multi-choice question may declare.
pub const MAX_OPTIONS: usize = 8;

/// A stored question. A choice question holds one tally counter per
/// option; a free-text question holds the submitted answers in arrival
/// order.
pub enum Question {
    Choice { text: String, options: Vec<String>, tallies: Vec<u32> },
    MultiChoice { text: String, options: Vec<String>, tallies: Vec<u32> },
    FreeText { text: String, answers: Vec<String> },
}

/// A tally sequence of length `k` with every counter zero.
pub open spec fn zeroed(t: Seq<u32>, k: nat) -> bool {
    t.len() == k && forall|i: int| 0 <= i < t.len() ==> #[trigger] t[i] == 0
}

impl Question {
    /// Structural invariant: text is length-bounded, option lists are
    /// length-bounded, and for choice shapes the tally sequence always
    /// has exactly one counter per option.
    pub open spec fn well_formed(self) -> bool {
        match self {
            Question::Choice { text, options, tallies } =>
                text@.len() <= MAX_TEXT_LEN
                && options@.len() <= MAX_OPTIONS
                && tallies@.len() == options@.len(),
            Question::MultiChoice { text, options, tallies } =>
                text@.len() <= MAX_TEXT_LEN
                && options@.len() <= MAX_OPTIONS
                && tallies@.len() == options@.len(),
            Question::FreeText { text, answers } => text@.len() <= MAX_TEXT_LEN,
        }
    }

    /// Number of declared options (zero for a free-text question).
    pub open spec fn option_count(self) -> nat {
        match self {
            Question::Choice { options, .. } => options@.len(),
            Question::MultiChoice { options, .. } => options@.len(),
            Question::FreeText { .. } => 0,
        }
    }

    /// The tally counters (empty for a free-text question).
    pub open spec fn tallies_view(self) -> Seq<u32> {
        match self {
            Question::Choice { tallies, .. } => tallies@,
            Question::MultiChoice { tallies, .. } => tallies@,
            Question::FreeText { .. } => Seq::empty(),
        }
    }

    /// The stored free-text answers (empty for choice shapes).
    pub open spec fn answers_view(self) -> Seq<Seq<char>> {
        match self {
            Question::FreeText { answers, .. } => answers@.map_values(|a: String| a@),
            _ => Seq::empty(),
        }
    }
}

/// Two questions have the same shape: the same variant with the same
/// text and the same option labels. Answer submission never changes a
/// question's shape, only its tallies or its answer list.
pub open spec fn same_shape(a: Question, b: Question) -> bool {
    match (a, b) {
        (
            Question::Choice { text: t1, options: o1, .. },
            Question::Choice { text: t2, options: o2, .. },
        ) => t1@ == t2@ && o1@ == o2@,
        (
            Question::MultiChoice { text: t1, options: o1, .. },
            Question::MultiChoice { text: t2, options: o2, .. },
        ) => t1@ == t2@ && o1@ == o2@,
        (
            Question::FreeText { text: t1, .. },
            Question::FreeText { text: t2, .. },
        ) => t1@ == t2@,
        _ => false,
    }
}

/// A structured question-creation payload, as handed in by the request
/// boundary: an optional question text and at most one option list,
/// `c` for single-choice and `mc` for multi-choice.
pub struct CreatePayload {
    pub q: Option<String>,
    pub c: Option<Vec<String>>,
    pub mc: Option<Vec<String>>,
}

/// Creation accepts a payload exactly when the question text is present
/// and short enough, and an option list is present and short enough;
/// `c` is examined before `mc`, so a present-but-oversized `c` rejects
/// the payload even if `mc` would be acceptable.
pub open spec fn payload_accepted(p: CreatePayload) -> bool {
    &&& p.q is Some
    &&& p.q->0@.len() <= MAX_TEXT_LEN
    &&& match p.c {
        Some(c) => c@.len() <= MAX_OPTIONS,
        None => p.mc is Some && p.mc->0@.len() <= MAX_OPTIONS,
    }
}

/// A fresh, all-zero tally vector with one counter per option.
fn zero_tallies(k: usize) -> (t: Vec<u32>)
    ensures
        zeroed(t@, k as nat),
{
    let mut t: Vec<u32> = Vec::new();
    let mut i: usize = 0;
    while i < k
        invariant
            i <= k,
            t@.len() == i,
            forall|j: int| 0 <= j < i ==> #[trigger] t@[j] == 0,
        decreases k - i,
    {
        t.push(0);
        i = i + 1;
    }
    t
}

/// Validates a creation payload and builds the question to persist:
/// text at most `MAX_TEXT_LEN` characters, then a `c` array (checked
/// first) or an `mc` array of at most `MAX_OPTIONS` labels, with a
/// zero-filled tally sequence sized to the option count. Anything else
/// is a client error.
pub fn create_question(payload: CreatePayload) -> (r: Result<Question, QuizError>)
    ensures
        r is Ok <==> payload_accepted(payload),
        r is Err ==> r->Err_0 == QuizError::ClientError,
        r is Ok ==> r->Ok_0.well_formed(),
        r is Ok && payload.c is Some ==> (r->Ok_0 matches Question::Choice { text, options, tallies }
            && text == payload.q->0
            && options == payload.c->0
            && zeroed(tallies@, options@.len())),
        r is Ok && payload.c is None ==> (r->Ok_0 matches Question::MultiChoice { text, options, tallies }
            && text == payload.q->0
            && options == payload.mc->0
            && zeroed(tallies@, options@.len())),
{
    let text = match payload.q {
        Some(t) => t,
        None => {
            return Err(QuizError::ClientError);
        },
    };
    if text.as_str().unicode_len() > MAX_TEXT_LEN {
        return Err(QuizError::ClientError);
    }
    match payload.c {
        Some(options) => {
            if options.len() > MAX_OPTIONS {
                return Err(QuizError::ClientError);
            }
            let tallies = zero_tallies(options.len());
            Ok(Question::Choice { text, options, tallies })
        },
        None => {
            match payload.mc {
                Some(options) => {
                    if options.len() > MAX_OPTIONS {
                        return Err(QuizError::ClientError);
                    }
                    let tallies = zero_tallies(options.len());
                    Ok(Question::MultiChoice { text, options, tallies })
                },
                None => Err(QuizError::ClientError),
            }
        },
    }
}

/// Validates a free-text question: text at most `MAX_TEXT_LEN`
/// characters, persisted with an empty answer sequence.
pub fn create_text_question(text: String) -> (r: Result<Question, QuizError>)
    ensures
        r is Ok <==> text@.len() <= MAX_TEXT_LEN,
        r is Err ==> r->Err_0 == QuizError::ClientError,
        r is Ok ==> (r->Ok_0 matches Question::FreeText { text: t, answers }
            && t == text
            && answers@.len() == 0),
{
    if text.as_str().unicode_len() > MAX_TEXT_LEN {
        return Err(QuizError::ClientError);
    }
    let answers: Vec<String> = Vec::new();
    Ok(Question::FreeText { text, answers })
}

} // verus!
