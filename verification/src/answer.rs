//! Answer tabulation: parsing an answer token against a question's
//! declared shape and computing the tally increments or the append to
//! apply.

use vstd::prelude::*;
use crate::error::QuizError;
use crate::question::Question;
use crate::question::same_shape;
use crate::question::MAX_TEXT_LEN;

verus! {

/// A decimal digit.
pub open spec fn is_digit(c: char) -> bool {
    '0' <= c && c <= '9'
}

/// Numeric value of a decimal digit.
pub open spec fn digit_val(c: char) -> int {
    c as int - '0' as int
}

/// Value of a digit sequence read most-significant first.
pub open spec fn digits_val(s: Seq<char>) -> int
    decreases s.len(),
{
    if s.len() == 0 {
        0
    } else {
        digits_val(s.drop_last()) * 10 + digit_val(s.last())
    }
}

/// A non-empty run of decimal digits.
pub open spec fn all_digits(s: Seq<char>) -> bool {
    s.len() > 0 && forall|i: int| 0 <= i < s.len() ==> is_digit(#[trigger] s[i])
}

/// A non-negative decimal integer token: digits, optionally preceded
/// by a single plus sign.
pub open spec fn is_numeric_token(s: Seq<char>) -> bool {
    if s.len() > 0 && s[0] == '+' {
        all_digits(s.skip(1))
    } else {
        all_digits(s)
    }
}

/// Numeric value of a well-formed token.
pub open spec fn token_val(s: Seq<char>) -> int {
    if s.len() > 0 && s[0] == '+' {
        digits_val(s.skip(1))
    } else {
        digits_val(s)
    }
}

proof fn lemma_digits_val_nonneg(s: Seq<char>)
    requires
        forall|i: int| 0 <= i < s.len() ==> is_digit(#[trigger] s[i]),
    ensures
        digits_val(s) >= 0,
    decreases s.len(),
{
    if s.len() > 0 {
        lemma_digits_val_nonneg(s.drop_last());
    }
}

proof fn lemma_digits_val_step(s: Seq<char>, i: int)
    requires
        0 <= i < s.len(),
    ensures
        digits_val(s.take(i + 1)) == digits_val(s.take(i)) * 10 + digit_val(s[i]),
{
    assert(s.take(i + 1).drop_last() =~= s.take(i));
    assert(s.take(i + 1).last() == s[i]);
}

/// The value of a digit string never falls below the value of any of
/// its prefixes.
proof fn lemma_digits_val_prefix(s: Seq<char>, i: int)
    requires
        0 <= i <= s.len(),
        forall|j: int| 0 <= j < s.len() ==> is_digit(#[trigger] s[j]),
    ensures
        digits_val(s) >= digits_val(s.take(i)),
    decreases s.len() - i,
{
    if i == s.len() {
        assert(s.take(i) =~= s);
    } else {
        lemma_digits_val_step(s, i);
        lemma_digits_val_nonneg(s.take(i));
        lemma_digits_val_prefix(s, i + 1);
    }
}

/// Parses an answer token as a non-negative decimal integer: digits
/// with an optional leading plus sign, value at most `u32::MAX`.
/// Returns `None` exactly on malformed or too-large tokens.
pub fn parse_index(token: &str) -> (r: Option<u32>)
    ensures
        r is Some <==> is_numeric_token(token@) && token_val(token@) <= u32::MAX,
        r is Some ==> r->0 == token_val(token@),
{
    let n = token.unicode_len();
    if n == 0 {
        return None;
    }
    let first = token.get_char(0);
    let start: usize = if first == '+' {
        1
    } else {
        0
    };
    if n == start {
        return None;
    }
    let ghost ds: Seq<char> = token@.skip(start as int);
    let mut i: usize = start;
    let mut val: u32 = 0;
    while i < n
        invariant
            start <= i <= n,
            n == token@.len(),
            start <= 1,
            n > start,
            start == 1 ==> token@[0] == '+',
            start == 0 ==> token@[0] != '+',
            ds == token@.skip(start as int),
            forall|j: int| 0 <= j < i - start ==> is_digit(#[trigger] ds[j]),
            val == digits_val(ds.take(i - start)),
        decreases n - i,
    {
        let c = token.get_char(i);
        let cu = c as u32;
        if cu < 48 || cu > 57 {
            proof {
                assert(!is_digit(ds[i - start]));
                if start == 0 {
                    assert(ds =~= token@);
                }
                assert(!all_digits(ds));
            }
            return None;
        }
        let d = cu - 48;
        proof {
            assert(is_digit(ds[i - start]));
            assert(d == digit_val(ds[i - start]));
            lemma_digits_val_step(ds, i - start);
        }
        if val > (u32::MAX - d) / 10 {
            proof {
                assert(val * 10 + d > u32::MAX) by (nonlinear_arith)
                    requires
                        val > (u32::MAX - d) / 10,
                        d <= 9,
                ;
                assert(digits_val(ds.take(i - start + 1)) > u32::MAX);
                if is_numeric_token(token@) {
                    if start == 0 {
                        assert(ds =~= token@);
                    }
                    assert(all_digits(ds));
                    lemma_digits_val_prefix(ds, i - start + 1);
                    assert(token_val(token@) == digits_val(ds));
                }
            }
            return None;
        }
        val = val * 10 + d;
        proof {
            assert(val == digits_val(ds.take(i - start + 1)));
        }
        i = i + 1;
    }
    proof {
        assert(ds.take(n - start) =~= ds);
        if start == 1 {
            assert(is_numeric_token(token@));
            assert(token_val(token@) == digits_val(ds));
        } else {
            assert(ds =~= token@);
            assert(is_numeric_token(token@));
            assert(token_val(token@) == digits_val(ds));
        }
    }
    Some(val)
}

/// Bit `j` of the mask is set.
pub open spec fn bit_set(m: u32, j: int) -> bool {
    0 <= j < 32 && (m >> (j as u32)) & 1u32 == 1u32
}

/// The slots a mask selects among `k` options: every bit position in
/// `[0, k)` whose bit is set, in increasing order.
pub open spec fn selected_slots(m: u32, k: nat) -> Seq<usize>
    decreases k,
{
    if k == 0 {
        Seq::empty()
    } else if bit_set(m, k - 1) {
        selected_slots(m, (k - 1) as nat).push((k - 1) as usize)
    } else {
        selected_slots(m, (k - 1) as nat)
    }
}

/// Slot `j` occurs in the slot list.
pub open spec fn selects(slots: Seq<usize>, j: int) -> bool {
    exists|y: int| 0 <= y < slots.len() && #[trigger] slots[y] as int == j
}

/// The slot list is strictly increasing (so each slot occurs at most
/// once).
pub open spec fn strictly_increasing(slots: Seq<usize>) -> bool {
    forall|x: int, y: int| 0 <= x < y < slots.len() ==> #[trigger] slots[x] < #[trigger] slots[y]
}

/// The selected-slot list of a mask is strictly increasing, stays
/// below `k`, and holds exactly the positions whose bit is set.
proof fn lemma_selected_slots_props(m: u32, k: nat)
    requires
        k <= 32,
    ensures
        forall|x: int| 0 <= x < selected_slots(m, k).len()
            ==> #[trigger] selected_slots(m, k)[x] < k,
        strictly_increasing(selected_slots(m, k)),
        forall|j: int| 0 <= j < k ==> (selects(selected_slots(m, k), j) <==> bit_set(m, j)),
    decreases k,
{
    if k > 0 {
        lemma_selected_slots_props(m, (k - 1) as nat);
        let prev = selected_slots(m, (k - 1) as nat);
        let cur = selected_slots(m, k);
        if bit_set(m, k - 1) {
            assert(cur == prev.push((k - 1) as usize));
            assert(forall|j: int| 0 <= j < k - 1 ==> (selects(prev, j) <==> selects(cur, j)))
                by {
                assert forall|j: int| 0 <= j < k - 1 implies (selects(prev, j) <==> selects(
                    cur,
                    j,
                )) by {
                    if selects(prev, j) {
                        let y = choose|y: int| 0 <= y < prev.len() && #[trigger] prev[y] as int
                            == j;
                        assert(cur[y] as int == j);
                    }
                    if selects(cur, j) {
                        let y = choose|y: int| 0 <= y < cur.len() && #[trigger] cur[y] as int
                            == j;
                        assert(y < prev.len());
                        assert(prev[y] as int == j);
                    }
                }
            }
            assert(cur[cur.len() - 1] as int == k - 1);
            assert(selects(cur, k - 1));
        } else {
            assert(cur == prev);
            assert forall|j: int| 0 <= j < k implies (selects(cur, j) <==> bit_set(m, j)) by {
                if j == k - 1 {
                    if selects(cur, j) {
                        let y = choose|y: int| 0 <= y < cur.len() && #[trigger] cur[y] as int
                            == j;
                        assert(cur[y] < k - 1);
                        assert(false);
                    }
                }
            }
        }
    }
}

/// The mutation a valid answer submission applies to the stored
/// question: increment the tally counter of each listed slot by one,
/// or append one free-text answer.
#[derive(Debug)]
pub enum Update {
    Increment { slots: Vec<usize> },
    Append { token: String },
}

/// Builds the slot list of `mask` over `k` options.
fn mask_slots(mask: u32, k: usize) -> (slots: Vec<usize>)
    requires
        k <= 32,
    ensures
        slots@ == selected_slots(mask, k as nat),
{
    let mut slots: Vec<usize> = Vec::new();
    let mut i: usize = 0;
    while i < k
        invariant
            i <= k,
            k <= 32,
            slots@ == selected_slots(mask, i as nat),
        decreases k - i,
    {
        let b = 1u32 << (i as u32);
        let hit = (b & mask) == b;
        proof {
            let iu = i as u32;
            assert((((1u32 << iu) & mask) == (1u32 << iu)) == (((mask >> iu) & 1u32) == 1u32))
                by (bit_vector)
                requires
                    iu < 32u32,
            ;
            assert(hit == bit_set(mask, i as int));
        }
        if hit {
            slots.push(i);
        }
        i = i + 1;
    }
    slots
}

/// A single-choice token is accepted when it is numeric and names an
/// existing option index.
pub open spec fn choice_token_accepted(token: Seq<char>, k: nat) -> bool {
    is_numeric_token(token) && 0 <= token_val(token) < k
}

/// A multi-choice token is accepted when it is numeric and its value
/// is a non-empty mask of the `k` options: `0 < m <= 2^k - 1`.
pub open spec fn multi_token_accepted(token: Seq<char>, k: nat) -> bool {
    is_numeric_token(token) && 0 < token_val(token) && token_val(token) < (1u32 << (k as u32))
}

/// A free-text token is accepted when it fits the text bound.
pub open spec fn text_token_accepted(token: Seq<char>) -> bool {
    token.len() <= MAX_TEXT_LEN
}

/// A token is accepted against a question exactly by the rule of its
/// declared shape.
pub open spec fn token_accepted(q: Question, token: Seq<char>) -> bool {
    match q {
        Question::Choice { .. } => choice_token_accepted(token, q.option_count()),
        Question::MultiChoice { .. } => multi_token_accepted(token, q.option_count()),
        Question::FreeText { .. } => text_token_accepted(token),
    }
}

/// The update an accepted token produces: the single named slot for a
/// single-choice index, the set-bit slots of a multi-choice mask, or
/// the appended token itself for free text.
pub open spec fn update_matches(q: Question, token: Seq<char>, u: Update) -> bool {
    match q {
        Question::Choice { .. } => u matches Update::Increment { slots } && slots@ == seq![
            token_val(token) as usize,
        ],
        Question::MultiChoice { .. } => u matches Update::Increment { slots } && slots@
            == selected_slots(token_val(token) as u32, q.option_count()),
        Question::FreeText { .. } => u matches Update::Append { token: t } && t@ == token,
    }
}

/// The answer-tabulation decision: interprets `token` against the
/// question's declared shape and computes the update to apply, or the
/// client error that rejects the submission.
///
/// Single-choice: the token must be a numeric index below the option
/// count; the update increments exactly that slot. Multi-choice: the
/// token must be a numeric bitmask `m` with `0 < m <= 2^k - 1`; the
/// update increments exactly the slots whose bit is set. Free-text:
/// the token itself is the answer and must fit the text bound; the
/// update appends it.
pub fn tabulate(question: &Question, token: &str) -> (r: Result<Update, QuizError>)
    requires
        question.well_formed(),
    ensures
        r is Ok <==> token_accepted(*question, token@),
        r is Ok ==> update_matches(*question, token@, r->Ok_0),
        r is Err ==> r->Err_0 == QuizError::ClientError,
{
    match question {
        Question::Choice { options, .. } => {
            let k = options.len();
            match parse_index(token) {
                Some(v) => {
                    if (v as usize) < k {
                        let mut slots: Vec<usize> = Vec::new();
                        slots.push(v as usize);
                        proof {
                            assert(slots@ =~= seq![token_val(token@) as usize]);
                        }
                        Ok(Update::Increment { slots })
                    } else {
                        Err(QuizError::ClientError)
                    }
                },
                None => Err(QuizError::ClientError),
            }
        },
        Question::MultiChoice { options, .. } => {
            let k = options.len();
            proof {
                let ku = k as u32;
                assert(1u32 << ku >= 1u32) by (bit_vector)
                    requires
                        ku < 32u32,
                ;
            }
            let max_mask = (1u32 << (k as u32)) - 1;
            match parse_index(token) {
                Some(v) => {
                    if v == 0 || v > max_mask {
                        Err(QuizError::ClientError)
                    } else {
                        let slots = mask_slots(v, k);
                        Ok(Update::Increment { slots })
                    }
                },
                None => Err(QuizError::ClientError),
            }
        },
        Question::FreeText { .. } => {
            if token.unicode_len() > MAX_TEXT_LEN {
                Err(QuizError::ClientError)
            } else {
                Ok(Update::Append { token: String::from_str(token) })
            }
        },
    }
}

/// The whole answer-path decision for one submission: a question that
/// the lookup did not find is a server error, uniformly with store
/// failures on this path; a found question has the token tabulated
/// against its shape.
pub fn answer_decision(found: Option<&Question>, token: &str) -> (r: Result<Update, QuizError>)
    requires
        found matches Some(q) ==> q.well_formed(),
    ensures
        found is None ==> r is Err && r->Err_0 == QuizError::ServerError,
        found matches Some(q) ==> {
            &&& r is Ok <==> token_accepted(*q, token@)
            &&& r is Ok ==> update_matches(*q, token@, r->Ok_0)
            &&& r is Err ==> r->Err_0 == QuizError::ClientError
        },
{
    match found {
        Some(question) => tabulate(question, token),
        None => Err(QuizError::ServerError),
    }
}

/// An update fits a question when its kind matches the question's
/// shape and every listed slot names an existing tally counter, each
/// at most once.
pub open spec fn update_fits(upd: Update, q: Question) -> bool {
    match upd {
        Update::Increment { slots } => {
            &&& (q is Choice || q is MultiChoice)
            &&& strictly_increasing(slots@)
            &&& forall|x: int| 0 <= x < slots@.len()
                ==> (#[trigger] slots@[x] as int) < q.tallies_view().len()
        },
        Update::Append { .. } => q is FreeText,
    }
}

/// Increments the tally counter of each listed slot by exactly one,
/// leaving every other counter unchanged.
fn increment_slots(tallies: &mut Vec<u32>, slots: &Vec<usize>)
    requires
        strictly_increasing(slots@),
        forall|x: int| 0 <= x < slots@.len()
            ==> (#[trigger] slots@[x] as int) < old(tallies)@.len(),
        forall|x: int| 0 <= x < slots@.len()
            ==> old(tallies)@[#[trigger] slots@[x] as int] < u32::MAX,
    ensures
        final(tallies)@.len() == old(tallies)@.len(),
        forall|j: int| 0 <= j < old(tallies)@.len()
            ==> #[trigger] final(tallies)@[j] as int == old(tallies)@[j] + (
            if selects(slots@, j) {
                1int
            } else {
                0int
            }),
{
    let n = slots.len();
    let mut x: usize = 0;
    while x < n
        invariant
            x <= n,
            n == slots@.len(),
            tallies@.len() == old(tallies)@.len(),
            strictly_increasing(slots@),
            forall|y: int| 0 <= y < slots@.len()
                ==> (#[trigger] slots@[y] as int) < old(tallies)@.len(),
            forall|y: int| 0 <= y < slots@.len()
                ==> old(tallies)@[#[trigger] slots@[y] as int] < u32::MAX,
            forall|j: int| 0 <= j < tallies@.len()
                ==> #[trigger] tallies@[j] as int == old(tallies)@[j] + (
                if selects(slots@.take(x as int), j) {
                    1int
                } else {
                    0int
                }),
        decreases n - x,
    {
        let s = slots[x];
        proof {
            if selects(slots@.take(x as int), s as int) {
                let y = choose|y: int| 0 <= y < slots@.take(x as int).len()
                    && #[trigger] slots@.take(x as int)[y] as int == s as int;
                assert(slots@[y] < slots@[x as int]);
                assert(false);
            }
        }
        let t = tallies[s];
        tallies.set(s, t + 1);
        proof {
            let pre = slots@.take(x as int);
            let post = slots@.take(x as int + 1);
            assert(post =~= pre.push(slots@[x as int]));
            assert forall|j: int| 0 <= j < tallies@.len() implies #[trigger] tallies@[j] as int
                == old(tallies)@[j] + (
            if selects(post, j) {
                1int
            } else {
                0int
            }) by {
                if j == s as int {
                    assert(post[x as int] as int == j);
                    assert(selects(post, j));
                } else {
                    if selects(post, j) {
                        let y = choose|y: int| 0 <= y < post.len() && #[trigger] post[y] as int
                            == j;
                        assert(y < x as int);
                        assert(pre[y] as int == j);
                        assert(selects(pre, j));
                    }
                    if selects(pre, j) {
                        let y = choose|y: int| 0 <= y < pre.len() && #[trigger] pre[y] as int
                            == j;
                        assert(post[y] as int == j);
                        assert(selects(post, j));
                    }
                }
            }
        }
        x = x + 1;
    }
    proof {
        assert(slots@.take(n as int) =~= slots@);
    }
}

/// Applies a fitting update to the stored question: the per-slot
/// atomic increments of a choice submission, or the atomic append of
/// a free-text submission. The question's shape never changes.
pub fn apply_update(question: &mut Question, upd: &Update)
    requires
        old(question).well_formed(),
        update_fits(*upd, *old(question)),
        *upd matches Update::Increment { slots } ==> forall|x: int| 0 <= x < slots@.len()
            ==> old(question).tallies_view()[#[trigger] slots@[x] as int] < u32::MAX,
    ensures
        final(question).well_formed(),
        same_shape(*final(question), *old(question)),
        *upd matches Update::Increment { slots } ==> {
            &&& final(question).tallies_view().len() == old(question).tallies_view().len()
            &&& forall|j: int| 0 <= j < old(question).tallies_view().len()
                ==> #[trigger] final(question).tallies_view()[j] as int == old(
                question,
            ).tallies_view()[j] + (
            if selects(slots@, j) {
                1int
            } else {
                0int
            })
        },
        *upd matches Update::Append { token } ==> final(question).answers_view() == old(
            question,
        ).answers_view().push(token@),
{
    match upd {
        Update::Increment { slots } => {
            match question {
                Question::Choice { tallies, .. } => {
                    increment_slots(tallies, slots);
                },
                Question::MultiChoice { tallies, .. } => {
                    increment_slots(tallies, slots);
                },
                Question::FreeText { .. } => {
                },
            }
        },
        Update::Append { token } => {
            match question {
                Question::FreeText { answers, .. } => {
                    answers.push(token.clone());
                    proof {
                        assert(old(question).answers_view().push(token@) =~= answers@.map_values(
                            |a: String| a@,
                        ));
                    }
                },
                Question::Choice { .. } => {
                },
                Question::MultiChoice { .. } => {
                },
            }
        },
    }
}

/// One answer submission against an in-memory question: tabulates the
/// token against the question's shape and applies the resulting
/// update. A rejected token is a client error and mutates nothing.
///
/// Single-choice: an in-range index `i` raises slot `i` by exactly one
/// and leaves every other slot unchanged. Multi-choice: an in-range
/// mask raises exactly the slots whose bit is set, each by one, in a
/// single submission. Free-text: a fitting token is appended after the
/// answers already stored, so submissions accumulate in arrival order.
pub fn submit_answer(question: &mut Question, token: &str) -> (r: Result<(), QuizError>)
    requires
        old(question).well_formed(),
        forall|j: int| 0 <= j < old(question).tallies_view().len()
            ==> #[trigger] old(question).tallies_view()[j] < u32::MAX,
    ensures
        final(question).well_formed(),
        r is Err ==> *final(question) == *old(question) && r->Err_0 == QuizError::ClientError,
        r is Ok ==> same_shape(*final(question), *old(question)),
        *old(question) is Choice ==> {
            &&& (r is Ok <==> choice_token_accepted(token@, old(question).option_count()))
            &&& r is Ok ==> {
                &&& forall|j: int| 0 <= j < old(question).tallies_view().len()
                    ==> #[trigger] final(question).tallies_view()[j] as int == old(
                    question,
                ).tallies_view()[j] + (
                if j == token_val(token@) {
                    1int
                } else {
                    0int
                })
                &&& final(question).tallies_view() == inc_slot(
                    old(question).tallies_view(),
                    token_val(token@),
                )
            }
        },
        *old(question) is MultiChoice ==> {
            &&& (r is Ok <==> multi_token_accepted(token@, old(question).option_count()))
            &&& r is Ok ==> forall|j: int| 0 <= j < old(question).tallies_view().len()
                ==> #[trigger] final(question).tallies_view()[j] as int == old(
                question,
            ).tallies_view()[j] + (
            if bit_set(token_val(token@) as u32, j) {
                1int
            } else {
                0int
            })
        },
        *old(question) is FreeText ==> {
            &&& (r is Ok <==> text_token_accepted(token@))
            &&& r is Ok ==> final(question).answers_view() == old(
                question,
            ).answers_view().push(token@)
        },
{
    let upd = match tabulate(question, token) {
        Ok(u) => u,
        Err(e) => {
            return Err(e);
        },
    };
    proof {
        match &upd {
            Update::Increment { slots } => {
                if *old(question) is Choice {
                    let v = token_val(token@);
                    assert(slots@ == seq![v as usize]);
                    assert(slots@[0] as int == v);
                } else {
                    lemma_selected_slots_props(
                        token_val(token@) as u32,
                        old(question).option_count(),
                    );
                }
            },
            Update::Append { .. } => {
            },
        }
    }
    apply_update(question, &upd);
    proof {
        match &upd {
            Update::Increment { slots } => {
                if *old(question) is Choice {
                    let v = token_val(token@);
                    assert forall|j: int| 0 <= j < old(question).tallies_view().len() implies (
                    selects(slots@, j) <==> j == v) by {
                        if selects(slots@, j) {
                            let y = choose|y: int| 0 <= y < slots@.len()
                                && #[trigger] slots@[y] as int == j;
                            assert(y == 0);
                        }
                        if j == v {
                            assert(slots@[0] as int == j);
                        }
                    }
                    assert(question.tallies_view() =~= inc_slot(
                        old(question).tallies_view(),
                        v,
                    ));
                }
            },
            Update::Append { .. } => {
            },
        }
    }
    Ok(())
}

/// One atomic increment of tally slot `i`.
pub open spec fn inc_slot(t: Seq<u32>, i: int) -> Seq<u32> {
    t.update(i, (t[i] + 1) as u32)
}

/// `n` atomic increments of tally slot `i`, applied one after another.
/// The store serializes concurrent per-field increments, so any `n`
/// concurrent submissions to one option land as such a chain.
pub open spec fn inc_slot_n(t: Seq<u32>, i: int, n: nat) -> Seq<u32>
    decreases n,
{
    if n == 0 {
        t
    } else {
        inc_slot(inc_slot_n(t, i, (n - 1) as nat), i)
    }
}

/// Law: `n` serialized atomic increments of slot `i` raise that
/// counter by exactly `n` and leave every other counter unchanged —
/// no concurrent update is lost.
pub proof fn lemma_no_lost_updates(t: Seq<u32>, i: int, n: nat)
    requires
        0 <= i < t.len(),
        t[i] + n <= u32::MAX,
    ensures
        inc_slot_n(t, i, n).len() == t.len(),
        inc_slot_n(t, i, n)[i] == t[i] + n,
        forall|j: int| 0 <= j < t.len() && j != i ==> inc_slot_n(t, i, n)[j] == t[j],
    decreases n,
{
    if n > 0 {
        lemma_no_lost_updates(t, i, (n - 1) as nat);
    }
}

} // verus!
