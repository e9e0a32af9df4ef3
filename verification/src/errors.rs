//! The error ledger: an append-only log of failures and penalties.
use crate::tally::{lemma_sum_prefix, lemma_sum_push, lemma_sum_take_next, sum};
use vstd::prelude::*;
use vstd::std_specs::cmp::PartialEqSpecImpl;
use vstd::string::StringExecFns;

verus! {

/// One entry of the ledger.
#[derive(Debug)]
pub enum BenchmarkError {
    /// A fatal failure: the scope that recorded it has failed.
    Fail { cause: String },
    /// A failure that costs `point` points and is otherwise survivable.
    Penalty { cause: String, point: usize },
}

/// The mathematical content of a [`BenchmarkError`].
pub enum ErrorRecord {
    Fail { cause: Seq<char> },
    Penalty { cause: Seq<char>, point: nat },
}

impl ErrorRecord {
    /// The points that this entry costs: a failure costs none.
    pub open spec fn penalty(self) -> nat {
        match self {
            ErrorRecord::Fail { .. } => 0,
            ErrorRecord::Penalty { point, .. } => point,
        }
    }
}

impl View for BenchmarkError {
    type V = ErrorRecord;

    open spec fn view(&self) -> ErrorRecord {
        match self {
            BenchmarkError::Fail { cause } => ErrorRecord::Fail { cause: cause@ },
            BenchmarkError::Penalty { cause, point } => ErrorRecord::Penalty {
                cause: cause@,
                point: *point as nat,
            },
        }
    }
}

impl Clone for BenchmarkError {
    fn clone(&self) -> (copy: BenchmarkError)
        ensures
            copy@ == self@,
    {
        match self {
            BenchmarkError::Fail { cause } => BenchmarkError::Fail { cause: cause.clone() },
            BenchmarkError::Penalty { cause, point } => BenchmarkError::Penalty {
                cause: cause.clone(),
                point: *point,
            },
        }
    }
}

/// What `{:?}` prints for a string: the text between double quotes, with
/// the characters that need it escaped.
pub uninterp spec fn debug_text(text: Seq<char>) -> Seq<char>;

/// The decimal digit `digit`, for `digit` below ten.
pub open spec fn digit_char(digit: nat) -> char {
    seq!['0', '1', '2', '3', '4', '5', '6', '7', '8', '9'][digit as int]
}

/// `number` in decimal notation, without leading zeros.
pub open spec fn decimal_text(number: nat) -> Seq<char>
    decreases number,
{
    if number < 10 {
        seq![digit_char(number)]
    } else {
        decimal_text(number / 10).push(digit_char(number % 10))
    }
}

impl ErrorRecord {
    /// The message of this entry.
    pub open spec fn text(self) -> Seq<char> {
        match self {
            ErrorRecord::Fail { cause } => "benchmark fail "@ + debug_text(cause),
            ErrorRecord::Penalty { cause, point } => "benchmark penalty "@ + debug_text(cause)
                + " : "@ + decimal_text(point),
        }
    }
}

/// Formats `text` with `{:?}`, as the standard library's `Debug` for `str`
/// does. Nothing is proved of the result: the contract only gives it a name.
#[verifier::external_body]
fn debug_string(text: &str) -> (quoted: String)
    ensures
        quoted@ == debug_text(text@),
{
    format!("{:?}", text)
}

/// The text of one decimal digit.
fn digit_str(digit: usize) -> (text: &'static str)
    requires
        digit < 10,
    ensures
        text@ == seq![digit_char(digit as nat)],
{
    proof {
        reveal_strlit("0");
        reveal_strlit("1");
        reveal_strlit("2");
        reveal_strlit("3");
        reveal_strlit("4");
        reveal_strlit("5");
        reveal_strlit("6");
        reveal_strlit("7");
        reveal_strlit("8");
        reveal_strlit("9");
    }
    let text = match digit {
        0 => "0",
        1 => "1",
        2 => "2",
        3 => "3",
        4 => "4",
        5 => "5",
        6 => "6",
        7 => "7",
        8 => "8",
        _ => "9",
    };
    assert(text@ =~= seq![digit_char(digit as nat)]);
    text
}

/// `number` in decimal notation.
fn decimal_string(number: usize) -> (text: String)
    ensures
        text@ == decimal_text(number as nat),
    decreases number,
{
    if number < 10 {
        String::from_str(digit_str(number))
    } else {
        let mut text = decimal_string(number / 10);
        text.append(digit_str(number % 10));
        assert(text@ =~= decimal_text(number as nat));
        text
    }
}

impl BenchmarkError {
    /// The message of this entry: `benchmark fail` followed by the quoted
    /// cause, or `benchmark penalty` followed by the quoted cause, a colon
    /// between spaces and the points.
    pub fn to_string(&self) -> (text: String)
        ensures
            text@ == self@.text(),
    {
        match self {
            BenchmarkError::Fail { cause } => {
                let mut text = String::from_str("benchmark fail ");
                text.append(debug_string(cause.as_str()).as_str());
                text
            },
            BenchmarkError::Penalty { cause, point } => {
                let mut text = String::from_str("benchmark penalty ");
                text.append(debug_string(cause.as_str()).as_str());
                text.append(" : ");
                text.append(decimal_string(*point).as_str());
                text
            },
        }
    }
}

impl PartialEq for BenchmarkError {
    /// Two entries are equal if their messages are.
    fn eq(&self, other: &Self) -> (equal: bool) {
        self.to_string() == other.to_string()
    }
}

impl PartialEqSpecImpl for BenchmarkError {
    open spec fn obeys_eq_spec() -> bool {
        true
    }

    open spec fn eq_spec(&self, other: &Self) -> bool {
        self@.text() == other@.text()
    }
}

/// The cost of each entry, in the order of the ledger.
pub open spec fn penalties_of(records: Seq<ErrorRecord>) -> Seq<nat> {
    records.map_values(|record: ErrorRecord| record.penalty())
}

/// The sum of the points of all penalties in `records`.
pub open spec fn total_penalty_of(records: Seq<ErrorRecord>) -> nat {
    sum(penalties_of(records))
}

/// Some entry of `records` is a failure.
pub open spec fn has_fail(records: Seq<ErrorRecord>) -> bool {
    exists|i: int| 0 <= i < records.len() && #[trigger] records[i] is Fail
}

/// The ledger of one benchmark run.
pub struct Errors {
    errors: Vec<BenchmarkError>,
}

impl View for Errors {
    type V = Seq<ErrorRecord>;

    closed spec fn view(&self) -> Seq<ErrorRecord> {
        self.errors@.map_values(|error: BenchmarkError| error@)
    }
}

impl Clone for Errors {
    fn clone(&self) -> (copy: Errors)
        ensures
            copy@ == self@,
    {
        let copy = Errors { errors: self.errors.clone() };
        assert(copy@ =~= self@);
        copy
    }
}

impl Errors {
    /// An empty ledger.
    pub fn new() -> (errors: Errors)
        ensures
            errors@ == Seq::<ErrorRecord>::empty(),
    {
        let errors = Errors { errors: Vec::new() };
        assert(errors@ =~= Seq::<ErrorRecord>::empty());
        errors
    }

    /// Appends `error` to the ledger.
    pub fn record(&mut self, error: BenchmarkError)
        ensures
            final(self)@ == old(self)@.push(error@),
    {
        self.errors.push(error);
        assert(final(self)@ =~= old(self)@.push(error@));
    }

    /// Walks the entries from the oldest to the newest.
    pub fn iter(&self) -> (iter: std::slice::Iter<'_, BenchmarkError>)
        ensures
            vstd::std_specs::slice::into_iter_elts(iter).map_values(
                |error: BenchmarkError| error@,
            ) == self@,
    {
        let entries = self.errors.as_slice();
        let iter = entries.iter();
        proof {
            vstd::std_specs::slice::axiom_spec_slice_iter(entries);
            assert(vstd::std_specs::slice::into_iter_elts(iter) =~= self.errors@);
        }
        iter
    }

    /// The number of entries.
    pub fn len(&self) -> (len: usize)
        ensures
            len == self@.len(),
    {
        self.errors.len()
    }

    /// The entry at `index`, counted from the oldest.
    pub fn get(&self, index: usize) -> (error: Option<&BenchmarkError>)
        ensures
            match error {
                Some(error) => index < self@.len() && error@ == self@[index as int],
                None => index >= self@.len(),
            },
    {
        if index < self.errors.len() {
            Some(&self.errors[index])
        } else {
            None
        }
    }

    /// The total of the penalties if it fits a `usize`, and `None` if it does not.
    pub fn checked_total_penalty_point(&self) -> (total: Option<usize>)
        ensures
            total == if total_penalty_of(self@) <= usize::MAX {
                Some(total_penalty_of(self@) as usize)
            } else {
                None
            },
    {
        let ghost costs = penalties_of(self@);
        let mut total: usize = 0;
        let mut i: usize = 0;
        while i < self.errors.len()
            invariant
                i <= self.errors.len(),
                costs == penalties_of(self@),
                costs.len() == self.errors.len(),
                total == sum(costs.take(i as int)),
            decreases self.errors.len() - i,
        {
            let cost = match &self.errors[i] {
                BenchmarkError::Penalty { cause: _, point } => *point,
                BenchmarkError::Fail { cause: _ } => 0,
            };
            proof {
                lemma_sum_take_next(costs, i as int);
                lemma_sum_prefix(costs, i + 1);
            }
            total = match total.checked_add(cost) {
                Some(next) => next,
                None => { return None; },
            };
            i += 1;
        }
        assert(costs.take(i as int) =~= costs);
        Some(total)
    }

    /// The sum of the points of all recorded penalties.
    pub fn total_penalty_point(&self) -> (total: usize)
        requires
            total_penalty_of(self@) <= usize::MAX,
        ensures
            total == total_penalty_of(self@),
    {
        self.checked_total_penalty_point().unwrap()
    }

    /// Whether a failure has been recorded.
    pub fn has_failure(&self) -> (failed: bool)
        ensures
            failed == has_fail(self@),
    {
        let mut i: usize = 0;
        while i < self.errors.len()
            invariant
                i <= self.errors.len(),
                forall|j: int| 0 <= j < i ==> !(#[trigger] self@[j] is Fail),
            decreases self.errors.len() - i,
        {
            match &self.errors[i] {
                BenchmarkError::Fail { cause: _ } => {
                    assert(self@[i as int] is Fail);
                    return true;
                },
                BenchmarkError::Penalty { cause: _, point: _ } => {},
            }
            i += 1;
        }
        false
    }
}

/// Recording a failure marks the ledger as failed and costs no points.
pub proof fn lemma_fail_marks_ledger(records: Seq<ErrorRecord>, cause: Seq<char>)
    ensures
        has_fail(records.push(ErrorRecord::Fail { cause })),
        total_penalty_of(records.push(ErrorRecord::Fail { cause })) == total_penalty_of(records),
{
    let marked = records.push(ErrorRecord::Fail { cause });
    assert(marked[records.len() as int] is Fail);
    lemma_sum_push(penalties_of(records), 0);
    assert(penalties_of(marked) =~= penalties_of(records).push(0));
}

/// Recording a penalty adds its points to the total and leaves the ledger
/// as failed or not as it was.
pub proof fn lemma_penalty_adds_points(records: Seq<ErrorRecord>, cause: Seq<char>, point: nat)
    ensures
        has_fail(records.push(ErrorRecord::Penalty { cause, point })) == has_fail(records),
        total_penalty_of(records.push(ErrorRecord::Penalty { cause, point })) == total_penalty_of(
            records,
        ) + point,
{
    let added = records.push(ErrorRecord::Penalty { cause, point });
    lemma_sum_push(penalties_of(records), point);
    assert(penalties_of(added) =~= penalties_of(records).push(point));
    if has_fail(records) {
        let i = choose|i: int| 0 <= i < records.len() && #[trigger] records[i] is Fail;
        assert(added[i] is Fail);
    }
    if has_fail(added) {
        let i = choose|i: int| 0 <= i < added.len() && #[trigger] added[i] is Fail;
        assert(records[i] is Fail);
    }
}

} // verus!
