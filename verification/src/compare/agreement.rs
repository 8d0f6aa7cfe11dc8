//! Whose answers agree.

use vstd::prelude::*;
use vstd::string::*;

use crate::compare::records::{
    find_record, record_with, records_view, AnswerRecord, RecordView,
};
use crate::json::{same_value, Json, JsonView, Node};
use crate::text::{decimal, decimal_text, push_decimal, same_text};

verus! {

/// The query shapes that are compared.
pub const SHAPES: [&'static str; 7] = [
    "label_only",
    "line_filter",
    "json_field",
    "json_field_rare",
    "metadata_rare",
    "trace_window",
    "rate",
];

/// The systems that are compared.
pub const TARGETS: [&'static str; 3] = ["loggytracy", "loki", "victorialogs"];

/// Which digest a pair of systems is held to. The strict one covers the whole
/// answer; the reduced one covers its instants and the fields that the query
/// named, for a system that answers with every field it holds.
#[derive(Clone, Copy, Debug, PartialEq, Eq, Structural)]
pub enum Basis {
    Strict,
    Reduced,
}

impl Basis {
    /// The field of an answer that holds the digest.
    pub fn field(self) -> (name: &'static str)
        ensures
            name@ == match self {
                Basis::Strict => "digest"@,
                Basis::Reduced => "reduced_digest"@,
            },
    {
        match self {
            Basis::Strict => "digest",
            Basis::Reduced => "reduced_digest",
        }
    }
}

/// The pairs that are compared, by their places among the systems.
pub const PAIRS: [(usize, usize, Basis); 3] = [
    (0, 1, Basis::Strict),
    (0, 2, Basis::Reduced),
    (1, 2, Basis::Reduced),
];

/// The digest of an answer on a basis.
pub open spec fn digest_on(record: RecordView, basis: Basis) -> JsonView {
    match basis {
        Basis::Strict => record.digest,
        Basis::Reduced => record.reduced_digest,
    }
}

/// Whether two answers agree on a basis. A digest that is missing agrees with
/// nothing.
pub open spec fn agree(one: RecordView, other: RecordView, basis: Basis) -> bool {
    same_value(digest_on(one, basis), digest_on(other, basis)) && !(digest_on(
        one,
        basis,
    ).node is Null)
}

pub fn answers_agree(one: &AnswerRecord, other: &AnswerRecord, basis: Basis) -> (same: bool)
    ensures
        same == agree(one@, other@, basis),
{
    let (left, right) = match basis {
        Basis::Strict => (&one.digest, &other.digest),
        Basis::Reduced => (&one.reduced_digest, &other.reduced_digest),
    };
    match &left.node {
        Node::Null => false,
        _ => left.same(right),
    }
}

// ------------------------------------------------------------------ agreement
/// How many queries of a shape agreed, and how many both systems answered.
pub open spec fn tally_of(
    left: Seq<RecordView>,
    right: Seq<RecordView>,
    basis: Basis,
    shape: Seq<char>,
) -> (nat, nat)
    decreases left.len(),
{
    if left.len() == 0 {
        (0, 0)
    } else {
        let before = tally_of(left.drop_last(), right, basis, shape);
        let one = left.last();
        match record_with(right, one.id) {
            Some(other) => if one.shape != Some(shape) {
                before
            } else if agree(one, other, basis) {
                (before.0 + 1, before.1 + 1)
            } else {
                (before.0, before.1 + 1)
            },
            None => before,
        }
    }
}

proof fn tally_bounds(left: Seq<RecordView>, right: Seq<RecordView>, basis: Basis, shape: Seq<char>)
    ensures
        tally_of(left, right, basis, shape).0 <= tally_of(left, right, basis, shape).1,
        tally_of(left, right, basis, shape).1 <= left.len(),
    decreases left.len(),
{
    if left.len() > 0 {
        tally_bounds(left.drop_last(), right, basis, shape);
    }
}

/// How a pair of systems agrees: for each shape, how many queries agreed and how
/// many were compared.
pub struct PairAgreement {
    pub left: usize,
    pub right: usize,
    pub basis: Basis,
    pub per_shape: Vec<(u64, u64)>,
}

impl PairAgreement {
    /// Whether this is how two systems agree over given answers.
    pub open spec fn is_of(
        &self,
        pair: (usize, usize, Basis),
        left: Seq<RecordView>,
        right: Seq<RecordView>,
    ) -> bool {
        &&& self.left == pair.0
        &&& self.right == pair.1
        &&& self.basis == pair.2
        &&& self.per_shape@.len() == 7
        &&& forall|s: int|
            0 <= s < 7 ==> (
                (#[trigger] self.per_shape@[s]).0 as nat,
                self.per_shape@[s].1 as nat,
            ) == tally_of(left, right, pair.2, SHAPES@[s]@)
    }

    /// Whether every query of a shape agreed, and there was one.
    pub open spec fn full(&self, shape: int) -> bool {
        self.per_shape@[shape].1 > 0 && self.per_shape@[shape].0 == self.per_shape@[shape].1
    }

    pub fn shape_agrees(&self, shape: usize) -> (agrees: bool)
        requires
            shape < self.per_shape@.len(),
        ensures
            agrees == self.full(shape as int),
    {
        let (same, all) = self.per_shape[shape];
        all > 0 && same == all
    }
}

fn tally_shape(
    left: &[AnswerRecord],
    right: &[AnswerRecord],
    basis: Basis,
    shape: &str,
) -> (out: (u64, u64))
    ensures
        (out.0 as nat, out.1 as nat) == tally_of(
            records_view(left@),
            records_view(right@),
            basis,
            shape@,
        ),
{
    let ghost views = records_view(left@);
    let total: usize = left.len();
    let mut same: u64 = 0;
    let mut all: u64 = 0;
    let mut i: usize = 0;
    assert(views.take(0) =~= seq![]);
    while i < total
        invariant
            i <= total,
            total == left@.len(),
            views == records_view(left@),
            (same as nat, all as nat) == tally_of(
                views.take(i as int),
                records_view(right@),
                basis,
                shape@,
            ),
        decreases total - i,
    {
        proof {
            tally_bounds(views.take(i as int), records_view(right@), basis, shape@);
            assert(views.take(i + 1).drop_last() =~= views.take(i as int));
            assert(views.take(i + 1).last() == left@[i as int]@);
        }
        let one = &left[i];
        if let Some(other) = find_record(right, one.id.as_str()) {
            let is_shape = match &one.shape {
                Some(name) => same_text(name.as_str(), shape),
                None => false,
            };
            if is_shape {
                all = all + 1;
                if answers_agree(one, other, basis) {
                    same = same + 1;
                }
            }
        }
        i = i + 1;
    }
    assert(views.take(i as int) =~= views);
    (same, all)
}

/// Compares the answers of a pair of systems.
pub fn compute_agreement(
    pair: (usize, usize, Basis),
    left: &[AnswerRecord],
    right: &[AnswerRecord],
) -> (agreement: PairAgreement)
    ensures
        agreement.is_of(pair, records_view(left@), records_view(right@)),
        forall|s: int|
            0 <= s < 7 ==> (#[trigger] agreement.per_shape@[s]).0 <= agreement.per_shape@[s].1,
{
    let shapes = SHAPES;
    let mut per_shape: Vec<(u64, u64)> = Vec::new();
    let mut s: usize = 0;
    while s < 7
        invariant
            s <= 7,
            shapes@ == SHAPES@,
            per_shape@.len() == s,
            forall|j: int|
                0 <= j < s ==> ((#[trigger] per_shape@[j]).0 as nat, per_shape@[j].1 as nat)
                    == tally_of(
                    records_view(left@),
                    records_view(right@),
                    pair.2,
                    SHAPES@[j]@,
                ) && per_shape@[j].0 <= per_shape@[j].1,
        decreases 7 - s,
    {
        proof {
            tally_bounds(records_view(left@), records_view(right@), pair.2, SHAPES@[s as int]@);
        }
        let tally = tally_shape(left, right, pair.2, shapes[s]);
        per_shape.push(tally);
        s = s + 1;
    }
    PairAgreement { left: pair.0, right: pair.1, basis: pair.2, per_shape }
}

/// Of a shape no more queries agree than were compared.
pub proof fn no_more_agree_than_were_compared(
    agreement: PairAgreement,
    pair: (usize, usize, Basis),
    left: Seq<RecordView>,
    right: Seq<RecordView>,
    shape: int,
)
    requires
        agreement.is_of(pair, left, right),
        0 <= shape < 7,
    ensures
        agreement.per_shape@[shape].0 <= agreement.per_shape@[shape].1,
        agreement.per_shape@[shape].1 <= left.len(),
{
    tally_bounds(left, right, pair.2, SHAPES@[shape]@);
    assert((agreement.per_shape@[shape].0 as nat, agreement.per_shape@[shape].1 as nat)
        == tally_of(left, right, pair.2, SHAPES@[shape]@));
}

/// Where a shape agrees in full, each of its queries that both systems answered
/// agrees, and there is one.
pub proof fn full_agreement_is_agreement_on_every_query(
    agreement: PairAgreement,
    pair: (usize, usize, Basis),
    left: Seq<RecordView>,
    right: Seq<RecordView>,
    shape: int,
)
    requires
        agreement.is_of(pair, left, right),
        0 <= shape < 7,
        agreement.full(shape),
    ensures
        forall|i: int|
            #![trigger left[i]]
            0 <= i < left.len() && left[i].shape == Some(SHAPES@[shape]@) && record_with(
                right,
                left[i].id,
            ) is Some ==> agree(left[i], record_with(right, left[i].id)->Some_0, pair.2),
        exists|i: int|
            #![trigger left[i]]
            0 <= i < left.len() && left[i].shape == Some(SHAPES@[shape]@) && record_with(
                right,
                left[i].id,
            ) is Some,
{
    assert(agreement.per_shape@[shape].1 > 0);
    all_of_a_shape_agree(left, right, pair.2, SHAPES@[shape]@);
    something_was_compared(left, right, pair.2, SHAPES@[shape]@);
}

proof fn all_of_a_shape_agree(
    left: Seq<RecordView>,
    right: Seq<RecordView>,
    basis: Basis,
    shape: Seq<char>,
)
    requires
        tally_of(left, right, basis, shape).0 == tally_of(left, right, basis, shape).1,
    ensures
        forall|i: int|
            #![trigger left[i]]
            0 <= i < left.len() && left[i].shape == Some(shape) && record_with(
                right,
                left[i].id,
            ) is Some ==> agree(left[i], record_with(right, left[i].id)->Some_0, basis),
    decreases left.len(),
{
    if left.len() > 0 {
        let rest = left.drop_last();
        tally_bounds(rest, right, basis, shape);
        all_of_a_shape_agree(rest, right, basis, shape);
        assert forall|i: int|
            #![trigger left[i]]
            0 <= i < left.len() && left[i].shape == Some(shape) && record_with(
                right,
                left[i].id,
            ) is Some implies agree(left[i], record_with(right, left[i].id)->Some_0, basis) by {
            if i < rest.len() {
                assert(rest[i] == left[i]);
            }
        }
    }
}

proof fn something_was_compared(
    left: Seq<RecordView>,
    right: Seq<RecordView>,
    basis: Basis,
    shape: Seq<char>,
)
    requires
        tally_of(left, right, basis, shape).1 > 0,
    ensures
        exists|i: int|
            #![trigger left[i]]
            0 <= i < left.len() && left[i].shape == Some(shape) && record_with(
                right,
                left[i].id,
            ) is Some,
    decreases left.len(),
{
    if left.len() > 0 {
        let one = left[left.len() - 1];
        if !(one.shape == Some(shape) && record_with(right, one.id) is Some) {
            something_was_compared(left.drop_last(), right, basis, shape);
            let at = choose|i: int|
                #![trigger left.drop_last()[i]]
                0 <= i < left.drop_last().len() && left.drop_last()[i].shape == Some(shape)
                    && record_with(right, left.drop_last()[i].id) is Some;
            assert(left[at] == left.drop_last()[at]);
        }
    }
}

/// A ratio of timings as it is shown: only where the answers agree, since the
/// speed of a different answer measures nothing.
pub open spec fn gated(agreement: PairAgreement, shape: int, ratio: Seq<char>) -> Seq<char> {
    if agreement.full(shape) {
        ratio
    } else {
        "withheld ("@ + decimal(
            (agreement.per_shape@[shape].1 - agreement.per_shape@[shape].0) as nat,
        ) + "/"@ + decimal(agreement.per_shape@[shape].1 as nat) + " disagree)"@
    }
}

/// Shows a ratio, or that it is withheld.
pub fn gated_ratio(agreement: &PairAgreement, shape: usize, ratio: &str) -> (out: String)
    requires
        shape < agreement.per_shape@.len(),
        agreement.per_shape@[shape as int].0 <= agreement.per_shape@[shape as int].1,
    ensures
        out@ == gated(*agreement, shape as int, ratio@),
{
    if agreement.shape_agrees(shape) {
        return ratio.to_owned();
    }
    let (same, all) = agreement.per_shape[shape];
    let mut out = "withheld (".to_owned();
    push_decimal(&mut out, all - same);
    out.append("/");
    push_decimal(&mut out, all);
    out.append(" disagree)");
    out
}

/// The sums of a column of the agreement: queries that agreed, and queries that
/// were compared.
pub open spec fn sums_of(per_shape: Seq<(u64, u64)>) -> (nat, nat)
    decreases per_shape.len(),
{
    if per_shape.len() == 0 {
        (0, 0)
    } else {
        let before = sums_of(per_shape.drop_last());
        (before.0 + per_shape.last().0 as nat, before.1 + per_shape.last().1 as nat)
    }
}

proof fn sums_grow(per_shape: Seq<(u64, u64)>, n: int)
    requires
        0 <= n <= per_shape.len(),
    ensures
        sums_of(per_shape.take(n)).0 <= sums_of(per_shape).0,
        sums_of(per_shape.take(n)).1 <= sums_of(per_shape).1,
    decreases per_shape.len(),
{
    if n < per_shape.len() {
        sums_grow(per_shape.drop_last(), n);
        assert(per_shape.drop_last().take(n) =~= per_shape.take(n));
    } else {
        assert(per_shape.take(n) =~= per_shape);
    }
}

pub fn agreement_sums(agreement: &PairAgreement) -> (out: (u64, u64))
    requires
        sums_of(agreement.per_shape@).0 <= u64::MAX,
        sums_of(agreement.per_shape@).1 <= u64::MAX,
    ensures
        (out.0 as nat, out.1 as nat) == sums_of(agreement.per_shape@),
{
    let ghost list = agreement.per_shape@;
    let mut same: u64 = 0;
    let mut all: u64 = 0;
    let mut i: usize = 0;
    assert(list.take(0) =~= seq![]);
    while i < agreement.per_shape.len()
        invariant
            i <= list.len(),
            list == agreement.per_shape@,
            sums_of(list).0 <= u64::MAX,
            sums_of(list).1 <= u64::MAX,
            (same as nat, all as nat) == sums_of(list.take(i as int)),
        decreases list.len() - i,
    {
        proof {
            sums_grow(list, i + 1);
            assert(list.take(i + 1).drop_last() =~= list.take(i as int));
        }
        same = same + agreement.per_shape[i].0;
        all = all + agreement.per_shape[i].1;
        i = i + 1;
    }
    assert(list.take(i as int) =~= list);
    (same, all)
}

// --------------------------------------------------------------------- totals
/// Which count of an answer is summed.
#[derive(Clone, Copy, Debug, PartialEq, Eq, Structural)]
pub enum Count {
    Rows,
    LinesProcessed,
}

pub open spec fn count_of(answer: JsonView, count: Count) -> nat {
    match crate::compare::records::number_field(
        answer,
        match count {
            Count::Rows => "rows"@,
            Count::LinesProcessed => "lines_processed"@,
        },
    ) {
        Some(n) => n as nat,
        None => 0,
    }
}

/// The sum of a count over the answers of a shape. Every answer of the report
/// counts, also one whose id is listed twice.
pub open spec fn shape_total(answers: Seq<JsonView>, shape: Seq<char>, count: Count) -> nat
    decreases answers.len(),
{
    if answers.len() == 0 {
        0
    } else {
        let before = shape_total(answers.drop_last(), shape, count);
        if crate::compare::records::text_field(answers.last(), "shape"@) == Some(shape) {
            before + count_of(answers.last(), count)
        } else {
            before
        }
    }
}

proof fn shape_total_grows(answers: Seq<JsonView>, shape: Seq<char>, count: Count, n: int)
    requires
        0 <= n <= answers.len(),
    ensures
        shape_total(answers.take(n), shape, count) <= shape_total(answers, shape, count),
    decreases answers.len(),
{
    if n < answers.len() {
        shape_total_grows(answers.drop_last(), shape, count, n);
        assert(answers.drop_last().take(n) =~= answers.take(n));
    } else {
        assert(answers.take(n) =~= answers);
    }
}

fn read_count(answer: &Json, count: Count) -> (n: u64)
    ensures
        n == count_of(answer@, count),
{
    let value = match count {
        Count::Rows => answer.get("rows"),
        Count::LinesProcessed => answer.get("lines_processed"),
    };
    match value {
        Some(value) => match value.as_u64() {
            Some(n) => n,
            None => 0,
        },
        None => 0,
    }
}

fn sum_shape(
    items: &Vec<Json>,
    shape: &str,
    count: Count,
    Ghost(views): Ghost<Seq<JsonView>>,
) -> (total: u64)
    requires
        views.len() == items@.len(),
        forall|j: int| 0 <= j < items@.len() ==> #[trigger] views[j] == items@[j]@,
        shape_total(views, shape@, count) <= u64::MAX,
    ensures
        total == shape_total(views, shape@, count),
{
    let mut total: u64 = 0;
    let mut i: usize = 0;
    assert(views.take(0) =~= seq![]);
    while i < items.len()
        invariant
            i <= items@.len(),
            views.len() == items@.len(),
            forall|j: int| 0 <= j < items@.len() ==> #[trigger] views[j] == items@[j]@,
            shape_total(views, shape@, count) <= u64::MAX,
            total == shape_total(views.take(i as int), shape@, count),
        decreases items@.len() - i,
    {
        proof {
            shape_total_grows(views, shape@, count, i + 1);
            assert(views.take(i + 1).drop_last() =~= views.take(i as int));
            assert(views.take(i + 1).last() == items@[i as int]@);
        }
        if let Some(value) = items[i].get("shape") {
            if let Some(name) = value.as_str() {
                if same_text(name, shape) {
                    let n: u64 = read_count(&items[i], count);
                    total = total + n;
                }
            }
        }
        i = i + 1;
    }
    assert(views.take(i as int) =~= views);
    total
}

fn total_of(report: &Json, shape: &str, count: Count) -> (total: u64)
    requires
        shape_total(crate::compare::records::answers_of(report@), shape@, count) <= u64::MAX,
    ensures
        total == shape_total(crate::compare::records::answers_of(report@), shape@, count),
{
    if let Some(matrix) = report.get("matrix") {
        if let Some(list) = matrix.get("answers") {
            if let Some(items) = list.as_list() {
                return sum_shape(items, shape, count, Ghost(list@.items()->Some_0));
            }
        }
    }
    0
}

/// How many lines a system read for a shape. A system that reports none did not
/// say.
pub fn lines_read(report: &Json, shape: &str) -> (out: String)
    requires
        shape_total(
            crate::compare::records::answers_of(report@),
            shape@,
            Count::LinesProcessed,
        ) <= u64::MAX,
    ensures
        ({
            let total = shape_total(
                crate::compare::records::answers_of(report@),
                shape@,
                Count::LinesProcessed,
            );
            out@ == if total == 0 {
                "not reported"@
            } else {
                decimal(total)
            }
        }),
{
    let total: u64 = total_of(report, shape, Count::LinesProcessed);
    if total == 0 {
        "not reported".to_owned()
    } else {
        decimal_text(total)
    }
}

/// How many rows a system returned for a shape.
pub fn rows_returned(report: &Json, shape: &str) -> (out: String)
    requires
        shape_total(crate::compare::records::answers_of(report@), shape@, Count::Rows) <= u64::MAX,
    ensures
        out@ == decimal(
            shape_total(crate::compare::records::answers_of(report@), shape@, Count::Rows),
        ),
{
    decimal_text(total_of(report, shape, Count::Rows))
}

// -------------------------------------------------------------------- verdict
/// The verdict on the claim: whether it holds against each of the other systems,
/// where that could be decided.
pub open spec fn verdict_of(against_loki: Option<bool>, against_victorialogs: Option<bool>) -> Seq<
    char,
> {
    match (against_loki, against_victorialogs) {
        (Some(loki), Some(victorialogs)) => if loki && victorialogs {
            "**holds** \u{2014} materially faster than Loki and not materially worse than VictoriaLogs"@
        } else {
            "**does not hold** \u{2014} "@ + side(loki) + " Loki's side, "@ + side(victorialogs)
                + " the VictoriaLogs side"@
        },
        _ => "**could not be decided** \u{2014} the answers disagreed, and a verdict over disagreeing answers is the mistake this report refuses"@,
    }
}

pub open spec fn side(survives: bool) -> Seq<char> {
    if survives {
        "survives"@
    } else {
        "fails"@
    }
}

fn side_text(survives: bool) -> (text: &'static str)
    ensures
        text@ == side(survives),
{
    if survives {
        "survives"
    } else {
        "fails"
    }
}

pub fn verdict_line(against_loki: Option<bool>, against_victorialogs: Option<bool>) -> (out: String)
    ensures
        out@ == verdict_of(against_loki, against_victorialogs),
{
    match (against_loki, against_victorialogs) {
        (Some(loki), Some(victorialogs)) => {
            if loki && victorialogs {
                return "**holds** \u{2014} materially faster than Loki and not materially worse than VictoriaLogs".to_owned();
            }
            let mut out = "**does not hold** \u{2014} ".to_owned();
            out.append(side_text(loki));
            out.append(" Loki's side, ");
            out.append(side_text(victorialogs));
            out.append(" the VictoriaLogs side");
            out
        },
        _ => "**could not be decided** \u{2014} the answers disagreed, and a verdict over disagreeing answers is the mistake this report refuses".to_owned(),
    }
}

} // verus!
