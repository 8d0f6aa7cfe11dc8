//! The queries that read a corpus back.

use vstd::prelude::*;
use vstd::string::*;

use crate::corpus::{Corpus, LEVELS, PHRASES, STATUSES};
use crate::form::{encode_form, form_encoded, form_pairs};
use crate::model::value_of;
use crate::rng::{advance, nth, nth_below, seeded, Rng};
use crate::text::{decimal, decimal_text, push_decimal, signed_decimal, signed_text};

verus! {

// ---------------------------------------------------------------- expressions
/// The selector of an app.
pub open spec fn selector(app: Seq<char>) -> Seq<char> {
    "{app=\""@ + app + "\"}"@
}

/// A selector with a line filter.
pub open spec fn with_phrase(app: Seq<char>, phrase: Seq<char>) -> Seq<char> {
    selector(app) + " |= \""@ + phrase + "\""@
}

/// A selector with a filter on the status in a JSON line.
pub open spec fn with_status(app: Seq<char>, status: nat) -> Seq<char> {
    selector(app) + " | json | status=\""@ + decimal(status) + "\""@
}

/// A selector with a filter on the level in a JSON line.
pub open spec fn with_level(app: Seq<char>, level: Seq<char>) -> Seq<char> {
    selector(app) + " | json | level=\""@ + level + "\""@
}

pub fn select(app: &str) -> (out: String)
    ensures
        out@ == selector(app@),
{
    let mut out = "{app=\"".to_owned();
    out.append(app);
    out.append("\"}");
    out
}

pub fn select_phrase(app: &str, phrase: &str) -> (out: String)
    ensures
        out@ == with_phrase(app@, phrase@),
{
    let mut out = select(app);
    out.append(" |= \"");
    out.append(phrase);
    out.append("\"");
    out
}

pub fn select_status(app: &str, status: u32) -> (out: String)
    ensures
        out@ == with_status(app@, status as nat),
{
    let mut out = select(app);
    out.append(" | json | status=\"");
    push_decimal(&mut out, status as u64);
    out.append("\"");
    out
}

pub fn select_level(app: &str, level: &str) -> (out: String)
    ensures
        out@ == with_level(app@, level@),
{
    let mut out = select(app);
    out.append(" | json | level=\"");
    out.append(level);
    out.append("\"");
    out
}

/// The path of a range query.
pub open spec fn query_path(
    expression: Seq<char>,
    start: int,
    end: int,
    step: int,
    limit: nat,
    direction: Seq<char>,
) -> Seq<char> {
    "/loki/api/v1/query_range?"@ + form_encoded(
        seq![
            ("query"@, expression),
            ("start"@, signed_decimal(start)),
            ("end"@, signed_decimal(end)),
            ("step"@, signed_decimal(step)),
            ("limit"@, decimal(limit)),
            ("direction"@, direction),
        ],
    )
}

/// The path of a range query.
pub fn range_query(
    expression: &str,
    start: i64,
    end: i64,
    step: i64,
    limit: usize,
    direction: &str,
) -> (path: String)
    ensures
        path@ == query_path(
            expression@,
            start as int,
            end as int,
            step as int,
            limit as nat,
            direction@,
        ),
{
    let start_text = signed_text(start);
    let end_text = signed_text(end);
    let step_text = signed_text(step);
    let limit_text = decimal_text(limit as u64);
    let pairs: [(&str, &str); 6] = [
        ("query", expression),
        ("start", start_text.as_str()),
        ("end", end_text.as_str()),
        ("step", step_text.as_str()),
        ("limit", limit_text.as_str()),
        ("direction", direction),
    ];
    let mut path = "/loki/api/v1/query_range?".to_owned();
    let encoded = encode_form(pairs.as_slice());
    proof {
        assert(form_pairs(pairs@) =~= seq![
            ("query"@, expression@),
            ("start"@, signed_decimal(start as int)),
            ("end"@, signed_decimal(end as int)),
            ("step"@, signed_decimal(step as int)),
            ("limit"@, decimal(limit as nat)),
            ("direction"@, direction@),
        ]);
    }
    path.append(encoded.as_str());
    path
}

// --------------------------------------------------------------------- shapes
#[derive(Clone, Copy, Debug, PartialEq, Eq, Structural)]
pub enum QueryShape {
    /// Label matchers only.
    LabelOnly,
    /// A substring of the line.
    LineFilter,
    /// A field of a JSON line.
    JsonField,
    /// An aggregation over a range.
    Rate,
    /// An old window, which may have to be brought back from the object store.
    RestoreProbe,
}

pub const QUERY_SHAPES: [QueryShape; 5] = [
    QueryShape::LabelOnly,
    QueryShape::LineFilter,
    QueryShape::JsonField,
    QueryShape::Rate,
    QueryShape::RestoreProbe,
];

impl QueryShape {
    pub fn name(self) -> (name: &'static str)
        ensures
            name@ == match self {
                QueryShape::LabelOnly => "label_only"@,
                QueryShape::LineFilter => "line_filter"@,
                QueryShape::JsonField => "json_field"@,
                QueryShape::Rate => "rate"@,
                QueryShape::RestoreProbe => "restore_probe"@,
            },
    {
        match self {
            QueryShape::LabelOnly => "label_only",
            QueryShape::LineFilter => "line_filter",
            QueryShape::JsonField => "json_field",
            QueryShape::Rate => "rate",
            QueryShape::RestoreProbe => "restore_probe",
        }
    }
}

/// The sum of the weights from one on.
pub open spec fn weight_sum(weights: Seq<u32>, from: int) -> nat
    decreases weights.len() - from,
{
    if from < 0 || from >= weights.len() {
        0
    } else {
        weights[from] as nat + weight_sum(weights, from + 1)
    }
}

/// The shape that a roll falls on, looking from one shape on.
pub open spec fn shape_at(weights: Seq<u32>, roll: int, from: int) -> QueryShape
    decreases weights.len() - from,
{
    if from < 0 || from >= weights.len() {
        QueryShape::LabelOnly
    } else if roll < weights[from] {
        QUERY_SHAPES@[from]
    } else {
        shape_at(weights, roll - weights[from], from + 1)
    }
}

/// The shape drawn from a state, and the state then.
pub open spec fn drawn_shape(weights: Seq<u32>, state: u64) -> (QueryShape, u64) {
    let total = weight_sum(weights, 0);
    if total == 0 {
        (QueryShape::LabelOnly, state)
    } else {
        (shape_at(weights, nth_below(state, 0, total), 0), advance(state))
    }
}

/// A query to issue.
pub struct QueryPlan {
    pub shape: QueryShape,
    pub path: String,
    pub tenant: String,
    pub expression: String,
}

/// The expression of a shape over an app, drawn from a state, and the state then.
pub open spec fn drawn_expression(shape: QueryShape, app: Seq<char>, state: u64) -> (
    Seq<char>,
    u64,
) {
    match shape {
        QueryShape::LabelOnly | QueryShape::RestoreProbe => (selector(app), state),
        QueryShape::LineFilter => (
            with_phrase(app, PHRASES@[nth_below(state, 0, 24)]@),
            advance(state),
        ),
        QueryShape::JsonField => {
            let s1 = advance(state);
            if nth_below(state, 0, 2) == 0 {
                (with_status(app, STATUSES@[nth_below(s1, 0, 6)] as nat), advance(s1))
            } else {
                (with_level(app, LEVELS@[nth_below(s1, 0, 4)]@), advance(s1))
            }
        },
        QueryShape::Rate => ("rate("@ + selector(app) + "[1m])"@, state),
    }
}

/// Draws queries over a corpus.
pub struct QueryGenerator<'a> {
    pub corpus: &'a Corpus,
    pub rng: Rng,
    pub weights: [u32; 5],
    pub window_seconds: i64,
    pub restore_lookback_seconds: i64,
    pub limit: usize,
}

impl<'a> QueryGenerator<'a> {
    pub open spec fn wf(&self) -> bool {
        &&& self.corpus.streams@.len() > 0
        &&& weight_sum(self.weights@, 0) <= u32::MAX
    }

    /// Whether the windows of queries issued now can be written.
    pub open spec fn fits(&self, now_seconds: i64) -> bool {
        &&& i64::MIN <= now_seconds - self.window_seconds <= i64::MAX
        &&& i64::MIN <= now_seconds - self.restore_lookback_seconds <= i64::MAX
        &&& i64::MIN <= now_seconds - self.restore_lookback_seconds + self.window_seconds
            <= i64::MAX
    }

    pub fn new(
        corpus: &'a Corpus,
        seed: u64,
        weights: [u32; 5],
        window_seconds: i64,
        restore_lookback_seconds: i64,
        limit: usize,
    ) -> (generator: Self)
        ensures
            *generator.corpus == *corpus,
            generator.rng.state() == seeded(seed ^ 0x2545_f491),
            generator.weights == weights,
            generator.window_seconds == window_seconds,
            generator.restore_lookback_seconds == restore_lookback_seconds,
            generator.limit == limit,
    {
        QueryGenerator {
            corpus,
            rng: Rng::new(seed ^ 0x2545_f491),
            weights,
            window_seconds,
            restore_lookback_seconds,
            limit,
        }
    }

    /// Whether a query can be drawn now.
    pub fn can_draw(&self, now_seconds: i64) -> (can: bool)
        ensures
            can == (self.wf() && self.fits(now_seconds)),
    {
        proof {
            reveal_with_fuel(weight_sum, 6);
        }
        let weights = self.weights;
        let total: u64 = weights[0] as u64 + weights[1] as u64 + weights[2] as u64
            + weights[3] as u64 + weights[4] as u64;
        let (now, window) = (now_seconds as i128, self.window_seconds as i128);
        let start: i128 = now - self.restore_lookback_seconds as i128;
        let (low, high) = (i64::MIN as i128, i64::MAX as i128);
        self.corpus.streams.len() > 0 && total <= u32::MAX as u64 && low <= now - window
            && now - window <= high && low <= start && start <= high && low <= start + window
            && start + window <= high
    }

    /// The stream that the next query reads, by its place, and the state then.
    pub open spec fn next_stream(&self) -> (int, u64) {
        let s1 = drawn_shape(self.weights@, self.rng.state()).1;
        (nth_below(s1, 0, self.corpus.streams@.len()), advance(s1))
    }

    /// The app that the next query reads.
    pub open spec fn next_app(&self) -> Seq<char> {
        match value_of(self.corpus.streams@[self.next_stream().0].labels@, "app"@) {
            Some(app) => app,
            None => "api-gateway"@,
        }
    }

    fn pick_shape(&mut self) -> (shape: QueryShape)
        requires
            weight_sum(old(self).weights@, 0) <= u32::MAX,
        ensures
            (shape, final(self).rng.state()) == drawn_shape(
                old(self).weights@,
                old(self).rng.state(),
            ),
            *final(self).corpus == *old(self).corpus,
            final(self).weights == old(self).weights,
            final(self).window_seconds == old(self).window_seconds,
            final(self).restore_lookback_seconds == old(self).restore_lookback_seconds,
            final(self).limit == old(self).limit,
    {
        let weights = self.weights;
        proof {
            reveal_with_fuel(weight_sum, 6);
        }
        let total: u32 = weights[0] + weights[1] + weights[2] + weights[3] + weights[4];
        if total == 0 {
            return QueryShape::LabelOnly;
        }
        let drawn: u64 = self.rng.next_u64();
        let mut roll: u32 = (drawn % total as u64) as u32;
        let ghost start = roll;
        let mut i: usize = 0;
        let shapes = QUERY_SHAPES;
        while i < 5
            invariant
                i <= 5,
                weights@.len() == 5,
                shapes@ == QUERY_SHAPES@,
                shape_at(weights@, start as int, 0) == shape_at(weights@, roll as int, i as int),
                weights == old(self).weights,
                total == weight_sum(weights@, 0),
                total > 0,
                drawn == nth(old(self).rng.state(), 0),
                start == drawn % total as u64,
                self.rng.state() == advance(old(self).rng.state()),
                *self.corpus == *old(self).corpus,
                self.weights == old(self).weights,
                self.window_seconds == old(self).window_seconds,
                self.restore_lookback_seconds == old(self).restore_lookback_seconds,
                self.limit == old(self).limit,
            decreases 5 - i,
        {
            if roll < weights[i] {
                return shapes[i];
            }
            roll = roll - weights[i];
            i = i + 1;
        }
        QueryShape::LabelOnly
    }

    /// Draws the next query. Its selector is taken off a stream that exists: a
    /// query that finds nothing is then one that the engine did not find.
    pub fn next_plan(&mut self, now_seconds: i64) -> (plan: QueryPlan)
        requires
            old(self).wf(),
            old(self).fits(now_seconds),
        ensures
            final(self).wf(),
            *final(self).corpus == *old(self).corpus,
            final(self).weights == old(self).weights,
            final(self).window_seconds == old(self).window_seconds,
            final(self).restore_lookback_seconds == old(self).restore_lookback_seconds,
            final(self).limit == old(self).limit,
            ({
                let shape = drawn_shape(old(self).weights@, old(self).rng.state()).0;
                let (stream, s2) = old(self).next_stream();
                let (expression, s3) = drawn_expression(shape, old(self).next_app(), s2);
                let old_start = now_seconds - old(self).restore_lookback_seconds;
                &&& plan.shape == shape
                &&& plan.tenant@ == old(self).corpus.streams@[stream].tenant@
                &&& plan.expression@ == expression
                &&& final(self).rng.state() == s3
                &&& plan.path@ == if shape == QueryShape::RestoreProbe {
                    query_path(
                        expression,
                        old_start,
                        old_start + old(self).window_seconds,
                        60,
                        old(self).limit as nat,
                        "forward"@,
                    )
                } else {
                    query_path(
                        expression,
                        now_seconds - old(self).window_seconds,
                        now_seconds as int,
                        10,
                        old(self).limit as nat,
                        "backward"@,
                    )
                }
            }),
    {
        let shape = self.pick_shape();
        let corpus = self.corpus;
        let index: usize = self.rng.below(corpus.streams.len());
        let stream = &corpus.streams[index];
        let tenant = stream.tenant.as_str().to_owned();
        let app = match stream.labels.get("app") {
            Some(app) => app.clone(),
            None => "api-gateway".to_owned(),
        };
        let expression = match shape {
            QueryShape::LabelOnly | QueryShape::RestoreProbe => select(app.as_str()),
            QueryShape::LineFilter => {
                let phrases = PHRASES;
                let i: usize = self.rng.below(24);
                select_phrase(app.as_str(), phrases[i])
            },
            QueryShape::JsonField => {
                if self.rng.below(2) == 0 {
                    let statuses = STATUSES;
                    let i: usize = self.rng.below(6);
                    select_status(app.as_str(), statuses[i])
                } else {
                    let levels = LEVELS;
                    let i: usize = self.rng.below(4);
                    select_level(app.as_str(), levels[i])
                }
            },
            QueryShape::Rate => {
                let mut out = "rate(".to_owned();
                out.append(select(app.as_str()).as_str());
                out.append("[1m])");
                out
            },
        };
        let path = match shape {
            QueryShape::RestoreProbe => {
                let start: i64 = now_seconds - self.restore_lookback_seconds;
                range_query(
                    expression.as_str(),
                    start,
                    start + self.window_seconds,
                    60,
                    self.limit,
                    "forward",
                )
            },
            _ => range_query(
                expression.as_str(),
                now_seconds - self.window_seconds,
                now_seconds,
                10,
                self.limit,
                "backward",
            ),
        };
        QueryPlan { shape, path, tenant, expression }
    }
}

/// A query reads a tenant and an app of a stream that is in the corpus, or the
/// app that stands in where the stream has none.
pub proof fn every_query_names_a_stream_that_exists(generator: QueryGenerator<'_>)
    requires
        generator.wf(),
    ensures
        0 <= generator.next_stream().0 < generator.corpus.streams@.len(),
        value_of(
            generator.corpus.streams@[generator.next_stream().0].labels@,
            "app"@,
        ) matches Some(app) ==> generator.next_app() == app,
{
}

} // verus!
