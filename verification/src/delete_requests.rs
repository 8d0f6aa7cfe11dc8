//! Deleting by selector: what a request hides at once, and when its bytes are
//! gone.
//!
//! A request hides the rows it covers from every query as soon as it is
//! accepted. The bytes leave when the parts that hold them are rewritten. The
//! status says which of the two has happened.

use vstd::prelude::*;
use vstd::string::*;

use crate::model::{Labels, LogEntry};
use crate::tenant::TenantId;
use crate::text::same_text;

verus! {

/// How many requests one tenant may hold.
pub const MAX_DELETE_REQUESTS_PER_TENANT: usize = 100;

// ------------------------------------------------------------------- selectors
/// Which rows a parsed selector names: by their labels and by their line.
pub trait Selector: Sized {
    /// Whether the matchers hold of labels.
    spec fn takes(&self, labels: Seq<(Seq<char>, Seq<char>)>) -> bool;

    /// Whether the line filters hold of a line.
    spec fn keeps(&self, line: Seq<char>) -> bool;

    fn matches_labels(&self, labels: &Labels) -> (holds: bool)
        ensures
            holds == self.takes(labels@),
    ;

    fn matches_line(&self, line: &str) -> (holds: bool)
        ensures
            holds == self.keeps(line@),
    ;

    /// A selector of the same rows.
    fn copy(&self) -> (out: Self)
        ensures
            forall|labels: Seq<(Seq<char>, Seq<char>)>| #[trigger]
                out.takes(labels) == self.takes(labels),
            forall|line: Seq<char>| #[trigger] out.keeps(line) == self.keeps(line),
    ;
}

/// A matcher on one label: its value is the given one, or is not. A label that
/// is not there has the empty value.
pub struct LabelMatcher {
    pub name: String,
    pub value: String,
    pub equal: bool,
}

/// A filter on the line: it holds the given text, or does not.
pub struct LineFilter {
    pub needle: String,
    pub present: bool,
}

/// A selector of exact matchers and substring filters.
pub struct ExactSelector {
    pub matchers: Vec<LabelMatcher>,
    pub line_filters: Vec<LineFilter>,
}

/// The value of a label, empty where it is not there.
pub open spec fn label_or_empty(labels: Seq<(Seq<char>, Seq<char>)>, name: Seq<char>) -> Seq<char> {
    match crate::model::value_of(labels, name) {
        Some(value) => value,
        None => seq![],
    }
}

pub open spec fn text_contains(line: Seq<char>, needle: Seq<char>) -> bool {
    exists|at: int|
        0 <= at <= line.len() - needle.len() && #[trigger] line.subrange(at, at + needle.len())
            == needle
}

impl LabelMatcher {
    pub open spec fn holds(&self, labels: Seq<(Seq<char>, Seq<char>)>) -> bool {
        (label_or_empty(labels, self.name@) == self.value@) == self.equal
    }

    pub fn matches(&self, labels: &Labels) -> (holds: bool)
        ensures
            holds == self.holds(labels@),
    {
        let same = match labels.get(self.name.as_str()) {
            Some(value) => same_text(value.as_str(), self.value.as_str()),
            None => {
                let empty = self.value.as_str().is_empty();
                assert(self.value@.len() == 0 ==> self.value@ =~= Seq::<char>::empty());
                empty
            },
        };
        same == self.equal
    }

    fn copy(&self) -> (out: Self)
        ensures
            out.name@ == self.name@,
            out.value@ == self.value@,
            out.equal == self.equal,
    {
        LabelMatcher { name: self.name.clone(), value: self.value.clone(), equal: self.equal }
    }
}

/// Whether one run of characters stands in another.
pub fn contains_chars(line: &[char], needle: &[char]) -> (found: bool)
    ensures
        found == text_contains(line@, needle@),
{
    if needle.len() > line.len() {
        return false;
    }
    let last: usize = line.len() - needle.len();
    let mut at: usize = 0;
    while at <= last
        invariant
            last + needle@.len() == line.len(),
            at <= last + 1,
            forall|i: int|
                0 <= i < at ==> #[trigger] line@.subrange(i, i + needle@.len()) != needle@,
        decreases last + 1 - at,
    {
        let mut n: usize = 0;
        while n < needle.len() && line[at + n] == needle[n]
            invariant
                at <= last,
                last + needle@.len() == line.len(),
                n <= needle@.len(),
                forall|j: int| 0 <= j < n ==> line@[at + j] == needle@[j],
            decreases needle.len() - n,
        {
            n = n + 1;
        }
        let ghost here = line@.subrange(at as int, at + needle@.len());
        if n == needle.len() {
            assert(here =~= needle@);
            return true;
        }
        assert(here[n as int] != needle@[n as int]);
        if at == last {
            assert forall|i: int| 0 <= i <= line@.len() - needle@.len() implies #[trigger]
                line@.subrange(i, i + needle@.len()) != needle@ by {
                if i == at {
                    assert(here != needle@);
                }
            }
            return false;
        }
        at = at + 1;
    }
    false
}

impl LineFilter {
    pub open spec fn holds(&self, line: Seq<char>) -> bool {
        text_contains(line, self.needle@) == self.present
    }

    pub fn matches(&self, line: &str) -> (holds: bool)
        ensures
            holds == self.holds(line@),
    {
        let text = crate::text::chars_of(line);
        let needle = crate::text::chars_of(self.needle.as_str());
        contains_chars(text.as_slice(), needle.as_slice()) == self.present
    }

    fn copy(&self) -> (out: Self)
        ensures
            out.needle@ == self.needle@,
            out.present == self.present,
    {
        LineFilter { needle: self.needle.clone(), present: self.present }
    }
}

impl Selector for ExactSelector {
    open spec fn takes(&self, labels: Seq<(Seq<char>, Seq<char>)>) -> bool {
        forall|i: int|
            0 <= i < self.matchers@.len() ==> (#[trigger] self.matchers@[i]).holds(labels)
    }

    open spec fn keeps(&self, line: Seq<char>) -> bool {
        forall|i: int|
            0 <= i < self.line_filters@.len() ==> (#[trigger] self.line_filters@[i]).holds(line)
    }

    fn matches_labels(&self, labels: &Labels) -> (holds: bool) {
        let mut i: usize = 0;
        while i < self.matchers.len()
            invariant
                i <= self.matchers@.len(),
                forall|j: int| 0 <= j < i ==> (#[trigger] self.matchers@[j]).holds(labels@),
            decreases self.matchers.len() - i,
        {
            if !self.matchers[i].matches(labels) {
                assert(!self.matchers@[i as int].holds(labels@));
                return false;
            }
            i = i + 1;
        }
        true
    }

    fn matches_line(&self, line: &str) -> (holds: bool) {
        let mut i: usize = 0;
        while i < self.line_filters.len()
            invariant
                i <= self.line_filters@.len(),
                forall|j: int| 0 <= j < i ==> (#[trigger] self.line_filters@[j]).holds(line@),
            decreases self.line_filters.len() - i,
        {
            if !self.line_filters[i].matches(line) {
                assert(!self.line_filters@[i as int].holds(line@));
                return false;
            }
            i = i + 1;
        }
        true
    }

    fn copy(&self) -> (out: Self) {
        let mut matchers: Vec<LabelMatcher> = Vec::new();
        let mut i: usize = 0;
        while i < self.matchers.len()
            invariant
                i <= self.matchers@.len(),
                matchers@.len() == i,
                forall|j: int|
                    0 <= j < i ==> (#[trigger] matchers@[j]).name@ == self.matchers@[j].name@
                        && matchers@[j].value@ == self.matchers@[j].value@ && matchers@[j].equal
                        == self.matchers@[j].equal,
            decreases self.matchers.len() - i,
        {
            matchers.push(self.matchers[i].copy());
            i = i + 1;
        }
        let mut line_filters: Vec<LineFilter> = Vec::new();
        let mut n: usize = 0;
        while n < self.line_filters.len()
            invariant
                n <= self.line_filters@.len(),
                line_filters@.len() == n,
                forall|j: int|
                    0 <= j < n ==> (#[trigger] line_filters@[j]).needle@
                        == self.line_filters@[j].needle@ && line_filters@[j].present
                        == self.line_filters@[j].present,
            decreases self.line_filters.len() - n,
        {
            line_filters.push(self.line_filters[n].copy());
            n = n + 1;
        }
        let out = ExactSelector { matchers, line_filters };
        proof {
            assert forall|labels: Seq<(Seq<char>, Seq<char>)>| #[trigger]
                out.takes(labels) == self.takes(labels) by {
                assert(forall|j: int|
                    0 <= j < out.matchers@.len() ==> (#[trigger] out.matchers@[j]).holds(labels)
                        == self.matchers@[j].holds(labels));
                assert(forall|j: int|
                    0 <= j < out.matchers@.len() ==> (#[trigger] self.matchers@[j]).holds(labels)
                        == out.matchers@[j].holds(labels));
            }
            assert forall|line: Seq<char>| #[trigger] out.keeps(line) == self.keeps(line) by {
                assert(forall|j: int|
                    0 <= j < out.line_filters@.len() ==> (#[trigger] out.line_filters@[j]).holds(line)
                        == self.line_filters@[j].holds(line));
                assert(forall|j: int|
                    0 <= j < out.line_filters@.len() ==> (#[trigger] self.line_filters@[j]).holds(line)
                        == out.line_filters@[j].holds(line));
            }
        }
        out
    }
}

/// A query as a parser gives it back: a metric, or log lines with their
/// selector, how many label matchers it has and how many pipeline stages follow.
pub enum ParsedQuery<S> {
    Metric,
    Logs { selector: S, matchers: usize, stages: usize },
}

/// Why a parsed query is no delete selector, if it is none.
pub open spec fn selector_problem<S>(parsed: ParsedQuery<S>) -> Option<Seq<char>> {
    match parsed {
        ParsedQuery::Metric => Some("a delete query selects log lines, not a metric"@),
        ParsedQuery::Logs { matchers, stages, .. } => if stages > 0 {
            Some("a delete query may use label matchers and line filters, but not pipeline stages"@)
        } else if matchers == 0 {
            Some("a delete query must select at least one label"@)
        } else {
            None
        },
    }
}

/// A delete selector is a log selector with at least one matcher and no
/// pipeline.
pub fn parse_selector<S>(parsed: Result<ParsedQuery<S>, String>) -> (out: Result<S, String>)
    ensures
        match out {
            Ok(selector) => parsed is Ok && selector_problem(parsed->Ok_0) is None
                && parsed->Ok_0->selector == selector,
            Err(message) => match parsed {
                Err(why) => message@ == why@,
                Ok(query) => selector_problem(query) == Some(message@),
            },
        },
        out is Ok <==> parsed is Ok && parsed->Ok_0 is Logs && parsed->Ok_0->matchers >= 1
            && parsed->Ok_0->stages == 0,
{
    match parsed {
        Err(why) => Err(why),
        Ok(ParsedQuery::Metric) => Err(
            "a delete query selects log lines, not a metric".to_owned(),
        ),
        Ok(ParsedQuery::Logs { selector, matchers, stages }) => {
            if stages > 0 {
                return Err(
                    "a delete query may use label matchers and line filters, but not pipeline stages".to_owned(),
                );
            }
            if matchers == 0 {
                return Err("a delete query must select at least one label".to_owned());
            }
            Ok(selector)
        },
    }
}

// -------------------------------------------------------------------- requests
#[derive(Clone, Copy, Debug, PartialEq, Eq, Structural)]
pub enum DeleteStatus {
    /// Accepted and hidden from every query. The bytes are still in parts.
    Received,
    /// Every part that held matching rows has been rewritten without them.
    Processed,
}

impl DeleteStatus {
    pub fn as_str(self) -> (name: &'static str)
        ensures
            name@ == match self {
                DeleteStatus::Received => "received"@,
                DeleteStatus::Processed => "processed"@,
            },
    {
        match self {
            DeleteStatus::Received => "received",
            DeleteStatus::Processed => "processed",
        }
    }
}

/// A request as a tenant sees it.
pub struct DeleteRequest {
    pub request_id: String,
    pub tenant: String,
    pub query: String,
    pub start_ns: i64,
    pub end_ns: i64,
    pub created_at_ns: i64,
    pub status: DeleteStatus,
}

/// What a request holds.
pub struct RequestView {
    pub request_id: Seq<char>,
    pub tenant: Seq<char>,
    pub query: Seq<char>,
    pub start_ns: int,
    pub end_ns: int,
    pub created_at_ns: int,
    pub status: DeleteStatus,
}

impl View for DeleteRequest {
    type V = RequestView;

    open spec fn view(&self) -> RequestView {
        RequestView {
            request_id: self.request_id@,
            tenant: self.tenant@,
            query: self.query@,
            start_ns: self.start_ns as int,
            end_ns: self.end_ns as int,
            created_at_ns: self.created_at_ns as int,
            status: self.status,
        }
    }
}

/// A number of nanoseconds in whole seconds, towards zero.
pub open spec fn whole_seconds(ns: int) -> int {
    if ns < 0 {
        -((-ns) / 1_000_000_000)
    } else {
        ns / 1_000_000_000
    }
}

fn seconds(ns: i64) -> (out: i64)
    ensures
        out == whole_seconds(ns as int),
{
    ns / 1_000_000_000
}

/// The fields of a request's public form.
pub struct RequestFields {
    pub request_id: String,
    pub start_time: i64,
    pub end_time: i64,
    pub query: String,
    pub status: &'static str,
    pub created_at: i64,
}

impl DeleteRequest {
    /// The public form: times in whole seconds, the status by name.
    pub fn to_json(&self) -> (fields: RequestFields)
        ensures
            fields.request_id@ == self.request_id@,
            fields.start_time == whole_seconds(self.start_ns as int),
            fields.end_time == whole_seconds(self.end_ns as int),
            fields.query@ == self.query@,
            fields.status@ == match self.status {
                DeleteStatus::Received => "received"@,
                DeleteStatus::Processed => "processed"@,
            },
            fields.created_at == whole_seconds(self.created_at_ns as int),
    {
        RequestFields {
            request_id: self.request_id.clone(),
            start_time: seconds(self.start_ns),
            end_time: seconds(self.end_ns),
            query: self.query.clone(),
            status: self.status.as_str(),
            created_at: seconds(self.created_at_ns),
        }
    }

    pub fn copy(&self) -> (out: DeleteRequest)
        ensures
            out@ == self@,
    {
        DeleteRequest {
            request_id: self.request_id.clone(),
            tenant: self.tenant.clone(),
            query: self.query.clone(),
            start_ns: self.start_ns,
            end_ns: self.end_ns,
            created_at_ns: self.created_at_ns,
            status: self.status,
        }
    }
}

/// What part of a selector's rows a request covers: those from `start_ns` up to
/// but not at `end_ns`.
pub struct CompiledRequest<S> {
    pub start_ns: i64,
    pub end_ns: i64,
    pub selector: S,
}

/// One tenant's rows in a part: the span of their timestamps.
pub struct TenantSegment {
    pub tenant: TenantId,
    pub min_ts_ns: i64,
    pub max_ts_ns: i64,
}

/// What a part says of itself: which tenants have rows in it and when, and
/// which label sets occur in it.
pub struct PartMeta {
    pub tenants: Vec<TenantSegment>,
    pub streams: Vec<Labels>,
}

impl<S: Selector> CompiledRequest<S> {
    /// Whether a row is covered.
    pub open spec fn covers_row(
        &self,
        labels: Seq<(Seq<char>, Seq<char>)>,
        timestamp_ns: int,
        line: Seq<char>,
    ) -> bool {
        &&& self.start_ns <= timestamp_ns < self.end_ns
        &&& self.selector.takes(labels)
        &&& self.selector.keeps(line)
    }

    /// Whether a part could hold a row of the tenant that is covered: the tenant
    /// has rows in it in the time asked for, and a label set that occurs in it
    /// matches.
    pub open spec fn may_hold(&self, tenant: Seq<char>, meta: &PartMeta) -> bool {
        &&& exists|i: int|
            0 <= i < meta.tenants@.len() && (#[trigger] meta.tenants@[i]).tenant@ == tenant
                && meta.tenants@[i].min_ts_ns < self.end_ns && meta.tenants@[i].max_ts_ns
                >= self.start_ns
        &&& exists|i: int|
            0 <= i < meta.streams@.len() && self.selector.takes((#[trigger] meta.streams@[i])@)
    }

    /// Whether another request covers the same rows.
    pub open spec fn same_rows(&self, other: &CompiledRequest<S>) -> bool {
        &&& self.start_ns == other.start_ns
        &&& self.end_ns == other.end_ns
        &&& forall|labels: Seq<(Seq<char>, Seq<char>)>| #[trigger]
            self.selector.takes(labels) == other.selector.takes(labels)
        &&& forall|line: Seq<char>| #[trigger]
            self.selector.keeps(line) == other.selector.keeps(line)
    }

    fn copy(&self) -> (out: Self)
        ensures
            out.same_rows(self),
    {
        CompiledRequest {
            start_ns: self.start_ns,
            end_ns: self.end_ns,
            selector: self.selector.copy(),
        }
    }

    fn covers(&self, labels: &Labels, timestamp_ns: i64, line: &str) -> (covered: bool)
        ensures
            covered == self.covers_row(labels@, timestamp_ns as int, line@),
    {
        if timestamp_ns < self.start_ns || timestamp_ns >= self.end_ns {
            return false;
        }
        if !self.selector.matches_labels(labels) {
            return false;
        }
        self.selector.matches_line(line)
    }

    fn may_be_held_by(&self, tenant: &TenantId, meta: &PartMeta) -> (held: bool)
        ensures
            held == self.may_hold(tenant@, meta),
    {
        let mut overlaps = false;
        let mut i: usize = 0;
        while i < meta.tenants.len()
            invariant
                i <= meta.tenants@.len(),
                overlaps == exists|j: int|
                    0 <= j < i && (#[trigger] meta.tenants@[j]).tenant@ == tenant@
                        && meta.tenants@[j].min_ts_ns < self.end_ns && meta.tenants@[j].max_ts_ns
                        >= self.start_ns,
            decreases meta.tenants.len() - i,
        {
            let segment = &meta.tenants[i];
            if segment.tenant.same(tenant) && segment.min_ts_ns < self.end_ns && segment.max_ts_ns
                >= self.start_ns {
                overlaps = true;
                assert(meta.tenants@[i as int].tenant@ == tenant@);
            }
            i = i + 1;
        }
        if !overlaps {
            return false;
        }
        let ghost overlapping = exists|j: int|
            0 <= j < meta.tenants@.len() && (#[trigger] meta.tenants@[j]).tenant@ == tenant@
                && meta.tenants@[j].min_ts_ns < self.end_ns && meta.tenants@[j].max_ts_ns
                >= self.start_ns;
        let mut n: usize = 0;
        while n < meta.streams.len()
            invariant
                n <= meta.streams@.len(),
                overlapping,
                overlapping == exists|j: int|
                    0 <= j < meta.tenants@.len() && (#[trigger] meta.tenants@[j]).tenant@
                        == tenant@ && meta.tenants@[j].min_ts_ns < self.end_ns
                        && meta.tenants@[j].max_ts_ns >= self.start_ns,
                forall|j: int| 0 <= j < n ==> !self.selector.takes((#[trigger] meta.streams@[j])@),
            decreases meta.streams.len() - n,
        {
            if self.selector.matches_labels(&meta.streams[n]) {
                assert(self.selector.takes(meta.streams@[n as int]@));
                return true;
            }
            n = n + 1;
        }
        false
    }
}

// -------------------------------------------------------------------- registry
/// A request that was accepted, with what it covers.
pub struct Held<S> {
    pub request: DeleteRequest,
    pub compiled: CompiledRequest<S>,
}

impl<S> Held<S> {
    /// The compiled form covers what the request says.
    pub open spec fn wf(&self) -> bool {
        self.compiled.start_ns == self.request.start_ns && self.compiled.end_ns
            == self.request.end_ns
    }

    /// Whether this is a request of a tenant.
    pub open spec fn is_of(&self, tenant: Seq<char>) -> bool {
        self.wf() && self.request.tenant@ == tenant
    }
}

/// One tenant's requests, oldest first.
pub struct TenantRequests<S> {
    pub tenant: TenantId,
    pub requests: Vec<Held<S>>,
}

/// How often something happened.
pub struct DeleteRequestMetrics {
    pub accepted: u64,
    pub rejected: u64,
    pub cancelled: u64,
    pub hidden_rows: u64,
}

/// Every request that is outstanding, by tenant.
pub struct DeleteRequests<S> {
    pub by_tenant: Vec<TenantRequests<S>>,
    pub metrics: DeleteRequestMetrics,
}

/// Why a submission or a withdrawal was refused.
pub enum DeleteRequestError {
    Invalid(String),
    TooMany,
    NotFound,
    Storage(String),
}

/// The tenants of a registry, in order.
pub open spec fn tenants_of<S>(list: Seq<TenantRequests<S>>) -> Seq<Seq<char>> {
    list.map_values(|entry: TenantRequests<S>| entry.tenant@)
}

/// The requests of a tenant; none where it has asked for nothing.
pub open spec fn requests_of<S>(list: Seq<TenantRequests<S>>, tenant: Seq<char>) -> Seq<Held<S>> {
    let at = crate::model::first_index(tenants_of(list), tenant);
    if at < list.len() {
        list[at].requests@
    } else {
        seq![]
    }
}

/// Whether no tenant has a request.
pub open spec fn nothing_asked<S>(list: Seq<TenantRequests<S>>) -> bool {
    forall|i: int| 0 <= i < list.len() ==> (#[trigger] list[i]).requests@.len() == 0
}

/// Whether no tenant holds more requests than it may, and each asks for a time
/// that ends after it starts.
pub open spec fn within_bounds<S>(list: Seq<TenantRequests<S>>) -> bool {
    &&& forall|i: int|
        0 <= i < list.len() ==> (#[trigger] list[i]).requests@.len()
            <= MAX_DELETE_REQUESTS_PER_TENANT
    &&& forall|i: int, n: int|
        0 <= i < list.len() && 0 <= n < list[i].requests@.len() ==> (
        #[trigger] list[i].requests@[n]).request.start_ns < list[i].requests@[n].request.end_ns
}

/// Where a request of a given id stands, or the length.
pub open spec fn index_of_id<S>(requests: Seq<Held<S>>, id: Seq<char>) -> int {
    crate::model::first_index(requests.map_values(|held: Held<S>| held.request.request_id@), id)
}

/// A list of requests without those of a given id.
pub open spec fn without_id<S>(requests: Seq<Held<S>>, id: Seq<char>) -> Seq<Held<S>>
    decreases requests.len(),
{
    if requests.len() == 0 {
        seq![]
    } else if requests.last().request.request_id@ == id {
        without_id(requests.drop_last(), id)
    } else {
        without_id(requests.drop_last(), id).push(requests.last())
    }
}

/// The text of a random UUID: hexadecimal digits in groups of 8, 4, 4, 4 and 12.
pub open spec fn is_uuid_text(text: Seq<char>) -> bool {
    &&& text.len() == 36
    &&& forall|i: int|
        0 <= i < 36 ==> if i == 8 || i == 13 || i == 18 || i == 23 {
            #[trigger] text[i] == '-'
        } else {
            crate::text::is_digit(text[i]) || 'a' <= text[i] && text[i] <= 'f'
        }
}

/// `uuid::Uuid::new_v4` and its `Display`. The digits are random; only the form
/// is known.
#[verifier::external_body]
fn new_request_id() -> (id: String)
    ensures
        is_uuid_text(id@),
{
    uuid::Uuid::new_v4().to_string()
}

impl<S: Selector> DeleteRequests<S> {
    pub open spec fn list_view(&self) -> Seq<TenantRequests<S>> {
        self.by_tenant@
    }

    /// The requests of a tenant.
    pub open spec fn requests(&self, tenant: Seq<char>) -> Seq<Held<S>> {
        requests_of(self.list_view(), tenant)
    }

    /// Each tenant occurs once, every request names the tenant that holds it, and
    /// every compiled form covers what its request says.
    pub open spec fn wf(&self) -> bool {
        &&& forall|i: int, j: int|
            0 <= i < j < self.list_view().len() ==> (#[trigger] self.list_view()[i]).tenant@ != (
            #[trigger] self.list_view()[j]).tenant@
        &&& forall|i: int, n: int|
            0 <= i < self.list_view().len() && 0 <= n < self.list_view()[i].requests@.len()
                ==> (#[trigger] self.list_view()[i].requests@[n]).is_of(
                self.list_view()[i].tenant@,
            )
    }

    pub fn new() -> (registry: Self)
        ensures
            registry.wf(),
            within_bounds(registry.list_view()),
            registry.list_view().len() == 0,
            registry.metrics == (DeleteRequestMetrics {
                accepted: 0,
                rejected: 0,
                cancelled: 0,
                hidden_rows: 0,
            }),
    {
        DeleteRequests {
            by_tenant: Vec::new(),
            metrics: DeleteRequestMetrics {
                accepted: 0,
                rejected: 0,
                cancelled: 0,
                hidden_rows: 0,
            },
        }
    }

    /// Whether no tenant has a request.
    pub fn is_empty(&self) -> (empty: bool)
        ensures
            empty == nothing_asked(self.list_view()),
    {
        let mut i: usize = 0;
        while i < self.by_tenant.len()
            invariant
                i <= self.by_tenant@.len(),
                forall|j: int|
                    0 <= j < i ==> (#[trigger] self.list_view()[j]).requests@.len() == 0,
            decreases self.by_tenant.len() - i,
        {
            if self.by_tenant[i].requests.len() != 0 {
                assert(self.list_view()[i as int].requests@.len() != 0);
                return false;
            }
            i = i + 1;
        }
        true
    }

    fn find(&self, tenant: &TenantId) -> (at: usize)
        ensures
            at == crate::model::first_index(tenants_of(self.list_view()), tenant@),
            at <= self.by_tenant@.len(),
            at < self.by_tenant@.len() ==> self.by_tenant@[at as int].tenant@ == tenant@,
    {
        let mut at: usize = 0;
        while at < self.by_tenant.len() && !self.by_tenant[at].tenant.same(tenant)
            invariant
                at <= self.by_tenant@.len(),
                forall|i: int|
                    0 <= i < at ==> #[trigger] tenants_of(self.list_view())[i] != tenant@,
            decreases self.by_tenant.len() - at,
        {
            at = at + 1;
        }
        proof {
            crate::model::first_index_is(tenants_of(self.list_view()), tenant@, at as int);
        }
        at
    }

    /// The requests of a tenant, oldest first.
    pub fn list(&self, tenant: &TenantId) -> (out: Vec<DeleteRequest>)
        ensures
            out@.len() == self.requests(tenant@).len(),
            forall|i: int|
                0 <= i < out@.len() ==> (#[trigger] out@[i])@ == self.requests(
                    tenant@,
                )[i].request@,
    {
        let at: usize = self.find(tenant);
        let mut out: Vec<DeleteRequest> = Vec::new();
        if at < self.by_tenant.len() {
            let requests = &self.by_tenant[at].requests;
            let mut i: usize = 0;
            while i < requests.len()
                invariant
                    i <= requests@.len(),
                    requests@ == self.requests(tenant@),
                    out@.len() == i,
                    forall|j: int|
                        0 <= j < i ==> (#[trigger] out@[j])@ == self.requests(tenant@)[j].request@,
                decreases requests.len() - i,
            {
                out.push(requests[i].request.copy());
                i = i + 1;
            }
        }
        out
    }

    /// Adds a request behind the tenant's others.
    fn put(&mut self, tenant: &TenantId, held: Held<S>)
        requires
            old(self).wf(),
            held.is_of(tenant@),
        ensures
            final(self).wf(),
            final(self).requests(tenant@) == old(self).requests(tenant@).push(held),
            forall|other: Seq<char>|
                other != tenant@ ==> #[trigger] final(self).requests(other) == old(self).requests(
                    other,
                ),
            final(self).metrics == old(self).metrics,
            within_bounds(old(self).list_view()) && old(self).requests(tenant@).len()
                < MAX_DELETE_REQUESTS_PER_TENANT && held.request.start_ns < held.request.end_ns
                ==> within_bounds(final(self).list_view()),
    {
        let at: usize = self.find(tenant);
        let ghost before = self.list_view();
        let ghost timely = held.request.start_ns < held.request.end_ns;
        if at < self.by_tenant.len() {
            self.by_tenant[at].requests.push(held);
            proof {
                assert(tenants_of(self.list_view()) =~= tenants_of(before));
                self.same_elsewhere(before, tenant@, at as int);
                assert(self.requests(tenant@) =~= requests_of(before, tenant@).push(held));
                assert forall|i: int, n: int|
                    0 <= i < self.list_view().len() && 0 <= n
                        < self.list_view()[i].requests@.len() implies (
                #[trigger] self.list_view()[i].requests@[n]).is_of(self.list_view()[i].tenant@) by {
                    assert(tenants_of(self.list_view())[i] == tenants_of(before)[i]);
                    if i != at as int {
                        assert(self.list_view()[i] == before[i]);
                        assert(before[i].requests@[n].is_of(before[i].tenant@));
                    } else if n < before[i].requests@.len() {
                        assert(before[i].requests@[n].is_of(before[i].tenant@));
                    }
                }
                if within_bounds(before) && requests_of(before, tenant@).len()
                    < MAX_DELETE_REQUESTS_PER_TENANT && timely {
                    assert forall|i: int| 0 <= i < self.list_view().len() implies (
                    #[trigger] self.list_view()[i]).requests@.len()
                        <= MAX_DELETE_REQUESTS_PER_TENANT by {
                        assert(before[i].requests@.len() <= MAX_DELETE_REQUESTS_PER_TENANT);
                    }
                    assert forall|i: int, n: int|
                        0 <= i < self.list_view().len() && 0 <= n
                            < self.list_view()[i].requests@.len() implies (
                    #[trigger] self.list_view()[i].requests@[n]).request.start_ns
                        < self.list_view()[i].requests@[n].request.end_ns by {
                        if n < before[i].requests@.len() {
                            assert(before[i].requests@[n].request.start_ns
                                < before[i].requests@[n].request.end_ns);
                            assert(self.list_view()[i].requests@[n] == before[i].requests@[n]);
                        }
                    }
                }
                assert forall|i: int, j: int| 0 <= i < j < self.list_view().len() implies (
                #[trigger] self.list_view()[i]).tenant@ != (#[trigger] self.list_view()[j]).tenant@ by {
                    assert(tenants_of(self.list_view())[i] == tenants_of(before)[i]);
                    assert(tenants_of(self.list_view())[j] == tenants_of(before)[j]);
                    assert(before[i].tenant@ != before[j].tenant@);
                }
            }
        } else {
            let mut requests: Vec<Held<S>> = Vec::new();
            requests.push(held);
            let fresh = TenantRequests { tenant: tenant.clone(), requests };
            self.by_tenant.push(fresh);
            proof {
                assert(tenants_of(self.list_view()) =~= tenants_of(before).push(tenant@));
                appended_index(tenants_of(before), tenant@, tenant@);
                assert(self.requests(tenant@) =~= seq![held]);
                assert(requests_of(before, tenant@).push(held) =~= seq![held]);
                assert forall|other: Seq<char>| other != tenant@ implies #[trigger] self.requests(
                    other,
                ) == requests_of(before, other) by {
                    appended_index(tenants_of(before), tenant@, other);
                    first_index_found(tenants_of(before), other);
                    assert(tenants_of(before).len() == before.len());
                    let n = crate::model::first_index(tenants_of(before), other);
                    if n < before.len() {
                        assert(self.list_view()[n] == before[n]);
                    } else {
                        assert(self.requests(other) =~= Seq::<Held<S>>::empty());
                    }
                }
                assert forall|i: int, j: int| 0 <= i < j < self.list_view().len() implies (
                #[trigger] self.list_view()[i]).tenant@ != (#[trigger] self.list_view()[j]).tenant@ by {
                    first_index_excludes(tenants_of(before), tenant@, i);
                    assert(tenants_of(before)[i] == before[i].tenant@);
                }
                assert forall|i: int, n: int|
                    0 <= i < self.list_view().len() && 0 <= n
                        < self.list_view()[i].requests@.len() implies (
                #[trigger] self.list_view()[i].requests@[n]).is_of(self.list_view()[i].tenant@) by {
                    if i < before.len() {
                        assert(before[i].requests@[n].is_of(before[i].tenant@));
                    }
                }
                if within_bounds(before) && timely {
                    assert forall|i: int| 0 <= i < self.list_view().len() implies (
                    #[trigger] self.list_view()[i]).requests@.len()
                        <= MAX_DELETE_REQUESTS_PER_TENANT by {
                        if i < before.len() {
                            assert(before[i].requests@.len() <= MAX_DELETE_REQUESTS_PER_TENANT);
                        }
                    }
                    assert forall|i: int, n: int|
                        0 <= i < self.list_view().len() && 0 <= n
                            < self.list_view()[i].requests@.len() implies (
                    #[trigger] self.list_view()[i].requests@[n]).request.start_ns
                        < self.list_view()[i].requests@[n].request.end_ns by {
                        if i < before.len() {
                            assert(before[i].requests@[n].request.start_ns
                                < before[i].requests@[n].request.end_ns);
                        }
                    }
                }
            }
        }
    }

    proof fn same_elsewhere(&self, before: Seq<TenantRequests<S>>, tenant: Seq<char>, at: int)
        requires
            0 <= at < before.len(),
            before[at].tenant@ == tenant,
            self.list_view().len() == before.len(),
            tenants_of(self.list_view()) == tenants_of(before),
            forall|i: int|
                0 <= i < before.len() && i != at ==> #[trigger] self.list_view()[i] == before[i],
        ensures
            forall|other: Seq<char>|
                other != tenant ==> #[trigger] self.requests(other) == requests_of(before, other),
    {
        assert forall|other: Seq<char>| other != tenant implies #[trigger] self.requests(other)
            == requests_of(before, other) by {
            first_index_found(tenants_of(before), other);
            let n = crate::model::first_index(tenants_of(before), other);
            if n < before.len() {
                assert(tenants_of(before)[n] == before[n].tenant@);
            }
        }
    }
}

proof fn first_index_found<K>(keys: Seq<K>, key: K)
    ensures
        0 <= crate::model::first_index(keys, key) <= keys.len(),
        crate::model::first_index(keys, key) < keys.len() ==> keys[crate::model::first_index(
            keys,
            key,
        )] == key,
    decreases keys.len(),
{
    if keys.len() > 0 && keys[0] != key {
        first_index_found(keys.drop_first(), key);
    }
}

/// Before the first place of a key, the key does not stand.
proof fn first_index_excludes<K>(keys: Seq<K>, key: K, i: int)
    requires
        0 <= i < crate::model::first_index(keys, key),
    ensures
        i < keys.len(),
        keys[i] != key,
    decreases keys.len(),
{
    first_index_found(keys, key);
    if i > 0 {
        first_index_excludes(keys.drop_first(), key, i - 1);
    }
}

/// Where a key stands once another was put at the end.
proof fn appended_index<K>(keys: Seq<K>, added: K, key: K)
    ensures
        crate::model::first_index(keys.push(added), key) == if crate::model::first_index(keys, key)
            < keys.len() {
            crate::model::first_index(keys, key)
        } else if added == key {
            keys.len() as int
        } else {
            keys.len() as int + 1
        },
    decreases keys.len(),
{
    let longer = keys.push(added);
    if keys.len() == 0 {
        assert(longer.drop_first() =~= Seq::<K>::empty());
        assert(crate::model::first_index(longer.drop_first(), key) == 0);
    } else if keys[0] != key {
        assert(longer.drop_first() =~= keys.drop_first().push(added));
        appended_index(keys.drop_first(), added, key);
        first_index_found(keys.drop_first(), key);
    }
}

/// Why a submission is refused before anything is stored: its times are the
/// wrong way round, its selector is none, or the tenant has its fill already.
pub open spec fn submission_problem<S: Selector>(
    registry: &DeleteRequests<S>,
    tenant: Seq<char>,
    parsed: Result<ParsedQuery<S>, String>,
    start_ns: i64,
    end_ns: i64,
) -> Option<DeleteRefusal> {
    if end_ns <= start_ns {
        Some(DeleteRefusal::Invalid("end must be after start"@))
    } else if parsed is Err {
        Some(DeleteRefusal::Invalid(parsed->Err_0@))
    } else if selector_problem(parsed->Ok_0) is Some {
        Some(DeleteRefusal::Invalid(selector_problem(parsed->Ok_0)->0))
    } else if registry.requests(tenant).len() >= MAX_DELETE_REQUESTS_PER_TENANT {
        Some(DeleteRefusal::TooMany)
    } else {
        None
    }
}

/// A refusal, by what it says.
pub enum DeleteRefusal {
    Invalid(Seq<char>),
    TooMany,
    NotFound,
}

impl DeleteRequestError {
    pub open spec fn is(&self, refusal: DeleteRefusal) -> bool {
        match *self {
            DeleteRequestError::Invalid(message) => refusal == DeleteRefusal::Invalid(message@),
            DeleteRequestError::TooMany => refusal == DeleteRefusal::TooMany,
            DeleteRequestError::NotFound => refusal == DeleteRefusal::NotFound,
            DeleteRequestError::Storage(_) => false,
        }
    }
}

impl<S: Selector> DeleteRequests<S> {
    /// Checks a submission and makes the request out of it, under a given id.
    /// Nothing is hidden yet: the request is to be stored first and then
    /// committed.
    pub fn prepare(
        &mut self,
        request_id: String,
        tenant: &TenantId,
        query: &str,
        parsed: Result<ParsedQuery<S>, String>,
        start_ns: i64,
        end_ns: i64,
        now_ns: i64,
    ) -> (out: Result<Held<S>, DeleteRequestError>)
        requires
            old(self).wf(),
        ensures
            final(self).by_tenant == old(self).by_tenant,
            match out {
                Ok(held) => {
                    &&& submission_problem(old(self), tenant@, parsed, start_ns, end_ns) is None
                    &&& held.is_of(tenant@)
                    &&& held.request@ == (RequestView {
                        request_id: request_id@,
                        tenant: tenant@,
                        query: query@,
                        start_ns: start_ns as int,
                        end_ns: end_ns as int,
                        created_at_ns: now_ns as int,
                        status: DeleteStatus::Received,
                    })
                    &&& held.compiled.selector == parsed->Ok_0->selector
                    &&& final(self).metrics == old(self).metrics
                },
                Err(error) => {
                    let problem = submission_problem(old(self), tenant@, parsed, start_ns, end_ns);
                    &&& problem is Some
                    &&& error.is(problem->0)
                    &&& final(self).metrics == if problem->0 is TooMany {
                        (DeleteRequestMetrics {
                            rejected: old(self).metrics.rejected.wrapping_add(1),
                            ..old(self).metrics
                        })
                    } else {
                        old(self).metrics
                    }
                },
            },
    {
        if end_ns <= start_ns {
            return Err(DeleteRequestError::Invalid("end must be after start".to_owned()));
        }
        let selector = match parse_selector(parsed) {
            Ok(selector) => selector,
            Err(message) => {
                return Err(DeleteRequestError::Invalid(message));
            },
        };
        let at: usize = self.find(tenant);
        if at < self.by_tenant.len() && self.by_tenant[at].requests.len()
            >= MAX_DELETE_REQUESTS_PER_TENANT {
            self.metrics.rejected = self.metrics.rejected.wrapping_add(1);
            return Err(DeleteRequestError::TooMany);
        }
        let request = DeleteRequest {
            request_id,
            tenant: tenant.as_str().to_owned(),
            query: query.to_owned(),
            start_ns,
            end_ns,
            created_at_ns: now_ns,
            status: DeleteStatus::Received,
        };
        Ok(Held { request, compiled: CompiledRequest { start_ns, end_ns, selector } })
    }

    /// Checks a submission and makes the request out of it, under an id of its
    /// own.
    pub fn submit(
        &mut self,
        tenant: &TenantId,
        query: &str,
        parsed: Result<ParsedQuery<S>, String>,
        start_ns: i64,
        end_ns: i64,
        now_ns: i64,
    ) -> (out: Result<Held<S>, DeleteRequestError>)
        requires
            old(self).wf(),
        ensures
            final(self).by_tenant == old(self).by_tenant,
            out is Ok <==> submission_problem(old(self), tenant@, parsed, start_ns, end_ns) is None,
            out is Ok <==> start_ns < end_ns && parsed is Ok && parsed->Ok_0 is Logs
                && parsed->Ok_0->matchers >= 1 && parsed->Ok_0->stages == 0 && old(self).requests(
                tenant@,
            ).len() < MAX_DELETE_REQUESTS_PER_TENANT,
            final(self).metrics == if submission_problem(
                old(self),
                tenant@,
                parsed,
                start_ns,
                end_ns,
            ) == Some(DeleteRefusal::TooMany) {
                (DeleteRequestMetrics {
                    rejected: old(self).metrics.rejected.wrapping_add(1),
                    ..old(self).metrics
                })
            } else {
                old(self).metrics
            },
            match out {
                Ok(held) => {
                    &&& held.is_of(tenant@)
                    &&& is_uuid_text(held.request@.request_id)
                    &&& held.request@ == (RequestView {
                        request_id: held.request@.request_id,
                        tenant: tenant@,
                        query: query@,
                        start_ns: start_ns as int,
                        end_ns: end_ns as int,
                        created_at_ns: now_ns as int,
                        status: DeleteStatus::Received,
                    })
                    &&& held.compiled.selector == parsed->Ok_0->selector
                },
                Err(error) => error.is(
                    submission_problem(old(self), tenant@, parsed, start_ns, end_ns)->0,
                ),
            },
    {
        let id = new_request_id();
        self.prepare(id, tenant, query, parsed, start_ns, end_ns, now_ns)
    }

    /// Takes in a request that is stored. From here on it hides what it covers.
    /// Refused if the tenant's requests have filled up meanwhile.
    pub fn commit(&mut self, tenant: &TenantId, held: Held<S>) -> (out: Result<
        (),
        DeleteRequestError,
    >)
        requires
            old(self).wf(),
            held.is_of(tenant@),
        ensures
            final(self).wf(),
            within_bounds(old(self).list_view()) && held.request.start_ns < held.request.end_ns
                ==> within_bounds(final(self).list_view()),
            match out {
                Ok(_) => {
                    &&& old(self).requests(tenant@).len() < MAX_DELETE_REQUESTS_PER_TENANT
                    &&& final(self).requests(tenant@) == old(self).requests(tenant@).push(held)
                    &&& forall|other: Seq<char>|
                        other != tenant@ ==> #[trigger] final(self).requests(other) == old(self).requests(other)
                    &&& final(self).metrics == (DeleteRequestMetrics {
                        accepted: old(self).metrics.accepted.wrapping_add(1),
                        ..old(self).metrics
                    })
                },
                Err(error) => {
                    &&& old(self).requests(tenant@).len() >= MAX_DELETE_REQUESTS_PER_TENANT
                    &&& error is TooMany
                    &&& final(self).by_tenant == old(self).by_tenant
                    &&& final(self).metrics == (DeleteRequestMetrics {
                        rejected: old(self).metrics.rejected.wrapping_add(1),
                        ..old(self).metrics
                    })
                },
            },
    {
        let at: usize = self.find(tenant);
        if at < self.by_tenant.len() && self.by_tenant[at].requests.len()
            >= MAX_DELETE_REQUESTS_PER_TENANT {
            self.metrics.rejected = self.metrics.rejected.wrapping_add(1);
            return Err(DeleteRequestError::TooMany);
        }
        self.metrics.accepted = self.metrics.accepted.wrapping_add(1);
        self.put(tenant, held);
        Ok(())
    }

    /// Takes in a request that an earlier run accepted. It names its tenant; an
    /// id that is none is an error, and so is a selector that no longer parses.
    pub fn load(&mut self, request: DeleteRequest, parsed: Result<ParsedQuery<S>, String>) -> (out:
        Result<(), String>)
        requires
            old(self).wf(),
        ensures
            final(self).wf(),
            final(self).metrics == old(self).metrics,
            match out {
                Ok(_) => {
                    &&& crate::tenant::is_tenant(request.tenant@)
                    &&& parsed is Ok && selector_problem(parsed->Ok_0) is None
                    &&& exists|held: Held<S>|
                        {
                            &&& held.request == request
                            &&& held.compiled.selector == parsed->Ok_0->selector
                            &&& final(self).requests(request.tenant@) == #[trigger] old(self).requests(request.tenant@).push(held)
                        }
                    &&& forall|other: Seq<char>|
                        other != request.tenant@ ==> #[trigger] final(self).requests(other)
                            == old(self).requests(other)
                },
                Err(message) => {
                    &&& final(self).by_tenant == old(self).by_tenant
                    &&& if !crate::tenant::is_tenant(request.tenant@) {
                        message@ == "stored delete request "@ + request.request_id@
                            + " names an invalid tenant: "@ + crate::tenant::tenant_problem(
                            request.tenant@,
                        )
                    } else {
                        message@ == "stored delete request is unusable: "@ + (match parsed {
                            Err(why) => why@,
                            Ok(query) => selector_problem(query)->0,
                        }) && (parsed is Err || selector_problem(parsed->Ok_0) is Some)
                    }
                },
            },
    {
        let tenant = match TenantId::parse(request.tenant.as_str()) {
            Ok(tenant) => tenant,
            Err(why) => {
                let mut message = "stored delete request ".to_owned();
                message.append(request.request_id.as_str());
                message.append(" names an invalid tenant: ");
                message.append(why.as_str());
                return Err(message);
            },
        };
        let selector = match parse_selector(parsed) {
            Ok(selector) => selector,
            Err(why) => {
                let mut message = "stored delete request is unusable: ".to_owned();
                message.append(why.as_str());
                return Err(message);
            },
        };
        let compiled = CompiledRequest {
            start_ns: request.start_ns,
            end_ns: request.end_ns,
            selector,
        };
        let held = Held { request, compiled };
        self.put(&tenant, held);
        Ok(())
    }

    /// Why a withdrawal is refused: there is no such request, or its data is
    /// gone.
    pub open spec fn cancel_problem(&self, tenant: Seq<char>, id: Seq<char>) -> Option<
        DeleteRefusal,
    > {
        let requests = self.requests(tenant);
        let at = index_of_id(requests, id);
        if at >= requests.len() {
            Some(DeleteRefusal::NotFound)
        } else if requests[at].request.status == DeleteStatus::Processed {
            Some(
                DeleteRefusal::Invalid("this request has already been applied and its data is gone"@),
            )
        } else {
            None
        }
    }

    /// Whether a request may be withdrawn. It is to be removed from storage
    /// first and then dropped.
    pub fn check_cancel(&self, tenant: &TenantId, request_id: &str) -> (out: Result<
        (),
        DeleteRequestError,
    >)
        ensures
            match out {
                Ok(_) => self.cancel_problem(tenant@, request_id@) is None,
                Err(error) => self.cancel_problem(tenant@, request_id@) is Some && error.is(
                    self.cancel_problem(tenant@, request_id@)->0,
                ),
            },
    {
        let at: usize = self.find(tenant);
        if at >= self.by_tenant.len() {
            return Err(DeleteRequestError::NotFound);
        }
        let requests = &self.by_tenant[at].requests;
        let ghost ids = requests@.map_values(|held: Held<S>| held.request.request_id@);
        let mut i: usize = 0;
        while i < requests.len() && !same_text(requests[i].request.request_id.as_str(), request_id)
            invariant
                i <= requests@.len(),
                ids == requests@.map_values(|held: Held<S>| held.request.request_id@),
                forall|j: int| 0 <= j < i ==> #[trigger] ids[j] != request_id@,
            decreases requests.len() - i,
        {
            i = i + 1;
        }
        proof {
            crate::model::first_index_is(ids, request_id@, i as int);
        }
        if i >= requests.len() {
            return Err(DeleteRequestError::NotFound);
        }
        if requests[i].request.status == DeleteStatus::Processed {
            return Err(
                DeleteRequestError::Invalid(
                    "this request has already been applied and its data is gone".to_owned(),
                ),
            );
        }
        Ok(())
    }

    /// Drops a request that was removed from storage. What it was hiding can be
    /// read again.
    pub fn cancel(&mut self, tenant: &TenantId, request_id: &str)
        requires
            old(self).wf(),
        ensures
            final(self).wf(),
            within_bounds(old(self).list_view()) ==> within_bounds(final(self).list_view()),
            final(self).requests(tenant@) == without_id(
                old(self).requests(tenant@),
                request_id@,
            ),
            forall|other: Seq<char>|
                other != tenant@ ==> #[trigger] final(self).requests(other) == old(self).requests(
                    other,
                ),
            final(self).metrics == (DeleteRequestMetrics {
                cancelled: old(self).metrics.cancelled.wrapping_add(
                    (old(self).requests(tenant@).len() - without_id(
                        old(self).requests(tenant@),
                        request_id@,
                    ).len()) as u64,
                ),
                ..old(self).metrics
            }),
    {
        let at: usize = self.find(tenant);
        let ghost before = self.list_view();
        if at >= self.by_tenant.len() {
            assert(without_id(self.requests(tenant@), request_id@) =~= Seq::<Held<S>>::empty());
            assert(self.metrics.cancelled.wrapping_add(0) == self.metrics.cancelled);
            return ;
        }
        let mut all: Vec<Held<S>> = Vec::new();
        std::mem::swap(&mut all, &mut self.by_tenant[at].requests);
        let ghost held = all@;
        let count: usize = all.len();
        let mut kept: Vec<Held<S>> = Vec::new();
        let mut removed: u64 = 0;
        let ghost mut done: int = 0;
        assert(held.take(0) =~= Seq::<Held<S>>::empty());
        assert(held.skip(0) =~= held);
        while all.len() > 0
            invariant
                0 <= done <= held.len(),
                held.len() == count,
                all@ == held.skip(done),
                kept@ == without_id(held.take(done), request_id@),
                removed == done - kept@.len(),
            decreases all.len(),
        {
            let next = all.remove(0);
            proof {
                assert(held.skip(done).remove(0) =~= held.skip(done + 1));
                assert(held.take(done + 1).drop_last() =~= held.take(done));
                assert(held.take(done + 1).last() == next);
                done = done + 1;
            }
            if same_text(next.request.request_id.as_str(), request_id) {
                removed = removed + 1;
            } else {
                kept.push(next);
            }
        }
        assert(done == held.len());
        assert(held.take(done) =~= held);
        self.metrics.cancelled = self.metrics.cancelled.wrapping_add(removed);
        self.by_tenant[at].requests = kept;
        proof {
            assert(tenants_of(self.list_view()) =~= tenants_of(before));
            self.same_elsewhere(before, tenant@, at as int);
            assert forall|i: int, n: int|
                0 <= i < self.list_view().len() && 0 <= n < self.list_view()[i].requests@.len()
                    implies (#[trigger] self.list_view()[i].requests@[n]).is_of(
                self.list_view()[i].tenant@,
            ) by {
                assert(tenants_of(self.list_view())[i] == tenants_of(before)[i]);
                if i != at as int {
                    assert(self.list_view()[i] == before[i]);
                    assert(before[i].requests@[n].is_of(before[i].tenant@));
                } else {
                    let source = without_id_from(held, request_id@, n);
                    assert(before[at as int].requests@[source].is_of(before[at as int].tenant@));
                }
            }
            if within_bounds(before) {
                assert forall|i: int| 0 <= i < self.list_view().len() implies (
                #[trigger] self.list_view()[i]).requests@.len()
                    <= MAX_DELETE_REQUESTS_PER_TENANT by {
                    assert(before[i].requests@.len() <= MAX_DELETE_REQUESTS_PER_TENANT);
                }
                assert forall|i: int, n: int|
                    0 <= i < self.list_view().len() && 0 <= n < self.list_view()[i].requests@.len()
                        implies (#[trigger] self.list_view()[i].requests@[n]).request.start_ns
                    < self.list_view()[i].requests@[n].request.end_ns by {
                    let source = if i == at as int {
                        without_id_from(held, request_id@, n)
                    } else {
                        n
                    };
                    assert(before[i].requests@[source].request.start_ns
                        < before[i].requests@[source].request.end_ns);
                }
            }
            assert forall|i: int, j: int| 0 <= i < j < self.list_view().len() implies (
            #[trigger] self.list_view()[i]).tenant@ != (#[trigger] self.list_view()[j]).tenant@ by {
                assert(tenants_of(self.list_view())[i] == tenants_of(before)[i]);
                assert(tenants_of(self.list_view())[j] == tenants_of(before)[j]);
                assert(before[i].tenant@ != before[j].tenant@);
            }
        }
    }
}

/// Every request that is kept was there before.
proof fn without_id_from<S>(requests: Seq<Held<S>>, id: Seq<char>, n: int) -> (source: int)
    requires
        0 <= n < without_id(requests, id).len(),
    ensures
        0 <= source < requests.len(),
        requests[source] == without_id(requests, id)[n],
    decreases requests.len(),
{
    let rest = requests.drop_last();
    if requests.last().request.request_id@ == id {
        without_id_from(rest, id, n)
    } else if n == without_id(rest, id).len() {
        requests.len() - 1
    } else {
        without_id_from(rest, id, n)
    }
}

// ----------------------------------------------------------------------- masks
/// Whether one of some requests covers a row.
pub open spec fn some_covers<S: Selector>(
    requests: Seq<Held<S>>,
    labels: Seq<(Seq<char>, Seq<char>)>,
    timestamp_ns: int,
    line: Seq<char>,
) -> bool {
    exists|i: int|
        0 <= i < requests.len() && (#[trigger] requests[i]).compiled.covers_row(
            labels,
            timestamp_ns,
            line,
        )
}

/// Whether a part could hold a row that one of some requests covers.
pub open spec fn some_may_hold<S: Selector>(
    requests: Seq<Held<S>>,
    tenant: Seq<char>,
    meta: &PartMeta,
) -> bool {
    exists|i: int|
        0 <= i < requests.len() && (#[trigger] requests[i]).compiled.may_hold(tenant, meta)
}

fn any_covers<S: Selector>(
    requests: &[Held<S>],
    labels: &Labels,
    timestamp_ns: i64,
    line: &str,
) -> (covered: bool)
    ensures
        covered == some_covers(requests@, labels@, timestamp_ns as int, line@),
{
    let mut i: usize = 0;
    while i < requests.len()
        invariant
            i <= requests@.len(),
            forall|j: int|
                0 <= j < i ==> !(#[trigger] requests@[j]).compiled.covers_row(
                    labels@,
                    timestamp_ns as int,
                    line@,
                ),
        decreases requests.len() - i,
    {
        if requests[i].compiled.covers(labels, timestamp_ns, line) {
            assert(requests@[i as int].compiled.covers_row(labels@, timestamp_ns as int, line@));
            return true;
        }
        i = i + 1;
    }
    false
}

/// Whether one list of requests is a copy of another: it tells the same of each
/// request, and each covers the same rows.
pub open spec fn same_requests<S: Selector>(copy: Seq<Held<S>>, list: Seq<Held<S>>) -> bool {
    &&& copy.len() == list.len()
    &&& forall|i: int|
        0 <= i < list.len() ==> (#[trigger] copy[i]).request@ == list[i].request@
            && copy[i].compiled.same_rows(&list[i].compiled)
}

/// A copy of requests covers what they cover.
proof fn same_requests_cover_the_same<S: Selector>(copy: Seq<Held<S>>, list: Seq<Held<S>>)
    requires
        same_requests(copy, list),
    ensures
        forall|labels: Seq<(Seq<char>, Seq<char>)>, timestamp_ns: int, line: Seq<char>|
            #[trigger] some_covers(copy, labels, timestamp_ns, line) == some_covers(
                list,
                labels,
                timestamp_ns,
                line,
            ),
        forall|tenant: Seq<char>, meta: &PartMeta|
            #[trigger] some_may_hold(copy, tenant, meta) == some_may_hold(list, tenant, meta),
{
    assert forall|labels: Seq<(Seq<char>, Seq<char>)>, timestamp_ns: int, line: Seq<char>|
        #[trigger] some_covers(copy, labels, timestamp_ns, line) == some_covers(
            list,
            labels,
            timestamp_ns,
            line,
        ) by {
        assert(forall|i: int|
            0 <= i < list.len() ==> (#[trigger] copy[i]).compiled.covers_row(
                labels,
                timestamp_ns,
                line,
            ) == list[i].compiled.covers_row(labels, timestamp_ns, line));
        if some_covers(list, labels, timestamp_ns, line) {
            let i = choose|i: int|
                0 <= i < list.len() && (#[trigger] list[i]).compiled.covers_row(
                    labels,
                    timestamp_ns,
                    line,
                );
            assert(copy[i].compiled.covers_row(labels, timestamp_ns, line));
        }
    }
    assert forall|tenant: Seq<char>, meta: &PartMeta|
        #[trigger] some_may_hold(copy, tenant, meta) == some_may_hold(list, tenant, meta) by {
        assert forall|i: int| 0 <= i < list.len() implies (
        #[trigger] copy[i]).compiled.may_hold(tenant, meta) == list[i].compiled.may_hold(
            tenant,
            meta,
        ) by {
            same_rows_may_hold(&copy[i].compiled, &list[i].compiled, tenant, meta);
        }
        if some_may_hold(list, tenant, meta) {
            let i = choose|i: int|
                0 <= i < list.len() && (#[trigger] list[i]).compiled.may_hold(tenant, meta);
            assert(copy[i].compiled.may_hold(tenant, meta));
        }
    }
}

proof fn same_rows_may_hold<S: Selector>(
    copy: &CompiledRequest<S>,
    compiled: &CompiledRequest<S>,
    tenant: Seq<char>,
    meta: &PartMeta,
)
    requires
        copy.same_rows(compiled),
    ensures
        copy.may_hold(tenant, meta) == compiled.may_hold(tenant, meta),
{
    assert(forall|i: int|
        0 <= i < meta.streams@.len() ==> copy.selector.takes((#[trigger] meta.streams@[i])@)
            == compiled.selector.takes(meta.streams@[i]@));
}

fn copy_requests<S: Selector>(list: &Vec<Held<S>>) -> (out: Vec<Held<S>>)
    ensures
        same_requests(out@, list@),
{
    let mut out: Vec<Held<S>> = Vec::new();
    let mut i: usize = 0;
    while i < list.len()
        invariant
            i <= list@.len(),
            out@.len() == i,
            forall|j: int|
                0 <= j < i ==> (#[trigger] out@[j]).request@ == list@[j].request@
                    && out@[j].compiled.same_rows(&list@[j].compiled),
        decreases list.len() - i,
    {
        out.push(Held { request: list[i].request.copy(), compiled: list[i].compiled.copy() });
        i = i + 1;
    }
    out
}

/// The rows that one tenant's requests hide. It is a copy: a query holds it for as
/// long as it runs, and what changes meanwhile changes none of its answers.
pub struct DeleteMask<S> {
    pub requests: Vec<Held<S>>,
}

impl<S: Selector> DeleteMask<S> {
    /// Whether nothing is hidden.
    pub fn is_empty(&self) -> (empty: bool)
        ensures
            empty == (self.requests@.len() == 0),
    {
        self.requests.len() == 0
    }

    /// Whether a row is hidden.
    pub fn hides(&self, labels: &Labels, entry: &LogEntry) -> (hidden: bool)
        ensures
            hidden == some_covers(
                self.requests@,
                labels@,
                entry.timestamp_ns as int,
                entry.line@,
            ),
    {
        any_covers(self.requests.as_slice(), labels, entry.timestamp_ns, entry.line.as_str())
    }
}

/// Every tenant's mask at once, copied like one mask.
pub struct DeleteMasks<S> {
    pub by_tenant: Vec<TenantRequests<S>>,
}

/// Whether masks are those of a registry's list: none where nothing is asked for,
/// else a copy of each tenant's requests.
pub open spec fn are_masks_of<S: Selector>(
    masks: Seq<TenantRequests<S>>,
    list: Seq<TenantRequests<S>>,
) -> bool {
    if nothing_asked(list) {
        masks.len() == 0
    } else {
        &&& masks.len() == list.len()
        &&& forall|i: int|
            0 <= i < list.len() ==> (#[trigger] masks[i]).tenant@ == list[i].tenant@
                && same_requests(masks[i].requests@, list[i].requests@)
    }
}

/// Whether a part could hold a row that a request of some tenant covers.
pub open spec fn some_tenant_may_hold<S: Selector>(
    list: Seq<TenantRequests<S>>,
    meta: &PartMeta,
) -> bool {
    exists|i: int|
        0 <= i < list.len() && some_may_hold(
            (#[trigger] list[i]).requests@,
            list[i].tenant@,
            meta,
        )
}

impl<S: Selector> DeleteMasks<S> {
    /// Whether there is no mask at all.
    pub fn is_empty(&self) -> (empty: bool)
        ensures
            empty == (self.by_tenant@.len() == 0),
    {
        self.by_tenant.len() == 0
    }

    /// Whether a row of a tenant is hidden.
    pub fn hides_row(
        &self,
        tenant: &TenantId,
        labels: &Labels,
        timestamp_ns: i64,
        line: &str,
    ) -> (hidden: bool)
        ensures
            hidden == some_covers(
                requests_of(self.by_tenant@, tenant@),
                labels@,
                timestamp_ns as int,
                line@,
            ),
    {
        let mut at: usize = 0;
        while at < self.by_tenant.len() && !self.by_tenant[at].tenant.same(tenant)
            invariant
                at <= self.by_tenant@.len(),
                forall|i: int|
                    0 <= i < at ==> #[trigger] tenants_of(self.by_tenant@)[i] != tenant@,
            decreases self.by_tenant.len() - at,
        {
            at = at + 1;
        }
        proof {
            crate::model::first_index_is(tenants_of(self.by_tenant@), tenant@, at as int);
        }
        if at < self.by_tenant.len() {
            any_covers(self.by_tenant[at].requests.as_slice(), labels, timestamp_ns, line)
        } else {
            false
        }
    }

    /// Whether a part could still hold a row that some request covers. A part
    /// for which this is false has nothing to drop.
    pub fn may_cover_part(&self, meta: &PartMeta) -> (may: bool)
        ensures
            may == some_tenant_may_hold(self.by_tenant@, meta),
    {
        let mut i: usize = 0;
        while i < self.by_tenant.len()
            invariant
                i <= self.by_tenant@.len(),
                forall|j: int|
                    0 <= j < i ==> !some_may_hold(
                        (#[trigger] self.by_tenant@[j]).requests@,
                        self.by_tenant@[j].tenant@,
                        meta,
                    ),
            decreases self.by_tenant.len() - i,
        {
            let entry = &self.by_tenant[i];
            let mut n: usize = 0;
            while n < entry.requests.len()
                invariant
                    i < self.by_tenant@.len(),
                    entry == self.by_tenant@[i as int],
                    n <= entry.requests@.len(),
                    forall|j: int|
                        0 <= j < n ==> !(#[trigger] entry.requests@[j]).compiled.may_hold(
                            entry.tenant@,
                            meta,
                        ),
                decreases entry.requests.len() - n,
            {
                if entry.requests[n].compiled.may_be_held_by(&entry.tenant, meta) {
                    assert(entry.requests@[n as int].compiled.may_hold(entry.tenant@, meta));
                    assert(some_may_hold(
                        self.by_tenant@[i as int].requests@,
                        self.by_tenant@[i as int].tenant@,
                        meta,
                    ));
                    return true;
                }
                n = n + 1;
            }
            i = i + 1;
        }
        false
    }
}

/// Whether any of some parts could hold a row that a request covers.
pub open spec fn any_part_may_hold<S: Selector>(
    compiled: CompiledRequest<S>,
    tenant: Seq<char>,
    metas: Seq<PartMeta>,
) -> bool {
    exists|i: int| 0 <= i < metas.len() && compiled.may_hold(tenant, &#[trigger] metas[i])
}

/// A request after the parts were looked at: processed once none could hold a
/// row it covers, and for good.
pub open spec fn status_after<S: Selector>(
    held: Held<S>,
    tenant: Seq<char>,
    metas: Seq<PartMeta>,
) -> DeleteStatus {
    if held.request.status == DeleteStatus::Processed || !any_part_may_hold(
        held.compiled,
        tenant,
        metas,
    ) {
        DeleteStatus::Processed
    } else {
        DeleteStatus::Received
    }
}

/// Whether a list of requests is an earlier one with each status brought up to
/// date and nothing else changed.
pub open spec fn brought_up_to_date<S: Selector>(
    now: Seq<Held<S>>,
    before: Seq<Held<S>>,
    tenant: Seq<char>,
    metas: Seq<PartMeta>,
) -> bool {
    &&& now.len() == before.len()
    &&& forall|n: int|
        0 <= n < before.len() ==> (#[trigger] now[n]).compiled == before[n].compiled
            && now[n].request == (DeleteRequest {
            status: status_after(before[n], tenant, metas),
            ..before[n].request
        })
}

fn held_by_any<S: Selector>(
    compiled: &CompiledRequest<S>,
    tenant: &TenantId,
    metas: &[PartMeta],
) -> (held: bool)
    ensures
        held == any_part_may_hold(*compiled, tenant@, metas@),
{
    let mut i: usize = 0;
    while i < metas.len()
        invariant
            i <= metas@.len(),
            forall|j: int| 0 <= j < i ==> !compiled.may_hold(tenant@, &#[trigger] metas@[j]),
        decreases metas.len() - i,
    {
        if compiled.may_be_held_by(tenant, &metas[i]) {
            assert(compiled.may_hold(tenant@, &metas@[i as int]));
            return true;
        }
        i = i + 1;
    }
    false
}

impl<S> TenantRequests<S> {
    /// The status of one request becomes processed; nothing else changes.
    fn finish(&mut self, n: usize)
        requires
            n < old(self).requests@.len(),
        ensures
            final(self).tenant == old(self).tenant,
            final(self).requests@.len() == old(self).requests@.len(),
            forall|i: int|
                0 <= i < old(self).requests@.len() && i != n ==> #[trigger] final(self).requests@[i] == old(self).requests@[i],
            final(self).requests@[n as int].compiled == old(self).requests@[n as int].compiled,
            final(self).requests@[n as int].request == (DeleteRequest {
                status: DeleteStatus::Processed,
                ..old(self).requests@[n as int].request
            }),
    {
        self.requests[n].request.status = DeleteStatus::Processed;
    }
}

impl<S: Selector> DeleteRequests<S> {
    /// What the scan hides of one tenant's rows, as it is now.
    pub fn mask_for(&self, tenant: &TenantId) -> (mask: DeleteMask<S>)
        ensures
            same_requests(mask.requests@, self.requests(tenant@)),
            forall|labels: Seq<(Seq<char>, Seq<char>)>, timestamp_ns: int, line: Seq<char>|
                #[trigger] some_covers(mask.requests@, labels, timestamp_ns, line) == some_covers(
                    self.requests(tenant@),
                    labels,
                    timestamp_ns,
                    line,
                ),
    {
        let at: usize = self.find(tenant);
        let requests = if at < self.by_tenant.len() {
            copy_requests(&self.by_tenant[at].requests)
        } else {
            Vec::new()
        };
        proof {
            same_requests_cover_the_same(requests@, self.requests(tenant@));
        }
        DeleteMask { requests }
    }

    /// What a rewrite drops of every tenant's rows, as it is now.
    pub fn masks(&self) -> (masks: DeleteMasks<S>)
        ensures
            are_masks_of(masks.by_tenant@, self.list_view()),
    {
        let mut by_tenant: Vec<TenantRequests<S>> = Vec::new();
        if self.is_empty() {
            return DeleteMasks { by_tenant };
        }
        let mut i: usize = 0;
        while i < self.by_tenant.len()
            invariant
                i <= self.by_tenant@.len(),
                by_tenant@.len() == i,
                forall|j: int|
                    0 <= j < i ==> (#[trigger] by_tenant@[j]).tenant@ == self.by_tenant@[j].tenant@
                        && same_requests(by_tenant@[j].requests@, self.by_tenant@[j].requests@),
            decreases self.by_tenant.len() - i,
        {
            let entry = &self.by_tenant[i];
            by_tenant.push(
                TenantRequests {
                    tenant: entry.tenant.clone(),
                    requests: copy_requests(&entry.requests),
                },
            );
            i = i + 1;
        }
        DeleteMasks { by_tenant }
    }

    /// Brings every status up to date: a request is processed once no part
    /// could still hold a row that it covers.
    pub fn mark_processed(&mut self, metas: &[PartMeta])
        requires
            old(self).wf(),
        ensures
            final(self).wf(),
            within_bounds(old(self).list_view()) ==> within_bounds(final(self).list_view()),
            final(self).metrics == old(self).metrics,
            final(self).list_view().len() == old(self).list_view().len(),
            forall|i: int|
                0 <= i < old(self).list_view().len() ==> (#[trigger] final(self).list_view()[i]).tenant@ == old(self).list_view()[i].tenant@
                    && brought_up_to_date(
                    final(self).list_view()[i].requests@,
                    old(self).list_view()[i].requests@,
                    old(self).list_view()[i].tenant@,
                    metas@,
                ),
    {
        let ghost before = self.list_view();
        let mut i: usize = 0;
        while i < self.by_tenant.len()
            invariant
                i <= self.by_tenant@.len(),
                before == old(self).list_view(),
                self.metrics == old(self).metrics,
                self.by_tenant@.len() == before.len(),
                forall|j: int|
                    0 <= j < i ==> (#[trigger] self.by_tenant@[j]).tenant@ == before[j].tenant@
                        && brought_up_to_date(
                        self.by_tenant@[j].requests@,
                        before[j].requests@,
                        before[j].tenant@,
                        metas@,
                    ),
                forall|j: int|
                    i <= j < before.len() ==> #[trigger] self.by_tenant@[j] == before[j],
            decreases self.by_tenant.len() - i,
        {
            let ghost entry = before[i as int];
            let mut n: usize = 0;
            while n < self.by_tenant[i].requests.len()
                invariant
                    i < self.by_tenant@.len(),
                    before == old(self).list_view(),
                    self.metrics == old(self).metrics,
                    self.by_tenant@.len() == before.len(),
                    entry == before[i as int],
                    n <= self.by_tenant@[i as int].requests@.len(),
                    self.by_tenant@[i as int].tenant == entry.tenant,
                    self.by_tenant@[i as int].requests@.len() == entry.requests@.len(),
                    forall|m: int|
                        0 <= m < n ==> (#[trigger] self.by_tenant@[i as int].requests@[m]).compiled
                            == entry.requests@[m].compiled
                            && self.by_tenant@[i as int].requests@[m].request == (DeleteRequest {
                            status: status_after(entry.requests@[m], entry.tenant@, metas@),
                            ..entry.requests@[m].request
                        }),
                    forall|m: int|
                        n <= m < entry.requests@.len()
                            ==> #[trigger] self.by_tenant@[i as int].requests@[m]
                            == entry.requests@[m],
                    forall|j: int|
                        0 <= j < i ==> (#[trigger] self.by_tenant@[j]).tenant@ == before[j].tenant@
                            && brought_up_to_date(
                            self.by_tenant@[j].requests@,
                            before[j].requests@,
                            before[j].tenant@,
                            metas@,
                        ),
                    forall|j: int|
                        i < j < before.len() ==> #[trigger] self.by_tenant@[j] == before[j],
                decreases self.by_tenant@[i as int].requests@.len() - n,
            {
                assert(self.by_tenant@[i as int].requests@[n as int] == entry.requests@[n as int]);
                let received = self.by_tenant[i].requests[n].request.status
                    == DeleteStatus::Received;
                if received && !held_by_any(
                    &self.by_tenant[i].requests[n].compiled,
                    &self.by_tenant[i].tenant,
                    metas,
                ) {
                    self.by_tenant[i].finish(n);
                }
                n = n + 1;
            }
            assert(brought_up_to_date(
                self.by_tenant@[i as int].requests@,
                entry.requests@,
                entry.tenant@,
                metas@,
            ));
            i = i + 1;
        }
        proof {
            assert forall|a: int, b: int| 0 <= a < b < self.list_view().len() implies (
            #[trigger] self.list_view()[a]).tenant@ != (#[trigger] self.list_view()[b]).tenant@ by {
                assert(self.by_tenant@[a].tenant@ == before[a].tenant@);
                assert(self.by_tenant@[b].tenant@ == before[b].tenant@);
                assert(before[a].tenant@ != before[b].tenant@);
            }
            assert forall|a: int, n: int|
                0 <= a < self.list_view().len() && 0 <= n < self.list_view()[a].requests@.len()
                    implies (#[trigger] self.list_view()[a].requests@[n]).is_of(
                self.list_view()[a].tenant@,
            ) by {
                assert(self.by_tenant@[a].tenant@ == before[a].tenant@);
                assert(before[a].requests@[n].is_of(before[a].tenant@));
            }
            if within_bounds(before) {
                assert forall|a: int| 0 <= a < self.list_view().len() implies (
                #[trigger] self.list_view()[a]).requests@.len()
                    <= MAX_DELETE_REQUESTS_PER_TENANT by {
                    assert(self.by_tenant@[a].tenant@ == before[a].tenant@);
                    assert(before[a].requests@.len() <= MAX_DELETE_REQUESTS_PER_TENANT);
                }
                assert forall|a: int, n: int|
                    0 <= a < self.list_view().len() && 0 <= n < self.list_view()[a].requests@.len()
                        implies (#[trigger] self.list_view()[a].requests@[n]).request.start_ns
                    < self.list_view()[a].requests@[n].request.end_ns by {
                    assert(self.by_tenant@[a].tenant@ == before[a].tenant@);
                    assert(before[a].requests@[n].request.start_ns
                        < before[a].requests@[n].request.end_ns);
                }
            }
        }
    }
}

// ------------------------------------------------------------------------ laws
/// A part that holds a covered row says that it may: while the row is there,
/// its request is not reported as processed.
pub proof fn a_held_row_keeps_its_request_open<S: Selector>(
    held: Held<S>,
    tenant: Seq<char>,
    metas: Seq<PartMeta>,
    part: int,
    segment: int,
    stream: int,
    timestamp_ns: int,
    line: Seq<char>,
)
    requires
        held.request.status == DeleteStatus::Received,
        0 <= part < metas.len(),
        0 <= segment < metas[part].tenants@.len(),
        metas[part].tenants@[segment].tenant@ == tenant,
        metas[part].tenants@[segment].min_ts_ns <= timestamp_ns
            <= metas[part].tenants@[segment].max_ts_ns,
        0 <= stream < metas[part].streams@.len(),
        held.compiled.covers_row(metas[part].streams@[stream]@, timestamp_ns, line),
    ensures
        status_after(held, tenant, metas) == DeleteStatus::Received,
{
    let meta = metas[part];
    assert(meta.tenants@[segment].tenant@ == tenant);
    assert(held.compiled.selector.takes(meta.streams@[stream]@));
    assert(held.compiled.may_hold(tenant, &meta));
}

/// A request that was accepted hides every row it covers, from the first
/// nanosecond asked for up to but not at the last.
pub proof fn an_accepted_request_hides_its_rows<S: Selector>(
    before: Seq<Held<S>>,
    held: Held<S>,
    labels: Seq<(Seq<char>, Seq<char>)>,
    timestamp_ns: int,
    line: Seq<char>,
)
    requires
        held.wf(),
        held.compiled.selector.takes(labels),
        held.compiled.selector.keeps(line),
    ensures
        held.request.start_ns <= timestamp_ns < held.request.end_ns ==> some_covers(
            before.push(held),
            labels,
            timestamp_ns,
            line,
        ),
        !(held.request.start_ns <= timestamp_ns < held.request.end_ns) ==> some_covers(
            before.push(held),
            labels,
            timestamp_ns,
            line,
        ) == some_covers(before, labels, timestamp_ns, line),
{
    let after = before.push(held);
    if held.request.start_ns <= timestamp_ns < held.request.end_ns {
        assert(after[before.len() as int].compiled.covers_row(labels, timestamp_ns, line));
    } else {
        if some_covers(after, labels, timestamp_ns, line) {
            let i = choose|i: int|
                0 <= i < after.len() && (#[trigger] after[i]).compiled.covers_row(
                    labels,
                    timestamp_ns,
                    line,
                );
            assert(i < before.len());
            assert(before[i].compiled.covers_row(labels, timestamp_ns, line));
        }
        if some_covers(before, labels, timestamp_ns, line) {
            let i = choose|i: int|
                0 <= i < before.len() && (#[trigger] before[i]).compiled.covers_row(
                    labels,
                    timestamp_ns,
                    line,
                );
            assert(after[i].compiled.covers_row(labels, timestamp_ns, line));
        }
    }
}

/// Masks answer as the registry that they were taken from did then, whatever
/// becomes of it later: there are none if and only if nothing is asked for, and a
/// tenant's own mask and all masks at once hide the same rows.
pub proof fn masks_answer_as_their_registry_did<S: Selector>(
    registry: DeleteRequests<S>,
    tenant: Seq<char>,
    mask: DeleteMask<S>,
    masks: DeleteMasks<S>,
)
    requires
        same_requests(mask.requests@, registry.requests(tenant)),
        are_masks_of(masks.by_tenant@, registry.list_view()),
    ensures
        masks.by_tenant@.len() == 0 <==> nothing_asked(registry.list_view()),
        mask.requests@.len() == 0 <==> registry.requests(tenant).len() == 0,
        forall|labels: Seq<(Seq<char>, Seq<char>)>, timestamp_ns: int, line: Seq<char>|
            #[trigger] some_covers(mask.requests@, labels, timestamp_ns, line) == some_covers(
                registry.requests(tenant),
                labels,
                timestamp_ns,
                line,
            ),
        forall|labels: Seq<(Seq<char>, Seq<char>)>, timestamp_ns: int, line: Seq<char>|
            #[trigger] some_covers(
                requests_of(masks.by_tenant@, tenant),
                labels,
                timestamp_ns,
                line,
            ) == some_covers(mask.requests@, labels, timestamp_ns, line),
        forall|meta: &PartMeta| #[trigger]
            some_tenant_may_hold(masks.by_tenant@, meta) == some_tenant_may_hold(
                registry.list_view(),
                meta,
            ),
{
    let list = registry.list_view();
    let copies = masks.by_tenant@;
    let held = registry.requests(tenant);
    same_requests_cover_the_same(mask.requests@, held);
    first_index_found(tenants_of(list), tenant);
    first_index_found(tenants_of(copies), tenant);
    let at = crate::model::first_index(tenants_of(list), tenant);
    if nothing_asked(list) {
        assert(tenants_of(copies) =~= Seq::<Seq<char>>::empty());
        assert(requests_of(copies, tenant) =~= Seq::<Held<S>>::empty());
        if at < list.len() {
            assert(list[at].requests@.len() == 0);
        }
        assert(held =~= Seq::<Held<S>>::empty());
    } else {
        assert(tenants_of(copies) =~= tenants_of(list));
        assert(list.len() > 0);
        if at < list.len() {
            assert(same_requests(copies[at].requests@, list[at].requests@));
        }
    }
    same_requests_cover_the_same(requests_of(copies, tenant), held);
    assert forall|meta: &PartMeta| #[trigger]
        some_tenant_may_hold(copies, meta) == some_tenant_may_hold(list, meta) by {
        if !nothing_asked(list) {
            assert forall|i: int| 0 <= i < list.len() implies some_may_hold(
                (#[trigger] copies[i]).requests@,
                copies[i].tenant@,
                meta,
            ) == some_may_hold(list[i].requests@, list[i].tenant@, meta) by {
                same_requests_cover_the_same(copies[i].requests@, list[i].requests@);
            }
            if some_tenant_may_hold(list, meta) {
                let i = choose|i: int|
                    0 <= i < list.len() && some_may_hold(
                        (#[trigger] list[i]).requests@,
                        list[i].tenant@,
                        meta,
                    );
                assert(some_may_hold(copies[i].requests@, copies[i].tenant@, meta));
            }
        } else if some_tenant_may_hold(list, meta) {
            let i = choose|i: int|
                0 <= i < list.len() && some_may_hold(
                    (#[trigger] list[i]).requests@,
                    list[i].tenant@,
                    meta,
                );
            assert(list[i].requests@.len() == 0);
        }
    }
}

/// Once a request is withdrawn, exactly the rows that another request covers are
/// still hidden.
pub proof fn a_withdrawn_request_hides_nothing<S: Selector>(
    requests: Seq<Held<S>>,
    id: Seq<char>,
    labels: Seq<(Seq<char>, Seq<char>)>,
    timestamp_ns: int,
    line: Seq<char>,
)
    ensures
        some_covers(without_id(requests, id), labels, timestamp_ns, line) <==> exists|i: int|
            0 <= i < requests.len() && (#[trigger] requests[i]).request.request_id@ != id
                && requests[i].compiled.covers_row(labels, timestamp_ns, line),
    decreases requests.len(),
{
    if requests.len() > 0 {
        let rest = requests.drop_last();
        let kept = without_id(rest, id);
        let now = without_id(requests, id);
        a_withdrawn_request_hides_nothing(rest, id, labels, timestamp_ns, line);
        assert(forall|i: int| 0 <= i < rest.len() ==> #[trigger] rest[i] == requests[i]);
        assert(forall|i: int| 0 <= i < rest.len() ==> #[trigger] requests[i] == rest[i]);
        assert(requests.last() == requests[requests.len() - 1]);
        if requests.last().request.request_id@ != id {
            assert(now[kept.len() as int] == requests.last());
            assert(forall|i: int| 0 <= i < kept.len() ==> #[trigger] kept[i] == now[i]);
            assert(forall|i: int| 0 <= i < kept.len() ==> #[trigger] now[i] == kept[i]);
        }
    }
}

/// In a registry that only ever took submissions in, a tenant has at most its
/// fill of requests, and each names it and asks for a time that ends after it
/// starts. `new`, `commit`, `cancel` and `mark_processed` keep it so.
pub proof fn a_tenant_holds_its_own_requests_and_at_most_its_fill<S: Selector>(
    registry: DeleteRequests<S>,
    tenant: Seq<char>,
)
    requires
        registry.wf(),
        within_bounds(registry.list_view()),
    ensures
        registry.requests(tenant).len() <= MAX_DELETE_REQUESTS_PER_TENANT,
        forall|n: int|
            0 <= n < registry.requests(tenant).len() ==> {
                let held = #[trigger] registry.requests(tenant)[n];
                held.is_of(tenant) && held.request.start_ns < held.request.end_ns
            },
{
    let list = registry.list_view();
    first_index_found(tenants_of(list), tenant);
    let at = crate::model::first_index(tenants_of(list), tenant);
    if at < list.len() {
        assert(tenants_of(list)[at] == list[at].tenant@);
        assert(list[at].requests@.len() <= MAX_DELETE_REQUESTS_PER_TENANT);
        assert forall|n: int| 0 <= n < registry.requests(tenant).len() implies {
            let held = #[trigger] registry.requests(tenant)[n];
            held.is_of(tenant) && held.request.start_ns < held.request.end_ns
        } by {
            assert(list[at].requests@[n].is_of(tenant));
            assert(list[at].requests@[n].request.start_ns
                < list[at].requests@[n].request.end_ns);
        }
    }
}

/// Withdrawing a request whose id no other has undoes its submission.
pub proof fn cancel_undoes_submit<S: Selector>(before: Seq<Held<S>>, held: Held<S>)
    requires
        forall|i: int|
            0 <= i < before.len() ==> (#[trigger] before[i]).request.request_id@
                != held.request.request_id@,
    ensures
        without_id(before.push(held), held.request.request_id@) == before,
{
    let id = held.request.request_id@;
    assert(before.push(held).drop_last() =~= before);
    keeps_others(before, id);
}

proof fn keeps_others<S>(requests: Seq<Held<S>>, id: Seq<char>)
    requires
        forall|i: int|
            0 <= i < requests.len() ==> (#[trigger] requests[i]).request.request_id@ != id,
    ensures
        without_id(requests, id) == requests,
    decreases requests.len(),
{
    if requests.len() > 0 {
        let rest = requests.drop_last();
        assert forall|i: int| 0 <= i < rest.len() implies (
        #[trigger] rest[i]).request.request_id@ != id by {
            assert(rest[i] == requests[i]);
        }
        keeps_others(rest, id);
        assert(requests.last() == requests[requests.len() - 1]);
        assert(rest.push(requests.last()) =~= requests);
    } else {
        assert(without_id(requests, id) =~= requests);
    }
}

/// A processed request stays processed, whatever the parts say later.
pub proof fn processed_is_final<S: Selector>(held: Held<S>, tenant: Seq<char>, metas: Seq<PartMeta>)
    requires
        held.request.status == DeleteStatus::Processed,
    ensures
        status_after(held, tenant, metas) == DeleteStatus::Processed,
{
}

} // verus!
