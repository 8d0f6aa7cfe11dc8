//! What delete requests promise: which are accepted, which rows they hide, and when
//! their rows are gone.

use vstd::prelude::*;
use vstd::string::*;

use crate::delete_requests::{
    any_part_may_hold, brought_up_to_date, selector_problem, some_covers, some_may_hold,
    some_tenant_may_hold, status_after, submission_problem, tenants_of, text_contains,
    whole_seconds, without_id, CompiledRequest, DeleteRefusal, DeleteRequests, DeleteStatus,
    ExactSelector, Held, ParsedQuery, PartMeta, Selector, TenantRequests,
};
use crate::model::{first_index_is, value_of};

verus! {

// ----------------------------------------------------------------- submission
/// A query is a delete selector exactly if it selects log lines, with at least one
/// matcher and without a pipeline stage, however many stages it might have.
pub proof fn only_a_selector_without_stages_is_accepted<S>(parsed: ParsedQuery<S>)
    ensures
        parsed is Metric ==> selector_problem(parsed) is Some,
        parsed matches ParsedQuery::Logs { matchers, stages, .. } ==> {
            &&& stages >= 1 ==> selector_problem(parsed) is Some
            &&& matchers == 0 ==> selector_problem(parsed) is Some
            &&& stages == 0 && matchers >= 1 ==> selector_problem(parsed) is None
        },
{
}

/// A submission is accepted exactly if it ends after it starts, its query could be
/// parsed and selects log lines with at least one matcher and no pipeline stage, and the
/// tenant holds fewer requests than it may. It is told that there are too many only if
/// nothing else is wrong with it.
pub proof fn a_submission_is_accepted_exactly_if_it_is_sound<S: Selector>(
    registry: &DeleteRequests<S>,
    tenant: Seq<char>,
    parsed: Result<ParsedQuery<S>, String>,
    start_ns: i64,
    end_ns: i64,
)
    ensures
        ({
            let sound = start_ns < end_ns && parsed is Ok && parsed->Ok_0 is Logs
                && parsed->Ok_0->matchers >= 1 && parsed->Ok_0->stages == 0;
            let problem = submission_problem(registry, tenant, parsed, start_ns, end_ns);
            &&& problem is None <==> sound && registry.requests(tenant).len() < 100
            &&& problem == Some(DeleteRefusal::TooMany) <==> sound && registry.requests(
                tenant,
            ).len() >= 100
            &&& problem is Some && problem->0 is Invalid <==> !sound
        }),
{
}

// ----------------------------------------------------------------------- rows
/// A row is hidden exactly if one of the requests covers its instant, from its start up
/// to but not at its end, and the selector of that same request takes its labels and
/// keeps its line.
pub proof fn a_row_is_hidden_exactly_if_a_request_selects_it<S: Selector>(
    requests: Seq<Held<S>>,
    labels: Seq<(Seq<char>, Seq<char>)>,
    timestamp_ns: int,
    line: Seq<char>,
)
    ensures
        some_covers(requests, labels, timestamp_ns, line) <==> exists|i: int|
            {
                &&& 0 <= i < requests.len()
                &&& (#[trigger] requests[i]).compiled.start_ns <= timestamp_ns
                &&& timestamp_ns < requests[i].compiled.end_ns
                &&& requests[i].compiled.selector.takes(labels)
                &&& requests[i].compiled.selector.keeps(line)
            },
{
    if some_covers(requests, labels, timestamp_ns, line) {
        let i = choose|i: int|
            0 <= i < requests.len() && (#[trigger] requests[i]).compiled.covers_row(
                labels,
                timestamp_ns,
                line,
            );
        assert(requests[i].compiled.start_ns <= timestamp_ns);
    }
    if exists|i: int|
        {
            &&& 0 <= i < requests.len()
            &&& (#[trigger] requests[i]).compiled.start_ns <= timestamp_ns
            &&& timestamp_ns < requests[i].compiled.end_ns
            &&& requests[i].compiled.selector.takes(labels)
            &&& requests[i].compiled.selector.keeps(line)
        } {
        let i = choose|i: int|
            {
                &&& 0 <= i < requests.len()
                &&& (#[trigger] requests[i]).compiled.start_ns <= timestamp_ns
                &&& timestamp_ns < requests[i].compiled.end_ns
                &&& requests[i].compiled.selector.takes(labels)
                &&& requests[i].compiled.selector.keeps(line)
            };
        assert(requests[i].compiled.covers_row(labels, timestamp_ns, line));
    }
}

/// What a tenant asks for hides no row of another: the requests of a tenant are those
/// that the registry holds under its name, and none where it holds no such name.
pub proof fn a_tenant_has_the_requests_under_its_name<S: Selector>(
    registry: DeleteRequests<S>,
    tenant: Seq<char>,
)
    requires
        registry.wf(),
    ensures
        forall|i: int|
            0 <= i < registry.by_tenant@.len() && (#[trigger] registry.by_tenant@[i]).tenant@
                == tenant ==> registry.requests(tenant) == registry.by_tenant@[i].requests@,
        (forall|i: int|
            0 <= i < registry.by_tenant@.len() ==> (#[trigger] registry.by_tenant@[i]).tenant@
                != tenant) ==> registry.requests(tenant).len() == 0,
        forall|n: int|
            0 <= n < registry.requests(tenant).len() ==> (#[trigger] registry.requests(
                tenant,
            )[n]).request.tenant@ == tenant,
{
    let list = registry.by_tenant@;
    let keys = tenants_of(list);
    assert(registry.list_view() == list);
    assert forall|i: int|
        0 <= i < list.len() && (#[trigger] list[i]).tenant@ == tenant implies registry.requests(
        tenant,
    ) == list[i].requests@ by {
        assert forall|j: int| 0 <= j < i implies keys[j] != tenant by {
            assert(registry.list_view()[j].tenant@ != registry.list_view()[i].tenant@);
        }
        first_index_is(keys, tenant, i);
    }
    if forall|i: int| 0 <= i < list.len() ==> (#[trigger] list[i]).tenant@ != tenant {
        assert forall|j: int| 0 <= j < keys.len() implies keys[j] != tenant by {
            assert(list[j].tenant@ != tenant);
        }
        first_index_is(keys, tenant, keys.len() as int);
    } else {
        let i = choose|i: int| 0 <= i < list.len() && (#[trigger] list[i]).tenant@ == tenant;
        assert(registry.requests(tenant) == list[i].requests@);
        assert forall|n: int| 0 <= n < registry.requests(tenant).len() implies (
        #[trigger] registry.requests(tenant)[n]).request.tenant@ == tenant by {
            assert(registry.list_view()[i].requests@[n].is_of(tenant));
        }
    }
}

// ------------------------------------------------------------------ selectors
/// An exact selector takes labels exactly if every matcher of it holds: one that asks
/// for a value holds where the label has it, one that excludes a value holds where it has
/// another, and a label that is not there has the empty value. It keeps a line exactly if
/// every filter of it holds: the line has the text in it, or has not.
pub proof fn an_exact_selector_selects_by_every_matcher_and_filter(
    selector: ExactSelector,
    labels: Seq<(Seq<char>, Seq<char>)>,
    line: Seq<char>,
)
    ensures
        selector.takes(labels) <==> forall|i: int|
            0 <= i < selector.matchers@.len() ==> {
                let matcher = #[trigger] selector.matchers@[i];
                match value_of(labels, matcher.name@) {
                    Some(value) => matcher.equal <==> value == matcher.value@,
                    None => matcher.equal <==> matcher.value@.len() == 0,
                }
            },
        selector.keeps(line) <==> forall|i: int|
            0 <= i < selector.line_filters@.len() ==> {
                let filter = #[trigger] selector.line_filters@[i];
                filter.present <==> exists|before: Seq<char>, behind: Seq<char>|
                    line == #[trigger] (before + filter.needle@ + behind)
            },
{
    assert forall|i: int| 0 <= i < selector.matchers@.len() implies ((
    #[trigger] selector.matchers@[i]).holds(labels) <==> match value_of(
        labels,
        selector.matchers@[i].name@,
    ) {
        Some(value) => selector.matchers@[i].equal <==> value == selector.matchers@[i].value@,
        None => selector.matchers@[i].equal <==> selector.matchers@[i].value@.len() == 0,
    }) by {
        let value = selector.matchers@[i].value@;
        assert(value.len() == 0 <==> value =~= Seq::<char>::empty());
    }
    assert forall|i: int| 0 <= i < selector.line_filters@.len() implies ((
    #[trigger] selector.line_filters@[i]).holds(line) <==> (selector.line_filters@[i].present
        <==> exists|before: Seq<char>, behind: Seq<char>|
        line == #[trigger] (before + selector.line_filters@[i].needle@ + behind))) by {
        a_line_has_a_text_in_it(line, selector.line_filters@[i].needle@);
    }
}

/// A text stands in a line exactly if the line is that text with something before it and
/// something behind it.
pub proof fn a_line_has_a_text_in_it(line: Seq<char>, needle: Seq<char>)
    ensures
        text_contains(line, needle) <==> exists|before: Seq<char>, behind: Seq<char>|
            line == #[trigger] (before + needle + behind),
{
    if text_contains(line, needle) {
        let at = choose|at: int|
            0 <= at <= line.len() - needle.len() && #[trigger] line.subrange(
                at,
                at + needle.len(),
            ) == needle;
        let before = line.subrange(0, at);
        let behind = line.subrange(at + needle.len(), line.len() as int);
        assert(line =~= before + line.subrange(at, at + needle.len()) + behind);
    }
    if exists|before: Seq<char>, behind: Seq<char>| line == #[trigger] (before + needle + behind) {
        let (before, behind) = choose|before: Seq<char>, behind: Seq<char>|
            line == #[trigger] (before + needle + behind);
        let at = before.len() as int;
        assert(line.subrange(at, at + needle.len()) =~= needle);
    }
}

// --------------------------------------------------------------------- status
/// A request is processed exactly if it was already, or no part could still hold one of
/// its rows: of each part, either the tenant has no rows in it within the time asked for,
/// or no label set in it is one that the selector takes.
pub proof fn a_request_is_processed_once_its_rows_are_gone<S: Selector>(
    held: Held<S>,
    tenant: Seq<char>,
    metas: Seq<PartMeta>,
)
    ensures
        status_after(held, tenant, metas) == DeleteStatus::Processed <==> {
            ||| held.request.status == DeleteStatus::Processed
            ||| forall|p: int|
                #![trigger metas[p]]
                0 <= p < metas.len() ==> {
                    ||| forall|s: int|
                        0 <= s < metas[p].tenants@.len() ==> {
                            let segment = #[trigger] metas[p].tenants@[s];
                            ||| segment.tenant@ != tenant
                            ||| segment.min_ts_ns >= held.compiled.end_ns
                            ||| segment.max_ts_ns < held.compiled.start_ns
                        }
                    ||| forall|l: int|
                        0 <= l < metas[p].streams@.len() ==> !held.compiled.selector.takes(
                            (#[trigger] metas[p].streams@[l])@,
                        )
                }
        },
{
    assert forall|p: int| 0 <= p < metas.len() implies (!held.compiled.may_hold(
        tenant,
        &#[trigger] metas[p],
    ) <==> {
        ||| forall|s: int|
            0 <= s < metas[p].tenants@.len() ==> {
                let segment = #[trigger] metas[p].tenants@[s];
                ||| segment.tenant@ != tenant
                ||| segment.min_ts_ns >= held.compiled.end_ns
                ||| segment.max_ts_ns < held.compiled.start_ns
            }
        ||| forall|l: int|
            0 <= l < metas[p].streams@.len() ==> !held.compiled.selector.takes(
                (#[trigger] metas[p].streams@[l])@,
            )
    }) by {}
}

/// Bringing requests up to date changes no request but in its status, and a status only
/// from received to processed.
pub proof fn only_the_status_is_brought_up_to_date<S: Selector>(
    now: Seq<Held<S>>,
    before: Seq<Held<S>>,
    tenant: Seq<char>,
    metas: Seq<PartMeta>,
    n: int,
)
    requires
        brought_up_to_date(now, before, tenant, metas),
        0 <= n < before.len(),
    ensures
        now.len() == before.len(),
        now[n].compiled == before[n].compiled,
        now[n].request.request_id@ == before[n].request.request_id@,
        now[n].request.tenant@ == before[n].request.tenant@,
        now[n].request.query@ == before[n].request.query@,
        now[n].request.start_ns == before[n].request.start_ns,
        now[n].request.end_ns == before[n].request.end_ns,
        now[n].request.created_at_ns == before[n].request.created_at_ns,
        now[n].request.status != before[n].request.status ==> now[n].request.status
            == DeleteStatus::Processed,
        now[n].request.status == DeleteStatus::Received ==> any_part_may_hold(
            before[n].compiled,
            tenant,
            metas,
        ),
        before[n].request.status == DeleteStatus::Received && now[n].request.status
            == DeleteStatus::Processed ==> !any_part_may_hold(before[n].compiled, tenant, metas),
{
    assert(now[n].compiled == before[n].compiled);
}

/// A part that holds a covered row of a tenant is one that a rewrite has something to
/// drop from.
pub proof fn a_part_with_a_covered_row_is_rewritten<S: Selector>(
    list: Seq<TenantRequests<S>>,
    meta: &PartMeta,
    i: int,
    n: int,
    segment: int,
    stream: int,
    timestamp_ns: int,
)
    requires
        0 <= i < list.len(),
        0 <= n < list[i].requests@.len(),
        0 <= segment < meta.tenants@.len(),
        meta.tenants@[segment].tenant@ == list[i].tenant@,
        meta.tenants@[segment].min_ts_ns <= timestamp_ns <= meta.tenants@[segment].max_ts_ns,
        0 <= stream < meta.streams@.len(),
        list[i].requests@[n].compiled.start_ns <= timestamp_ns,
        timestamp_ns < list[i].requests@[n].compiled.end_ns,
        list[i].requests@[n].compiled.selector.takes(meta.streams@[stream]@),
    ensures
        some_tenant_may_hold(list, meta),
{
    let compiled = list[i].requests@[n].compiled;
    assert(meta.tenants@[segment].tenant@ == list[i].tenant@);
    assert(compiled.selector.takes(meta.streams@[stream]@));
    assert(list[i].requests@[n].compiled.may_hold(list[i].tenant@, meta));
    assert(some_may_hold(list[i].requests@, list[i].tenant@, meta));
}

// ----------------------------------------------------------------- withdrawal
/// Withdrawing an id drops the requests with that id, and keeps every other one.
pub proof fn a_withdrawal_drops_exactly_its_id<S>(
    requests: Seq<Held<S>>,
    id: Seq<char>,
    held: Held<S>,
)
    ensures
        without_id(requests, id).contains(held) <==> requests.contains(held)
            && held.request.request_id@ != id,
        without_id(requests, id).len() <= requests.len(),
    decreases requests.len(),
{
    if requests.len() > 0 {
        let rest = requests.drop_last();
        let kept = without_id(rest, id);
        a_withdrawal_drops_exactly_its_id(rest, id, held);
        assert(requests =~= rest.push(requests.last()));
        if rest.contains(held) {
            let i = choose|i: int| 0 <= i < rest.len() && rest[i] == held;
            assert(requests[i] == held);
        }
        if requests.contains(held) {
            let i = choose|i: int| 0 <= i < requests.len() && requests[i] == held;
            if i < rest.len() {
                assert(rest[i] == held);
            }
        }
        if requests.last() == held {
            assert(requests[requests.len() - 1] == held);
        }
        if requests.last().request.request_id@ != id {
            let now = kept.push(requests.last());
            assert(now == without_id(requests, id));
            if kept.contains(held) {
                let i = choose|i: int| 0 <= i < kept.len() && kept[i] == held;
                assert(now[i] == held);
            }
            if requests.last() == held {
                assert(now[kept.len() as int] == held);
            }
            if now.contains(held) {
                let i = choose|i: int| 0 <= i < now.len() && now[i] == held;
                if i < kept.len() {
                    assert(kept[i] == held);
                }
            }
        }
    }
}

/// A withdrawal is refused as not found exactly if the tenant has no request with that
/// id. If it has one, it is refused exactly if the first such request is processed.
pub proof fn a_withdrawal_is_refused_exactly_if_it_cannot_be_made<S: Selector>(
    registry: DeleteRequests<S>,
    tenant: Seq<char>,
    id: Seq<char>,
    at: int,
)
    requires
        0 <= at <= registry.requests(tenant).len(),
        at < registry.requests(tenant).len() ==> registry.requests(
            tenant,
        )[at].request.request_id@ == id,
        forall|i: int|
            0 <= i < at ==> (#[trigger] registry.requests(tenant)[i]).request.request_id@ != id,
    ensures
        at == registry.requests(tenant).len() <==> registry.cancel_problem(tenant, id) == Some(
            DeleteRefusal::NotFound,
        ),
        at < registry.requests(tenant).len() ==> (registry.cancel_problem(tenant, id) is Some
            <==> registry.requests(tenant)[at].request.status == DeleteStatus::Processed),
{
    let requests = registry.requests(tenant);
    let ids = requests.map_values(|held: Held<S>| held.request.request_id@);
    assert forall|i: int| 0 <= i < at implies ids[i] != id by {
        assert(requests[i].request.request_id@ != id);
    }
    first_index_is(ids, id, at);
}

// ---------------------------------------------------------------- public form
/// An instant is shown in whole seconds: those that lie between it and the epoch.
pub proof fn whole_seconds_are_towards_the_epoch(ns: int)
    ensures
        ns >= 0 ==> 0 <= ns - whole_seconds(ns) * 1_000_000_000 < 1_000_000_000,
        ns < 0 ==> 0 <= whole_seconds(ns) * 1_000_000_000 - ns < 1_000_000_000,
{
}

/// A part is left alone by a request that it can hold nothing of: no segment of the tenant
/// reaches into the time asked for, or no stream in it is selected.
pub proof fn a_part_out_of_reach_is_left_alone<S: Selector>(
    compiled: CompiledRequest<S>,
    tenant: Seq<char>,
    meta: &PartMeta,
)
    ensures
        (forall|i: int|
            0 <= i < meta.tenants@.len() && (#[trigger] meta.tenants@[i]).tenant@ == tenant
                ==> meta.tenants@[i].max_ts_ns < compiled.start_ns || meta.tenants@[i].min_ts_ns
                >= compiled.end_ns) ==> !compiled.may_hold(tenant, meta),
        (forall|i: int|
            0 <= i < meta.streams@.len() ==> !compiled.selector.takes(
                (#[trigger] meta.streams@[i])@,
            )) ==> !compiled.may_hold(tenant, meta),
{
}

/// Of several problems of a submission the first one is told: its times, then what could not
/// be parsed, then what is no selector, and last that there are too many.
pub proof fn a_submission_is_told_its_first_problem<S: Selector>(
    registry: &DeleteRequests<S>,
    tenant: Seq<char>,
    parsed: Result<ParsedQuery<S>, String>,
    start_ns: i64,
    end_ns: i64,
)
    ensures
        ({
            let problem = submission_problem(registry, tenant, parsed, start_ns, end_ns);
            &&& end_ns <= start_ns ==> problem == Some(
                DeleteRefusal::Invalid("end must be after start"@),
            )
            &&& start_ns < end_ns && parsed is Err ==> problem == Some(
                DeleteRefusal::Invalid(parsed->Err_0@),
            )
            &&& start_ns < end_ns && parsed is Ok && selector_problem(parsed->Ok_0) is Some
                ==> problem == Some(
                DeleteRefusal::Invalid(selector_problem(parsed->Ok_0)->Some_0),
            )
        }),
{
}

} // verus!
