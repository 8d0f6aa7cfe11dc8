//! Sections of the report that follow from the answers alone.

use vstd::prelude::*;
use vstd::string::*;

use crate::compare::notes::{
    count_one_more, group_line, group_shown, groups_of, groups_view, join, joined, label_groups,
    mismatch_row, mismatches_view, one_more_count, row_of, Group, GroupView, Mismatch, MismatchView,
};
use crate::compare::remarks::{shape_sum, sum_over_shapes};
use crate::json::{Json, JsonView};
use crate::order::texts_view;
use crate::text::{decimal, push_decimal, same_text};

verus! {

// ------------------------------------------------------------- disagreements
/// How many disagreements are listed at most.
pub const LISTED_MISMATCHES: usize = 20;

pub open spec fn listed_rows(list: Seq<MismatchView>) -> Seq<Seq<char>> {
    let few = if list.len() > LISTED_MISMATCHES {
        list.take(LISTED_MISMATCHES as int)
    } else {
        list
    };
    few.map_values(|mismatch: MismatchView| row_of(mismatch))
}

pub open spec fn group_lines(groups: Seq<GroupView>) -> Seq<char>
    decreases groups.len(),
{
    if groups.len() == 0 {
        seq![]
    } else {
        group_lines(groups.drop_last()) + group_shown(groups.last())
    }
}

/// The table of the disagreements.
pub open spec fn mismatch_table(list: Seq<MismatchView>) -> Seq<char> {
    "\n**"@ + decimal(list.len())
        + " queries disagreed.** This is a correctness finding and it is reported before any timing conclusion is drawn from the same run. The last column counts label names only loggytracy had against label names only Loki had.\n\n| query | loggytracy rows | Loki rows | loggytracy digest | Loki digest | labels only one side had |\n|---|---|---|---|---|---|\n"@
        + joined(listed_rows(list), "\n"@) + "\n\n"@
}

/// What is said where one side has exactly one row more.
pub open spec fn one_more_note(list: Seq<MismatchView>) -> Seq<char> {
    if one_more_count(list) == 0 {
        seq![]
    } else {
        "In "@ + decimal(one_more_count(list)) + " of the "@ + decimal(list.len())
            + " disagreements loggytracy returned **exactly one row\nmore** than Loki, and that one row is the entry whose timestamp equals the\nwindow's `end`. Checked directly against both endpoints over the same window:\nloggytracy's `query_range` treats `end` as **inclusive**, Loki treats it as\n**exclusive**, and both include `start`. Loki's is the contract loggytracy's\nendpoint claims to implement, so this is a Loki-compatibility defect on the\nloggytracy side, found by this check and recorded in `todo.md`. It is invisible\nwhenever no entry lands exactly on a window boundary, which is why an unaligned\nwindow never surfaced it.\n\n"@
    }
}

/// What is said of the labels that differ.
pub open spec fn labels_note(groups: Seq<GroupView>) -> Seq<char> {
    if groups.len() == 0 {
        seq![]
    } else {
        "Which labels differed, grouped by the difference. `stream:` is a label the response put in the stream's label set, `entry:` one it put in the entry's structured-metadata object, and `metric:` one in a series' identity:\n\n"@
            + group_lines(groups) + "\n"@
    }
}

/// The section on the disagreements of the two systems that are held to the strict
/// digest.
pub open spec fn mismatch_section(list: Seq<MismatchView>) -> Seq<char> {
    if list.len() == 0 {
        "\nNo strict-basis mismatches between loggytracy and Loki.\n"@
    } else {
        mismatch_table(list) + one_more_note(list) + labels_note(groups_of(list))
    }
}

fn write_rows(list: &[Mismatch]) -> (out: Vec<String>)
    ensures
        texts_view(out@) == listed_rows(mismatches_view(list@)),
{
    let count: usize = if list.len() > LISTED_MISMATCHES {
        LISTED_MISMATCHES
    } else {
        list.len()
    };
    let mut out: Vec<String> = Vec::new();
    let mut i: usize = 0;
    while i < count
        invariant
            i <= count <= list@.len(),
            out@.len() == i,
            forall|j: int| 0 <= j < i ==> (#[trigger] out@[j])@ == row_of(list@[j]@),
        decreases count - i,
    {
        out.push(mismatch_row(&list[i]));
        i = i + 1;
    }
    assert(texts_view(out@) =~= listed_rows(mismatches_view(list@)));
    out
}

fn write_table(list: &[Mismatch]) -> (out: String)
    ensures
        out@ == mismatch_table(mismatches_view(list@)),
{
    let mut out = "\n**".to_owned();
    push_decimal(&mut out, list.len() as u64);
    out.append(
        " queries disagreed.** This is a correctness finding and it is reported before any timing conclusion is drawn from the same run. The last column counts label names only loggytracy had against label names only Loki had.\n\n| query | loggytracy rows | Loki rows | loggytracy digest | Loki digest | labels only one side had |\n|---|---|---|---|---|---|\n",
    );
    let rows = write_rows(list);
    out.append(join(&rows, "\n").as_str());
    out.append("\n\n");
    out
}

fn write_one_more(list: &[Mismatch]) -> (out: String)
    ensures
        out@ == one_more_note(mismatches_view(list@)),
{
    let count: usize = count_one_more(list);
    if count == 0 {
        return String::new();
    }
    let mut out = "In ".to_owned();
    push_decimal(&mut out, count as u64);
    out.append(" of the ");
    push_decimal(&mut out, list.len() as u64);
    out.append(
        " disagreements loggytracy returned **exactly one row\nmore** than Loki, and that one row is the entry whose timestamp equals the\nwindow's `end`. Checked directly against both endpoints over the same window:\nloggytracy's `query_range` treats `end` as **inclusive**, Loki treats it as\n**exclusive**, and both include `start`. Loki's is the contract loggytracy's\nendpoint claims to implement, so this is a Loki-compatibility defect on the\nloggytracy side, found by this check and recorded in `todo.md`. It is invisible\nwhenever no entry lands exactly on a window boundary, which is why an unaligned\nwindow never surfaced it.\n\n",
    );
    out
}

fn write_groups(groups: &Vec<Group>) -> (out: String)
    ensures
        out@ == labels_note(groups_view(groups@)),
{
    if groups.len() == 0 {
        return String::new();
    }
    let ghost views = groups_view(groups@);
    let mut lines = String::new();
    let mut i: usize = 0;
    assert(lines@ =~= group_lines(views.take(0)));
    while i < groups.len()
        invariant
            i <= groups@.len(),
            views == groups_view(groups@),
            lines@ == group_lines(views.take(i as int)),
        decreases groups@.len() - i,
    {
        assert(views.take(i + 1).drop_last() =~= views.take(i as int));
        assert(views.take(i + 1).last() == groups@[i as int]@);
        lines.append(group_line(&groups[i]).as_str());
        i = i + 1;
    }
    assert(views.take(i as int) =~= views);
    let mut out = "Which labels differed, grouped by the difference. `stream:` is a label the response put in the stream's label set, `entry:` one it put in the entry's structured-metadata object, and `metric:` one in a series' identity:\n\n".to_owned();
    out.append(lines.as_str());
    out.append("\n");
    out
}

/// Writes the section on the disagreements.
pub fn mismatches_note(list: &[Mismatch]) -> (out: String)
    ensures
        out@ == mismatch_section(mismatches_view(list@)),
{
    if list.len() == 0 {
        return "\nNo strict-basis mismatches between loggytracy and Loki.\n".to_owned();
    }
    let mut out = write_table(list);
    out.append(write_one_more(list).as_str());
    out.append(write_groups(&label_groups(list)).as_str());
    out
}

// ------------------------------------------------------------------- distrust
/// The caveat on queries that failed.
pub open spec fn failed_note(count: nat, target: Seq<char>) -> Seq<char> {
    "**"@ + decimal(count) + " queries errored on "@ + target
        + "** and are excluded from its percentiles, so those percentiles describe the queries that succeeded rather than the workload that was offered."@
}

/// The caveat on answers in another order than the one asked for.
pub open spec fn unordered_note(count: nat, target: Seq<char>) -> Seq<char> {
    "**"@ + decimal(count) + " answers on "@ + target
        + " came back in an order the query did not ask for.** The row digest is order-independent, so this does not show up as a disagreement, but `direction=backward` is part of the contract a Logs panel relies on."@
}

/// The caveat on answers that changed when the query was repeated.
pub open spec fn unstable_note(count: nat, target: Seq<char>) -> Seq<char> {
    "**"@ + decimal(count) + " queries on "@ + target
        + " returned a different answer when repeated** over the same fixed window on a system nothing was writing to. That is a determinism problem, and it undermines the row-equality result for those queries."@
}

/// A note, where there is something to say.
pub open spec fn noted(list: Seq<Seq<char>>, count: nat, note: Seq<char>) -> Seq<Seq<char>> {
    if count > 0 {
        list.push(note)
    } else {
        list
    }
}

/// The caveats on a system's timings.
pub open spec fn caveats_of(report: JsonView, target: Seq<char>) -> Seq<Seq<char>> {
    let failed = shape_sum(report, "errors"@, 7);
    let unordered = shape_sum(report, "answers_out_of_requested_order"@, 7);
    let unstable = shape_sum(report, "warm_answers_differed"@, 7);
    noted(
        noted(
            noted(seq![], failed, failed_note(failed, target)),
            unordered,
            unordered_note(unordered, target),
        ),
        unstable,
        unstable_note(unstable, target),
    )
}

fn write_caveat(count: u64, first: &str, target: &str, last: &str) -> (out: String)
    ensures
        out@ == "**"@ + decimal(count as nat) + first@ + target@ + last@,
{
    let mut out = "**".to_owned();
    push_decimal(&mut out, count);
    out.append(first);
    out.append(target);
    out.append(last);
    out
}

fn push_note(list: &mut Vec<String>, note: String)
    ensures
        texts_view(final(list)@) == texts_view(old(list)@).push(note@),
{
    list.push(note);
    assert(texts_view(list@) =~= texts_view(old(list)@).push(note@));
}

/// Writes the caveats on a system's timings.
pub fn caveats(report: &Json, target: &str) -> (out: Vec<String>)
    requires
        shape_sum(report@, "errors"@, 7) <= u64::MAX,
        shape_sum(report@, "answers_out_of_requested_order"@, 7) <= u64::MAX,
        shape_sum(report@, "warm_answers_differed"@, 7) <= u64::MAX,
    ensures
        texts_view(out@) == caveats_of(report@, target@),
{
    let mut out: Vec<String> = Vec::new();
    assert(texts_view(out@) =~= seq![]);
    let failed: u64 = sum_over_shapes(report, "errors");
    if failed > 0 {
        push_note(
            &mut out,
            write_caveat(
                failed,
                " queries errored on ",
                target,
                "** and are excluded from its percentiles, so those percentiles describe the queries that succeeded rather than the workload that was offered.",
            ),
        );
    }
    let unordered: u64 = sum_over_shapes(report, "answers_out_of_requested_order");
    if unordered > 0 {
        push_note(
            &mut out,
            write_caveat(
                unordered,
                " answers on ",
                target,
                " came back in an order the query did not ask for.** The row digest is order-independent, so this does not show up as a disagreement, but `direction=backward` is part of the contract a Logs panel relies on.",
            ),
        );
    }
    let unstable: u64 = sum_over_shapes(report, "warm_answers_differed");
    if unstable > 0 {
        push_note(
            &mut out,
            write_caveat(
                unstable,
                " queries on ",
                target,
                " returned a different answer when repeated** over the same fixed window on a system nothing was writing to. That is a determinism problem, and it undermines the row-equality result for those queries.",
            ),
        );
    }
    out
}

/// How a run ended, as the report gives it.
pub open spec fn ending(end: (Seq<char>, Seq<char>)) -> Seq<char> {
    end.0 + " on `"@ + end.1 + "`"@
}

/// Whether runs did not all end the same way.
pub open spec fn ends_differ(ends: Seq<(Seq<char>, Seq<char>)>) -> bool {
    exists|i: int| 0 <= i < ends.len() && (#[trigger] ends[i]).1 != ends[0].1
}

/// The caveat on runs that did not all end the same way: they hold different
/// amounts of data.
pub fn ended_note(ends: &[(String, String)]) -> (out: Option<String>)
    ensures
        crate::checks::shown(out) == if ends_differ(crate::model::pairs_view(ends@)) {
            Some(
                "**The ingest runs did not all stop the same way** \u{2014} "@ + joined(
                    crate::model::pairs_view(ends@).map_values(
                        |end: (Seq<char>, Seq<char>)| ending(end),
                    ),
                    ", "@,
                )
                    + ". They therefore hold different amounts of data, and every axis downstream of that (disk, query, memory) is comparing different corpora sizes. Treat the disk and query columns as indicative only."@,
            )
        } else {
            None
        },
{
    let ghost views = crate::model::pairs_view(ends@);
    let mut differ: bool = false;
    let mut list: Vec<String> = Vec::new();
    let mut i: usize = 0;
    while i < ends.len()
        invariant
            i <= ends@.len(),
            views == crate::model::pairs_view(ends@),
            list@.len() == i,
            forall|j: int| 0 <= j < i ==> (#[trigger] list@[j])@ == ending(views[j]),
            differ == (exists|j: int| 0 <= j < i && (#[trigger] views[j]).1 != views[0].1),
        decreases ends@.len() - i,
    {
        assert(views[i as int] == (ends@[i as int].0@, ends@[i as int].1@));
        assert(views[0] == (ends@[0].0@, ends@[0].1@));
        if !same_text(ends[i].1.as_str(), ends[0].1.as_str()) {
            assert(views[i as int].1 != views[0].1);
            differ = true;
        }
        let mut text = ends[i].0.clone();
        text.append(" on `");
        text.append(ends[i].1.as_str());
        text.append("`");
        list.push(text);
        i = i + 1;
    }
    if !differ {
        return None;
    }
    assert(texts_view(list@) =~= views.map_values(|end: (Seq<char>, Seq<char>)| ending(end)));
    let mut out = "**The ingest runs did not all stop the same way** \u{2014} ".to_owned();
    out.append(join(&list, ", ").as_str());
    out.append(
        ". They therefore hold different amounts of data, and every axis downstream of that (disk, query, memory) is comparing different corpora sizes. Treat the disk and query columns as indicative only.",
    );
    Some(out)
}

} // verus!
