//! What the report says of the answers: where they differ, what was left out of
//! the comparison, and in what order they came.

use vstd::prelude::*;
use vstd::string::*;

use crate::compare::agreement::{agree, answers_agree, Basis};
use crate::compare::records::{
    find_record, record_with, records_view, AnswerRecord, RecordView,
};
use crate::load::answers::copy_texts;
use crate::model::{less_text, text_less};
use crate::order::texts_view;
use crate::text::{begins_with, chars_of, decimal, push_decimal, same_text, starts_with, subslice};

verus! {

// --------------------------------------------------------------------- labels
/// The names of one list that another does not have, in their order.
pub open spec fn missing_from(left: Seq<Seq<char>>, right: Seq<Seq<char>>) -> Seq<Seq<char>>
    decreases left.len(),
{
    if left.len() == 0 {
        seq![]
    } else {
        let before = missing_from(left.drop_last(), right);
        if right.contains(left.last()) {
            before
        } else {
            before.push(left.last())
        }
    }
}

pub fn only_in(left: &Vec<String>, right: &Vec<String>) -> (out: Vec<String>)
    ensures
        texts_view(out@) == missing_from(texts_view(left@), texts_view(right@)),
{
    let ghost views = texts_view(left@);
    let mut out: Vec<String> = Vec::new();
    let mut i: usize = 0;
    assert(texts_view(out@) =~= missing_from(views.take(0), texts_view(right@)));
    while i < left.len()
        invariant
            i <= left@.len(),
            views == texts_view(left@),
            texts_view(out@) == missing_from(views.take(i as int), texts_view(right@)),
        decreases left@.len() - i,
    {
        let ghost before = out@;
        assert(views.take(i + 1).drop_last() =~= views.take(i as int));
        assert(views.take(i + 1).last() == left@[i as int]@);
        if !list_has(right, left[i].as_str()) {
            let name = left[i].clone();
            let ghost view = name@;
            out.push(name);
            assert(texts_view(out@) =~= texts_view(before).push(view));
        }
        i = i + 1;
    }
    assert(views.take(i as int) =~= views);
    out
}

fn list_has(list: &Vec<String>, name: &str) -> (found: bool)
    ensures
        found == texts_view(list@).contains(name@),
{
    let mut i: usize = 0;
    while i < list.len()
        invariant
            i <= list@.len(),
            forall|j: int| 0 <= j < i ==> #[trigger] texts_view(list@)[j] != name@,
        decreases list@.len() - i,
    {
        if same_text(list[i].as_str(), name) {
            assert(texts_view(list@)[i as int] == name@);
            return true;
        }
        i = i + 1;
    }
    false
}

/// Texts with a separator between them.
pub open spec fn joined(list: Seq<Seq<char>>, separator: Seq<char>) -> Seq<char>
    decreases list.len(),
{
    if list.len() == 0 {
        seq![]
    } else if list.len() == 1 {
        list[0]
    } else {
        joined(list.drop_last(), separator) + separator + list.last()
    }
}

/// Text in backticks.
pub open spec fn ticked(text: Seq<char>) -> Seq<char> {
    "`"@ + text + "`"@
}

pub open spec fn all_ticked(list: Seq<Seq<char>>) -> Seq<Seq<char>> {
    list.map_values(|text: Seq<char>| ticked(text))
}

fn tick(text: &str) -> (out: String)
    ensures
        out@ == ticked(text@),
{
    let mut out = "`".to_owned();
    out.append(text);
    out.append("`");
    out
}

fn tick_first(list: &Vec<String>, count: usize) -> (out: Vec<String>)
    requires
        count <= list@.len(),
    ensures
        texts_view(out@) == all_ticked(texts_view(list@).take(count as int)),
{
    let mut out: Vec<String> = Vec::new();
    let mut i: usize = 0;
    while i < count
        invariant
            i <= count <= list@.len(),
            out@.len() == i,
            forall|j: int| 0 <= j < i ==> (#[trigger] out@[j])@ == ticked(list@[j]@),
        decreases count - i,
    {
        out.push(tick(list[i].as_str()));
        i = i + 1;
    }
    assert(texts_view(out@) =~= all_ticked(texts_view(list@).take(count as int)));
    out
}

/// Writes texts with a separator between them.
pub fn join(list: &Vec<String>, separator: &str) -> (out: String)
    ensures
        out@ == joined(texts_view(list@), separator@),
{
    let ghost views = texts_view(list@);
    let mut out = String::new();
    let mut i: usize = 0;
    assert(out@ =~= joined(views.take(0), separator@));
    while i < list.len()
        invariant
            i <= list@.len(),
            views == texts_view(list@),
            out@ == joined(views.take(i as int), separator@),
        decreases list@.len() - i,
    {
        let ghost before = out@;
        if i > 0 {
            out.append(separator);
        }
        out.append(list[i].as_str());
        i = i + 1;
        assert(views.take(i as int).drop_last() =~= views.take(i - 1));
        assert(views.take(i as int).last() == list@[i - 1]@);
        assert(out@ =~= joined(views.take(i as int), separator@));
    }
    assert(views.take(i as int) =~= views);
    out
}

/// Names as the report lists them.
pub open spec fn labels_shown(names: Seq<Seq<char>>) -> Seq<char> {
    if names.len() == 0 {
        "none"@
    } else {
        joined(all_ticked(names), ", "@)
    }
}

pub fn join_labels(names: &Vec<String>) -> (out: String)
    ensures
        out@ == labels_shown(texts_view(names@)),
{
    if names.len() == 0 {
        return "none".to_owned();
    }
    let list = tick_first(names, names.len());
    assert(texts_view(names@).take(names@.len() as int) =~= texts_view(names@));
    join(&list, ", ")
}

// ----------------------------------------------------------------- mismatches
/// Two answers to one query that differ.
pub struct Mismatch {
    pub id: String,
    pub left_rows: Option<u64>,
    pub right_rows: Option<u64>,
    pub left_rows_shown: String,
    pub right_rows_shown: String,
    pub left_digest: Option<String>,
    pub right_digest: Option<String>,
    pub only_left: Vec<String>,
    pub only_right: Vec<String>,
}

#[verifier::ext_equal]
pub struct MismatchView {
    pub id: Seq<char>,
    pub left_rows: Option<u64>,
    pub right_rows: Option<u64>,
    pub left_rows_shown: Seq<char>,
    pub right_rows_shown: Seq<char>,
    pub left_digest: Option<Seq<char>>,
    pub right_digest: Option<Seq<char>>,
    pub only_left: Seq<Seq<char>>,
    pub only_right: Seq<Seq<char>>,
}

impl View for Mismatch {
    type V = MismatchView;

    open spec fn view(&self) -> MismatchView {
        MismatchView {
            id: self.id@,
            left_rows: self.left_rows,
            right_rows: self.right_rows,
            left_rows_shown: self.left_rows_shown@,
            right_rows_shown: self.right_rows_shown@,
            left_digest: crate::checks::shown(self.left_digest),
            right_digest: crate::checks::shown(self.right_digest),
            only_left: texts_view(self.only_left@),
            only_right: texts_view(self.only_right@),
        }
    }
}

pub open spec fn mismatches_view(list: Seq<Mismatch>) -> Seq<MismatchView> {
    list.map_values(|mismatch: Mismatch| mismatch@)
}

pub open spec fn mismatch_of(one: RecordView, other: RecordView) -> MismatchView {
    MismatchView {
        id: one.id,
        left_rows: one.rows,
        right_rows: other.rows,
        left_rows_shown: one.rows_shown,
        right_rows_shown: other.rows_shown,
        left_digest: one.digest_text,
        right_digest: other.digest_text,
        only_left: missing_from(one.label_keys, other.label_keys),
        only_right: missing_from(other.label_keys, one.label_keys),
    }
}

/// The queries that both answered, on which they do not agree.
pub open spec fn mismatches_of(left: Seq<RecordView>, right: Seq<RecordView>) -> Seq<MismatchView>
    decreases left.len(),
{
    if left.len() == 0 {
        seq![]
    } else {
        let before = mismatches_of(left.drop_last(), right);
        let one = left.last();
        match record_with(right, one.id) {
            Some(other) => if agree(one, other, Basis::Strict) {
                before
            } else {
                before.push(mismatch_of(one, other))
            },
            None => before,
        }
    }
}

fn copy_text(text: &Option<String>) -> (copy: Option<String>)
    ensures
        crate::checks::shown(copy) == crate::checks::shown(*text),
{
    match text {
        Some(text) => Some(text.clone()),
        None => None,
    }
}

pub fn strict_mismatches(left: &[AnswerRecord], right: &[AnswerRecord]) -> (out: Vec<Mismatch>)
    ensures
        mismatches_view(out@) == mismatches_of(records_view(left@), records_view(right@)),
{
    let ghost views = records_view(left@);
    let mut out: Vec<Mismatch> = Vec::new();
    let mut i: usize = 0;
    assert(mismatches_view(out@) =~= mismatches_of(views.take(0), records_view(right@)));
    while i < left.len()
        invariant
            i <= left@.len(),
            views == records_view(left@),
            mismatches_view(out@) == mismatches_of(views.take(i as int), records_view(right@)),
        decreases left@.len() - i,
    {
        let ghost before = out@;
        let one = &left[i];
        assert(views.take(i + 1).drop_last() =~= views.take(i as int));
        assert(views.take(i + 1).last() == one@);
        if let Some(other) = find_record(right, one.id.as_str()) {
            if !answers_agree(one, other, Basis::Strict) {
                let mismatch = Mismatch {
                    id: one.id.clone(),
                    left_rows: one.rows,
                    right_rows: other.rows,
                    left_rows_shown: one.rows_shown.clone(),
                    right_rows_shown: other.rows_shown.clone(),
                    left_digest: copy_text(&one.digest_text),
                    right_digest: copy_text(&other.digest_text),
                    only_left: only_in(&one.label_keys, &other.label_keys),
                    only_right: only_in(&other.label_keys, &one.label_keys),
                };
                let ghost view = mismatch@;
                out.push(mismatch);
                assert(mismatches_view(out@) =~= mismatches_view(before).push(view));
            }
        }
        i = i + 1;
    }
    assert(views.take(i as int) =~= views);
    out
}

/// Whether the first answer has exactly one row more. An answer without a number of
/// rows has neither more nor fewer.
pub open spec fn has_one_more(mismatch: MismatchView) -> bool {
    match (mismatch.left_rows, mismatch.right_rows) {
        (Some(left), Some(right)) => left == right + 1,
        _ => false,
    }
}

pub open spec fn one_more_count(list: Seq<MismatchView>) -> nat
    decreases list.len(),
{
    if list.len() == 0 {
        0
    } else if has_one_more(list.last()) {
        one_more_count(list.drop_last()) + 1
    } else {
        one_more_count(list.drop_last())
    }
}

/// How often the first answer has exactly one row more.
pub fn count_one_more(list: &[Mismatch]) -> (n: usize)
    ensures
        n == one_more_count(mismatches_view(list@)),
        n <= list@.len(),
{
    let ghost views = mismatches_view(list@);
    let mut n: usize = 0;
    let mut i: usize = 0;
    assert(views.take(0) =~= seq![]);
    while i < list.len()
        invariant
            i <= list@.len(),
            n <= i,
            views == mismatches_view(list@),
            n == one_more_count(views.take(i as int)),
        decreases list@.len() - i,
    {
        assert(views.take(i + 1).drop_last() =~= views.take(i as int));
        assert(views.take(i + 1).last() == list@[i as int]@);
        let more = match (list[i].left_rows, list[i].right_rows) {
            (Some(left), Some(right)) => left > 0 && left - 1 == right,
            _ => false,
        };
        if more {
            n = n + 1;
        }
        i = i + 1;
    }
    assert(views.take(i as int) =~= views);
    n
}

pub open spec fn text_shown(text: Option<Seq<char>>) -> Seq<char> {
    match text {
        Some(text) => text,
        None => "null"@,
    }
}

fn push_text(out: &mut String, text: &Option<String>)
    ensures
        final(out)@ == old(out)@ + text_shown(crate::checks::shown(*text)),
{
    match text {
        Some(text) => {
            out.append(text.as_str());
        },
        None => {
            out.append("null");
        },
    }
}

/// The row of the report for a mismatch.
pub open spec fn row_of(mismatch: MismatchView) -> Seq<char> {
    "| `"@ + mismatch.id + "` | "@ + mismatch.left_rows_shown + " | "@
        + mismatch.right_rows_shown + " | `"@ + text_shown(mismatch.left_digest) + "` | `"@ + text_shown(mismatch.right_digest)
        + "` | "@ + if mismatch.only_left.len() == 0 && mismatch.only_right.len() == 0 {
        "no"@
    } else {
        decimal(mismatch.only_left.len()) + " / "@ + decimal(mismatch.only_right.len())
    } + " |"@
}

pub fn mismatch_row(mismatch: &Mismatch) -> (out: String)
    ensures
        out@ == row_of(mismatch@),
{
    let mut labels = String::new();
    if mismatch.only_left.len() == 0 && mismatch.only_right.len() == 0 {
        labels.append("no");
    } else {
        push_decimal(&mut labels, mismatch.only_left.len() as u64);
        labels.append(" / ");
        push_decimal(&mut labels, mismatch.only_right.len() as u64);
    }
    assert(labels@ =~= if mismatch@.only_left.len() == 0 && mismatch@.only_right.len() == 0 {
        "no"@
    } else {
        decimal(mismatch@.only_left.len()) + " / "@ + decimal(mismatch@.only_right.len())
    });
    let mut out = "| `".to_owned();
    out.append(mismatch.id.as_str());
    out.append("` | ");
    out.append(mismatch.left_rows_shown.as_str());
    out.append(" | ");
    out.append(mismatch.right_rows_shown.as_str());
    out.append(" | `");
    push_text(&mut out, &mismatch.left_digest);
    out.append("` | `");
    push_text(&mut out, &mismatch.right_digest);
    out.append("` | ");
    out.append(labels.as_str());
    out.append(" |");
    out
}

// --------------------------------------------------------------------- groups
/// The queries that differ in the same labels.
pub struct Group {
    pub only_left: Vec<String>,
    pub only_right: Vec<String>,
    pub ids: Vec<String>,
}

#[verifier::ext_equal]
pub struct GroupView {
    pub only_left: Seq<Seq<char>>,
    pub only_right: Seq<Seq<char>>,
    pub ids: Seq<Seq<char>>,
}

impl View for Group {
    type V = GroupView;

    open spec fn view(&self) -> GroupView {
        GroupView {
            only_left: texts_view(self.only_left@),
            only_right: texts_view(self.only_right@),
            ids: texts_view(self.ids@),
        }
    }
}

pub open spec fn groups_view(groups: Seq<Group>) -> Seq<GroupView> {
    groups.map_values(|group: Group| group@)
}

/// The order of lists of texts: by the first text in which they differ.
pub open spec fn list_less(a: Seq<Seq<char>>, b: Seq<Seq<char>>) -> bool
    decreases a.len(),
{
    if b.len() == 0 {
        false
    } else if a.len() == 0 {
        true
    } else if a[0] != b[0] {
        text_less(a[0], b[0])
    } else {
        list_less(a.drop_first(), b.drop_first())
    }
}

/// The order of groups.
pub open spec fn key_less(
    a_left: Seq<Seq<char>>,
    a_right: Seq<Seq<char>>,
    b_left: Seq<Seq<char>>,
    b_right: Seq<Seq<char>>,
) -> bool {
    if a_left != b_left {
        list_less(a_left, b_left)
    } else {
        list_less(a_right, b_right)
    }
}

/// The groups once a query was put where it belongs.
pub open spec fn with_query(groups: Seq<GroupView>, mismatch: MismatchView) -> Seq<GroupView>
    decreases groups.len(),
{
    if groups.len() == 0 {
        seq![
            GroupView {
                only_left: mismatch.only_left,
                only_right: mismatch.only_right,
                ids: seq![mismatch.id],
            },
        ]
    } else if groups[0].only_left == mismatch.only_left && groups[0].only_right
        == mismatch.only_right {
        seq![GroupView { ids: groups[0].ids.push(mismatch.id), ..groups[0] }] + groups.drop_first()
    } else if key_less(
        mismatch.only_left,
        mismatch.only_right,
        groups[0].only_left,
        groups[0].only_right,
    ) {
        seq![
            GroupView {
                only_left: mismatch.only_left,
                only_right: mismatch.only_right,
                ids: seq![mismatch.id],
            },
        ] + groups
    } else {
        seq![groups[0]] + with_query(groups.drop_first(), mismatch)
    }
}

/// The queries with a difference in their labels, by that difference.
pub open spec fn groups_of(list: Seq<MismatchView>) -> Seq<GroupView>
    decreases list.len(),
{
    if list.len() == 0 {
        seq![]
    } else {
        let before = groups_of(list.drop_last());
        let mismatch = list.last();
        if mismatch.only_left.len() == 0 && mismatch.only_right.len() == 0 {
            before
        } else {
            with_query(before, mismatch)
        }
    }
}

fn same_list(a: &Vec<String>, b: &Vec<String>) -> (same: bool)
    ensures
        same == (texts_view(a@) == texts_view(b@)),
{
    if a.len() != b.len() {
        assert(texts_view(a@).len() != texts_view(b@).len());
        return false;
    }
    let mut i: usize = 0;
    while i < a.len()
        invariant
            i <= a@.len(),
            a@.len() == b@.len(),
            forall|j: int| 0 <= j < i ==> #[trigger] texts_view(a@)[j] == texts_view(b@)[j],
        decreases a@.len() - i,
    {
        if !same_text(a[i].as_str(), b[i].as_str()) {
            assert(texts_view(a@)[i as int] != texts_view(b@)[i as int]);
            return false;
        }
        i = i + 1;
    }
    assert(texts_view(a@) =~= texts_view(b@));
    true
}

fn less_list(a: &Vec<String>, b: &Vec<String>) -> (less: bool)
    ensures
        less == list_less(texts_view(a@), texts_view(b@)),
{
    let ghost left = texts_view(a@);
    let ghost right = texts_view(b@);
    let mut i: usize = 0;
    assert(left.skip(0) =~= left);
    assert(right.skip(0) =~= right);
    while i < a.len() && i < b.len()
        invariant
            i <= a@.len(),
            i <= b@.len(),
            left == texts_view(a@),
            right == texts_view(b@),
            list_less(left, right) == list_less(left.skip(i as int), right.skip(i as int)),
        decreases a@.len() - i,
    {
        assert(left.skip(i as int)[0] == a@[i as int]@);
        assert(right.skip(i as int)[0] == b@[i as int]@);
        assert(left.skip(i as int).drop_first() =~= left.skip(i + 1));
        assert(right.skip(i as int).drop_first() =~= right.skip(i + 1));
        if !same_text(a[i].as_str(), b[i].as_str()) {
            return less_text(a[i].as_str(), b[i].as_str());
        }
        i = i + 1;
    }
    i < b.len()
}

proof fn with_query_from(groups: Seq<GroupView>, mismatch: MismatchView, i: int)
    requires
        0 <= i <= groups.len(),
        forall|j: int|
            0 <= j < i ==> !((#[trigger] groups[j]).only_left == mismatch.only_left
                && groups[j].only_right == mismatch.only_right) && !key_less(
                mismatch.only_left,
                mismatch.only_right,
                groups[j].only_left,
                groups[j].only_right,
            ),
    ensures
        with_query(groups, mismatch) == groups.take(i) + with_query(groups.skip(i), mismatch),
    decreases i,
{
    if i == 0 {
        assert(groups.skip(0) =~= groups);
        assert(groups.take(0) + with_query(groups, mismatch) =~= with_query(groups, mismatch));
    } else {
        let rest = groups.drop_first();
        assert forall|j: int| 0 <= j < i - 1 implies !((#[trigger] rest[j]).only_left
            == mismatch.only_left && rest[j].only_right == mismatch.only_right) && !key_less(
            mismatch.only_left,
            mismatch.only_right,
            rest[j].only_left,
            rest[j].only_right,
        ) by {
            assert(rest[j] == groups[j + 1]);
        }
        with_query_from(rest, mismatch, i - 1);
        assert(groups[0].only_left != mismatch.only_left || groups[0].only_right
            != mismatch.only_right);
        assert(rest.skip(i - 1) =~= groups.skip(i));
        assert(seq![groups[0]] + (rest.take(i - 1) + with_query(groups.skip(i), mismatch))
            =~= groups.take(i) + with_query(groups.skip(i), mismatch));
    }
}

fn add_query(groups: &mut Vec<Group>, mismatch: &Mismatch)
    ensures
        groups_view(final(groups)@) == with_query(groups_view(old(groups)@), mismatch@),
{
    let ghost before = groups_view(groups@);
    let mut i: usize = 0;
    while i < groups.len()
        invariant
            i <= groups@.len(),
            groups_view(groups@) == before,
            before == groups_view(old(groups)@),
            forall|j: int|
                0 <= j < i ==> !((#[trigger] before[j]).only_left == mismatch@.only_left
                    && before[j].only_right == mismatch@.only_right) && !key_less(
                    mismatch@.only_left,
                    mismatch@.only_right,
                    before[j].only_left,
                    before[j].only_right,
                ),
        decreases groups@.len() - i,
    {
        assert(before[i as int] == groups@[i as int]@);
        let same_left = same_list(&groups[i].only_left, &mismatch.only_left);
        if same_left && same_list(&groups[i].only_right, &mismatch.only_right) {
            let ghost group = groups@[i as int];
            let id = mismatch.id.clone();
            let mut ids = copy_texts(&groups[i].ids);
            ids.push(id);
            groups[i].ids = ids;
            proof {
                with_query_from(before, mismatch@, i as int);
                let rest = before.skip(i as int);
                assert(rest[0] == group@);
                assert(texts_view(ids@) =~= group@.ids.push(mismatch@.id));
                assert(groups_view(groups@) =~= before.take(i as int) + (seq![
                    GroupView { ids: group@.ids.push(mismatch@.id), ..group@ },
                ] + rest.drop_first()));
            }
            return;
        }
        let less = if same_left {
            less_list(&mismatch.only_right, &groups[i].only_right)
        } else {
            less_list(&mismatch.only_left, &groups[i].only_left)
        };
        if less {
            let mut ids: Vec<String> = Vec::new();
            ids.push(mismatch.id.clone());
            let group = Group {
                only_left: copy_texts(&mismatch.only_left),
                only_right: copy_texts(&mismatch.only_right),
                ids,
            };
            proof {
                assert(texts_view(ids@) =~= seq![mismatch@.id]);
            }
            let ghost view = group@;
            groups.insert(i, group);
            proof {
                with_query_from(before, mismatch@, i as int);
                let rest = before.skip(i as int);
                assert(rest[0] == before[i as int]);
                assert(groups_view(groups@) =~= before.take(i as int) + (seq![view] + rest));
            }
            return;
        }
        i = i + 1;
    }
    let mut ids: Vec<String> = Vec::new();
    ids.push(mismatch.id.clone());
    let group = Group {
        only_left: copy_texts(&mismatch.only_left),
        only_right: copy_texts(&mismatch.only_right),
        ids,
    };
    proof {
        assert(texts_view(ids@) =~= seq![mismatch@.id]);
    }
    let ghost view = group@;
    groups.push(group);
    proof {
        with_query_from(before, mismatch@, i as int);
        assert(before.skip(i as int) =~= seq![]);
        assert(groups_view(groups@) =~= before.take(i as int) + seq![view]);
    }
}

/// Groups the queries that differ in labels by what they differ in.
pub fn label_groups(list: &[Mismatch]) -> (groups: Vec<Group>)
    ensures
        groups_view(groups@) == groups_of(mismatches_view(list@)),
{
    let ghost views = mismatches_view(list@);
    let mut groups: Vec<Group> = Vec::new();
    let mut i: usize = 0;
    assert(groups_view(groups@) =~= groups_of(views.take(0)));
    while i < list.len()
        invariant
            i <= list@.len(),
            views == mismatches_view(list@),
            groups_view(groups@) == groups_of(views.take(i as int)),
        decreases list@.len() - i,
    {
        assert(views.take(i + 1).drop_last() =~= views.take(i as int));
        assert(views.take(i + 1).last() == list@[i as int]@);
        if list[i].only_left.len() > 0 || list[i].only_right.len() > 0 {
            add_query(&mut groups, &list[i]);
        }
        i = i + 1;
    }
    assert(views.take(i as int) =~= views);
    groups
}

/// `query` or `queries`, but for the stem.
pub open spec fn plural(count: nat) -> Seq<char> {
    if count == 1 {
        "y"@
    } else {
        "ies"@
    }
}

fn plural_text(count: usize) -> (text: &'static str)
    ensures
        text@ == plural(count as nat),
{
    if count == 1 {
        "y"
    } else {
        "ies"
    }
}

/// What the report says of a group.
pub open spec fn group_shown(group: GroupView) -> Seq<char> {
    let few = if group.ids.len() > 3 {
        group.ids.take(3)
    } else {
        group.ids
    };
    "* **"@ + decimal(group.ids.len()) + " quer"@ + plural(group.ids.len()) + "** \u{2014} "@
        + joined(all_ticked(few), ", "@) + if group.ids.len() > 3 {
        " and "@ + decimal((group.ids.len() - 3) as nat) + " more"@
    } else {
        seq![]
    } + ":\n    * only loggytracy: "@ + labels_shown(group.only_left) + "\n    * only Loki: "@
        + labels_shown(group.only_right) + "\n"@
}

pub fn group_line(group: &Group) -> (out: String)
    ensures
        out@ == group_shown(group@),
{
    let count: usize = group.ids.len();
    let few: usize = if count > 3 {
        3
    } else {
        count
    };
    let names = tick_first(&group.ids, few);
    proof {
        if count <= 3 {
            assert(texts_view(group.ids@).take(few as int) =~= texts_view(group.ids@));
        }
    }
    let mut rest = String::new();
    if count > 3 {
        rest.append(" and ");
        push_decimal(&mut rest, (count - 3) as u64);
        rest.append(" more");
    }
    assert(rest@ =~= if count > 3 {
        " and "@ + decimal((count - 3) as nat) + " more"@
    } else {
        seq![]
    });
    let mut out = "* **".to_owned();
    push_decimal(&mut out, count as u64);
    out.append(" quer");
    out.append(plural_text(count));
    out.append("** \u{2014} ");
    out.append(join(&names, ", ").as_str());
    out.append(rest.as_str());
    out.append(":\n    * only loggytracy: ");
    out.append(join_labels(&group.only_left).as_str());
    out.append("\n    * only Loki: ");
    out.append(join_labels(&group.only_right).as_str());
    out.append("\n");
    out
}

// ------------------------------------------------------------ reduced answers
/// What the report says of a query on which two systems differ on the reduced
/// basis.
pub open spec fn differing(one: RecordView, other: RecordView) -> Seq<char> {
    "`"@ + one.id + "` ("@ + one.rows_shown + " against "@ + other.rows_shown + " rows)"@
}

pub open spec fn differing_of(left: Seq<RecordView>, right: Seq<RecordView>) -> Seq<Seq<char>>
    decreases left.len(),
{
    if left.len() == 0 {
        seq![]
    } else {
        let before = differing_of(left.drop_last(), right);
        let one = left.last();
        match record_with(right, one.id) {
            Some(other) => if agree(one, other, Basis::Reduced) {
                before
            } else {
                before.push(differing(one, other))
            },
            None => before,
        }
    }
}

fn list_differing(left: &[AnswerRecord], right: &[AnswerRecord]) -> (out: Vec<String>)
    ensures
        texts_view(out@) == differing_of(records_view(left@), records_view(right@)),
{
    let ghost views = records_view(left@);
    let mut out: Vec<String> = Vec::new();
    let mut i: usize = 0;
    assert(texts_view(out@) =~= differing_of(views.take(0), records_view(right@)));
    while i < left.len()
        invariant
            i <= left@.len(),
            views == records_view(left@),
            texts_view(out@) == differing_of(views.take(i as int), records_view(right@)),
        decreases left@.len() - i,
    {
        let ghost before = out@;
        let one = &left[i];
        assert(views.take(i + 1).drop_last() =~= views.take(i as int));
        assert(views.take(i + 1).last() == one@);
        if let Some(other) = find_record(right, one.id.as_str()) {
            if !answers_agree(one, other, Basis::Reduced) {
                let mut text = "`".to_owned();
                text.append(one.id.as_str());
                text.append("` (");
                text.append(one.rows_shown.as_str());
                text.append(" against ");
                text.append(other.rows_shown.as_str());
                text.append(" rows)");
                let ghost view = text@;
                out.push(text);
                assert(texts_view(out@) =~= texts_view(before).push(view));
            }
        }
        i = i + 1;
    }
    assert(views.take(i as int) =~= views);
    out
}

fn first_texts(list: &Vec<String>, count: usize) -> (out: Vec<String>)
    requires
        count <= list@.len(),
    ensures
        texts_view(out@) == texts_view(list@).take(count as int),
{
    let mut out: Vec<String> = Vec::new();
    let mut i: usize = 0;
    while i < count
        invariant
            i <= count <= list@.len(),
            out@.len() == i,
            forall|j: int| 0 <= j < i ==> (#[trigger] out@[j])@ == list@[j]@,
        decreases count - i,
    {
        out.push(list[i].clone());
        i = i + 1;
    }
    assert(texts_view(out@) =~= texts_view(list@).take(count as int));
    out
}

/// What the report says of a pair on the reduced basis: nothing where the two
/// agree throughout.
pub open spec fn reduced_shown(
    left_name: Seq<char>,
    right_name: Seq<char>,
    list: Seq<Seq<char>>,
) -> Option<Seq<char>> {
    if list.len() == 0 {
        None
    } else {
        let few = if list.len() > 10 {
            list.take(10)
        } else {
            list
        };
        Some(
            "\n**"@ + left_name + " against "@ + right_name + " disagreed on "@ + decimal(list.len())
                + " quer"@ + plural(list.len()) + "** (reduced basis): "@ + joined(few, ", "@)
                + if list.len() > 10 {
                ", and "@ + decimal((list.len() - 10) as nat) + " more"@
            } else {
                seq![]
            } + "\n"@,
        )
    }
}

pub fn reduced_note(
    left_name: &str,
    right_name: &str,
    left: &[AnswerRecord],
    right: &[AnswerRecord],
) -> (out: Option<String>)
    ensures
        crate::checks::shown(out) == reduced_shown(
            left_name@,
            right_name@,
            differing_of(records_view(left@), records_view(right@)),
        ),
{
    let list = list_differing(left, right);
    let count: usize = list.len();
    if count == 0 {
        return None;
    }
    let few: usize = if count > 10 {
        10
    } else {
        count
    };
    let shown = first_texts(&list, few);
    proof {
        if count <= 10 {
            assert(texts_view(list@).take(few as int) =~= texts_view(list@));
        }
    }
    let mut rest = String::new();
    if count > 10 {
        rest.append(", and ");
        push_decimal(&mut rest, (count - 10) as u64);
        rest.append(" more");
    }
    assert(rest@ =~= if count > 10 {
        ", and "@ + decimal((count - 10) as nat) + " more"@
    } else {
        seq![]
    });
    let mut out = "\n**".to_owned();
    out.append(left_name);
    out.append(" against ");
    out.append(right_name);
    out.append(" disagreed on ");
    push_decimal(&mut out, count as u64);
    out.append(" quer");
    out.append(plural_text(count));
    out.append("** (reduced basis): ");
    out.append(join(&shown, ", ").as_str());
    out.append(rest.as_str());
    out.append("\n");
    Some(out)
}

// ---------------------------------------------------------------- the logs' share
/// What a component of a volume is called: what stands behind the last slash.
pub open spec fn base_name(path: Seq<char>) -> Seq<char>
    decreases path.len(),
{
    if path.len() == 0 {
        path
    } else if path.last() == '/' {
        seq![]
    } else {
        base_name(path.drop_last()).push(path.last())
    }
}

/// Whether a component is a write-ahead log, by its name.
pub open spec fn is_log(path: Seq<char>) -> bool {
    begins_with(base_name(path), "wal"@) || begins_with(base_name(path), "journal"@)
}

fn read_base_name(path: &[char]) -> (name: Vec<char>)
    ensures
        name@ == base_name(path@),
{
    let mut start: usize = path.len();
    assert(path@.take(start as int) =~= path@);
    assert(base_name(path@) =~= base_name(path@.take(start as int)) + path@.skip(start as int));
    while start > 0 && path[start - 1] != '/'
        invariant
            start <= path@.len(),
            base_name(path@) == base_name(path@.take(start as int)) + path@.skip(start as int),
        decreases start,
    {
        proof {
            assert(path@.take(start as int).drop_last() =~= path@.take(start - 1));
            assert(base_name(path@.take(start as int)) + path@.skip(start as int) =~= base_name(
                path@.take(start - 1),
            ) + path@.skip(start - 1));
        }
        start = start - 1;
    }
    assert(base_name(path@.take(start as int)) =~= seq![]);
    let name = subslice(path, start, path.len());
    assert(name@ =~= base_name(path@));
    name
}

/// Whether a component of a volume is a write-ahead log.
pub fn is_write_ahead_log(path: &str) -> (found: bool)
    ensures
        found == is_log(path@),
{
    let chars = chars_of(path);
    let name = read_base_name(chars.as_slice());
    let wal = chars_of("wal");
    let journal = chars_of("journal");
    starts_with(name.as_slice(), wal.as_slice()) || starts_with(name.as_slice(), journal.as_slice())
}

} // verus!
