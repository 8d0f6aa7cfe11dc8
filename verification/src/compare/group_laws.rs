//! What the groups of queries are that the report lists.

use vstd::prelude::*;

use crate::compare::notes::{
    groups_of, key_less, list_less, with_query, GroupView, MismatchView,
};
use crate::model::{text_less_irreflexive, text_less_total, text_less_transitive};

verus! {

// ---------------------------------------------------------------------- order
proof fn list_less_irreflexive(a: Seq<Seq<char>>)
    ensures
        !list_less(a, a),
    decreases a.len(),
{
    if a.len() > 0 {
        list_less_irreflexive(a.drop_first());
    }
}

proof fn list_less_transitive(a: Seq<Seq<char>>, b: Seq<Seq<char>>, c: Seq<Seq<char>>)
    requires
        list_less(a, b),
        list_less(b, c),
    ensures
        list_less(a, c),
    decreases a.len(),
{
    if a.len() > 0 {
        if a[0] == b[0] && b[0] == c[0] {
            list_less_transitive(a.drop_first(), b.drop_first(), c.drop_first());
        } else if a[0] != b[0] && b[0] != c[0] {
            text_less_transitive(a[0], b[0], c[0]);
            text_less_irreflexive(a[0]);
        }
    }
}

proof fn list_less_total(a: Seq<Seq<char>>, b: Seq<Seq<char>>)
    ensures
        list_less(a, b) || list_less(b, a) || a == b,
    decreases a.len(),
{
    if a.len() > 0 && b.len() > 0 {
        if a[0] == b[0] {
            list_less_total(a.drop_first(), b.drop_first());
            if a.drop_first() == b.drop_first() {
                assert(a =~= seq![a[0]] + a.drop_first());
                assert(b =~= seq![b[0]] + b.drop_first());
            }
        } else {
            text_less_total(a[0], b[0]);
        }
    } else if a.len() == 0 && b.len() == 0 {
        assert(a =~= b);
    }
}

/// Whether one group comes before another.
pub open spec fn comes_before(a: GroupView, b: GroupView) -> bool {
    key_less(a.only_left, a.only_right, b.only_left, b.only_right)
}

proof fn before_transitive(a: GroupView, b: GroupView, c: GroupView)
    requires
        comes_before(a, b),
        comes_before(b, c),
    ensures
        comes_before(a, c),
{
    if a.only_left == b.only_left && b.only_left == c.only_left {
        list_less_transitive(a.only_right, b.only_right, c.only_right);
    } else if a.only_left != b.only_left && b.only_left != c.only_left {
        list_less_transitive(a.only_left, b.only_left, c.only_left);
        list_less_irreflexive(a.only_left);
    }
}

/// Whether a group is that of a query.
pub open spec fn is_group_of(group: GroupView, mismatch: MismatchView) -> bool {
    group.only_left == mismatch.only_left && group.only_right == mismatch.only_right
}

proof fn before_total(group: GroupView, mismatch: MismatchView)
    requires
        !is_group_of(group, mismatch),
        !key_less(
            mismatch.only_left,
            mismatch.only_right,
            group.only_left,
            group.only_right,
        ),
    ensures
        key_less(group.only_left, group.only_right, mismatch.only_left, mismatch.only_right),
{
    list_less_total(group.only_left, mismatch.only_left);
    list_less_total(group.only_right, mismatch.only_right);
}

/// Whether every group comes before those behind it.
pub open spec fn in_order(groups: Seq<GroupView>) -> bool {
    forall|i: int, j: int|
        0 <= i < j < groups.len() ==> comes_before(#[trigger] groups[i], #[trigger] groups[j])
}

// --------------------------------------------------------------------- groups
proof fn with_query_keys(groups: Seq<GroupView>, mismatch: MismatchView, i: int)
    requires
        0 <= i < with_query(groups, mismatch).len(),
    ensures
        ({
            let group = with_query(groups, mismatch)[i];
            is_group_of(group, mismatch) || exists|j: int|
                0 <= j < groups.len() && #[trigger] groups[j] == group
        }),
    decreases groups.len(),
{
    let after = with_query(groups, mismatch);
    if groups.len() > 0 && !is_group_of(after[i], mismatch) {
        if is_group_of(groups[0], mismatch) {
            assert(groups[i] == after[i]);
        } else if key_less(
            mismatch.only_left,
            mismatch.only_right,
            groups[0].only_left,
            groups[0].only_right,
        ) {
            assert(groups[i - 1] == after[i]);
        } else if i == 0 {
            assert(groups[0] == after[0]);
        } else {
            let rest = groups.drop_first();
            with_query_keys(rest, mismatch, i - 1);
            let j = choose|j: int| 0 <= j < rest.len() && #[trigger] rest[j] == after[i];
            assert(groups[j + 1] == after[i]);
        }
    }
}

proof fn with_query_in_order(groups: Seq<GroupView>, mismatch: MismatchView)
    requires
        in_order(groups),
    ensures
        in_order(with_query(groups, mismatch)),
    decreases groups.len(),
{
    let after = with_query(groups, mismatch);
    if groups.len() > 0 {
        let rest = groups.drop_first();
        assert(in_order(rest)) by {
            assert forall|i: int, j: int| 0 <= i < j < rest.len() implies comes_before(
                #[trigger] rest[i],
                #[trigger] rest[j],
            ) by {
                assert(comes_before(groups[i + 1], groups[j + 1]));
            }
        }
        if is_group_of(groups[0], mismatch) {
            assert forall|i: int, j: int| 0 <= i < j < after.len() implies comes_before(
                #[trigger] after[i],
                #[trigger] after[j],
            ) by {
                assert(comes_before(groups[i], groups[j]));
            }
        } else if key_less(
            mismatch.only_left,
            mismatch.only_right,
            groups[0].only_left,
            groups[0].only_right,
        ) {
            assert forall|i: int, j: int| 0 <= i < j < after.len() implies comes_before(
                #[trigger] after[i],
                #[trigger] after[j],
            ) by {
                if i > 0 {
                    assert(comes_before(groups[i - 1], groups[j - 1]));
                } else if j > 1 {
                    assert(comes_before(groups[0], groups[j - 1]));
                    before_transitive(after[0], groups[0], after[j]);
                }
            }
        } else {
            with_query_in_order(rest, mismatch);
            before_total(groups[0], mismatch);
            let behind = with_query(rest, mismatch);
            assert forall|i: int, j: int| 0 <= i < j < after.len() implies comes_before(
                #[trigger] after[i],
                #[trigger] after[j],
            ) by {
                assert(after[j] == behind[j - 1]);
                if i > 0 {
                    assert(after[i] == behind[i - 1]);
                    assert(comes_before(behind[i - 1], behind[j - 1]));
                } else {
                    with_query_keys(rest, mismatch, j - 1);
                    if !is_group_of(behind[j - 1], mismatch) {
                        let k = choose|k: int|
                            0 <= k < rest.len() && #[trigger] rest[k] == behind[j - 1];
                        assert(comes_before(groups[0], groups[k + 1]));
                    }
                }
            }
        }
    }
}

/// The queries of the group with a difference, if there is such a group.
pub open spec fn ids_in(
    groups: Seq<GroupView>,
    only_left: Seq<Seq<char>>,
    only_right: Seq<Seq<char>>,
) -> Seq<Seq<char>>
    decreases groups.len(),
{
    if groups.len() == 0 {
        seq![]
    } else if groups[0].only_left == only_left && groups[0].only_right == only_right {
        groups[0].ids
    } else {
        ids_in(groups.drop_first(), only_left, only_right)
    }
}

proof fn with_query_adds(
    groups: Seq<GroupView>,
    mismatch: MismatchView,
    only_left: Seq<Seq<char>>,
    only_right: Seq<Seq<char>>,
)
    requires
        in_order(groups),
    ensures
        ids_in(with_query(groups, mismatch), only_left, only_right) == if mismatch.only_left
            == only_left && mismatch.only_right == only_right {
            ids_in(groups, only_left, only_right).push(mismatch.id)
        } else {
            ids_in(groups, only_left, only_right)
        },
    decreases groups.len(),
{
    let after = with_query(groups, mismatch);
    if groups.len() == 0 {
        assert(after.drop_first() =~= seq![]);
        assert(ids_in(after.drop_first(), only_left, only_right) =~= seq![]);
        assert(seq![mismatch.id] =~= Seq::<Seq<char>>::empty().push(mismatch.id));
    } else {
        let rest = groups.drop_first();
        assert(in_order(rest)) by {
            assert forall|i: int, j: int| 0 <= i < j < rest.len() implies comes_before(
                #[trigger] rest[i],
                #[trigger] rest[j],
            ) by {
                assert(comes_before(groups[i + 1], groups[j + 1]));
            }
        }
        if is_group_of(groups[0], mismatch) {
            assert(after.drop_first() =~= rest);
        } else if key_less(
            mismatch.only_left,
            mismatch.only_right,
            groups[0].only_left,
            groups[0].only_right,
        ) {
            assert(after.drop_first() =~= groups);
            absent_before(groups, mismatch);
            assert(seq![mismatch.id] =~= Seq::<Seq<char>>::empty().push(mismatch.id));
        } else {
            assert(after.drop_first() =~= with_query(rest, mismatch));
            with_query_adds(rest, mismatch, only_left, only_right);
        }
    }
}

/// A difference that comes before the first group has no group.
proof fn absent_before(groups: Seq<GroupView>, mismatch: MismatchView)
    requires
        in_order(groups),
        groups.len() > 0,
        key_less(
            mismatch.only_left,
            mismatch.only_right,
            groups[0].only_left,
            groups[0].only_right,
        ),
    ensures
        ids_in(groups, mismatch.only_left, mismatch.only_right) == Seq::<Seq<char>>::empty(),
    decreases groups.len(),
{
    list_less_irreflexive(mismatch.only_left);
    list_less_irreflexive(mismatch.only_right);
    let rest = groups.drop_first();
    if rest.len() > 0 {
        let new = GroupView {
            only_left: mismatch.only_left,
            only_right: mismatch.only_right,
            ids: seq![],
        };
        assert(comes_before(groups[0], groups[1]));
        before_transitive(new, groups[0], groups[1]);
        assert forall|i: int, j: int| 0 <= i < j < rest.len() implies comes_before(
            #[trigger] rest[i],
            #[trigger] rest[j],
        ) by {
            assert(comes_before(groups[i + 1], groups[j + 1]));
        }
        assert(rest[0] == groups[1]);
        absent_before(rest, mismatch);
    } else {
        assert(ids_in(rest, mismatch.only_left, mismatch.only_right) =~= seq![]);
    }
}

// ------------------------------------------------------------------------ law
/// The queries of a list whose answers differ in these labels, in its order.
pub open spec fn ids_with(
    list: Seq<MismatchView>,
    only_left: Seq<Seq<char>>,
    only_right: Seq<Seq<char>>,
) -> Seq<Seq<char>>
    decreases list.len(),
{
    if list.len() == 0 {
        seq![]
    } else {
        let earlier = ids_with(list.drop_last(), only_left, only_right);
        if list.last().only_left == only_left && list.last().only_right == only_right {
            earlier.push(list.last().id)
        } else {
            earlier
        }
    }
}

/// Whether the answers to a query differ in their labels.
pub open spec fn differs(mismatch: MismatchView) -> bool {
    mismatch.only_left.len() > 0 || mismatch.only_right.len() > 0
}

proof fn groups_hold(
    list: Seq<MismatchView>,
    only_left: Seq<Seq<char>>,
    only_right: Seq<Seq<char>>,
)
    requires
        only_left.len() > 0 || only_right.len() > 0,
    ensures
        in_order(groups_of(list)),
        ids_in(groups_of(list), only_left, only_right) == ids_with(list, only_left, only_right),
    decreases list.len(),
{
    if list.len() > 0 {
        groups_hold(list.drop_last(), only_left, only_right);
        let before = groups_of(list.drop_last());
        if differs(list.last()) {
            with_query_in_order(before, list.last());
            with_query_adds(before, list.last(), only_left, only_right);
        }
    }
}

/// In groups that are in order, each difference has one group.
proof fn own_ids(groups: Seq<GroupView>, i: int)
    requires
        in_order(groups),
        0 <= i < groups.len(),
    ensures
        ids_in(groups, groups[i].only_left, groups[i].only_right) == groups[i].ids,
    decreases groups.len(),
{
    if i > 0 {
        assert(comes_before(groups[0], groups[i]));
        list_less_irreflexive(groups[0].only_left);
        list_less_irreflexive(groups[0].only_right);
        let rest = groups.drop_first();
        assert forall|a: int, b: int| 0 <= a < b < rest.len() implies comes_before(
            #[trigger] rest[a],
            #[trigger] rest[b],
        ) by {
            assert(comes_before(groups[a + 1], groups[b + 1]));
        }
        own_ids(rest, i - 1);
        assert(rest[i - 1] == groups[i]);
    }
}

proof fn some_group(
    groups: Seq<GroupView>,
    only_left: Seq<Seq<char>>,
    only_right: Seq<Seq<char>>,
)
    requires
        ids_in(groups, only_left, only_right).len() > 0,
    ensures
        exists|i: int|
            0 <= i < groups.len() && (#[trigger] groups[i]).only_left == only_left
                && groups[i].only_right == only_right,
    decreases groups.len(),
{
    if groups.len() > 0 && !(groups[0].only_left == only_left && groups[0].only_right
        == only_right) {
        let rest = groups.drop_first();
        some_group(rest, only_left, only_right);
        let i = choose|i: int|
            0 <= i < rest.len() && (#[trigger] rest[i]).only_left == only_left
                && rest[i].only_right == only_right;
        assert(groups[i + 1] == rest[i]);
    } else if groups.len() > 0 {
        assert(groups[0].only_left == only_left);
    }
}

proof fn ids_with_member(list: Seq<MismatchView>, k: int)
    requires
        0 <= k < list.len(),
    ensures
        ids_with(list, list[k].only_left, list[k].only_right).len() > 0,
    decreases list.len(),
{
    if k < list.len() - 1 {
        ids_with_member(list.drop_last(), k);
        assert(list.drop_last()[k] == list[k]);
    }
}

proof fn groups_differ(list: Seq<MismatchView>)
    ensures
        forall|i: int|
            0 <= i < groups_of(list).len() ==> {
                ||| (#[trigger] groups_of(list)[i]).only_left.len() > 0
                ||| groups_of(list)[i].only_right.len() > 0
            },
    decreases list.len(),
{
    if list.len() > 0 {
        let before = groups_of(list.drop_last());
        groups_differ(list.drop_last());
        if differs(list.last()) {
            assert forall|i: int| 0 <= i < groups_of(list).len() implies {
                ||| (#[trigger] groups_of(list)[i]).only_left.len() > 0
                ||| groups_of(list)[i].only_right.len() > 0
            } by {
                with_query_keys(before, list.last(), i);
            }
        }
    }
}

/// The groups come in the order of their differences, no two with the same one.
/// Each holds the queries with its difference, all of them and in their order,
/// and every query with a difference is in one.
pub proof fn the_groups_are_the_differences(list: Seq<MismatchView>)
    ensures
        in_order(groups_of(list)),
        forall|i: int|
            0 <= i < groups_of(list).len() ==> (#[trigger] groups_of(list)[i]).ids == ids_with(
                list,
                groups_of(list)[i].only_left,
                groups_of(list)[i].only_right,
            ),
        forall|k: int|
            0 <= k < list.len() && differs(#[trigger] list[k]) ==> exists|i: int|
                0 <= i < groups_of(list).len() && is_group_of(
                    #[trigger] groups_of(list)[i],
                    list[k],
                ),
{
    let groups = groups_of(list);
    groups_hold(list, seq![seq![]], seq![]);
    groups_differ(list);
    assert forall|i: int| 0 <= i < groups.len() implies (#[trigger] groups[i]).ids == ids_with(
        list,
        groups[i].only_left,
        groups[i].only_right,
    ) by {
        groups_hold(list, groups[i].only_left, groups[i].only_right);
        own_ids(groups, i);
    }
    assert forall|k: int| 0 <= k < list.len() && differs(#[trigger] list[k]) implies exists|i: int|
        0 <= i < groups.len() && is_group_of(#[trigger] groups[i], list[k]) by {
        groups_hold(list, list[k].only_left, list[k].only_right);
        ids_with_member(list, k);
        some_group(groups, list[k].only_left, list[k].only_right);
        let i = choose|i: int|
            0 <= i < groups.len() && (#[trigger] groups[i]).only_left == list[k].only_left
                && groups[i].only_right == list[k].only_right;
        assert(is_group_of(groups[i], list[k]));
    }
}

} // verus!
