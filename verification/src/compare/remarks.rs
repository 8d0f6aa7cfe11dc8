//! What the report remarks on the run: what was left out of the digest, in what
//! order answers came, what the logs take of a volume, and what went wrong.

use vstd::prelude::*;
use vstd::string::*;

use crate::compare::agreement::SHAPES;
use crate::compare::notes::{is_log, is_write_ahead_log, join, joined, plural};
use crate::compare::records::{number_field, records_view, AnswerRecord, RecordView};
use crate::json::{Json, JsonView};
use crate::load::answers::{drop_repeats, without_repeats};
use crate::order::{ordered_texts, sort_texts, texts_view};
use crate::text::{
    chars_of, decimal, find_char, index_of_char, index_of_char_bounds, push_decimal, same_text,
    subslice, text_of,
};

verus! {

// --------------------------------------------------------------- dropped labels
/// The labels that were left out of the digests of answers, each as often as it
/// was.
pub open spec fn dropped_of(records: Seq<RecordView>) -> Seq<Seq<char>>
    decreases records.len(),
{
    if records.len() == 0 {
        seq![]
    } else {
        dropped_of(records.drop_last()) + records.last().dropped_label_keys
    }
}

/// How often a text is in a list.
pub open spec fn times_in(list: Seq<Seq<char>>, text: Seq<char>) -> nat
    decreases list.len(),
{
    if list.len() == 0 {
        0
    } else if list.last() == text {
        times_in(list.drop_last(), text) + 1
    } else {
        times_in(list.drop_last(), text)
    }
}

/// How the report gives a label that was left out, and how often it was.
pub open spec fn dropped_shown(list: Seq<Seq<char>>, name: Seq<char>) -> Seq<char> {
    "`"@ + name + "` on "@ + decimal(times_in(list, name)) + " answers"@
}

/// The labels that were left out, each once, in order, with their counts.
pub open spec fn dropped_items(list: Seq<Seq<char>>) -> Seq<Seq<char>> {
    without_repeats(ordered_texts(list)).map_values(|name: Seq<char>| dropped_shown(list, name))
}

/// What the report says of what was left out of a system's digests: nothing where
/// nothing was.
pub open spec fn dropped_line(target: Seq<char>, records: Seq<RecordView>) -> Seq<char> {
    let list = dropped_of(records);
    if list.len() == 0 {
        seq![]
    } else {
        "* **"@ + target + "** returned "@ + joined(dropped_items(list), ", "@)
            + ", dropped from the digest by declaration.\n"@
    }
}

fn list_dropped(records: &[AnswerRecord]) -> (out: Vec<String>)
    ensures
        texts_view(out@) == dropped_of(records_view(records@)),
{
    let ghost views = records_view(records@);
    let mut out: Vec<String> = Vec::new();
    let mut i: usize = 0;
    assert(texts_view(out@) =~= dropped_of(views.take(0)));
    while i < records.len()
        invariant
            i <= records@.len(),
            views == records_view(records@),
            texts_view(out@) == dropped_of(views.take(i as int)),
        decreases records@.len() - i,
    {
        assert(views.take(i + 1).drop_last() =~= views.take(i as int));
        assert(views.take(i + 1).last() == records@[i as int]@);
        append_texts(&mut out, &records[i].dropped_label_keys);
        i = i + 1;
    }
    assert(views.take(i as int) =~= views);
    out
}

fn append_texts(out: &mut Vec<String>, list: &Vec<String>)
    ensures
        texts_view(final(out)@) == texts_view(old(out)@) + texts_view(list@),
{
    let ghost start = texts_view(out@);
    let ghost views = texts_view(list@);
    let mut i: usize = 0;
    assert(start + views.take(0) =~= start);
    while i < list.len()
        invariant
            i <= list@.len(),
            views == texts_view(list@),
            texts_view(out@) == start + views.take(i as int),
        decreases list@.len() - i,
    {
        let ghost before = out@;
        let text = list[i].clone();
        let ghost view = text@;
        out.push(text);
        i = i + 1;
        assert(texts_view(out@) =~= texts_view(before).push(view));
        assert(views.take(i as int) =~= views.take(i - 1).push(view));
        assert(texts_view(out@) =~= start + views.take(i as int));
    }
    assert(views.take(i as int) =~= views);
}

fn count_times(list: &Vec<String>, text: &str) -> (n: usize)
    ensures
        n == times_in(texts_view(list@), text@),
{
    let ghost views = texts_view(list@);
    let mut n: usize = 0;
    let mut i: usize = 0;
    assert(views.take(0) =~= seq![]);
    while i < list.len()
        invariant
            i <= list@.len(),
            n <= i,
            views == texts_view(list@),
            n == times_in(views.take(i as int), text@),
        decreases list@.len() - i,
    {
        assert(views.take(i + 1).drop_last() =~= views.take(i as int));
        assert(views.take(i + 1).last() == list@[i as int]@);
        if same_text(list[i].as_str(), text) {
            n = n + 1;
        }
        i = i + 1;
    }
    assert(views.take(i as int) =~= views);
    n
}

fn write_dropped(list: &Vec<String>) -> (out: Vec<String>)
    ensures
        texts_view(out@) == dropped_items(texts_view(list@)),
{
    let ghost views = texts_view(list@);
    let mut sorted = crate::load::answers::copy_texts(list);
    sort_texts(&mut sorted);
    let names = drop_repeats(&sorted);
    let ghost order = without_repeats(ordered_texts(views));
    let mut out: Vec<String> = Vec::new();
    let mut i: usize = 0;
    while i < names.len()
        invariant
            i <= names@.len(),
            views == texts_view(list@),
            texts_view(names@) == order,
            out@.len() == i,
            forall|j: int| 0 <= j < i ==> (#[trigger] out@[j])@ == dropped_shown(views, order[j]),
        decreases names@.len() - i,
    {
        assert(order[i as int] == names@[i as int]@);
        let mut text = "`".to_owned();
        text.append(names[i].as_str());
        text.append("` on ");
        push_decimal(&mut text, count_times(list, names[i].as_str()) as u64);
        text.append(" answers");
        out.push(text);
        i = i + 1;
    }
    assert(texts_view(out@) =~= dropped_items(views));
    out
}

/// The answers of a system, and what the report calls it.
pub struct SystemAnswers {
    pub name: String,
    pub answers: Vec<AnswerRecord>,
}

pub type SystemView = (Seq<char>, Seq<RecordView>);

impl View for SystemAnswers {
    type V = SystemView;

    open spec fn view(&self) -> SystemView {
        (self.name@, records_view(self.answers@))
    }
}

pub open spec fn systems_view(all: Seq<SystemAnswers>) -> Seq<SystemView> {
    all.map_values(|system: SystemAnswers| system@)
}

pub open spec fn dropped_lines(all: Seq<SystemView>) -> Seq<char>
    decreases all.len(),
{
    if all.len() == 0 {
        seq![]
    } else {
        dropped_lines(all.drop_last()) + dropped_line(all.last().0, all.last().1)
    }
}

/// What was left out of the digests, as it applied to a run.
pub fn dropped_labels_note(all: &[SystemAnswers]) -> (out: String)
    ensures
        ({
            let note = dropped_lines(systems_view(all@));
            out@ == if note.len() == 0 {
                "\nNeither side returned a label the digest drops.\n"@
            } else {
                "\nThe declared exemption, as it applied to this run:\n\n"@ + note
            }
        }),
{
    let ghost views = systems_view(all@);
    let mut note = String::new();
    let mut empty: bool = true;
    let mut i: usize = 0;
    assert(note@ =~= dropped_lines(views.take(0)));
    while i < all.len()
        invariant
            i <= all@.len(),
            views == systems_view(all@),
            note@ == dropped_lines(views.take(i as int)),
            empty == (note@.len() == 0),
        decreases all@.len() - i,
    {
        assert(views.take(i + 1).drop_last() =~= views.take(i as int));
        assert(views.take(i + 1).last() == all@[i as int]@);
        let list = list_dropped(all[i].answers.as_slice());
        assert(texts_view(list@).len() == list@.len());
        if list.len() > 0 {
            let items = write_dropped(&list);
            let mut line = "* **".to_owned();
            line.append(all[i].name.as_str());
            line.append("** returned ");
            line.append(join(&items, ", ").as_str());
            line.append(", dropped from the digest by declaration.\n");
            proof {
                reveal_strlit("* **");
            }
            assert(line@ =~= dropped_line(all@[i as int]@.0, all@[i as int]@.1));
            note.append(line.as_str());
            empty = false;
        } else {
            assert(note@ + Seq::<char>::empty() =~= note@);
        }
        i = i + 1;
    }
    assert(views.take(i as int) =~= views);
    if empty {
        return "\nNeither side returned a label the digest drops.\n".to_owned();
    }
    let mut out = "\nThe declared exemption, as it applied to this run:\n\n".to_owned();
    out.append(note.as_str());
    out
}

// ---------------------------------------------------------------------- order
/// The queries that were not answered in the order that was asked for.
pub open spec fn offenders_of(records: Seq<RecordView>) -> Seq<Seq<char>>
    decreases records.len(),
{
    if records.len() == 0 {
        seq![]
    } else if records.last().ordered == Some(false) {
        offenders_of(records.drop_last()).push(records.last().id)
    } else {
        offenders_of(records.drop_last())
    }
}

pub open spec fn order_line(target: Seq<char>, offenders: Seq<Seq<char>>) -> Seq<char> {
    if offenders.len() == 0 {
        seq![]
    } else {
        "* **"@ + target + "** answered "@ + decimal(offenders.len()) + " quer"@ + plural(
            offenders.len(),
        )
            + " outside the order it was asked for (`direction=backward` for logs, ascending time for a metric range), starting with `"@
            + offenders[0] + "`.\n"@
    }
}

pub open spec fn order_lines(all: Seq<SystemView>) -> Seq<char>
    decreases all.len(),
{
    if all.len() == 0 {
        seq![]
    } else {
        order_lines(all.drop_last()) + order_line(all.last().0, offenders_of(all.last().1))
    }
}

fn list_offenders(records: &[AnswerRecord]) -> (out: Vec<String>)
    ensures
        texts_view(out@) == offenders_of(records_view(records@)),
{
    let ghost views = records_view(records@);
    let mut out: Vec<String> = Vec::new();
    let mut i: usize = 0;
    assert(texts_view(out@) =~= offenders_of(views.take(0)));
    while i < records.len()
        invariant
            i <= records@.len(),
            views == records_view(records@),
            texts_view(out@) == offenders_of(views.take(i as int)),
        decreases records@.len() - i,
    {
        let ghost before = out@;
        assert(views.take(i + 1).drop_last() =~= views.take(i as int));
        assert(views.take(i + 1).last() == records@[i as int]@);
        match records[i].ordered {
            Some(false) => {
                let id = records[i].id.clone();
                let ghost view = id@;
                out.push(id);
                assert(texts_view(out@) =~= texts_view(before).push(view));
            },
            _ => {},
        }
        i = i + 1;
    }
    assert(views.take(i as int) =~= views);
    out
}

/// Whether the answers came in the order that was asked for. A digest does not see
/// the order, so that is a fact of its own.
pub fn ordering_note(all: &[SystemAnswers]) -> (out: String)
    ensures
        ({
            let note = order_lines(systems_view(all@));
            out@ == if note.len() == 0 {
                "\nEvery answer on both sides came back in the order the query asked for; the digest itself is order-independent, so this is checked separately.\n"@
            } else {
                "\nResponse order, checked separately because the digest is order-independent:\n\n"@
                    + note
            }
        }),
{
    let ghost views = systems_view(all@);
    let mut note = String::new();
    let mut empty: bool = true;
    let mut i: usize = 0;
    assert(note@ =~= order_lines(views.take(0)));
    while i < all.len()
        invariant
            i <= all@.len(),
            views == systems_view(all@),
            note@ == order_lines(views.take(i as int)),
            empty == (note@.len() == 0),
        decreases all@.len() - i,
    {
        assert(views.take(i + 1).drop_last() =~= views.take(i as int));
        assert(views.take(i + 1).last() == all@[i as int]@);
        let offenders = list_offenders(all[i].answers.as_slice());
        let count: usize = offenders.len();
        assert(texts_view(offenders@).len() == count);
        if count > 0 {
            assert(texts_view(offenders@)[0] == offenders@[0]@);
            let mut line = "* **".to_owned();
            line.append(all[i].name.as_str());
            line.append("** answered ");
            push_decimal(&mut line, count as u64);
            line.append(" quer");
            line.append(
                if count == 1 {
                    "y"
                } else {
                    "ies"
                },
            );
            line.append(
                " outside the order it was asked for (`direction=backward` for logs, ascending time for a metric range), starting with `",
            );
            line.append(offenders[0].as_str());
            line.append("`.\n");
            proof {
                reveal_strlit("* **");
            }
            assert(line@ =~= order_line(all@[i as int]@.0, offenders_of(all@[i as int]@.1)));
            note.append(line.as_str());
            empty = false;
        } else {
            assert(note@ + Seq::<char>::empty() =~= note@);
        }
        i = i + 1;
    }
    assert(views.take(i as int) =~= views);
    if empty {
        return "\nEvery answer on both sides came back in the order the query asked for; the digest itself is order-independent, so this is checked separately.\n".to_owned();
    }
    let mut out = "\nResponse order, checked separately because the digest is order-independent:\n\n".to_owned();
    out.append(note.as_str());
    out
}

// -------------------------------------------------------------------- volumes
/// The pieces of a text between commas.
pub open spec fn pieces(text: Seq<char>) -> Seq<Seq<char>>
    decreases text.len(),
    via pieces_decreases
{
    let at = index_of_char(text, ',');
    if at >= text.len() {
        seq![text]
    } else {
        seq![text.take(at)] + pieces(text.skip(at + 1))
    }
}

#[via_fn]
proof fn pieces_decreases(text: Seq<char>) {
    index_of_char_bounds(text, ',');
}

/// Where the last colon of a text stands, or before its start if there is none.
pub open spec fn last_colon(text: Seq<char>) -> int
    decreases text.len(),
{
    if text.len() == 0 {
        -1
    } else if text.last() == ':' {
        text.len() - 1
    } else {
        last_colon(text.drop_last())
    }
}

/// The size that a piece of a breakdown gives for a write-ahead log.
pub open spec fn log_size(piece: Seq<char>) -> Option<Seq<char>> {
    let at = last_colon(piece);
    if at >= 0 && is_log(piece.take(at)) {
        Some(piece.skip(at + 1))
    } else {
        None
    }
}

/// The sizes of the write-ahead logs in a breakdown.
pub open spec fn log_sizes(list: Seq<Seq<char>>) -> Seq<Seq<char>>
    decreases list.len(),
{
    if list.len() == 0 {
        seq![]
    } else {
        let rest = log_sizes(list.drop_first());
        match log_size(list[0]) {
            Some(size) => seq![size] + rest,
            None => rest,
        }
    }
}

fn read_log_size(piece: &[char]) -> (out: Option<String>)
    ensures
        crate::checks::shown(out) == log_size(piece@),
{
    let mut end: usize = piece.len();
    assert(piece@.take(end as int) =~= piece@);
    while end > 0 && piece[end - 1] != ':'
        invariant
            end <= piece@.len(),
            last_colon(piece@) == last_colon(piece@.take(end as int)),
        decreases end,
    {
        assert(piece@.take(end as int).drop_last() =~= piece@.take(end - 1));
        end = end - 1;
    }
    if end == 0 {
        return None;
    }
    assert(last_colon(piece@) == end - 1);
    let path = subslice(piece, 0, end - 1);
    assert(path@ =~= piece@.take(end - 1));
    if !is_write_ahead_log(text_of(path.as_slice()).as_str()) {
        return None;
    }
    let size = subslice(piece, end, piece.len());
    assert(size@ =~= piece@.skip(end as int));
    Some(text_of(size.as_slice()))
}

/// The sizes of the write-ahead logs in the breakdown of a volume, which lists
/// `path:size` with commas between.
pub fn wal_sizes(breakdown: &str) -> (out: Vec<String>)
    ensures
        texts_view(out@) == log_sizes(pieces(breakdown@)),
{
    let text = chars_of(breakdown);
    let mut out: Vec<String> = Vec::new();
    let mut from: usize = 0;
    assert(text@.skip(0) =~= text@);
    assert(texts_view(out@) + log_sizes(pieces(text@)) =~= log_sizes(pieces(text@)));
    loop
        invariant_except_break
            from <= text@.len(),
            text@ == breakdown@,
            texts_view(out@) + log_sizes(pieces(text@.skip(from as int))) == log_sizes(
                pieces(text@),
            ),
        ensures
            texts_view(out@) == log_sizes(pieces(text@)),
        decreases text@.len() - from,
    {
        let ghost rest = text@.skip(from as int);
        let at: usize = find_char(text.as_slice(), from, ',');
        proof {
            index_of_char_bounds(rest, ',');
        }
        let piece = subslice(text.as_slice(), from, at);
        let ghost before = out@;
        let ghost list = pieces(rest);
        proof {
            assert(piece@ =~= list[0]);
            if at < text@.len() {
                assert(list.drop_first() =~= pieces(rest.skip(index_of_char(rest, ',') + 1)));
                assert(rest.skip(index_of_char(rest, ',') + 1) =~= text@.skip(at + 1));
            } else {
                assert(list.drop_first() =~= seq![]);
            }
        }
        if let Some(size) = read_log_size(piece.as_slice()) {
            let ghost view = size@;
            out.push(size);
            assert(texts_view(out@) =~= texts_view(before).push(view));
            assert(texts_view(out@) + log_sizes(list.drop_first()) =~= texts_view(before) + (seq![
                view,
            ] + log_sizes(list.drop_first())));
        }
        if at == text.len() {
            assert(texts_view(out@) + log_sizes(list.drop_first()) =~= texts_view(out@));
            break;
        }
        from = at + 1;
    }
    out
}

// ---------------------------------------------------------------- what went wrong
/// A count of a report's shape.
pub open spec fn shape_count(report: JsonView, shape: Seq<char>, name: Seq<char>) -> nat {
    match report.field("matrix"@) {
        Some(matrix) => match matrix.field("shapes"@) {
            Some(shapes) => match shapes.field(shape) {
                Some(entry) => match number_field(entry, name) {
                    Some(n) => n as nat,
                    None => 0,
                },
                None => 0,
            },
            None => 0,
        },
        None => 0,
    }
}

/// The sum of a count over the first shapes.
pub open spec fn shape_sum(report: JsonView, name: Seq<char>, n: nat) -> nat
    decreases n,
{
    if n == 0 {
        0
    } else {
        shape_sum(report, name, (n - 1) as nat) + shape_count(report, SHAPES@[n - 1]@, name)
    }
}

fn read_shape_count(report: &Json, shape: &str, name: &str) -> (n: u64)
    ensures
        n == shape_count(report@, shape@, name@),
{
    if let Some(matrix) = report.get("matrix") {
        if let Some(shapes) = matrix.get("shapes") {
            if let Some(entry) = shapes.get(shape) {
                if let Some(value) = entry.get(name) {
                    if let Some(n) = value.as_u64() {
                        return n;
                    }
                }
            }
        }
    }
    0
}

/// Sums a count of a report over the shapes.
pub fn sum_over_shapes(report: &Json, name: &str) -> (total: u64)
    requires
        shape_sum(report@, name@, 7) <= u64::MAX,
    ensures
        total == shape_sum(report@, name@, 7),
{
    let shapes = SHAPES;
    let mut total: u64 = 0;
    let mut s: usize = 0;
    while s < 7
        invariant
            s <= 7,
            shapes@ == SHAPES@,
            shape_sum(report@, name@, 7) <= u64::MAX,
            total == shape_sum(report@, name@, s as nat),
        decreases 7 - s,
    {
        let n: u64 = read_shape_count(report, shapes[s], name);
        proof {
            shape_sum_grows(report@, name@, (s + 1) as nat);
        }
        total = total + n;
        s = s + 1;
    }
    total
}

proof fn shape_sum_grows(report: JsonView, name: Seq<char>, n: nat)
    requires
        n <= 7,
    ensures
        shape_sum(report, name, n) <= shape_sum(report, name, 7),
    decreases 7 - n,
{
    if n < 7 {
        shape_sum_grows(report, name, n + 1);
    }
}

} // verus!
