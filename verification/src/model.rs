//! What the engine stores: label sets, log entries and rows.

use vstd::prelude::*;
use vstd::string::*;

use crate::tenant::TenantId;
use crate::text::{chars_of, same_text};

verus! {

// ---------------------------------------------------------------- text order
/// The order of strings: the first character that differs decides, and a text
/// comes before every longer one that it begins.
pub open spec fn text_less(a: Seq<char>, b: Seq<char>) -> bool
    decreases a.len(),
{
    if b.len() == 0 {
        false
    } else if a.len() == 0 {
        true
    } else if a[0] != b[0] {
        a[0] < b[0]
    } else {
        text_less(a.drop_first(), b.drop_first())
    }
}

pub proof fn text_less_irreflexive(a: Seq<char>)
    ensures
        !text_less(a, a),
    decreases a.len(),
{
    if a.len() > 0 {
        text_less_irreflexive(a.drop_first());
    }
}

pub proof fn text_less_transitive(a: Seq<char>, b: Seq<char>, c: Seq<char>)
    requires
        text_less(a, b),
        text_less(b, c),
    ensures
        text_less(a, c),
    decreases a.len(),
{
    if a.len() > 0 && a[0] == b[0] && b[0] == c[0] {
        text_less_transitive(a.drop_first(), b.drop_first(), c.drop_first());
    }
}

pub proof fn text_less_total(a: Seq<char>, b: Seq<char>)
    ensures
        text_less(a, b) || text_less(b, a) || a == b,
    decreases a.len(),
{
    if a.len() > 0 && b.len() > 0 && a[0] == b[0] {
        text_less_total(a.drop_first(), b.drop_first());
        if a.drop_first() == b.drop_first() {
            assert(a =~= seq![a[0]] + a.drop_first());
            assert(b =~= seq![b[0]] + b.drop_first());
        }
    } else if a.len() == 0 && b.len() == 0 {
        assert(a =~= b);
    }
}

/// Whether one slice of characters comes before another.
pub fn chars_less(a: &[char], b: &[char]) -> (less: bool)
    ensures
        less == text_less(a@, b@),
{
    let mut i: usize = 0;
    assert(a@.skip(0) =~= a@);
    assert(b@.skip(0) =~= b@);
    while i < a.len() && i < b.len()
        invariant
            i <= a@.len(),
            i <= b@.len(),
            text_less(a@, b@) == text_less(a@.skip(i as int), b@.skip(i as int)),
        decreases a.len() - i,
    {
        assert(a@.skip(i as int).drop_first() =~= a@.skip(i + 1));
        assert(b@.skip(i as int).drop_first() =~= b@.skip(i + 1));
        if a[i] != b[i] {
            return a[i] < b[i];
        }
        i = i + 1;
    }
    i < b.len()
}

pub fn less_text(a: &str, b: &str) -> (less: bool)
    ensures
        less == text_less(a@, b@),
{
    let left = chars_of(a);
    let right = chars_of(b);
    chars_less(left.as_slice(), right.as_slice())
}

// --------------------------------------------------------------------- labels
pub open spec fn pairs_view(pairs: Seq<(String, String)>) -> Seq<(Seq<char>, Seq<char>)> {
    pairs.map_values(|pair: (String, String)| (pair.0@, pair.1@))
}

/// A copy of a list of names and values.
pub fn copy_pairs(pairs: &[(String, String)]) -> (out: Vec<(String, String)>)
    ensures
        out@ == pairs@,
{
    let mut out: Vec<(String, String)> = Vec::new();
    let mut i: usize = 0;
    while i < pairs.len()
        invariant
            i <= pairs@.len(),
            out@ == pairs@.take(i as int),
        decreases pairs.len() - i,
    {
        out.push((pairs[i].0.clone(), pairs[i].1.clone()));
        i = i + 1;
        assert(pairs@.take(i as int) =~= pairs@.take(i - 1).push(pairs@[i - 1]));
    }
    assert(pairs@.take(pairs@.len() as int) =~= pairs@);
    out
}

/// The labels of a stream: names with their values, each name once, in the
/// order of the names.
pub struct Labels {
    pairs: Vec<(String, String)>,
}

impl View for Labels {
    type V = Seq<(Seq<char>, Seq<char>)>;

    closed spec fn view(&self) -> Seq<(Seq<char>, Seq<char>)> {
        pairs_view(self.pairs@)
    }
}

/// Whether names stand in order, each once.
pub open spec fn in_order(pairs: Seq<(Seq<char>, Seq<char>)>) -> bool {
    forall|i: int, j: int|
        0 <= i < j < pairs.len() ==> text_less(#[trigger] pairs[i].0, #[trigger] pairs[j].0)
}

/// The value of a name, if it is there.
pub open spec fn value_of(pairs: Seq<(Seq<char>, Seq<char>)>, name: Seq<char>) -> Option<Seq<char>>
    decreases pairs.len(),
{
    if pairs.len() == 0 {
        None
    } else if pairs[0].0 == name {
        Some(pairs[0].1)
    } else {
        value_of(pairs.drop_first(), name)
    }
}

/// A name has a value exactly if a pair with the name is there, and the value is that of
/// the first such pair.
pub proof fn the_value_is_that_of_the_first_pair(
    pairs: Seq<(Seq<char>, Seq<char>)>,
    name: Seq<char>,
)
    ensures
        value_of(pairs, name) is None <==> forall|i: int|
            0 <= i < pairs.len() ==> (#[trigger] pairs[i]).0 != name,
        value_of(pairs, name) is Some ==> exists|i: int|
            {
                &&& 0 <= i < pairs.len()
                &&& #[trigger] pairs[i] == (name, value_of(pairs, name)->Some_0)
                &&& forall|j: int| 0 <= j < i ==> (#[trigger] pairs[j]).0 != name
            },
    decreases pairs.len(),
{
    if pairs.len() > 0 {
        let rest = pairs.drop_first();
        the_value_is_that_of_the_first_pair(rest, name);
        assert forall|i: int| 0 <= i < rest.len() implies #[trigger] rest[i] == pairs[i + 1] by {}
        if pairs[0].0 == name {
            assert(pairs[0] == (name, value_of(pairs, name)->Some_0));
        } else if value_of(rest, name) is Some {
            let i = choose|i: int|
                {
                    &&& 0 <= i < rest.len()
                    &&& #[trigger] rest[i] == (name, value_of(rest, name)->Some_0)
                    &&& forall|j: int| 0 <= j < i ==> (#[trigger] rest[j]).0 != name
                };
            assert(pairs[i + 1] == (name, value_of(pairs, name)->Some_0));
            assert forall|j: int| 0 <= j < i + 1 implies (#[trigger] pairs[j]).0 != name by {
                if j > 0 {
                    assert(rest[j - 1] == pairs[j]);
                }
            }
        } else {
            assert forall|i: int| 0 <= i < pairs.len() implies (#[trigger] pairs[i]).0 != name by {
                if i > 0 {
                    assert(rest[i - 1] == pairs[i]);
                }
            }
        }
    }
}

/// Labels with a name set to a value: in its place if it is there, else at its
/// place in the order.
pub open spec fn with_label(
    pairs: Seq<(Seq<char>, Seq<char>)>,
    name: Seq<char>,
    value: Seq<char>,
) -> Seq<(Seq<char>, Seq<char>)>
    decreases pairs.len(),
{
    if pairs.len() == 0 || text_less(name, pairs[0].0) {
        seq![(name, value)] + pairs
    } else if pairs[0].0 == name {
        seq![(name, value)] + pairs.drop_first()
    } else {
        seq![pairs[0]] + with_label(pairs.drop_first(), name, value)
    }
}

proof fn with_label_names(
    pairs: Seq<(Seq<char>, Seq<char>)>,
    name: Seq<char>,
    value: Seq<char>,
    i: int,
)
    requires
        0 <= i < with_label(pairs, name, value).len(),
    ensures
        with_label(pairs, name, value)[i].0 == name || exists|j: int|
            0 <= j < pairs.len() && #[trigger] pairs[j] == with_label(pairs, name, value)[i],
    decreases pairs.len(),
{
    let out = with_label(pairs, name, value);
    if pairs.len() == 0 || text_less(name, pairs[0].0) {
        if i > 0 {
            assert(pairs[i - 1] == out[i]);
        }
    } else if pairs[0].0 == name {
        if i > 0 {
            assert(pairs[i] == out[i]);
        }
    } else {
        if i == 0 {
            assert(pairs[0] == out[0]);
        } else {
            let rest = pairs.drop_first();
            with_label_names(rest, name, value, i - 1);
            assert(out[i] == with_label(rest, name, value)[i - 1]);
            if out[i].0 != name {
                let j = choose|j: int| 0 <= j < rest.len() && #[trigger] rest[j] == out[i];
                assert(pairs[j + 1] == out[i]);
            }
        }
    }
}

/// Setting a label keeps the order, and leaves every other name as it was.
pub proof fn with_label_keeps_order(
    pairs: Seq<(Seq<char>, Seq<char>)>,
    name: Seq<char>,
    value: Seq<char>,
)
    requires
        in_order(pairs),
    ensures
        in_order(with_label(pairs, name, value)),
        value_of(with_label(pairs, name, value), name) == Some(value),
        forall|other: Seq<char>|
            other != name ==> #[trigger] value_of(with_label(pairs, name, value), other) == value_of(
                pairs,
                other,
            ),
    decreases pairs.len(),
{
    let out = with_label(pairs, name, value);
    if pairs.len() == 0 || text_less(name, pairs[0].0) {
        assert(out.drop_first() =~= pairs);
        assert forall|i: int, j: int| 0 <= i < j < out.len() implies text_less(
            #[trigger] out[i].0,
            #[trigger] out[j].0,
        ) by {
            if i == 0 {
                if j > 1 {
                    text_less_transitive(name, pairs[0].0, pairs[j - 1].0);
                }
            } else {
                assert(text_less(pairs[i - 1].0, pairs[j - 1].0));
            }
        }
    } else if pairs[0].0 == name {
        assert(out.drop_first() =~= pairs.drop_first());
        assert forall|i: int, j: int| 0 <= i < j < out.len() implies text_less(
            #[trigger] out[i].0,
            #[trigger] out[j].0,
        ) by {
            assert(text_less(pairs[i].0, pairs[j].0));
        }
    } else {
        let rest = pairs.drop_first();
        assert(in_order(rest)) by {
            assert forall|i: int, j: int| 0 <= i < j < rest.len() implies text_less(
                #[trigger] rest[i].0,
                #[trigger] rest[j].0,
            ) by {
                assert(text_less(pairs[i + 1].0, pairs[j + 1].0));
            }
        }
        with_label_keeps_order(rest, name, value);
        let tail = with_label(rest, name, value);
        assert(out.drop_first() =~= tail);
        text_less_total(pairs[0].0, name);
        assert forall|i: int, j: int| 0 <= i < j < out.len() implies text_less(
            #[trigger] out[i].0,
            #[trigger] out[j].0,
        ) by {
            if i == 0 {
                with_label_names(rest, name, value, j - 1);
                assert(out[j] == tail[j - 1]);
                if out[j].0 != name {
                    let n = choose|n: int| 0 <= n < rest.len() && #[trigger] rest[n] == tail[j - 1];
                    assert(text_less(pairs[0].0, pairs[n + 1].0));
                }
            } else {
                assert(text_less(tail[i - 1].0, tail[j - 1].0));
            }
        }
        assert forall|other: Seq<char>| other != name implies #[trigger] value_of(out, other)
            == value_of(pairs, other) by {
            assert(out[0] == pairs[0]);
            assert(value_of(tail, other) == value_of(rest, other));
        }
    }
}

proof fn with_label_split(
    pairs: Seq<(Seq<char>, Seq<char>)>,
    name: Seq<char>,
    value: Seq<char>,
    i: int,
)
    requires
        0 <= i <= pairs.len(),
        forall|j: int| 0 <= j < i ==> text_less(#[trigger] pairs[j].0, name),
    ensures
        with_label(pairs, name, value) == pairs.take(i) + with_label(pairs.skip(i), name, value),
    decreases i,
{
    if i == 0 {
        assert(pairs.skip(0) =~= pairs);
        assert(pairs.take(0) + with_label(pairs, name, value) =~= with_label(pairs, name, value));
    } else {
        let rest = pairs.drop_first();
        assert forall|j: int| 0 <= j < i - 1 implies text_less(#[trigger] rest[j].0, name) by {
            assert(text_less(pairs[j + 1].0, name));
        }
        with_label_split(rest, name, value, i - 1);
        assert(text_less(pairs[0].0, name));
        text_less_irreflexive(name);
        if text_less(name, pairs[0].0) {
            text_less_transitive(name, pairs[0].0, name);
        }
        assert(rest.skip(i - 1) =~= pairs.skip(i));
        assert(seq![pairs[0]] + (rest.take(i - 1) + with_label(pairs.skip(i), name, value))
            =~= pairs.take(i) + with_label(pairs.skip(i), name, value));
    }
}

impl Labels {
    pub open spec fn wf(&self) -> bool {
        in_order(self@)
    }

    pub fn new() -> (labels: Self)
        ensures
            labels.wf(),
            labels@ == Seq::<(Seq<char>, Seq<char>)>::empty(),
    {
        let labels = Labels { pairs: Vec::new() };
        assert(labels@ =~= Seq::<(Seq<char>, Seq<char>)>::empty());
        labels
    }

    /// Sets a label.
    pub fn insert(&mut self, name: String, value: String)
        requires
            old(self).wf(),
        ensures
            final(self).wf(),
            final(self)@ == with_label(old(self)@, name@, value@),
    {
        let ghost before = self@;
        proof {
            with_label_keeps_order(before, name@, value@);
        }
        let mut i: usize = 0;
        while i < self.pairs.len() && less_text(self.pairs[i].0.as_str(), name.as_str())
            invariant
                i <= self.pairs@.len(),
                self@ == before,
                before == old(self)@,
                forall|j: int| 0 <= j < i ==> text_less(#[trigger] before[j].0, name@),
            decreases self.pairs.len() - i,
        {
            i = i + 1;
        }
        proof {
            with_label_split(before, name@, value@, i as int);
            text_less_irreflexive(name@);
        }
        if i < self.pairs.len() {
            let same = same_text(self.pairs[i].0.as_str(), name.as_str());
            proof {
                text_less_total(before[i as int].0, name@);
                assert(before.skip(i as int)[0] == before[i as int]);
            }
            if same {
                proof {
                    assert(with_label(before.skip(i as int), name@, value@) =~= seq![
                        (name@, value@),
                    ] + before.skip(i as int).drop_first());
                }
                self.pairs.set(i, (name, value));
                assert(self@ =~= before.take(i as int) + (seq![(name@, value@)] + before.skip(
                    i as int,
                ).drop_first()));
                return;
            }
        }
        proof {
            assert(with_label(before.skip(i as int), name@, value@) =~= seq![(name@, value@)]
                + before.skip(i as int));
        }
        self.pairs.insert(i, (name, value));
        assert(self@ =~= before.take(i as int) + (seq![(name@, value@)] + before.skip(i as int)));
    }

    /// The value of a label.
    pub fn get(&self, name: &str) -> (out: Option<&String>)
        ensures
            match out {
                Some(value) => value_of(self@, name@) == Some(value@),
                None => value_of(self@, name@) is None,
            },
    {
        let mut i: usize = 0;
        assert(self@.skip(0) =~= self@);
        while i < self.pairs.len()
            invariant
                i <= self.pairs@.len(),
                self@.len() == self.pairs@.len(),
                value_of(self@, name@) == value_of(self@.skip(i as int), name@),
            decreases self.pairs.len() - i,
        {
            assert(self@.skip(i as int).drop_first() =~= self@.skip(i + 1));
            assert(self@.skip(i as int)[0] == (self.pairs@[i as int].0@, self.pairs@[i as int].1@));
            if same_text(self.pairs[i].0.as_str(), name) {
                return Some(&self.pairs[i].1);
            }
            i = i + 1;
        }
        None
    }

    pub fn len(&self) -> (n: usize)
        ensures
            n == self@.len(),
    {
        self.pairs.len()
    }

    /// The name and the value at a place in the order.
    pub fn pair(&self, i: usize) -> (pair: &(String, String))
        requires
            i < self@.len(),
        ensures
            (pair.0@, pair.1@) == self@[i as int],
    {
        &self.pairs[i]
    }

    /// Whether two label sets are the same.
    pub fn same(&self, other: &Labels) -> (same: bool)
        ensures
            same == (self@ == other@),
    {
        if self.pairs.len() != other.pairs.len() {
            assert(self@.len() != other@.len());
            return false;
        }
        let mut i: usize = 0;
        while i < self.pairs.len()
            invariant
                i <= self.pairs@.len(),
                self.pairs@.len() == other.pairs@.len(),
                forall|j: int| 0 <= j < i ==> #[trigger] self@[j] == other@[j],
            decreases self.pairs.len() - i,
        {
            if !same_text(self.pairs[i].0.as_str(), other.pairs[i].0.as_str()) || !same_text(
                self.pairs[i].1.as_str(),
                other.pairs[i].1.as_str(),
            ) {
                assert(self@[i as int] != other@[i as int]);
                return false;
            }
            i = i + 1;
        }
        assert(self@ =~= other@);
        true
    }
}

impl Clone for Labels {
    fn clone(&self) -> (copy: Self)
        ensures
            copy@ == self@,
    {
        Labels { pairs: copy_pairs(self.pairs.as_slice()) }
    }
}

// -------------------------------------------------------------------- entries
/// What an entry holds.
pub struct EntryView {
    pub timestamp_ns: int,
    pub line: Seq<char>,
    pub metadata: Seq<(Seq<char>, Seq<char>)>,
}

/// One log line of a stream.
pub struct LogEntry {
    pub timestamp_ns: i64,
    pub line: String,
    pub structured_metadata: Vec<(String, String)>,
}

impl View for LogEntry {
    type V = EntryView;

    open spec fn view(&self) -> EntryView {
        EntryView {
            timestamp_ns: self.timestamp_ns as int,
            line: self.line@,
            metadata: pairs_view(self.structured_metadata@),
        }
    }
}

impl Clone for LogEntry {
    fn clone(&self) -> (copy: Self)
        ensures
            copy@ == self@,
    {
        LogEntry {
            timestamp_ns: self.timestamp_ns,
            line: self.line.clone(),
            structured_metadata: copy_pairs(self.structured_metadata.as_slice()),
        }
    }
}

pub open spec fn entries_view(entries: Seq<LogEntry>) -> Seq<EntryView> {
    entries.map_values(|entry: LogEntry| entry@)
}

/// A copy of a list of entries.
pub fn copy_entries(entries: &[LogEntry]) -> (out: Vec<LogEntry>)
    ensures
        entries_view(out@) == entries_view(entries@),
{
    let mut out: Vec<LogEntry> = Vec::new();
    let mut i: usize = 0;
    while i < entries.len()
        invariant
            i <= entries@.len(),
            out@.len() == i,
            forall|j: int| 0 <= j < i ==> (#[trigger] out@[j])@ == entries@[j]@,
        decreases entries.len() - i,
    {
        out.push(entries[i].clone());
        i = i + 1;
    }
    assert(entries_view(out@) =~= entries_view(entries@));
    out
}

/// One stored row: an entry with whose it is and its labels.
pub struct Row {
    pub tenant: TenantId,
    pub labels: Labels,
    pub entry: LogEntry,
}

/// What a row holds.
pub struct RowView {
    pub tenant: Seq<char>,
    pub labels: Seq<(Seq<char>, Seq<char>)>,
    pub entry: EntryView,
}

impl View for Row {
    type V = RowView;

    open spec fn view(&self) -> RowView {
        RowView { tenant: self.tenant@, labels: self.labels@, entry: self.entry@ }
    }
}

impl Row {
    pub fn from_entry(tenant: &TenantId, labels: &Labels, entry: &LogEntry) -> (row: Row)
        ensures
            row@ == (RowView { tenant: tenant@, labels: labels@, entry: entry@ }),
    {
        Row { tenant: tenant.clone(), labels: labels.clone(), entry: entry.clone() }
    }
}

// ------------------------------------------------------------------ snapshots
/// Where a key first stands in a list, or the length of the list.
pub open spec fn first_index<K>(keys: Seq<K>, key: K) -> int
    decreases keys.len(),
{
    if keys.len() == 0 || keys[0] == key {
        0
    } else {
        1 + first_index(keys.drop_first(), key)
    }
}

pub proof fn first_index_is<K>(keys: Seq<K>, key: K, at: int)
    requires
        0 <= at <= keys.len(),
        at < keys.len() ==> keys[at] == key,
        forall|i: int| 0 <= i < at ==> keys[i] != key,
    ensures
        first_index(keys, key) == at,
    decreases keys.len(),
{
    if at > 0 {
        let rest = keys.drop_first();
        assert(keys[0] != key);
        assert forall|i: int| 0 <= i < at - 1 implies rest[i] != key by {
            assert(rest[i] == keys[i + 1]);
        }
        first_index_is(rest, key, at - 1);
    }
}

/// The entries of one label set.
pub struct StreamEntries {
    pub labels: Labels,
    pub entries: Vec<LogEntry>,
}

/// The streams of one tenant, each label set once.
pub struct TenantStreams {
    pub tenant: TenantId,
    pub streams: Vec<StreamEntries>,
}

/// What was buffered at one moment: each tenant once.
pub struct MemTableSnapshot {
    pub tenants: Vec<TenantStreams>,
}

pub open spec fn streams_view(streams: Seq<StreamEntries>) -> Seq<
    (Seq<(Seq<char>, Seq<char>)>, Seq<EntryView>),
> {
    streams.map_values(|stream: StreamEntries| (stream.labels@, entries_view(stream.entries@)))
}

pub open spec fn tenants_view(tenants: Seq<TenantStreams>) -> Seq<
    (Seq<char>, Seq<(Seq<(Seq<char>, Seq<char>)>, Seq<EntryView>)>),
> {
    tenants.map_values(|tenant: TenantStreams| (tenant.tenant@, streams_view(tenant.streams@)))
}

impl View for MemTableSnapshot {
    type V = Seq<(Seq<char>, Seq<(Seq<(Seq<char>, Seq<char>)>, Seq<EntryView>)>)>;

    open spec fn view(&self) -> Self::V {
        tenants_view(self.tenants@)
    }
}

/// The keys of a list of keys with what they hold.
pub open spec fn keys_of<K, T>(list: Seq<(K, T)>) -> Seq<K> {
    list.map_values(|pair: (K, T)| pair.0)
}

/// Streams with entries added behind those of a label set, which comes last if
/// it is new.
pub open spec fn with_entries(
    streams: Seq<(Seq<(Seq<char>, Seq<char>)>, Seq<EntryView>)>,
    labels: Seq<(Seq<char>, Seq<char>)>,
    entries: Seq<EntryView>,
) -> Seq<(Seq<(Seq<char>, Seq<char>)>, Seq<EntryView>)> {
    let at = first_index(keys_of(streams), labels);
    if at < streams.len() {
        streams.update(at, (labels, streams[at].1 + entries))
    } else {
        streams.push((labels, entries))
    }
}

/// A snapshot with a stream added: behind what its tenant has under the same
/// labels, as a stream of its own if there is none, under a tenant of its own if
/// there is none.
pub open spec fn with_stream(
    tenants: Seq<(Seq<char>, Seq<(Seq<(Seq<char>, Seq<char>)>, Seq<EntryView>)>)>,
    tenant: Seq<char>,
    labels: Seq<(Seq<char>, Seq<char>)>,
    entries: Seq<EntryView>,
) -> Seq<(Seq<char>, Seq<(Seq<(Seq<char>, Seq<char>)>, Seq<EntryView>)>)> {
    let at = first_index(keys_of(tenants), tenant);
    if at < tenants.len() {
        tenants.update(at, (tenant, with_entries(tenants[at].1, labels, entries)))
    } else {
        tenants.push((tenant, with_entries(seq![], labels, entries)))
    }
}

impl TenantStreams {
    /// Adds entries to a stream.
    pub fn extend(&mut self, labels: &Labels, entries: &[LogEntry])
        ensures
            final(self).tenant == old(self).tenant,
            streams_view(final(self).streams@) == with_entries(
                streams_view(old(self).streams@),
                labels@,
                entries_view(entries@),
            ),
    {
        let ghost before = streams_view(self.streams@);
        let mut at: usize = 0;
        while at < self.streams.len() && !self.streams[at].labels.same(labels)
            invariant
                at <= self.streams@.len(),
                *self == *old(self),
                before == streams_view(self.streams@),
                forall|i: int| 0 <= i < at ==> #[trigger] keys_of(before)[i] != labels@,
            decreases self.streams.len() - at,
        {
            at = at + 1;
        }
        proof {
            first_index_is(keys_of(before), labels@, at as int);
        }
        let mut added = copy_entries(entries);
        if at < self.streams.len() {
            let ghost held = entries_view(self.streams@[at as int].entries@);
            let ghost more = entries_view(added@);
            self.streams[at].entries.append(&mut added);
            proof {
                assert(entries_view(self.streams@[at as int].entries@) =~= held + more);
                assert(streams_view(self.streams@) =~= with_entries(
                    before,
                    labels@,
                    entries_view(entries@),
                ));
            }
        } else {
            let stream = StreamEntries { labels: labels.clone(), entries: added };
            self.streams.push(stream);
            assert(streams_view(self.streams@) =~= with_entries(
                before,
                labels@,
                entries_view(entries@),
            ));
        }
    }
}

impl MemTableSnapshot {
    pub fn new() -> (snapshot: Self)
        ensures
            snapshot@ == Seq::<
                (Seq<char>, Seq<(Seq<(Seq<char>, Seq<char>)>, Seq<EntryView>)>),
            >::empty(),
    {
        let snapshot = MemTableSnapshot { tenants: Vec::new() };
        assert(snapshot@.len() == 0);
        snapshot
    }

    /// Adds entries of a tenant's stream.
    pub fn extend(&mut self, tenant: &TenantId, labels: &Labels, entries: &[LogEntry])
        ensures
            final(self)@ == with_stream(old(self)@, tenant@, labels@, entries_view(entries@)),
    {
        let ghost before = self@;
        let mut at: usize = 0;
        while at < self.tenants.len() && !self.tenants[at].tenant.same(tenant)
            invariant
                at <= self.tenants@.len(),
                *self == *old(self),
                before == self@,
                forall|i: int| 0 <= i < at ==> #[trigger] keys_of(before)[i] != tenant@,
            decreases self.tenants.len() - at,
        {
            at = at + 1;
        }
        proof {
            first_index_is(keys_of(before), tenant@, at as int);
        }
        if at < self.tenants.len() {
            self.tenants[at].extend(labels, entries);
        } else {
            let mut fresh = TenantStreams { tenant: tenant.clone(), streams: Vec::new() };
            assert(streams_view(fresh.streams@) =~= Seq::<
                (Seq<(Seq<char>, Seq<char>)>, Seq<EntryView>),
            >::empty());
            fresh.extend(labels, entries);
            self.tenants.push(fresh);
        }
        assert(self@ =~= with_stream(before, tenant@, labels@, entries_view(entries@)));
    }
}

/// A label that was set has the value it was set to, and every other label has the value it
/// had, or none as before.
pub proof fn setting_a_label_changes_that_label_only(
    pairs: Seq<(Seq<char>, Seq<char>)>,
    name: Seq<char>,
    value: Seq<char>,
    other: Seq<char>,
)
    ensures
        value_of(with_label(pairs, name, value), name) == Some(value),
        other != name ==> value_of(with_label(pairs, name, value), other) == value_of(pairs, other),
    decreases pairs.len(),
{
    let after = with_label(pairs, name, value);
    if pairs.len() == 0 || text_less(name, pairs[0].0) {
        assert(after.drop_first() =~= pairs);
        assert(after[0] == (name, value));
    } else if pairs[0].0 == name {
        assert(after.drop_first() =~= pairs.drop_first());
        assert(after[0] == (name, value));
    } else {
        let rest = pairs.drop_first();
        setting_a_label_changes_that_label_only(rest, name, value, other);
        assert(after.drop_first() =~= with_label(rest, name, value));
        assert(after[0] == pairs[0]);
    }
}

/// Texts are ordered by the first character in which they differ, and one comes before
/// every longer one that begins with it.
pub proof fn the_first_difference_decides_the_order(
    common: Seq<char>,
    a: char,
    b: char,
    rest_a: Seq<char>,
    rest_b: Seq<char>,
)
    requires
        a < b,
    ensures
        text_less(common + seq![a] + rest_a, common + seq![b] + rest_b),
        !text_less(common + seq![b] + rest_b, common + seq![a] + rest_a),
        text_less(common, common + seq![a] + rest_a),
        !text_less(common + seq![a] + rest_a, common),
    decreases common.len(),
{
    let less = common + seq![a] + rest_a;
    let more = common + seq![b] + rest_b;
    if common.len() > 0 {
        let tail = common.drop_first();
        the_first_difference_decides_the_order(tail, a, b, rest_a, rest_b);
        assert(less.drop_first() =~= tail + seq![a] + rest_a);
        assert(more.drop_first() =~= tail + seq![b] + rest_b);
        assert(less[0] == common[0] && more[0] == common[0]);
    }
}

} // verus!
