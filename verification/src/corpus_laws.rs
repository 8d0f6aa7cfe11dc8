//! What holds of every generated corpus.

use vstd::prelude::*;
use vstd::string::*;

use crate::corpus::{
    after_vocab, at_least_one, hex_digits, label_count, labels_up_to, metadata_of, pool,
    remaining_at, row_of, sorted_names, spec_traces, spec_users, state_before, stream_labels,
    stream_rows, texts, total_entries, value_index, value_text, Corpus, CorpusSpec, APPS, CLUSTERS,
    COMPONENTS, CONTAINERS, ENVS, LABEL_CARDINALITY, LABEL_NAMES, LEVELS, NAMESPACES, REGIONS,
    SORTED_POSITIONS,
};
use crate::model::{
    in_order, text_less, text_less_irreflexive, text_less_transitive, value_of,
    with_label_keeps_order,
};
use crate::rng::seeded;
use crate::text::{decimal, decimal_injective, decimal_reads_back, is_digit, split_before_digits};

verus! {

// --------------------------------------------------------------- label values
/// The number that lower-case hexadecimal digits write.
spec fn hex_value(text: Seq<char>) -> nat
    decreases text.len(),
{
    if text.len() == 0 {
        0
    } else {
        let c = text.last();
        hex_value(text.drop_last()) * 16 + (if c <= '9' {
            (c as u32 - 48) as nat
        } else {
            (c as u32 - 87) as nat
        })
    }
}

proof fn hex_digits_read_back(n: nat)
    ensures
        hex_value(hex_digits(n)) == n,
        n >= 16 ==> hex_digits(n).len() == hex_digits(n / 16).len() + 1,
        hex_digits(n).len() > 0,
    decreases n,
{
    if n < 16 {
        assert(hex_digits(n).drop_last() =~= Seq::<char>::empty());
        assert(hex_value(hex_digits(n).drop_last()) == 0);
    } else {
        hex_digits_read_back(n / 16);
        assert(hex_digits(n).drop_last() =~= hex_digits(n / 16));
    }
}

proof fn four_digits_read_back(n: nat)
    requires
        n < 0x10000,
    ensures
        hex_value(crate::text::hex(n, 4)) == n,
        crate::text::hex(n, 4).len() == 4,
{
    reveal_with_fuel(crate::text::hex, 5);
    let d = crate::text::hex(n, 4);
    let c = crate::text::hex(n / 16, 3);
    let b = crate::text::hex(n / 16 / 16, 2);
    let a = crate::text::hex(n / 16 / 16 / 16, 1);
    assert(d.drop_last() =~= c);
    assert(c.drop_last() =~= b);
    assert(b.drop_last() =~= a);
    assert(a.drop_last() =~= Seq::<char>::empty());
    assert(hex_value(a.drop_last()) == 0);
    assert(hex_value(a) == n / 16 / 16 / 16);
    assert(hex_value(b) == n / 16 / 16);
    assert(hex_value(c) == n / 16);
}

proof fn long_hex(n: nat)
    requires
        n >= 0x10000,
    ensures
        hex_digits(n).len() > 4,
{
    hex_digits_read_back(n);
    hex_digits_read_back(n / 16);
    hex_digits_read_back(n / 16 / 16);
    hex_digits_read_back(n / 16 / 16 / 16);
    hex_digits_read_back(n / 16 / 16 / 16 / 16);
    assert(n / 16 / 16 / 16 >= 16);
}

proof fn pod_names_differ(a: nat, b: nat)
    requires
        value_text(9, a) == value_text(9, b),
    ensures
        a == b,
{
    let left = if a < 0x10000 {
        crate::text::hex(a, 4)
    } else {
        hex_digits(a)
    };
    let right = if b < 0x10000 {
        crate::text::hex(b, 4)
    } else {
        hex_digits(b)
    };
    let head = "pod-"@;
    assert(left =~= (head + left).skip(head.len() as int));
    assert(right =~= (head + right).skip(head.len() as int));
    assert(left == right);
    if a < 0x10000 {
        four_digits_read_back(a);
    } else {
        long_hex(a);
        hex_digits_read_back(a);
    }
    if b < 0x10000 {
        four_digits_read_back(b);
    } else {
        long_hex(b);
        hex_digits_read_back(b);
    }
}

proof fn addresses_differ(a: nat, b: nat)
    requires
        value_text(8, a) == value_text(8, b),
    ensures
        a == b,
{
    reveal_strlit(".");
    assert("."@ =~= seq!['.']);
    decimal_reads_back(a % 256);
    decimal_reads_back(b % 256);
    decimal_reads_back(a / 256);
    decimal_reads_back(b / 256);
    let head = "10.4."@;
    split_before_digits(
        head + decimal(a / 256),
        decimal(a % 256),
        head + decimal(b / 256),
        decimal(b % 256),
        '.',
    );
    assert(decimal(a / 256) =~= (head + decimal(a / 256)).skip(head.len() as int));
    assert(decimal(b / 256) =~= (head + decimal(b / 256)).skip(head.len() as int));
    decimal_injective(a / 256, b / 256);
    decimal_injective(a % 256, b % 256);
}

/// Words of a pool are distinct, and none is another one with a number behind
/// it.
spec fn pool_is_plain(words: Seq<&'static str>) -> bool {
    &&& words.len() > 0
    &&& forall|i: int, j: int|
        0 <= i < words.len() && 0 <= j < words.len() && #[trigger] words[i]@
            == #[trigger] words[j]@ ==> i == j
    &&& forall|i: int| 0 <= i < words.len() ==> (#[trigger] words[i])@.len() > 0
    &&& forall|i: int|
        0 <= i < words.len() ==> !is_digit((#[trigger] words[i])@.last()) || exists|stem: Seq<char>|
            {
                &&& #[trigger] (stem + seq!['-'] + seq!['1']) == words[i]@
                &&& forall|j: int| 0 <= j < words.len() ==> (#[trigger] words[j])@ != stem
            }
}

proof fn pool_words_differ(words: Seq<&'static str>, a: nat, b: nat)
    requires
        pool_is_plain(words),
        ({
            let left = if a < words.len() {
                words[a as int]@
            } else {
                words[a as int % words.len() as int]@ + "-"@ + decimal(a / words.len())
            };
            let right = if b < words.len() {
                words[b as int]@
            } else {
                words[b as int % words.len() as int]@ + "-"@ + decimal(b / words.len())
            };
            left == right
        }),
    ensures
        a == b,
{
    reveal_strlit("-");
    assert("-"@ =~= seq!['-']);
    let n = words.len();
    if a < n && b < n {
        assert(words[a as int]@ == words[b as int]@);
    } else if a < n {
        suffixed_is_no_word(words, a as int, b as int % n as int, b / n);
    } else if b < n {
        suffixed_is_no_word(words, b as int, a as int % n as int, a / n);
    } else {
        decimal_reads_back(a / n);
        decimal_reads_back(b / n);
        split_before_digits(
            words[a as int % n as int]@,
            decimal(a / n),
            words[b as int % n as int]@,
            decimal(b / n),
            '-',
        );
        decimal_injective(a / n, b / n);
        assert(a as int % n as int == b as int % n as int);
        vstd::arithmetic::div_mod::lemma_fundamental_div_mod(a as int, n as int);
        vstd::arithmetic::div_mod::lemma_fundamental_div_mod(b as int, n as int);
    }
}

proof fn suffixed_is_no_word(words: Seq<&'static str>, i: int, j: int, number: nat)
    requires
        pool_is_plain(words),
        0 <= i < words.len(),
        0 <= j < words.len(),
    ensures
        words[i]@ != words[j]@ + "-"@ + decimal(number),
{
    reveal_strlit("-");
    assert("-"@ =~= seq!['-']);
    decimal_reads_back(number);
    let digits = decimal(number);
    let other = words[j]@ + seq!['-'] + digits;
    if words[i]@ == other {
        assert(other.last() == digits[digits.len() - 1]);
        assert(is_digit(digits[digits.len() - 1]));
        let stem = choose|stem: Seq<char>|
            {
                &&& #[trigger] (stem + seq!['-'] + seq!['1']) == words[i]@
                &&& forall|j: int| 0 <= j < words.len() ==> (#[trigger] words[j])@ != stem
            };
        split_before_digits(stem, seq!['1'], words[j]@, digits, '-');
    }
}

proof fn apps_are_plain()
    ensures
        pool_is_plain(APPS@),
{
    reveal_strlit("api-gateway");
    reveal_strlit("checkout");
    reveal_strlit("search");
    reveal_strlit("ingest");
    reveal_strlit("billing");
    reveal_strlit("notifier");
    reveal_strlit("web");
    reveal_strlit("scheduler");
    let words = APPS@;
    assert(words.len() == 8);
    assert forall|i: int, j: int|
        0 <= i < words.len() && 0 <= j < words.len() && #[trigger] words[i]@
            == #[trigger] words[j]@ implies i == j by {
        assert(words[i]@.len() == words[j]@.len());
        assert(words[i]@[0] == words[j]@[0]);
        assert(words[i]@.last() == words[j]@.last());
    }
}

proof fn envs_are_plain()
    ensures
        pool_is_plain(ENVS@),
{
    reveal_strlit("prod");
    reveal_strlit("staging");
    reveal_strlit("dev");
    let words = ENVS@;
    assert(words.len() == 3);
    assert forall|i: int, j: int|
        0 <= i < words.len() && 0 <= j < words.len() && #[trigger] words[i]@
            == #[trigger] words[j]@ implies i == j by {
        assert(words[i]@.len() == words[j]@.len());
    }
}

proof fn clusters_are_plain()
    ensures
        pool_is_plain(CLUSTERS@),
{
    reveal_strlit("eu-west-1a");
    reveal_strlit("eu-west-1b");
    let words = CLUSTERS@;
    assert(words.len() == 2);
    assert forall|i: int, j: int|
        0 <= i < words.len() && 0 <= j < words.len() && #[trigger] words[i]@
            == #[trigger] words[j]@ implies i == j by {
        assert(words[i]@.last() == words[j]@.last());
    }
}

proof fn namespaces_are_plain()
    ensures
        pool_is_plain(NAMESPACES@),
{
    reveal_strlit("default");
    reveal_strlit("payments");
    reveal_strlit("platform");
    reveal_strlit("observability");
    reveal_strlit("edge");
    reveal_strlit("data");
    let words = NAMESPACES@;
    assert(words.len() == 6);
    assert forall|i: int, j: int|
        0 <= i < words.len() && 0 <= j < words.len() && #[trigger] words[i]@
            == #[trigger] words[j]@ implies i == j by {
        assert(words[i]@.len() == words[j]@.len());
        assert(words[i]@[0] == words[j]@[0]);
        assert(words[i]@.last() == words[j]@.last());
    }
}

proof fn containers_are_plain()
    ensures
        pool_is_plain(CONTAINERS@),
{
    reveal_strlit("server");
    reveal_strlit("sidecar");
    reveal_strlit("migrator");
    reveal_strlit("exporter");
    let words = CONTAINERS@;
    assert(words.len() == 4);
    assert forall|i: int, j: int|
        0 <= i < words.len() && 0 <= j < words.len() && #[trigger] words[i]@
            == #[trigger] words[j]@ implies i == j by {
        assert(words[i]@.len() == words[j]@.len());
        assert(words[i]@[0] == words[j]@[0]);
    }
}

proof fn regions_are_plain()
    ensures
        pool_is_plain(REGIONS@),
{
    reveal_strlit("eu-west-1");
    reveal_strlit("us-east-1");
    reveal_strlit("ap-northeast-1");
    reveal_strlit("eu-west");
    reveal_strlit("us-east");
    reveal_strlit("ap-northeast");
    let words = REGIONS@;
    assert(words.len() == 3);
    assert forall|i: int, j: int|
        0 <= i < words.len() && 0 <= j < words.len() && #[trigger] words[i]@
            == #[trigger] words[j]@ implies i == j by {
        assert(words[i]@.len() == words[j]@.len());
        assert(words[i]@[0] == words[j]@[0]);
    }
    let a = "eu-west"@;
    let b = "us-east"@;
    let c = "ap-northeast"@;
    assert(a + seq!['-'] + seq!['1'] =~= words[0]@);
    assert(b + seq!['-'] + seq!['1'] =~= words[1]@);
    assert(c + seq!['-'] + seq!['1'] =~= words[2]@);
    assert forall|i: int| 0 <= i < words.len() implies exists|stem: Seq<char>|
        {
            &&& #[trigger] (stem + seq!['-'] + seq!['1']) == (#[trigger] words[i])@
            &&& forall|j: int| 0 <= j < words.len() ==> (#[trigger] words[j])@ != stem
        } by {
        let stem = if i == 0 {
            a
        } else if i == 1 {
            b
        } else {
            c
        };
        assert(stem + seq!['-'] + seq!['1'] == words[i]@);
        assert forall|j: int| 0 <= j < words.len() implies (#[trigger] words[j])@ != stem by {
            assert(words[j]@.len() != stem.len());
        }
    }
}

proof fn components_are_plain()
    ensures
        pool_is_plain(COMPONENTS@),
{
    reveal_strlit("http");
    reveal_strlit("worker");
    reveal_strlit("scheduler");
    reveal_strlit("storage");
    reveal_strlit("cache");
    let words = COMPONENTS@;
    assert(words.len() == 5);
    assert forall|i: int, j: int|
        0 <= i < words.len() && 0 <= j < words.len() && #[trigger] words[i]@
            == #[trigger] words[j]@ implies i == j by {
        assert(words[i]@.len() == words[j]@.len());
    }
}

proof fn levels_are_plain()
    ensures
        pool_is_plain(LEVELS@),
{
    reveal_strlit("info");
    reveal_strlit("warn");
    reveal_strlit("error");
    reveal_strlit("debug");
    let words = LEVELS@;
    assert(words.len() == 4);
    assert forall|i: int, j: int|
        0 <= i < words.len() && 0 <= j < words.len() && #[trigger] words[i]@
            == #[trigger] words[j]@ implies i == j by {
        assert(words[i]@.len() == words[j]@.len());
        assert(words[i]@[0] == words[j]@[0]);
    }
}

/// A label's values are all different.
pub proof fn label_values_differ(position: int, a: nat, b: nat)
    requires
        0 <= position < 10,
        value_text(position, a) == value_text(position, b),
    ensures
        a == b,
{
    if position == 9 {
        pod_names_differ(a, b);
    } else if position == 8 {
        addresses_differ(a, b);
    } else {
        apps_are_plain();
        envs_are_plain();
        clusters_are_plain();
        namespaces_are_plain();
        containers_are_plain();
        regions_are_plain();
        components_are_plain();
        levels_are_plain();
        pool_words_differ(pool(position), a, b);
    }
}

// ----------------------------------------------------------------- label sets
proof fn names_differ(p: int, q: int)
    requires
        0 <= p < 10,
        0 <= q < 10,
        LABEL_NAMES@[p]@ == LABEL_NAMES@[q]@,
    ensures
        p == q,
{
    reveal_strlit("app");
    reveal_strlit("env");
    reveal_strlit("cluster");
    reveal_strlit("namespace");
    reveal_strlit("container");
    reveal_strlit("region");
    reveal_strlit("component");
    reveal_strlit("level");
    reveal_strlit("instance");
    reveal_strlit("pod");
    let a = LABEL_NAMES@[p]@;
    let b = LABEL_NAMES@[q]@;
    assert(LABEL_NAMES@.len() == 10);
    assert(a.len() == b.len());
    assert(a[0] == b[0]);
    assert(a.len() == 9 ==> a[3] == b[3]);
}

proof fn labels_hold_values(stream: nat, k: nat, count: nat, p: int)
    requires
        k <= 10,
    ensures
        in_order(labels_up_to(stream, k, count)),
        0 <= p < k ==> value_of(labels_up_to(stream, k, count), LABEL_NAMES@[p]@) == Some(
            value_text(p, value_index(stream, p as nat, count)),
        ),
    decreases k,
{
    if k > 0 {
        let before = labels_up_to(stream, (k - 1) as nat, count);
        labels_hold_values(stream, (k - 1) as nat, count, p);
        let name = LABEL_NAMES@[k - 1]@;
        let value = value_text(k - 1, value_index(stream, (k - 1) as nat, count));
        with_label_keeps_order(before, name, value);
        if 0 <= p < k - 1 {
            if LABEL_NAMES@[p]@ == name {
                names_differ(p, k - 1);
            }
            assert(value_of(labels_up_to(stream, k, count), LABEL_NAMES@[p]@) == value_of(
                before,
                LABEL_NAMES@[p]@,
            ));
        }
    }
}

proof fn remainders_agree(a: nat, b: nat, count: nat, p: int)
    requires
        1 <= count <= 10,
        0 <= p < count,
        forall|q: int|
            0 <= q < count ==> #[trigger] value_index(a, q as nat, count) == value_index(
                b,
                q as nat,
                count,
            ),
    ensures
        remaining_at(a, p as nat) == remaining_at(b, p as nat),
    decreases count - p,
{
    assert(value_index(a, p as nat, count) == value_index(b, p as nat, count));
    if p + 1 < count {
        remainders_agree(a, b, count, p + 1);
        let radix = LABEL_CARDINALITY@[p] as int;
        assert(radix > 0);
        let x = remaining_at(a, p as nat) as int;
        let y = remaining_at(b, p as nat) as int;
        assert(remaining_at(a, (p + 1) as nat) == x / radix);
        assert(remaining_at(b, (p + 1) as nat) == y / radix);
        vstd::arithmetic::div_mod::lemma_fundamental_div_mod(x, radix);
        vstd::arithmetic::div_mod::lemma_fundamental_div_mod(y, radix);
    }
}

/// Different streams have different labels, however many streams and however
/// few labels are asked for.
pub proof fn streams_have_distinct_labels(a: nat, b: nat, labels_per_stream: nat)
    requires
        a != b,
    ensures
        stream_labels(a, labels_per_stream) != stream_labels(b, labels_per_stream),
{
    let count = label_count(labels_per_stream);
    if stream_labels(a, labels_per_stream) == stream_labels(b, labels_per_stream) {
        assert forall|q: int| 0 <= q < count implies #[trigger] value_index(a, q as nat, count)
            == value_index(b, q as nat, count) by {
            labels_hold_values(a, count, count, q);
            labels_hold_values(b, count, count, q);
            label_values_differ(
                q,
                value_index(a, q as nat, count),
                value_index(b, q as nat, count),
            );
        }
        remainders_agree(a, b, count, 0);
    }
}

/// The labels of a stream are in the order of their names.
pub proof fn stream_labels_are_in_order(stream: nat, labels_per_stream: nat)
    ensures
        in_order(stream_labels(stream, labels_per_stream)),
{
    let count = label_count(labels_per_stream);
    labels_hold_values(stream, count, count, 0);
}

// ---------------------------------------------------------------- label names
/// The names of labels.
pub open spec fn names_of(pairs: Seq<(Seq<char>, Seq<char>)>) -> Seq<Seq<char>> {
    pairs.map_values(|pair: (Seq<char>, Seq<char>)| pair.0)
}

/// Whether texts come one after another in the order of texts, none twice.
pub open spec fn ascending(list: Seq<Seq<char>>) -> bool {
    forall|i: int, j: int|
        0 <= i < j < list.len() ==> text_less(#[trigger] list[i], #[trigger] list[j])
}

/// Texts in their order are known by which there are.
proof fn same_texts_same_list(a: Seq<Seq<char>>, b: Seq<Seq<char>>)
    requires
        ascending(a),
        ascending(b),
        forall|text: Seq<char>| #[trigger] a.contains(text) == b.contains(text),
    ensures
        a == b,
    decreases a.len(),
{
    if a.len() == 0 {
        if b.len() > 0 {
            assert(b.contains(b[0]));
            assert(!a.contains(b[0]));
        }
        assert(a =~= b);
    } else {
        assert(a.contains(a.last()));
        assert(b.contains(a.last()));
        let i = choose|i: int| 0 <= i < b.len() && b[i] == a.last();
        assert(b.contains(b.last()));
        assert(a.contains(b.last()));
        let j = choose|j: int| 0 <= j < a.len() && a[j] == b.last();
        if i < b.len() - 1 {
            assert(text_less(b[i], b[b.len() - 1]));
            if j < a.len() - 1 {
                assert(text_less(a[j], a[a.len() - 1]));
                text_less_transitive(a.last(), b.last(), a.last());
            }
            text_less_irreflexive(a.last());
        }
        let (c, d) = (a.drop_last(), b.drop_last());
        assert(a.last() == b.last());
        assert forall|text: Seq<char>| #[trigger] c.contains(text) == d.contains(text) by {
            text_less_irreflexive(text);
            if c.contains(text) {
                let n = choose|n: int| 0 <= n < c.len() && c[n] == text;
                assert(a[n] == text);
                assert(text_less(a[n], a[a.len() - 1]));
                assert(a.contains(text));
                let m = choose|m: int| 0 <= m < b.len() && b[m] == text;
                assert(d[m] == text);
            }
            if d.contains(text) {
                let m = choose|m: int| 0 <= m < d.len() && d[m] == text;
                assert(b[m] == text);
                assert(text_less(b[m], b[b.len() - 1]));
                assert(b.contains(text));
                assert(a.contains(text));
                let n = choose|n: int| 0 <= n < a.len() && a[n] == text;
                assert(c[n] == text);
            }
        }
        same_texts_same_list(c, d);
        assert(a =~= c.push(a.last()));
        assert(b =~= d.push(b.last()));
    }
}

/// Whether a text is the name of one of the first labels.
spec fn is_label_name(text: Seq<char>, count: nat) -> bool {
    exists|p: int| 0 <= p < count && #[trigger] LABEL_NAMES@[p]@ == text
}

proof fn names_are_values(pairs: Seq<(Seq<char>, Seq<char>)>, text: Seq<char>)
    ensures
        names_of(pairs).contains(text) <==> value_of(pairs, text) is Some,
    decreases pairs.len(),
{
    let names = names_of(pairs);
    if pairs.len() > 0 {
        let rest = pairs.drop_first();
        names_are_values(rest, text);
        assert(names[0] == pairs[0].0);
        if names.contains(text) && names[0] != text {
            let i = choose|i: int| 0 <= i < names.len() && names[i] == text;
            assert(names_of(rest)[i - 1] == text);
        }
        if names_of(rest).contains(text) {
            let i = choose|i: int| 0 <= i < names_of(rest).len() && names_of(rest)[i] == text;
            assert(names[i + 1] == text);
        }
    }
}

proof fn labels_have_the_first_names(stream: nat, k: nat, count: nat, text: Seq<char>)
    requires
        k <= 10,
    ensures
        value_of(labels_up_to(stream, k, count), text) is Some <==> is_label_name(text, k),
    decreases k,
{
    if k > 0 {
        let before = labels_up_to(stream, (k - 1) as nat, count);
        let name = LABEL_NAMES@[k - 1]@;
        labels_have_the_first_names(stream, (k - 1) as nat, count, text);
        labels_hold_values(stream, (k - 1) as nat, count, 0);
        with_label_keeps_order(
            before,
            name,
            value_text(k - 1, value_index(stream, (k - 1) as nat, count)),
        );
        if text == name {
            assert(LABEL_NAMES@[k - 1]@ == text);
        } else if is_label_name(text, k) {
            let p = choose|p: int| 0 <= p < k && #[trigger] LABEL_NAMES@[p]@ == text;
            assert(p < k - 1);
        }
    }
}

/// The name of a label by its place in the order of names.
spec fn name_at(n: int) -> Seq<char> {
    LABEL_NAMES@[SORTED_POSITIONS@[n] as int]@
}

proof fn next_name(n: int)
    requires
        0 <= n < 9,
    ensures
        text_less(name_at(n), name_at(n + 1)),
{
    reveal_strlit("app");
    reveal_strlit("env");
    reveal_strlit("cluster");
    reveal_strlit("namespace");
    reveal_strlit("container");
    reveal_strlit("region");
    reveal_strlit("component");
    reveal_strlit("level");
    reveal_strlit("instance");
    reveal_strlit("pod");
    reveal_with_fuel(text_less, 4);
}

proof fn names_ascend(m: int, n: int)
    requires
        0 <= m < n < 10,
    ensures
        text_less(name_at(m), name_at(n)),
    decreases n - m,
{
    next_name(n - 1);
    if m < n - 1 {
        names_ascend(m, n - 1);
        text_less_transitive(name_at(m), name_at(n - 1), name_at(n));
    }
}

proof fn every_position_is_listed(p: int) -> (n: int)
    requires
        0 <= p < 10,
    ensures
        0 <= n < 10,
        SORTED_POSITIONS@[n] == p,
{
    let places: Seq<int> = seq![0, 4, 1, 7, 3, 9, 2, 6, 5, 8];
    places[p]
}

/// Whether a text is the name of one of the first labels, at one of the first
/// places in the order of names.
spec fn is_name_before(text: Seq<char>, n: nat, count: nat) -> bool {
    exists|m: int| 0 <= m < n && SORTED_POSITIONS@[m] < count && #[trigger] name_at(m) == text
}

proof fn sorted_names_ascend(n: nat, count: nat)
    requires
        n <= 10,
    ensures
        ascending(sorted_names(n, count)),
        forall|i: int|
            0 <= i < sorted_names(n, count).len() ==> is_name_before(
                #[trigger] sorted_names(n, count)[i],
                n,
                count,
            ),
        forall|m: int|
            0 <= m < n && SORTED_POSITIONS@[m] < count ==> sorted_names(n, count).contains(
                #[trigger] name_at(m),
            ),
    decreases n,
{
    if n > 0 {
        let earlier = sorted_names((n - 1) as nat, count);
        let now = sorted_names(n, count);
        sorted_names_ascend((n - 1) as nat, count);
        if SORTED_POSITIONS@[n - 1] < count {
            assert forall|i: int, j: int| 0 <= i < j < now.len() implies text_less(
                #[trigger] now[i],
                #[trigger] now[j],
            ) by {
                assert(now[i] == earlier[i]);
                if j == earlier.len() {
                    assert(is_name_before(earlier[i], (n - 1) as nat, count));
                    let m = choose|m: int|
                        0 <= m < n - 1 && SORTED_POSITIONS@[m] < count && #[trigger] name_at(m)
                            == earlier[i];
                    names_ascend(m, n - 1);
                } else {
                    assert(now[j] == earlier[j]);
                }
            }
            assert forall|i: int| 0 <= i < now.len() implies is_name_before(
                #[trigger] now[i],
                n,
                count,
            ) by {
                if i < earlier.len() {
                    assert(now[i] == earlier[i]);
                    assert(is_name_before(earlier[i], (n - 1) as nat, count));
                    let m = choose|m: int|
                        0 <= m < n - 1 && SORTED_POSITIONS@[m] < count && #[trigger] name_at(m)
                            == earlier[i];
                    assert(name_at(m) == now[i]);
                } else {
                    assert(name_at(n - 1) == now[i]);
                }
            }
            assert forall|m: int| 0 <= m < n && SORTED_POSITIONS@[m] < count implies now.contains(
                #[trigger] name_at(m),
            ) by {
                if m == n - 1 {
                    assert(now[earlier.len() as int] == name_at(m));
                } else {
                    assert(earlier.contains(name_at(m)));
                    let i = choose|i: int| 0 <= i < earlier.len() && earlier[i] == name_at(m);
                    assert(now[i] == name_at(m));
                }
            }
        } else {
            assert forall|i: int| 0 <= i < now.len() implies is_name_before(
                #[trigger] now[i],
                n,
                count,
            ) by {
                assert(is_name_before(earlier[i], (n - 1) as nat, count));
                let m = choose|m: int|
                    0 <= m < n - 1 && SORTED_POSITIONS@[m] < count && #[trigger] name_at(m)
                        == earlier[i];
                assert(name_at(m) == now[i]);
            }
        }
    }
}

proof fn sorted_names_are_the_first(count: nat, text: Seq<char>)
    requires
        count <= 10,
    ensures
        sorted_names(10, count).contains(text) <==> is_label_name(text, count),
{
    let names = sorted_names(10, count);
    sorted_names_ascend(10, count);
    if names.contains(text) {
        let i = choose|i: int| 0 <= i < names.len() && names[i] == text;
        assert(is_name_before(names[i], 10, count));
        let m = choose|m: int|
            0 <= m < 10 && SORTED_POSITIONS@[m] < count && #[trigger] name_at(m) == names[i];
        assert(LABEL_NAMES@[SORTED_POSITIONS@[m] as int]@ == text);
    }
    if is_label_name(text, count) {
        let p = choose|p: int| 0 <= p < count && #[trigger] LABEL_NAMES@[p]@ == text;
        let n = every_position_is_listed(p);
        assert(name_at(n) == text);
    }
}

/// Every stream of a corpus has exactly the labels that the corpus lists, in the
/// order of their names: as many as were asked for, at least one, at most ten.
pub proof fn every_stream_has_the_listed_labels(corpus: Corpus, spec: CorpusSpec, i: int)
    requires
        corpus.is_generated(spec),
        0 <= i < corpus.streams@.len(),
    ensures
        names_of(corpus.streams@[i].labels@) == texts(corpus.label_names@),
        ascending(texts(corpus.label_names@)),
        corpus.label_names@.len() == label_count(spec.labels_per_stream as nat),
{
    let count = label_count(spec.labels_per_stream as nat);
    let labels = corpus.streams@[i].labels@;
    let listed = texts(corpus.label_names@);
    sorted_names_ascend(10, count);
    stream_labels_are_in_order(i as nat, spec.labels_per_stream as nat);
    assert forall|text: Seq<char>| #[trigger] names_of(labels).contains(text) == listed.contains(
        text,
    ) by {
        names_are_values(labels, text);
        labels_have_the_first_names(i as nat, count, count, text);
        sorted_names_are_the_first(count, text);
    }
    assert forall|a: int, b: int| 0 <= a < b < names_of(labels).len() implies text_less(
        #[trigger] names_of(labels)[a],
        #[trigger] names_of(labels)[b],
    ) by {
        assert(text_less(labels[a].0, labels[b].0));
    }
    same_texts_same_list(names_of(labels), listed);
    reveal_with_fuel(sorted_names, 11);
    assert(sorted_names(10, count).len() == count);
    assert(texts(corpus.label_names@).len() == corpus.label_names@.len());
}

/// No two streams of a corpus have the same labels.
pub proof fn the_streams_of_a_corpus_differ(corpus: Corpus, spec: CorpusSpec, i: int, j: int)
    requires
        corpus.is_generated(spec),
        0 <= i < corpus.streams@.len(),
        0 <= j < corpus.streams@.len(),
        i != j,
    ensures
        corpus.streams@[i].labels@ != corpus.streams@[j].labels@,
{
    streams_have_distinct_labels(i as nat, j as nat, spec.labels_per_stream as nat);
}

// ------------------------------------------------------------------- metadata
proof fn metadata_has_its_pairs(state: u64, trace: Seq<char>, pairs: nat)
    ensures
        metadata_of(state, trace, pairs).0.len() == pairs,
    decreases pairs,
{
    if pairs > 0 {
        metadata_has_its_pairs(state, trace, (pairs - 1) as nat);
    }
}

proof fn row_has_its_pairs(
    state: u64,
    spec: CorpusSpec,
    traces: Seq<Seq<char>>,
    users: Seq<Seq<char>>,
    row: nat,
)
    ensures
        row_of(state, spec, traces, users, row).0.metadata.len() == spec.metadata_pairs,
{
    let (entry, _) = row_of(state, spec, traces, users, row);
    assert(exists|s: u64, trace: Seq<char>|
        #[trigger] metadata_of(s, trace, spec.metadata_pairs as nat).0 == entry.metadata);
    let (s, trace) = choose|s: u64, trace: Seq<char>|
        #[trigger] metadata_of(s, trace, spec.metadata_pairs as nat).0 == entry.metadata;
    metadata_has_its_pairs(s, trace, spec.metadata_pairs as nat);
}

proof fn stream_rows_have_their_pairs(spec: CorpusSpec, stream: nat, rows: nat, j: int)
    requires
        0 <= j < stream_rows(spec, stream, rows).len(),
    ensures
        stream_rows(spec, stream, rows)[j].metadata.len() == spec.metadata_pairs,
    decreases rows,
{
    let before = (rows - 1) as nat;
    let earlier = stream_rows(spec, stream, before);
    if j < earlier.len() {
        stream_rows_have_their_pairs(spec, stream, before, j);
    } else {
        let (t, u) = (spec_traces(spec), spec_users(spec));
        row_has_its_pairs(
            state_before(after_vocab(seeded(spec.seed), spec.rows as nat), spec, t, u, before),
            spec,
            t,
            u,
            before,
        );
    }
}

/// Every entry of a corpus has as many metadata pairs as were asked for.
pub proof fn every_entry_has_its_metadata(corpus: Corpus, spec: CorpusSpec, i: int, j: int)
    requires
        corpus.is_generated(spec),
        0 <= i < corpus.streams@.len(),
        0 <= j < corpus.streams@[i].entries@.len(),
    ensures
        corpus.streams@[i].entries@[j].structured_metadata@.len() == spec.metadata_pairs,
{
    let entries = corpus.streams@[i].entries@;
    let views = crate::model::entries_view(entries);
    assert(views[j] == entries[j]@);
    stream_rows_have_their_pairs(spec, i as nat, spec.rows as nat, j);
}

// ------------------------------------------------------------------------ rows
/// How many of the first `rows` rows the first `m` streams have together.
spec fn rows_in(spec: CorpusSpec, m: nat, rows: nat) -> nat
    decreases m,
{
    if m == 0 {
        0
    } else {
        rows_in(spec, (m - 1) as nat, rows) + stream_rows(spec, (m - 1) as nat, rows).len()
    }
}

proof fn one_row_more(spec: CorpusSpec, m: nat, rows: nat)
    ensures
        rows_in(spec, m, rows + 1) == rows_in(spec, m, rows) + if (rows as int
            % at_least_one(spec.streams as nat) as int) < m {
            1nat
        } else {
            0nat
        },
    decreases m,
{
    if m > 0 {
        one_row_more(spec, (m - 1) as nat, rows);
        assert(stream_rows(spec, (m - 1) as nat, rows + 1).len() == stream_rows(
            spec,
            (m - 1) as nat,
            rows,
        ).len() + if rows as int % at_least_one(spec.streams as nat) as int == m - 1 {
            1nat
        } else {
            0nat
        });
    }
}

proof fn every_row_is_somewhere(spec: CorpusSpec, rows: nat)
    ensures
        rows_in(spec, at_least_one(spec.streams as nat), rows) == rows,
    decreases rows,
{
    let count = at_least_one(spec.streams as nat);
    if rows == 0 {
        no_rows_yet(spec, count);
    } else {
        every_row_is_somewhere(spec, (rows - 1) as nat);
        one_row_more(spec, count, (rows - 1) as nat);
    }
}

proof fn no_rows_yet(spec: CorpusSpec, m: nat)
    ensures
        rows_in(spec, m, 0) == 0,
    decreases m,
{
    if m > 0 {
        no_rows_yet(spec, (m - 1) as nat);
    }
}

proof fn entries_are_rows(corpus: Corpus, spec: CorpusSpec, m: int)
    requires
        corpus.is_generated(spec),
        0 <= m <= corpus.streams@.len(),
    ensures
        total_entries(corpus.streams@.take(m)) == rows_in(spec, m as nat, spec.rows as nat),
    decreases m,
{
    if m > 0 {
        entries_are_rows(corpus, spec, m - 1);
        assert(corpus.streams@.take(m).drop_last() =~= corpus.streams@.take(m - 1));
        let stream = corpus.streams@[m - 1];
        assert(corpus.streams@.take(m).last() == stream);
        assert(crate::model::entries_view(stream.entries@).len() == stream.entries@.len());
    }
}

/// A corpus has as many entries as were asked for.
pub proof fn a_corpus_has_its_rows(corpus: Corpus, spec: CorpusSpec)
    requires
        corpus.is_generated(spec),
    ensures
        total_entries(corpus.streams@) == spec.rows,
{
    entries_are_rows(corpus, spec, corpus.streams@.len() as int);
    assert(corpus.streams@.take(corpus.streams@.len() as int) =~= corpus.streams@);
    every_row_is_somewhere(spec, spec.rows as nat);
}

/// Two corpora of one spec hold the same tenants, label names, labels and entries.
pub proof fn a_spec_decides_its_corpus(a: Corpus, b: Corpus, spec: CorpusSpec, i: int)
    requires
        a.is_generated(spec),
        b.is_generated(spec),
        0 <= i < a.streams@.len(),
    ensures
        a.tenant_ids@.len() == b.tenant_ids@.len(),
        forall|t: int|
            0 <= t < a.tenant_ids@.len() ==> (#[trigger] a.tenant_ids@[t])@ == b.tenant_ids@[t]@,
        texts(a.label_names@) == texts(b.label_names@),
        a.streams@.len() == b.streams@.len(),
        a.streams@[i].tenant@ == b.streams@[i].tenant@,
        a.streams@[i].labels@ == b.streams@[i].labels@,
        crate::model::entries_view(a.streams@[i].entries@) == crate::model::entries_view(
            b.streams@[i].entries@,
        ),
{
}

} // verus!
