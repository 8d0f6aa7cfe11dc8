//! The closed-loop load: one push at a time, queries after every so many pushes,
//! and a verdict on the state that the server ends in.

use vstd::prelude::*;
use vstd::string::*;

use crate::load::stats::percentile_index;
use crate::load::verdict::Verdict;
use crate::order::{ordered, sort, texts_view};
use crate::text::{
    chars_of, decimal, has_part, parse_unsigned, parsed_unsigned, push_decimal, push_signed,
    signed_decimal, subslice, text_of, words, words_of,
};

verus! {

// -------------------------------------------------------------------- sequence
pub open spec fn next_of(value: u64) -> u64 {
    ((value * 6364136223846793005 + 1) % 0x1_0000_0000_0000_0000) as u64
}

/// The next number of the sequence that tells pushes apart.
pub fn next_random(value: &mut u64) -> (next: u64)
    ensures
        next == next_of(*old(value)),
        *final(value) == next,
{
    let product: u64 = value.wrapping_mul(6364136223846793005);
    let next: u64 = product.wrapping_add(1);
    proof {
        let exact = *value * 6364136223846793005;
        assert(0 <= exact) by (nonlinear_arith)
            requires
                exact == *value * 6364136223846793005,
        ;
        assert(product as int == exact % 0x1_0000_0000_0000_0000);
        assert(next as int == (product + 1) % 0x1_0000_0000_0000_0000);
        vstd::arithmetic::div_mod::lemma_add_mod_noop(exact, 1, 0x1_0000_0000_0000_0000);
    }
    *value = next;
    next
}

/// Whether it is time for queries.
pub fn queries_are_due(pushes: u64, every: u64) -> (due: bool)
    requires
        every > 0,
    ensures
        due == (pushes > 0 && pushes % every == 0),
{
    pushes > 0 && pushes % every == 0
}

// ---------------------------------------------------------------------- pushes
/// A line of a push.
pub open spec fn line_of(app: Seq<char>, event: nat, offset: nat, tail: Seq<char>) -> Seq<char> {
    app + " event="@ + decimal(event) + " offset="@ + decimal(offset) + tail
}

/// A line with a character of padding repeated until it has a number of bytes. The
/// line is ASCII.
pub open spec fn padded(line: Seq<char>, length: nat) -> Seq<char> {
    if line.len() < length {
        line + Seq::new((length - line.len()) as nat, |i: int| 'x')
    } else {
        line
    }
}

fn pad(line: &mut String, from: usize, length: usize)
    requires
        old(line)@.len() == from,
    ensures
        final(line)@ == padded(old(line)@, length as nat),
{
    let ghost start = line@;
    let mut n: usize = from;
    while n < length
        invariant
            from <= n,
            n <= length || n == from,
            line@ == start + Seq::new((n - from) as nat, |i: int| 'x'),
        decreases length - n,
    {
        line.push('x');
        n = n + 1;
        assert(line@ =~= start + Seq::new((n - from) as nat, |i: int| 'x'));
    }
    assert(line@ =~= padded(start, length as nat));
}

/// The lines of a push without padding.
pub fn push_lines(app: &str, count: usize, sequence: u64) -> (out: Vec<String>)
    requires
        sequence + count <= u64::MAX,
    ensures
        texts_view(out@) == Seq::new(
            count as nat,
            |i: int| line_of(app@, (sequence + i) as nat, i as nat, seq![]),
        ),
{
    let mut out: Vec<String> = Vec::new();
    let mut i: usize = 0;
    while i < count
        invariant
            i <= count,
            sequence + count <= u64::MAX,
            out@.len() == i,
            forall|j: int|
                0 <= j < i ==> (#[trigger] out@[j])@ == line_of(
                    app@,
                    (sequence + j) as nat,
                    j as nat,
                    seq![],
                ),
        decreases count - i,
    {
        let line = write_line(app, sequence + i as u64, i);
        assert(line@ =~= line_of(app@, (sequence + i) as nat, i as nat, seq![]));
        out.push(line);
        i = i + 1;
    }
    assert(texts_view(out@) =~= Seq::new(
        count as nat,
        |i: int| line_of(app@, (sequence + i) as nat, i as nat, seq![]),
    ));
    out
}

fn write_line(app: &str, event: u64, offset: usize) -> (line: String)
    ensures
        line@ == app@ + " event="@ + decimal(event as nat) + " offset="@ + decimal(offset as nat),
{
    let mut line = app.to_owned();
    line.append(" event=");
    push_decimal(&mut line, event);
    line.append(" offset=");
    push_decimal(&mut line, offset as u64);
    line
}

/// The lines of a push, each filled up to a number of bytes.
pub fn padded_lines(app: &str, count: usize, length: usize, sequence: u64) -> (out: Vec<String>)
    requires
        sequence + count <= u64::MAX,
    ensures
        texts_view(out@) == Seq::new(
            count as nat,
            |i: int|
                padded(
                    line_of(app@, (sequence + i) as nat, i as nat, " "@),
                    length as nat,
                ),
        ),
{
    let mut out: Vec<String> = Vec::new();
    let mut i: usize = 0;
    while i < count
        invariant
            i <= count,
            sequence + count <= u64::MAX,
            out@.len() == i,
            forall|j: int|
                0 <= j < i ==> (#[trigger] out@[j])@ == padded(
                    line_of(app@, (sequence + j) as nat, j as nat, " "@),
                    length as nat,
                ),
        decreases count - i,
    {
        let mut line = write_line(app, sequence + i as u64, i);
        line.append(" ");
        assert(line@ == line_of(app@, (sequence + i) as nat, i as nat, " "@));
        let from: usize = chars_of(line.as_str()).len();
        pad(&mut line, from, length);
        out.push(line);
        i = i + 1;
    }
    assert(texts_view(out@) =~= Seq::new(
        count as nat,
        |i: int| padded(line_of(app@, (sequence + i) as nat, i as nat, " "@), length as nat),
    ));
    out
}

// --------------------------------------------------------------------- queries
/// A query for the lines of an app.
pub open spec fn log_path(
    app: Seq<char>,
    start: int,
    end: int,
    step: Seq<char>,
    direction: Seq<char>,
) -> Seq<char> {
    "/loki/api/v1/query_range?query=%7Bapp%3D%22"@ + app + "%22%7D&start="@ + signed_decimal(start)
        + "&end="@ + signed_decimal(end) + "&step="@ + step + "&limit=100&direction="@ + direction
}

pub fn log_query(app: &str, start: i64, end: i64, step: &str, direction: &str) -> (path: String)
    ensures
        path@ == log_path(app@, start as int, end as int, step@, direction@),
{
    let mut path = "/loki/api/v1/query_range?query=%7Bapp%3D%22".to_owned();
    path.append(app);
    path.append("%22%7D&start=");
    push_signed(&mut path, start);
    path.append("&end=");
    push_signed(&mut path, end);
    path.append("&step=");
    path.append(step);
    path.append("&limit=100&direction=");
    path.append(direction);
    path
}

/// A query for the rate of an app's lines.
pub open spec fn rate_path(app: Seq<char>, start: int, end: int) -> Seq<char> {
    "/loki/api/v1/query_range?query=rate(%7Bapp%3D%22"@ + app + "%22%7D%5B1m%5D)&start="@
        + signed_decimal(start) + "&end="@ + signed_decimal(end) + "&step=10"@
}

pub fn rate_query(app: &str, start: i64, end: i64) -> (path: String)
    ensures
        path@ == rate_path(app@, start as int, end as int),
{
    let mut path = "/loki/api/v1/query_range?query=rate(%7Bapp%3D%22".to_owned();
    path.append(app);
    path.append("%22%7D%5B1m%5D)&start=");
    push_signed(&mut path, start);
    path.append("&end=");
    push_signed(&mut path, end);
    path.append("&step=10");
    path
}

// ------------------------------------------------------------------------ HTTP
/// The head of a request. Without a body type, none is named.
pub open spec fn head_of(
    address: Seq<char>,
    method: Seq<char>,
    path: Seq<char>,
    length: nat,
    content_type: Seq<char>,
) -> Seq<char> {
    method + " "@ + path + " HTTP/1.1\r\nHost: "@ + address + "\r\n"@ + if content_type.len() == 0 {
        seq![]
    } else {
        "Content-Type: "@ + content_type + "\r\n"@
    } + "Content-Length: "@ + decimal(length) + "\r\nConnection: close\r\n\r\n"@
}

pub fn request_head(
    address: &str,
    method: &str,
    path: &str,
    length: usize,
    content_type: &str,
) -> (head: String)
    ensures
        head@ == head_of(address@, method@, path@, length as nat, content_type@),
{
    let mut kind = String::new();
    if chars_of(content_type).len() > 0 {
        kind.append("Content-Type: ");
        kind.append(content_type);
        kind.append("\r\n");
    }
    assert(kind@ =~= if content_type@.len() == 0 {
        seq![]
    } else {
        "Content-Type: "@ + content_type@ + "\r\n"@
    });
    let mut head = method.to_owned();
    head.append(" ");
    head.append(path);
    head.append(" HTTP/1.1\r\nHost: ");
    head.append(address);
    head.append("\r\n");
    head.append(kind.as_str());
    head.append("Content-Length: ");
    push_decimal(&mut head, length as u64);
    head.append("\r\nConnection: close\r\n\r\n");
    head
}

/// What is wrong with the status of a response: it has none, or one that is no
/// number.
pub enum StatusProblem {
    Missing,
    Unreadable(String),
}

/// The status of a response.
pub fn response_status(response: &str) -> (out: Result<u16, StatusProblem>)
    ensures
        match out {
            Ok(status) => words(response@).len() >= 2 && parsed_unsigned(
                words(response@)[1],
                u16::MAX as nat,
            ) == Some(status as nat),
            Err(StatusProblem::Missing) => words(response@).len() < 2,
            Err(StatusProblem::Unreadable(word)) => {
                &&& words(response@).len() >= 2
                &&& word@ == words(response@)[1]
                &&& parsed_unsigned(word@, u16::MAX as nat) is None
            },
        },
{
    let chars = chars_of(response);
    let parts = words_of(chars.as_slice());
    if parts.len() < 2 {
        return Err(StatusProblem::Missing);
    }
    match parse_unsigned(parts[1].as_slice(), u16::MAX as u64) {
        Some(status) => Ok(status as u16),
        None => Err(StatusProblem::Unreadable(text_of(parts[1].as_slice()))),
    }
}

/// Whether an empty line begins at an index.
pub open spec fn head_ends_at(response: Seq<char>, at: int) -> bool {
    &&& 0 <= at
    &&& at + 4 <= response.len()
    &&& response.subrange(at, at + 4) == "\r\n\r\n"@
}

/// What stands behind the head of a response.
pub fn response_body(response: &str) -> (out: Option<String>)
    ensures
        match out {
            Some(body) => exists|at: int|
                #![trigger head_ends_at(response@, at)]
                head_ends_at(response@, at) && body@ == response@.skip(at + 4) && forall|i: int|
                    0 <= i < at ==> !#[trigger] head_ends_at(response@, i),
            None => forall|i: int| !#[trigger] head_ends_at(response@, i),
        },
{
    let chars = chars_of(response);
    let end = chars_of("\r\n\r\n");
    proof {
        reveal_strlit("\r\n\r\n");
        assert(end@.len() == 4);
    }
    let mut at: usize = 0;
    while at < chars.len() && chars.len() - at >= 4
        invariant
            at <= chars@.len(),
            chars@ == response@,
            end@ == "\r\n\r\n"@,
            end@.len() == 4,
            forall|i: int| 0 <= i < at ==> !#[trigger] head_ends_at(response@, i),
        decreases chars@.len() - at,
    {
        let window = subslice(chars.as_slice(), at, at + 4);
        if crate::text::same_chars(window.as_slice(), end.as_slice()) {
            assert(head_ends_at(response@, at as int));
            let body = subslice(chars.as_slice(), at + 4, chars.len());
            assert(body@ =~= response@.skip(at + 4));
            return Some(text_of(body.as_slice()));
        }
        assert(!head_ends_at(response@, at as int));
        at = at + 1;
    }
    None
}

/// Whether a response says that a push was taken.
pub fn push_was_taken(response: &str) -> (taken: bool)
    ensures
        taken == has_part(response@, "204"@),
{
    let chars = chars_of(response);
    let code = chars_of("204");
    crate::text::contains(chars.as_slice(), code.as_slice())
}

// --------------------------------------------------------------------- latency
/// Latencies in brief. Without samples every number is zero.
#[derive(Clone, Copy, Debug, PartialEq, Eq, Structural)]
pub struct LatencySummary {
    pub count: usize,
    pub p50: u64,
    pub p95: u64,
    pub p99: u64,
}

/// The sample that a percentage of the samples does not exceed, however few there
/// are.
pub open spec fn plain_percentile(samples: Seq<u64>, percent: nat) -> u64 {
    if samples.len() == 0 {
        0
    } else {
        ordered(samples)[percentile_index(samples.len(), percent)]
    }
}

fn pick(sorted: &Vec<u64>, percent: usize) -> (value: u64)
    requires
        sorted@.len() > 0,
        percent <= 100,
        sorted@.len() <= 0xffff_ffff_ffff,
    ensures
        value == sorted@[percentile_index(sorted@.len(), percent as nat)],
{
    let last: u64 = (sorted.len() - 1) as u64;
    proof {
        assert(0 <= last * percent <= last * 100) by (nonlinear_arith)
            requires
                percent <= 100,
        ;
    }
    let index: u64 = (last * percent as u64 + 99) / 100;
    proof {
        assert(index == percentile_index(sorted@.len(), percent as nat));
        assert(index <= last);
    }
    sorted[index as usize]
}

/// Sums up latencies.
pub fn latency_summary(samples: &Vec<u64>) -> (out: LatencySummary)
    requires
        samples@.len() <= 0xffff_ffff_ffff,
    ensures
        out == (LatencySummary {
            count: samples@.len() as usize,
            p50: plain_percentile(samples@, 50),
            p95: plain_percentile(samples@, 95),
            p99: plain_percentile(samples@, 99),
        }),
{
    if samples.len() == 0 {
        return LatencySummary { count: 0, p50: 0, p95: 0, p99: 0 };
    }
    let mut sorted: Vec<u64> = samples.clone();
    assert(sorted@ =~= samples@);
    sort(&mut sorted);
    proof {
        crate::order::ordered_is_sorted(samples@);
    }
    LatencySummary {
        count: samples.len(),
        p50: pick(&sorted, 50),
        p95: pick(&sorted, 95),
        p99: pick(&sorted, 99),
    }
}

// --------------------------------------------------------------------- verdict
/// What the server ends in.
#[derive(Clone, Copy, Debug, PartialEq, Eq, Structural)]
pub struct EndState {
    pub ingest_errors: u64,
    pub remote_healthy: bool,
    pub cache_healthy: bool,
    pub flush_success: u64,
    pub flush_errors: u64,
    pub wal_backlog_bytes: u64,
    pub wal_backlog_max_bytes: u64,
}

/// Whether the flush loop keeps up: it succeeds, it fails no more often than that,
/// and the log does not grow beyond its bound.
pub open spec fn keeps_up(end: EndState) -> bool {
    &&& end.flush_success > 0
    &&& end.wal_backlog_bytes <= end.wal_backlog_max_bytes
    &&& end.flush_errors <= end.flush_success
}

/// Whether the server ends well. Errors that it recovered from do not count.
pub open spec fn ends_well(end: EndState) -> bool {
    &&& end.ingest_errors == 0
    &&& end.remote_healthy
    &&& end.cache_healthy
    &&& keeps_up(end)
}

/// The error rate as a share: the pushes that failed, among all.
pub fn failed_share(pushes: u64, errors: u64) -> (share: (u64, u64))
    requires
        pushes + errors <= u64::MAX,
    ensures
        share == (errors, (pushes + errors) as u64),
{
    (errors, pushes + errors)
}

pub fn flush_keeps_up(end: &EndState) -> (ok: bool)
    ensures
        ok == keeps_up(*end),
{
    end.flush_success > 0 && end.wal_backlog_bytes <= end.wal_backlog_max_bytes && end.flush_errors
        <= end.flush_success
}

/// The verdict on a closed-loop run.
pub fn end_verdict(end: &EndState, numeric_pass: bool) -> (verdict: Verdict)
    ensures
        verdict == crate::load::verdict::verdict_of(ends_well(*end), numeric_pass),
{
    let well = end.ingest_errors == 0 && end.remote_healthy && end.cache_healthy && flush_keeps_up(
        end,
    );
    Verdict::of(well, numeric_pass)
}

} // verus!
