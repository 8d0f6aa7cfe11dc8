//! What the memory gate reads: the accounting of a cgroup, the log of the server,
//! and the answer to its probe.

use vstd::prelude::*;
use vstd::string::*;

use crate::order::texts_view;
use crate::text::{
    begins_with, chars_of, decimal, is_word, lines, lines_of, parse_unsigned, parsed_unsigned,
    push_decimal, quote, quoted, starts_with, subslice, text_of, trim, trimmed, words, words_of,
};

verus! {

// --------------------------------------------------------------------- fields
/// The number in the first line that begins with a prefix and has one behind it.
pub open spec fn number_field(list: Seq<Seq<char>>, prefix: Seq<char>) -> Option<nat>
    decreases list.len(),
{
    if list.len() == 0 {
        None
    } else {
        let number = parsed_unsigned(trimmed(list[0].skip(prefix.len() as int)), u64::MAX as nat);
        if begins_with(list[0], prefix) && number is Some {
            number
        } else {
            number_field(list.drop_first(), prefix)
        }
    }
}

fn find_number(text: &str, prefix: &str) -> (out: Option<u64>)
    ensures
        match out {
            Some(number) => number_field(lines(text@), prefix@) == Some(number as nat),
            None => number_field(lines(text@), prefix@) is None,
        },
{
    let chars = chars_of(text);
    let all = lines_of(chars.as_slice());
    let wanted = chars_of(prefix);
    let mut i: usize = 0;
    assert(lines(text@).skip(0) =~= lines(text@));
    while i < all.len()
        invariant
            i <= all@.len(),
            all@.len() == lines(text@).len(),
            forall|j: int| 0 <= j < all@.len() ==> (#[trigger] all@[j])@ == lines(text@)[j],
            wanted@ == prefix@,
            number_field(lines(text@), prefix@) == number_field(
                lines(text@).skip(i as int),
                prefix@,
            ),
        decreases all.len() - i,
    {
        assert(lines(text@).skip(i as int).drop_first() =~= lines(text@).skip(i + 1));
        assert(lines(text@).skip(i as int)[0] == all@[i as int]@);
        if starts_with(all[i].as_slice(), wanted.as_slice()) {
            let value = subslice(all[i].as_slice(), wanted.len(), all[i].len());
            assert(value@ =~= all@[i as int]@.skip(wanted@.len() as int));
            let plain = trim(value.as_slice());
            if let Some(number) = parse_unsigned(plain.as_slice(), u64::MAX) {
                return Some(number);
            }
        }
        i = i + 1;
    }
    None
}

/// The number that a file holds, zero where it holds none or cannot be read.
pub open spec fn number_or_zero(text: Option<Seq<char>>) -> nat {
    match text {
        Some(text) => match parsed_unsigned(trimmed(text), u64::MAX as nat) {
            Some(number) => number,
            None => 0,
        },
        None => 0,
    }
}

pub open spec fn text_read(text: Option<&str>) -> Option<Seq<char>> {
    match text {
        Some(text) => Some(text@),
        None => None,
    }
}

fn read_number(text: Option<&str>) -> (number: u64)
    ensures
        number == number_or_zero(text_read(text)),
{
    match text {
        Some(text) => {
            let chars = chars_of(text);
            let plain = trim(chars.as_slice());
            match parse_unsigned(plain.as_slice(), u64::MAX) {
                Some(number) => number,
                None => 0,
            }
        },
        None => 0,
    }
}

// -------------------------------------------------------------------- samples
/// One reading of the accounting of a cgroup.
pub struct Sample {
    pub at_ns: u64,
    /// The instant as the series shows it.
    pub shown_at: String,
    pub anon: u64,
    pub file: u64,
    pub current: u64,
    pub memory_peak: u64,
    pub oom_kill: u64,
}

/// Reads a sample out of the files of a cgroup. Without the anonymous memory there
/// is none; any other number that is missing is zero.
pub fn read_sample(
    at_ns: u64,
    shown_at: String,
    stat: &str,
    current: Option<&str>,
    memory_peak: Option<&str>,
    events: Option<&str>,
) -> (out: Option<Sample>)
    ensures
        match out {
            Some(sample) => {
                &&& sample.at_ns == at_ns
                &&& sample.shown_at@ == shown_at@
                &&& number_field(lines(stat@), "anon "@) == Some(sample.anon as nat)
                &&& sample.file == match number_field(lines(stat@), "file "@) {
                    Some(file) => file,
                    None => 0,
                }
                &&& sample.current == number_or_zero(text_read(current))
                &&& sample.memory_peak == number_or_zero(text_read(memory_peak))
                &&& sample.oom_kill == match events {
                    Some(events) => match number_field(lines(trimmed(events@)), "oom_kill "@) {
                        Some(kills) => kills,
                        None => 0,
                    },
                    None => 0,
                }
            },
            None => number_field(lines(stat@), "anon "@) is None,
        },
{
    let anon: u64 = match find_number(stat, "anon ") {
        Some(anon) => anon,
        None => {
            return None;
        },
    };
    let file: u64 = match find_number(stat, "file ") {
        Some(file) => file,
        None => 0,
    };
    let oom_kill: u64 = match events {
        Some(events) => {
            let chars = chars_of(events);
            let plain = trim(chars.as_slice());
            let text = text_of(plain.as_slice());
            match find_number(text.as_str(), "oom_kill ") {
                Some(kills) => kills,
                None => 0,
            }
        },
        None => 0,
    };
    Some(
        Sample {
            at_ns,
            shown_at,
            anon,
            file,
            current: read_number(current),
            memory_peak: read_number(memory_peak),
            oom_kill,
        },
    )
}

/// A row of the series.
pub open spec fn row_of(sample: Sample) -> Seq<char> {
    sample.shown_at@ + ","@ + decimal(sample.anon as nat) + ","@ + decimal(sample.file as nat)
        + ","@ + decimal(sample.current as nat) + ","@ + decimal(sample.memory_peak as nat) + ","@
        + decimal(sample.oom_kill as nat) + "\n"@
}

/// The series as text: a heading, then a row for each sample.
pub open spec fn series_of(samples: Seq<Sample>) -> Seq<char>
    decreases samples.len(),
{
    if samples.len() == 0 {
        "t,anon,file,current,memory_peak,oom_kill\n"@
    } else {
        series_of(samples.drop_last()) + row_of(samples.last())
    }
}

fn push_row(out: &mut String, sample: &Sample)
    ensures
        final(out)@ == old(out)@ + row_of(*sample),
{
    out.append(sample.shown_at.as_str());
    out.append(",");
    push_decimal(out, sample.anon);
    out.append(",");
    push_decimal(out, sample.file);
    out.append(",");
    push_decimal(out, sample.current);
    out.append(",");
    push_decimal(out, sample.memory_peak);
    out.append(",");
    push_decimal(out, sample.oom_kill);
    out.append("\n");
    assert(out@ =~= old(out)@ + row_of(*sample));
}

/// Writes the series as comma-separated text.
pub fn write_series(samples: &[Sample]) -> (out: String)
    ensures
        out@ == series_of(samples@),
{
    let mut out = "t,anon,file,current,memory_peak,oom_kill\n".to_owned();
    let mut i: usize = 0;
    assert(samples@.take(0) =~= seq![]);
    while i < samples.len()
        invariant
            i <= samples@.len(),
            out@ == series_of(samples@.take(i as int)),
        decreases samples@.len() - i,
    {
        push_row(&mut out, &samples[i]);
        i = i + 1;
        assert(samples@.take(i as int).drop_last() =~= samples@.take(i - 1));
    }
    assert(samples@.take(i as int) =~= samples@);
    out
}

/// Where the most anonymous memory was read, the last of them if it was read more
/// than once.
pub open spec fn peak_index(samples: Seq<Sample>) -> int
    decreases samples.len(),
{
    if samples.len() <= 1 {
        0
    } else {
        let before = peak_index(samples.drop_last());
        if samples.last().anon >= samples[before].anon {
            samples.len() - 1
        } else {
            before
        }
    }
}

/// The sample with the most anonymous memory.
pub fn peak(samples: &[Sample]) -> (out: Option<usize>)
    ensures
        match out {
            Some(i) => i < samples@.len() && i == peak_index(samples@),
            None => samples@.len() == 0,
        },
{
    if samples.len() == 0 {
        return None;
    }
    let mut best: usize = 0;
    let mut i: usize = 1;
    while i < samples.len()
        invariant
            1 <= i <= samples@.len(),
            best < i,
            best == peak_index(samples@.take(i as int)),
        decreases samples@.len() - i,
    {
        if samples[i].anon >= samples[best].anon {
            best = i;
        }
        i = i + 1;
        assert(samples@.take(i as int).drop_last() =~= samples@.take(i - 1));
    }
    assert(samples@.take(i as int) =~= samples@);
    Some(best)
}

/// Nothing that was sampled is above the peak.
pub proof fn the_peak_is_the_most(samples: Seq<Sample>, i: int)
    requires
        0 <= i < samples.len(),
    ensures
        0 <= peak_index(samples) < samples.len(),
        samples[i].anon <= samples[peak_index(samples)].anon,
    decreases samples.len(),
{
    if samples.len() > 1 {
        let rest = samples.drop_last();
        if i < rest.len() {
            the_peak_is_the_most(rest, i);
        } else {
            the_peak_is_the_most(rest, 0);
        }
    }
}

/// The most anonymous memory of the samples up to an instant, or of those after
/// it. Without samples there is no such number.
pub open spec fn phase_peak_of(samples: Seq<Sample>, until_ns: u64, after: bool) -> Option<u64>
    decreases samples.len(),
{
    if samples.len() == 0 {
        None
    } else {
        let before = phase_peak_of(samples.drop_last(), until_ns, after);
        let sample = samples.last();
        if (sample.at_ns > until_ns) == after && (before matches Some(most) ==> sample.anon > most) {
            Some(sample.anon)
        } else {
            before
        }
    }
}

pub fn phase_peak(samples: &[Sample], until_ns: u64, after: bool) -> (out: Option<u64>)
    ensures
        out == phase_peak_of(samples@, until_ns, after),
{
    let mut most: Option<u64> = None;
    let mut i: usize = 0;
    assert(samples@.take(0) =~= seq![]);
    while i < samples.len()
        invariant
            i <= samples@.len(),
            most == phase_peak_of(samples@.take(i as int), until_ns, after),
        decreases samples@.len() - i,
    {
        let anon: u64 = samples[i].anon;
        if (samples[i].at_ns > until_ns) == after {
            match most {
                Some(before) => {
                    if anon > before {
                        most = Some(anon);
                    }
                },
                None => {
                    most = Some(anon);
                },
            }
        }
        i = i + 1;
        assert(samples@.take(i as int).drop_last() =~= samples@.take(i - 1));
    }
    assert(samples@.take(i as int) =~= samples@);
    most
}

/// The most kills that a sample counted, zero without samples.
pub open spec fn kills_of(samples: Seq<Sample>) -> u64
    decreases samples.len(),
{
    if samples.len() == 0 {
        0
    } else {
        let before = kills_of(samples.drop_last());
        if samples.last().oom_kill > before {
            samples.last().oom_kill
        } else {
            before
        }
    }
}

pub fn oom_kills(samples: &[Sample]) -> (kills: u64)
    ensures
        kills == kills_of(samples@),
{
    let mut kills: u64 = 0;
    let mut i: usize = 0;
    assert(samples@.take(0) =~= seq![]);
    while i < samples.len()
        invariant
            i <= samples@.len(),
            kills == kills_of(samples@.take(i as int)),
        decreases samples@.len() - i,
    {
        if samples[i].oom_kill > kills {
            kills = samples[i].oom_kill;
        }
        i = i + 1;
        assert(samples@.take(i as int).drop_last() =~= samples@.take(i - 1));
    }
    assert(samples@.take(i as int) =~= samples@);
    kills
}

// ------------------------------------------------------------------ the limit
/// What is wrong with the limits that a cgroup has: they have to be readable, and
/// those that were asked for, or the run measures nothing.
pub open spec fn limits_problem(
    max: Option<Seq<char>>,
    max_path: Seq<char>,
    swap: Option<Seq<char>>,
    swap_path: Seq<char>,
    limit_bytes: u64,
) -> Option<Seq<char>> {
    match max {
        None => Some("cannot read "@ + max_path),
        Some(max) => if parsed_unsigned(max, u64::MAX as nat) != Some(limit_bytes as nat) {
            Some(
                max_path + " reads "@ + max + ", not the "@ + decimal(limit_bytes as nat)
                    + " bytes this run asked for"@,
            )
        } else {
            match swap {
                None => Some("cannot read "@ + swap_path),
                Some(swap) => if parsed_unsigned(swap, u64::MAX as nat) != Some(0nat) {
                    Some(
                        swap_path + " reads "@ + swap
                            + ": with swap available the anonymous peak is a statement about the host's swap policy"@,
                    )
                } else {
                    None
                },
            }
        },
    }
}

fn unreadable(path: &str) -> (message: String)
    ensures
        message@ == "cannot read "@ + path@,
{
    let mut message = "cannot read ".to_owned();
    message.append(path);
    message
}

fn is_number(text: &str, expected: u64) -> (same: bool)
    ensures
        same == (parsed_unsigned(text@, u64::MAX as nat) == Some(expected as nat)),
{
    let chars = chars_of(text);
    match parse_unsigned(chars.as_slice(), u64::MAX) {
        Some(number) => number == expected,
        None => false,
    }
}

/// Holds the limits of a cgroup, whose texts are given without space around them,
/// against those that were asked for.
pub fn verify_limits(
    max: Option<&str>,
    max_path: &str,
    swap: Option<&str>,
    swap_path: &str,
    limit_bytes: u64,
) -> (out: Result<(), String>)
    ensures
        match out {
            Ok(_) => limits_problem(
                text_read(max),
                max_path@,
                text_read(swap),
                swap_path@,
                limit_bytes,
            ) is None,
            Err(message) => limits_problem(
                text_read(max),
                max_path@,
                text_read(swap),
                swap_path@,
                limit_bytes,
            ) == Some(message@),
        },
{
    let max = match max {
        Some(max) => max,
        None => {
            return Err(unreadable(max_path));
        },
    };
    if !is_number(max, limit_bytes) {
        let mut message = max_path.to_owned();
        message.append(" reads ");
        message.append(max);
        message.append(", not the ");
        push_decimal(&mut message, limit_bytes);
        message.append(" bytes this run asked for");
        return Err(message);
    }
    let swap = match swap {
        Some(swap) => swap,
        None => {
            return Err(unreadable(swap_path));
        },
    };
    if !is_number(swap, 0) {
        let mut message = swap_path.to_owned();
        message.append(" reads ");
        message.append(swap);
        message.append(
            ": with swap available the anonymous peak is a statement about the host's swap policy",
        );
        return Err(message);
    }
    Ok(())
}

/// Whether the memory controller is among those that the root of the cgroups
/// delegates.
pub fn check_controllers(controllers: &str) -> (out: Result<(), String>)
    ensures
        match out {
            Ok(_) => words(controllers@).contains("memory"@),
            Err(message) => !words(controllers@).contains("memory"@) && message@
                == "the cgroup v2 root does not delegate the memory controller: "@ + trimmed(
                controllers@,
            ),
        },
{
    let chars = chars_of(controllers);
    let names = words_of(chars.as_slice());
    let mut i: usize = 0;
    while i < names.len()
        invariant
            i <= names@.len(),
            names@.len() == words(controllers@).len(),
            forall|j: int| 0 <= j < names@.len() ==> (#[trigger] names@[j])@ == words(
                controllers@,
            )[j],
            forall|j: int| 0 <= j < i ==> #[trigger] words(controllers@)[j] != "memory"@,
        decreases names@.len() - i,
    {
        if is_word(names[i].as_slice(), "memory") {
            assert(words(controllers@)[i as int] == "memory"@);
            return Ok(());
        }
        i = i + 1;
    }
    let plain = trim(chars.as_slice());
    let mut message = "the cgroup v2 root does not delegate the memory controller: ".to_owned();
    message.append(text_of(plain.as_slice()).as_str());
    Err(message)
}

// ------------------------------------------------------------------- the log
/// Whether a character ends an escape sequence.
pub open spec fn is_letter(c: char) -> bool {
    ('a' <= c && c <= 'z') || ('A' <= c && c <= 'Z')
}

/// What stands behind the first letter.
pub open spec fn behind_letter(text: Seq<char>) -> Seq<char>
    decreases text.len(),
{
    if text.len() == 0 {
        text
    } else if is_letter(text[0]) {
        text.drop_first()
    } else {
        behind_letter(text.drop_first())
    }
}

proof fn behind_letter_bounds(text: Seq<char>)
    ensures
        behind_letter(text).len() <= text.len(),
        behind_letter(text) == text.skip(text.len() - behind_letter(text).len()),
    decreases text.len(),
{
    if text.len() == 0 || is_letter(text[0]) {
        assert(behind_letter(text) =~= text.skip(text.len() - behind_letter(text).len()));
    } else {
        behind_letter_bounds(text.drop_first());
        assert(behind_letter(text) =~= text.skip(text.len() - behind_letter(text).len()));
    }
}

/// A line without its escape sequences: each begins with the escape character and
/// ends at the next letter.
pub open spec fn plain_line(line: Seq<char>) -> Seq<char>
    decreases line.len(),
    via plain_line_decreases
{
    if line.len() == 0 {
        seq![]
    } else if line[0] != '\u{1b}' {
        seq![line[0]] + plain_line(line.drop_first())
    } else {
        plain_line(behind_letter(line.drop_first()))
    }
}

#[via_fn]
proof fn plain_line_decreases(line: Seq<char>) {
    if line.len() > 0 {
        behind_letter_bounds(line.drop_first());
    }
}

fn skip_escape(line: &[char], from: usize) -> (to: usize)
    requires
        from <= line@.len(),
    ensures
        from <= to <= line@.len(),
        line@.skip(to as int) == behind_letter(line@.skip(from as int)),
{
    let mut i: usize = from;
    while i < line.len()
        invariant
            from <= i <= line@.len(),
            behind_letter(line@.skip(from as int)) == behind_letter(line@.skip(i as int)),
        decreases line@.len() - i,
    {
        let c: char = line[i];
        assert(line@.skip(i as int)[0] == c);
        assert(line@.skip(i as int).drop_first() =~= line@.skip(i + 1));
        i = i + 1;
        if ('a' <= c && c <= 'z') || ('A' <= c && c <= 'Z') {
            return i;
        }
    }
    i
}

/// A line without its escape sequences.
pub fn strip_ansi(line: &str) -> (out: String)
    ensures
        out@ == plain_line(line@),
{
    let chars = chars_of(line);
    strip(chars.as_slice())
}

fn strip(line: &[char]) -> (text: String)
    ensures
        text@ == plain_line(line@),
{
    let mut out: Vec<char> = Vec::new();
    let mut i: usize = 0;
    assert(line@.skip(0) =~= line@);
    assert(out@ + plain_line(line@.skip(0)) =~= plain_line(line@));
    while i < line.len()
        invariant
            i <= line@.len(),
            out@ + plain_line(line@.skip(i as int)) == plain_line(line@),
        decreases line@.len() - i,
    {
        let c: char = line[i];
        let ghost rest = line@.skip(i as int);
        assert(rest[0] == c);
        assert(rest.drop_first() =~= line@.skip(i + 1));
        if c != '\u{1b}' {
            out.push(c);
            i = i + 1;
            assert(out@ + plain_line(line@.skip(i as int)) =~= plain_line(line@));
        } else {
            i = skip_escape(line, i + 1);
        }
    }
    assert(line@.skip(i as int) =~= Seq::<char>::empty());
    assert(plain_line(line@.skip(i as int)) =~= Seq::<char>::empty());
    assert(out@ =~= plain_line(line@));
    text_of(out.as_slice())
}

/// The lines that are not blank.
pub open spec fn filled_lines(list: Seq<Seq<char>>) -> Seq<Seq<char>>
    decreases list.len(),
{
    if list.len() == 0 {
        seq![]
    } else if trimmed(list.last()).len() == 0 {
        filled_lines(list.drop_last())
    } else {
        filled_lines(list.drop_last()).push(plain_line(list.last()))
    }
}

/// The last lines of a log that are not blank, without escape sequences.
pub open spec fn tail_of(text: Seq<char>, count: nat) -> Seq<Seq<char>> {
    let all = filled_lines(lines(text));
    if all.len() <= count {
        all
    } else {
        all.skip(all.len() - count)
    }
}

fn fill_lines(all: &Vec<Vec<char>>, Ghost(list): Ghost<Seq<Seq<char>>>) -> (out: Vec<String>)
    requires
        all@.len() == list.len(),
        forall|j: int| 0 <= j < all@.len() ==> (#[trigger] all@[j])@ == list[j],
    ensures
        texts_view(out@) == filled_lines(list),
{
    let mut out: Vec<String> = Vec::new();
    let mut i: usize = 0;
    assert(texts_view(out@) =~= filled_lines(list.take(0)));
    while i < all.len()
        invariant
            i <= all@.len(),
            all@.len() == list.len(),
            forall|j: int| 0 <= j < all@.len() ==> (#[trigger] all@[j])@ == list[j],
            texts_view(out@) == filled_lines(list.take(i as int)),
        decreases all@.len() - i,
    {
        let ghost before = out@;
        assert(list.take(i + 1).drop_last() =~= list.take(i as int));
        let plain = trim(all[i].as_slice());
        if plain.len() > 0 {
            let text = strip(all[i].as_slice());
            let ghost view = text@;
            out.push(text);
            assert(texts_view(out@) =~= texts_view(before).push(view));
        }
        i = i + 1;
    }
    assert(list.take(i as int) =~= list);
    out
}

/// The last lines of a log.
pub fn log_tail(text: &str, count: usize) -> (out: Vec<String>)
    ensures
        texts_view(out@) == tail_of(text@, count as nat),
{
    let chars = chars_of(text);
    let all = lines_of(chars.as_slice());
    let filled = fill_lines(&all, Ghost(lines(text@)));
    if filled.len() <= count {
        return filled;
    }
    let mut out: Vec<String> = Vec::new();
    let start: usize = filled.len() - count;
    let mut i: usize = start;
    while i < filled.len()
        invariant
            start <= i <= filled@.len(),
            out@.len() == i - start,
            forall|j: int| 0 <= j < out@.len() ==> (#[trigger] out@[j])@ == filled@[start + j]@,
        decreases filled@.len() - i,
    {
        out.push(filled[i].clone());
        i = i + 1;
    }
    assert(texts_view(out@) =~= texts_view(filled@).skip(start as int));
    out
}

// ------------------------------------------------------------------ the probe
/// The status that the head of an answer gives.
pub open spec fn status_of(head: Seq<char>) -> Option<nat> {
    let parts = words(head);
    if parts.len() < 2 {
        None
    } else {
        parsed_unsigned(parts[1], u16::MAX as nat)
    }
}

/// Reads the status in the head of an answer.
pub fn http_status(head: &str) -> (out: Result<u16, String>)
    ensures
        match out {
            Ok(status) => status_of(head@) == Some(status as nat),
            Err(message) => status_of(head@) is None && message@ == "unparsable status line "@
                + quoted(head@),
        },
{
    let chars = chars_of(head);
    let parts = words_of(chars.as_slice());
    if parts.len() >= 2 {
        if let Some(status) = parse_unsigned(parts[1].as_slice(), u16::MAX as u64) {
            return Ok(status as u16);
        }
    }
    let mut message = "unparsable status line ".to_owned();
    message.append(quote(head).as_str());
    Err(message)
}

} // verus!
