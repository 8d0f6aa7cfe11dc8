//! What is read about the server rather than from it: its resident memory, and
//! the series that it publishes.

use vstd::prelude::*;
use vstd::string::*;
use vstd::utf8::*;

use crate::journal::record::utf8_text;
use crate::text::{
    chars_of, decimal, field_of, find_field, lines, lines_of, parse_unsigned, parsed_unsigned,
    push_decimal, subslice, text_of, trim, trimmed, words, words_of,
};

verus! {

/// The resident memory of the server, now and at its highest.
#[derive(Clone, Copy, Debug, PartialEq, Eq, Structural)]
pub struct Memory {
    pub vm_rss_bytes: u64,
    pub vm_hwm_bytes: u64,
}

// --------------------------------------------------------------------- memory
/// Text without the `kB` at its end, however often it stands there.
pub open spec fn without_unit(text: Seq<char>) -> Seq<char>
    decreases text.len(),
{
    if text.len() >= 2 && text[text.len() - 2] == 'k' && text[text.len() - 1] == 'B' {
        without_unit(text.take(text.len() - 2))
    } else {
        text
    }
}

fn drop_unit(text: &[char]) -> (out: Vec<char>)
    ensures
        out@ == without_unit(text@),
{
    let mut end: usize = text.len();
    assert(text@.take(end as int) =~= text@);
    while end >= 2 && text[end - 2] == 'k' && text[end - 1] == 'B'
        invariant
            end <= text@.len(),
            without_unit(text@) == without_unit(text@.take(end as int)),
        decreases end,
    {
        assert(text@.take(end as int).take(end - 2) =~= text@.take(end - 2));
        end = end - 2;
    }
    let out = subslice(text, 0, end);
    assert(out@ =~= text@.take(end as int));
    out
}

/// A size in bytes that a status text gives in kilobytes, in the first line that
/// begins with a name.
pub open spec fn size_field(status: Seq<char>, name: Seq<char>) -> Option<nat> {
    match field_of(lines(status), name) {
        None => None,
        Some(value) => match parsed_unsigned(
            trimmed(without_unit(trimmed(value))),
            u64::MAX as nat,
        ) {
            None => None,
            Some(kilobytes) => if kilobytes * 1024 <= u64::MAX {
                Some(kilobytes * 1024)
            } else {
                None
            },
        },
    }
}

fn find_size(status: &str, name: &str) -> (out: Option<u64>)
    ensures
        match out {
            Some(bytes) => size_field(status@, name@) == Some(bytes as nat),
            None => size_field(status@, name@) is None,
        },
{
    match find_field(status, name) {
        None => None,
        Some(value) => {
            let plain = trim(value.as_slice());
            let number = drop_unit(plain.as_slice());
            let number = trim(number.as_slice());
            match parse_unsigned(number.as_slice(), u64::MAX) {
                None => None,
                Some(kilobytes) => kilobytes.checked_mul(1024),
            }
        },
    }
}

/// Where the status of a process is read.
pub open spec fn status_path(pid: u32) -> Seq<char> {
    "/proc/"@ + decimal(pid as nat) + "/status"@
}

fn write_status_path(pid: u32) -> (path: String)
    ensures
        path@ == status_path(pid),
{
    let mut path = "/proc/".to_owned();
    push_decimal(&mut path, pid as u64);
    path.append("/status");
    path
}

/// The memory of a process out of its status text. A size that is not there is an
/// error, never zero.
pub fn read_memory(pid: u32, status: &str) -> (out: Result<Memory, String>)
    ensures
        match out {
            Ok(memory) => {
                &&& size_field(status@, "VmRSS:"@) == Some(memory.vm_rss_bytes as nat)
                &&& size_field(status@, "VmHWM:"@) == Some(memory.vm_hwm_bytes as nat)
            },
            Err(message) => if size_field(status@, "VmRSS:"@) is None {
                message@ == status_path(pid) + " has no VmRSS"@
            } else {
                &&& size_field(status@, "VmHWM:"@) is None
                &&& message@ == status_path(pid) + " has no VmHWM"@
            },
        },
{
    let vm_rss_bytes: u64 = match find_size(status, "VmRSS:") {
        Some(bytes) => bytes,
        None => {
            let mut message = write_status_path(pid);
            message.append(" has no VmRSS");
            return Err(message);
        },
    };
    match find_size(status, "VmHWM:") {
        Some(vm_hwm_bytes) => Ok(Memory { vm_rss_bytes, vm_hwm_bytes }),
        None => {
            let mut message = write_status_path(pid);
            message.append(" has no VmHWM");
            Err(message)
        },
    }
}

// -------------------------------------------------------------------- metrics
/// A series as it stands in the published text: its name, labels included, and
/// what is given as its value.
pub struct MetricLine {
    pub name: String,
    pub value: String,
}

pub type MetricView = (Seq<char>, Seq<char>);

impl View for MetricLine {
    type V = MetricView;

    open spec fn view(&self) -> MetricView {
        (self.name@, self.value@)
    }
}

/// What a line of the text says: nothing where it is blank, a comment, or one word.
pub open spec fn metric_of(line: Seq<char>) -> Option<MetricView> {
    let text = trimmed(line);
    let parts = words(text);
    if text.len() == 0 || text[0] == '#' || parts.len() < 2 {
        None
    } else {
        Some((parts[0], parts[1]))
    }
}

/// What the lines say, in their order.
pub open spec fn metrics_in(list: Seq<Seq<char>>) -> Seq<MetricView>
    decreases list.len(),
{
    if list.len() == 0 {
        seq![]
    } else {
        let before = metrics_in(list.drop_last());
        match metric_of(list.last()) {
            Some(metric) => before.push(metric),
            None => before,
        }
    }
}

/// The series of a published text. What is no text has none.
pub open spec fn metric_lines_of(body: Seq<u8>) -> Seq<MetricView> {
    if valid_utf8(body) {
        metrics_in(lines(decode_utf8(body)))
    } else {
        seq![]
    }
}

pub open spec fn metrics_view(list: Seq<MetricLine>) -> Seq<MetricView> {
    list.map_values(|metric: MetricLine| metric@)
}

fn read_line(line: &[char]) -> (out: Option<MetricLine>)
    ensures
        match out {
            Some(metric) => metric_of(line@) == Some(metric@),
            None => metric_of(line@) is None,
        },
{
    let text = trim(line);
    if text.len() == 0 || text[0] == '#' {
        return None;
    }
    let parts = words_of(text.as_slice());
    if parts.len() < 2 {
        return None;
    }
    Some(MetricLine { name: text_of(parts[0].as_slice()), value: text_of(parts[1].as_slice()) })
}

/// Reads the series of a published text. The name keeps the label set, so that
/// each set is a series of its own.
pub fn metric_lines(body: &[u8]) -> (out: Vec<MetricLine>)
    ensures
        metrics_view(out@) == metric_lines_of(body@),
{
    broadcast use encode_utf8_decode_utf8;

    let mut out: Vec<MetricLine> = Vec::new();
    match utf8_text(body) {
        Err(_) => {},
        Ok(text) => {
            assert(decode_utf8(body@) == text@);
            let chars = chars_of(text);
            let all = lines_of(chars.as_slice());
            read_lines(&all, Ghost(lines(text@)), &mut out);
        },
    }
    assert(metrics_view(out@) =~= metric_lines_of(body@));
    out
}

fn read_lines(all: &Vec<Vec<char>>, Ghost(list): Ghost<Seq<Seq<char>>>, out: &mut Vec<MetricLine>)
    requires
        old(out)@.len() == 0,
        all@.len() == list.len(),
        forall|j: int| 0 <= j < all@.len() ==> (#[trigger] all@[j])@ == list[j],
    ensures
        metrics_view(final(out)@) == metrics_in(list),
{
    let mut i: usize = 0;
    assert(metrics_view(out@) =~= metrics_in(list.take(0)));
    while i < all.len()
        invariant
            i <= all@.len(),
            all@.len() == list.len(),
            forall|j: int| 0 <= j < all@.len() ==> (#[trigger] all@[j])@ == list[j],
            metrics_view(out@) == metrics_in(list.take(i as int)),
        decreases all@.len() - i,
    {
        let ghost before = out@;
        assert(list.take(i + 1).drop_last() =~= list.take(i as int));
        if let Some(metric) = read_line(all[i].as_slice()) {
            let ghost view = metric@;
            out.push(metric);
            assert(metrics_view(out@) =~= metrics_view(before).push(view));
        }
        i = i + 1;
    }
    assert(list.take(i as int) =~= list);
}

/// The name of the counter of an object store operation.
pub fn operation_counter(kind: &str) -> (name: String)
    ensures
        name@ == "loggytracy_object_store_operations_total{kind=\""@ + kind@ + "\"}"@,
{
    let mut name = "loggytracy_object_store_operations_total{kind=\"".to_owned();
    name.append(kind);
    name.append("\"}");
    name
}

} // verus!
