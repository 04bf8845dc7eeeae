//! The system's traceroute tool: how it is called, and what its output
//! says.
//!
//! A round-trip time is kept as it is written in the output. A word is
//! taken for one if it can be read as a floating-point number.

use crate::text::{
    chars_of, contains, contains_text, float_text, is_float_text, parse_unsigned, same_text, split,
    split_on, starts_with, string_of, texts_of, tokens, tokens_of, trim, trim_of, unsigned_of,
};
use vstd::prelude::*;

verus! {

/// The caller of the system's traceroute tool.
#[derive(Debug, Clone, Copy, PartialEq, Eq, Structural)]
pub struct TracerouteExecutor;

/// The texts that a list of strings holds, in order.
pub open spec fn arguments_of(arguments: Seq<String>) -> Seq<Seq<char>> {
    Seq::new(arguments.len(), |i: int| arguments[i]@)
}

impl TracerouteExecutor {
    /// The arguments of `traceroute` on Linux and macOS: numeric output,
    /// three probes to each hop, two seconds for an answer, thirty hops at
    /// most, and the destination.
    pub fn unix_arguments(destination: &str) -> (arguments: Vec<String>)
        ensures
            arguments_of(arguments@) == seq![
                "-n"@,
                "-q"@,
                "3"@,
                "-w"@,
                "2"@,
                "-m"@,
                "30"@,
                destination@,
            ],
    {
        let mut arguments: Vec<String> = Vec::new();
        arguments.push("-n".to_owned());
        arguments.push("-q".to_owned());
        arguments.push("3".to_owned());
        arguments.push("-w".to_owned());
        arguments.push("2".to_owned());
        arguments.push("-m".to_owned());
        arguments.push("30".to_owned());
        arguments.push(destination.to_owned());
        assert(arguments_of(arguments@) =~= seq![
            "-n"@,
            "-q"@,
            "3"@,
            "-w"@,
            "2"@,
            "-m"@,
            "30"@,
            destination@,
        ]);
        arguments
    }

    /// The arguments of `tracert` on Windows: numeric output, thirty hops
    /// at most, two thousand milliseconds for an answer, and the
    /// destination.
    pub fn windows_arguments(destination: &str) -> (arguments: Vec<String>)
        ensures
            arguments_of(arguments@) == seq!["-d"@, "-h"@, "30"@, "-w"@, "2000"@, destination@],
    {
        let mut arguments: Vec<String> = Vec::new();
        arguments.push("-d".to_owned());
        arguments.push("-h".to_owned());
        arguments.push("30".to_owned());
        arguments.push("-w".to_owned());
        arguments.push("2000".to_owned());
        arguments.push(destination.to_owned());
        assert(arguments_of(arguments@) =~= seq![
            "-d"@,
            "-h"@,
            "30"@,
            "-w"@,
            "2000"@,
            destination@,
        ]);
        arguments
    }
}

/// One hop of a trace.
#[derive(Debug)]
pub struct TracerouteHop {
    /// The number of the hop, counted from one.
    pub hop_number: u32,
    /// The address of the hop, if it answered.
    pub ip: Option<String>,
    /// The name of the hop. Names are not looked up.
    pub hostname: Option<String>,
    /// The round-trip time of each probe in milliseconds, as written in the
    /// output; `None` for a probe without answer.
    pub rtt_ms: Vec<Option<String>>,
    /// Whether the hop did not answer at all.
    pub timed_out: bool,
}

/// A finished trace.
#[derive(Debug)]
pub struct TracerouteResult {
    pub destination: String,
    pub destination_ip: String,
    pub hops: Vec<TracerouteHop>,
    pub completed: bool,
    pub error: Option<String>,
}

/// The value of a [`TracerouteHop`].
pub struct HopEntry {
    pub hop_number: u32,
    pub ip: Option<Seq<char>>,
    pub hostname: Option<Seq<char>>,
    pub rtt_ms: Seq<Option<Seq<char>>>,
    pub timed_out: bool,
}

/// The texts of a list of round-trip times, in order.
pub open spec fn times_of(times: Seq<Option<String>>) -> Seq<Option<Seq<char>>> {
    Seq::new(
        times.len(),
        |i: int|
            match times[i] {
                Some(time) => Some(time@),
                None => None,
            },
    )
}

impl View for TracerouteHop {
    type V = HopEntry;

    open spec fn view(&self) -> HopEntry {
        HopEntry {
            hop_number: self.hop_number,
            ip: match self.ip {
                Some(ip) => Some(ip@),
                None => None,
            },
            hostname: match self.hostname {
                Some(hostname) => Some(hostname@),
                None => None,
            },
            rtt_ms: times_of(self.rtt_ms@),
            timed_out: self.timed_out,
        }
    }
}

/// The values of a list of hops, in order.
pub open spec fn hops_of(hops: Seq<TracerouteHop>) -> Seq<HopEntry> {
    Seq::new(hops.len(), |i: int| hops[i]@)
}

/// A hop that did not answer any of its three probes.
pub open spec fn silent_hop(hop_number: u32) -> HopEntry {
    HopEntry {
        hop_number,
        ip: None,
        hostname: None,
        rtt_ms: seq![None, None, None],
        timed_out: true,
    }
}

/// The round-trip times among the words from `at` on. A number is a time,
/// and the word after it, its unit, is passed over; a star is a probe
/// without answer; every other word is passed over.
pub open spec fn unix_times_from(words: Seq<Seq<char>>, at: int) -> Seq<Option<Seq<char>>>
    decreases words.len() - at,
{
    if at < 0 || at >= words.len() {
        Seq::empty()
    } else if is_float_text(words[at]) {
        seq![Some(words[at])] + unix_times_from(
            words,
            if at + 1 < words.len() {
                at + 2
            } else {
                at + 1
            },
        )
    } else if words[at] == "*"@ {
        seq![None] + unix_times_from(words, at + 1)
    } else {
        unix_times_from(words, at + 1)
    }
}

/// The hop that a line of `traceroute` output stands for, if it stands
/// for one: its first word is the number of the hop. A star for second
/// word marks a hop that did not answer; otherwise the second word is the
/// address of the hop, and the times follow.
pub open spec fn unix_hop_of(line: Seq<char>) -> Option<HopEntry> {
    let words = tokens_of(trim_of(line));
    if words.len() == 0 || unsigned_of(words[0], 0xFFFF_FFFF) is None {
        None
    } else {
        let hop_number = unsigned_of(words[0], 0xFFFF_FFFF)->0 as u32;
        if words.len() > 1 && words[1] == "*"@ {
            Some(silent_hop(hop_number))
        } else {
            Some(
                HopEntry {
                    hop_number,
                    ip: if words.len() > 1 {
                        Some(words[1])
                    } else {
                        None
                    },
                    hostname: None,
                    rtt_ms: unix_times_from(words, 2),
                    timed_out: false,
                },
            )
        }
    }
}

/// The hops that the given lines of `traceroute` output stand for.
pub open spec fn unix_hops_of(lines: Seq<Seq<char>>) -> Seq<HopEntry>
    decreases lines.len(),
{
    if lines.len() == 0 {
        Seq::empty()
    } else {
        match unix_hop_of(lines.last()) {
            Some(hop) => unix_hops_of(lines.drop_last()).push(hop),
            None => unix_hops_of(lines.drop_last()),
        }
    }
}

/// The round-trip times of one line of `traceroute` output.
fn unix_times(words: &Vec<Vec<char>>) -> (times: Vec<Option<String>>)
    ensures
        times_of(times@) == unix_times_from(texts_of(words@), 2),
{
    let ghost texts = texts_of(words@);
    let star = chars_of("*");
    let mut times: Vec<Option<String>> = Vec::new();
    let mut at: usize = 2;
    proof {
        assert(times_of(times@) =~= Seq::<Option<Seq<char>>>::empty());
        assert(times_of(times@) + unix_times_from(texts, 2) =~= unix_times_from(texts, 2));
    }
    while at < words.len()
        invariant
            2 <= at,
            texts == texts_of(words@),
            star@ == "*"@,
            unix_times_from(texts, 2) == times_of(times@) + unix_times_from(texts, at as int),
        decreases words.len() - at,
    {
        let word = &words[at];
        let ghost before = times_of(times@);
        assert(texts[at as int] == word@);
        if float_text(word) {
            times.push(Some(string_of(word)));
            let next: usize = if at < words.len() - 1 {
                at + 2
            } else {
                at + 1
            };
            assert(times_of(times@) =~= before.push(Some(word@)));
            assert(before + (seq![Some(word@)] + unix_times_from(texts, next as int))
                =~= before.push(Some(word@)) + unix_times_from(texts, next as int));
            at = next;
        } else if same_text(word, &star) {
            times.push(None);
            assert(times_of(times@) =~= before.push(None));
            assert(before + (seq![None] + unix_times_from(texts, at + 1)) =~= before.push(None)
                + unix_times_from(texts, at + 1));
            at = at + 1;
        } else {
            at = at + 1;
        }
    }
    assert(times_of(times@) + unix_times_from(texts, at as int) =~= times_of(times@));
    times
}

/// A hop that did not answer any of its three probes.
fn silent(hop_number: u32) -> (hop: TracerouteHop)
    ensures
        hop@ == silent_hop(hop_number),
{
    let mut rtt_ms: Vec<Option<String>> = Vec::new();
    rtt_ms.push(None);
    rtt_ms.push(None);
    rtt_ms.push(None);
    assert(times_of(rtt_ms@) =~= seq![None, None, None]);
    TracerouteHop { hop_number, ip: None, hostname: None, rtt_ms, timed_out: true }
}

/// The hop that a line of `traceroute` output stands for.
fn unix_hop(line: &Vec<char>) -> (hop: Option<TracerouteHop>)
    ensures
        match hop {
            Some(found) => unix_hop_of(line@) == Some(found@),
            None => unix_hop_of(line@) is None,
        },
{
    let words = tokens(&trim(line));
    if words.len() == 0 {
        return None;
    }
    assert(texts_of(words@)[0] == words@[0]@);
    let hop_number = match parse_unsigned(&words[0], 0xFFFF_FFFF) {
        Some(number) => number as u32,
        None => {
            return None;
        },
    };
    if words.len() > 1 {
        assert(texts_of(words@)[1] == words@[1]@);
        if same_text(&words[1], &chars_of("*")) {
            return Some(silent(hop_number));
        }
    }
    let ip = if words.len() > 1 {
        Some(string_of(&words[1]))
    } else {
        None
    };
    let rtt_ms = unix_times(&words);
    Some(TracerouteHop { hop_number, ip, hostname: None, rtt_ms, timed_out: false })
}

/// A trace that ran to its end.
fn finished(destination: &str, hops: Vec<TracerouteHop>) -> (trace: TracerouteResult)
    ensures
        trace.destination@ == destination@,
        trace.destination_ip@ == destination@,
        trace.hops == hops,
        trace.completed,
        trace.error is None,
{
    TracerouteResult {
        destination: destination.to_owned(),
        destination_ip: destination.to_owned(),
        hops,
        completed: true,
        error: None,
    }
}

impl TracerouteExecutor {
    /// Reads the hops out of what `traceroute` prints on Linux and macOS.
    /// The first line is the heading and stands for no hop; a line is what
    /// stands between line feeds. Never fails.
    pub fn parse_linux_traceroute(output: &str, destination: &str) -> (parsed: Result<
        TracerouteResult,
        String,
    >)
        ensures
            parsed is Ok,
            parsed->Ok_0.destination@ == destination@,
            parsed->Ok_0.destination_ip@ == destination@,
            parsed->Ok_0.completed,
            parsed->Ok_0.error is None,
            hops_of(parsed->Ok_0.hops@) == unix_hops_of(split_on(output@, '\n').skip(1)),
    {
        let chars = chars_of(output);
        let lines = split(&chars, '\n');
        let ghost texts = texts_of(lines@).skip(1);
        let mut hops: Vec<TracerouteHop> = Vec::new();
        let mut index: usize = 1;
        proof {
            assert(lines.len() >= 1) by {
                assert(texts_of(lines@).len() == lines@.len());
            }
            assert(texts.take(0) =~= Seq::<Seq<char>>::empty());
            assert(hops_of(hops@) =~= Seq::<HopEntry>::empty());
        }
        while index < lines.len()
            invariant
                1 <= index <= lines.len(),
                texts == texts_of(lines@).skip(1),
                hops_of(hops@) == unix_hops_of(texts.take(index - 1)),
            decreases lines.len() - index,
        {
            proof {
                assert(texts.take(index as int).drop_last() =~= texts.take(index - 1));
                assert(texts.take(index as int).last() == lines@[index as int]@);
            }
            match unix_hop(&lines[index]) {
                Some(hop) => {
                    let ghost before = hops_of(hops@);
                    hops.push(hop);
                    assert(hops_of(hops@) =~= before.push(hop@));
                },
                None => {},
            }
            index = index + 1;
        }
        assert(texts.take(texts.len() as int) =~= texts);
        Ok(finished(destination, hops))
    }

    /// Reads the hops out of what `traceroute` prints on macOS, which is
    /// laid out as on Linux.
    pub fn parse_macos_traceroute(output: &str, destination: &str) -> (parsed: Result<
        TracerouteResult,
        String,
    >)
        ensures
            parsed is Ok,
            parsed->Ok_0.destination@ == destination@,
            parsed->Ok_0.destination_ip@ == destination@,
            parsed->Ok_0.completed,
            parsed->Ok_0.error is None,
            hops_of(parsed->Ok_0.hops@) == unix_hops_of(split_on(output@, '\n').skip(1)),
    {
        Self::parse_linux_traceroute(output, destination)
    }
}

/// The round-trip times among the words after the first, up to, not
/// including, the word at `upto`. A number is a time, and `<1` is a time
/// of half a millisecond.
pub open spec fn windows_times(words: Seq<Seq<char>>, upto: int) -> Seq<Option<Seq<char>>>
    decreases upto,
{
    if upto <= 1 || upto > words.len() {
        Seq::empty()
    } else {
        let word = words[upto - 1];
        let before = windows_times(words, upto - 1);
        if is_float_text(word) {
            before.push(Some(word))
        } else if word == "<1"@ {
            before.push(Some("0.5"@))
        } else {
            before
        }
    }
}

/// Whether a word looks like an address: it is no time, and holds a point
/// or a colon.
pub open spec fn looks_like_address(word: Seq<char>) -> bool {
    !is_float_text(word) && word != "<1"@ && (word.contains('.') || word.contains(':'))
}

/// The last word that looks like an address among the words after the
/// first, up to, not including, the word at `upto`.
pub open spec fn windows_address(words: Seq<Seq<char>>, upto: int) -> Option<Seq<char>>
    decreases upto,
{
    if upto <= 1 || upto > words.len() {
        None
    } else if looks_like_address(words[upto - 1]) {
        Some(words[upto - 1])
    } else {
        windows_address(words, upto - 1)
    }
}

/// The hop that a trimmed line of `tracert` output stands for, if it
/// stands for one: its first word is the number of the hop. The hop did
/// not answer if the line says that the request timed out or holds a star;
/// otherwise its times and its address are among the words that follow.
pub open spec fn windows_hop_of(line: Seq<char>) -> Option<HopEntry> {
    let words = tokens_of(line);
    if words.len() == 0 || unsigned_of(words[0], 0xFFFF_FFFF) is None {
        None
    } else {
        let hop_number = unsigned_of(words[0], 0xFFFF_FFFF)->0 as u32;
        if contains_text(line, "Request timed out"@) || words.contains("*"@) {
            Some(silent_hop(hop_number))
        } else {
            Some(
                HopEntry {
                    hop_number,
                    ip: windows_address(words, words.len() as int),
                    hostname: None,
                    rtt_ms: windows_times(words, words.len() as int),
                    timed_out: false,
                },
            )
        }
    }
}

/// What has been read of `tracert` output: whether the heading of the
/// trace has been seen, and the hops read since.
pub struct WindowsScan {
    pub in_trace: bool,
    pub hops: Seq<HopEntry>,
}

/// What has been read after the given lines. Nothing counts before a line
/// that begins with `Tracing route`; after it every line that is not blank
/// may stand for a hop.
pub open spec fn windows_scan_of(lines: Seq<Seq<char>>) -> WindowsScan
    decreases lines.len(),
{
    if lines.len() == 0 {
        WindowsScan { in_trace: false, hops: Seq::empty() }
    } else {
        let before = windows_scan_of(lines.drop_last());
        let line = trim_of(lines.last());
        if "Tracing route"@.is_prefix_of(line) {
            WindowsScan { in_trace: true, hops: before.hops }
        } else if !before.in_trace || line.len() == 0 {
            before
        } else {
            match windows_hop_of(line) {
                Some(hop) => WindowsScan { in_trace: true, hops: before.hops.push(hop) },
                None => before,
            }
        }
    }
}

/// Whether a character occurs in a text.
fn has_char(chars: &Vec<char>, mark: char) -> (found: bool)
    ensures
        found == chars@.contains(mark),
{
    let mut index: usize = 0;
    while index < chars.len()
        invariant
            index <= chars.len(),
            forall|i: int| 0 <= i < index ==> chars@[i] != mark,
        decreases chars.len() - index,
    {
        if chars[index] == mark {
            return true;
        }
        index = index + 1;
    }
    false
}

/// Whether one of the words is the given one.
fn has_word(words: &Vec<Vec<char>>, word: &Vec<char>) -> (found: bool)
    ensures
        found == texts_of(words@).contains(word@),
{
    let mut index: usize = 0;
    while index < words.len()
        invariant
            index <= words.len(),
            forall|i: int| 0 <= i < index ==> texts_of(words@)[i] != word@,
        decreases words.len() - index,
    {
        assert(texts_of(words@)[index as int] == words@[index as int]@);
        if same_text(&words[index], word) {
            return true;
        }
        index = index + 1;
    }
    false
}

/// The hop that a trimmed line of `tracert` output stands for.
fn windows_hop(line: &Vec<char>) -> (hop: Option<TracerouteHop>)
    ensures
        match hop {
            Some(found) => windows_hop_of(line@) == Some(found@),
            None => windows_hop_of(line@) is None,
        },
{
    let words = tokens(line);
    let ghost texts = texts_of(words@);
    if words.len() == 0 {
        return None;
    }
    assert(texts[0] == words@[0]@);
    let hop_number = match parse_unsigned(&words[0], 0xFFFF_FFFF) {
        Some(number) => number as u32,
        None => {
            return None;
        },
    };
    if contains(line, &chars_of("Request timed out")) || has_word(&words, &chars_of("*")) {
        return Some(silent(hop_number));
    }
    let below_one = chars_of("<1");
    let mut rtt_ms: Vec<Option<String>> = Vec::new();
    let mut ip: Option<String> = None;
    let mut index: usize = 1;
    proof {
        assert(times_of(rtt_ms@) =~= Seq::<Option<Seq<char>>>::empty());
    }
    while index < words.len()
        invariant
            1 <= index <= words.len(),
            texts == texts_of(words@),
            below_one@ == "<1"@,
            times_of(rtt_ms@) == windows_times(texts, index as int),
            windows_address(texts, index as int) == match ip {
                Some(address) => Some(address@),
                None => None,
            },
        decreases words.len() - index,
    {
        let word = &words[index];
        let ghost before = times_of(rtt_ms@);
        assert(texts[index as int] == word@);
        if float_text(word) {
            rtt_ms.push(Some(string_of(word)));
            assert(times_of(rtt_ms@) =~= before.push(Some(word@)));
        } else if same_text(word, &below_one) {
            rtt_ms.push(Some("0.5".to_owned()));
            assert(times_of(rtt_ms@) =~= before.push(Some("0.5"@)));
        } else if has_char(word, '.') || has_char(word, ':') {
            ip = Some(string_of(word));
        }
        index = index + 1;
    }
    Some(TracerouteHop { hop_number, ip, hostname: None, rtt_ms, timed_out: false })
}

impl TracerouteExecutor {
    /// Reads the hops out of what `tracert` prints on Windows. A line is
    /// what stands between line feeds. Never fails.
    pub fn parse_windows_traceroute(output: &str, destination: &str) -> (parsed: Result<
        TracerouteResult,
        String,
    >)
        ensures
            parsed is Ok,
            parsed->Ok_0.destination@ == destination@,
            parsed->Ok_0.destination_ip@ == destination@,
            parsed->Ok_0.completed,
            parsed->Ok_0.error is None,
            hops_of(parsed->Ok_0.hops@) == windows_scan_of(split_on(output@, '\n')).hops,
    {
        let chars = chars_of(output);
        let lines = split(&chars, '\n');
        let ghost texts = texts_of(lines@);
        let heading = chars_of("Tracing route");
        let mut hops: Vec<TracerouteHop> = Vec::new();
        let mut in_trace = false;
        let mut index: usize = 0;
        proof {
            assert(texts.take(0) =~= Seq::<Seq<char>>::empty());
            assert(hops_of(hops@) =~= Seq::<HopEntry>::empty());
        }
        while index < lines.len()
            invariant
                index <= lines.len(),
                texts == texts_of(lines@),
                heading@ == "Tracing route"@,
                windows_scan_of(texts.take(index as int)) == (WindowsScan {
                    in_trace,
                    hops: hops_of(hops@),
                }),
            decreases lines.len() - index,
        {
            proof {
                assert(texts.take(index + 1).drop_last() =~= texts.take(index as int));
                assert(texts.take(index + 1).last() == lines@[index as int]@);
            }
            let line = trim(&lines[index]);
            if starts_with(&line, &heading) {
                in_trace = true;
            } else if in_trace && line.len() > 0 {
                match windows_hop(&line) {
                    Some(hop) => {
                        let ghost before = hops_of(hops@);
                        hops.push(hop);
                        assert(hops_of(hops@) =~= before.push(hop@));
                    },
                    None => {},
                }
            }
            index = index + 1;
        }
        assert(texts.take(texts.len() as int) =~= texts);
        Ok(finished(destination, hops))
    }
}

} // verus!
