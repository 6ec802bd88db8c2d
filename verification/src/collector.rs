//! Collecting the file descriptors that parse out of scanned candidates.
use crate::descriptor::{FileDescriptor, FileDescriptorView};
use crate::proto::{parse_file, parsed_file};
use crate::scanner::{
    candidate_name_bytes, is_candidate_at, lemma_next_candidate_at_bounds, next_candidate_at,
    resume_at, scan_file, scan_trace, CandidateHandler,
};
use crate::wire::{
    agree_upto, consume_one_message, law_reframing_is_stable, leb, lemma_consume_bounds,
    lemma_read_varint_prefix, spec_consume, spec_read_varint, spec_skip_field, varint_len_from,
};
use vstd::prelude::*;
use vstd::slice::slice_subrange;
use vstd::string::StringExecFns;
use vstd::utf8::decode_utf8;

verus! {

/// Result of attempting to parse a protobuf candidate.
#[derive(Debug)]
pub enum CandidateResult {
    Parsed,
    Invalid(String),
}

/// Collects successfully parsed file descriptors from binary data.
pub struct ProtobufCollector {
    pub candidates: Vec<FileDescriptor>,
}

/// Some candidate in `candidates` is called `name`.
pub open spec fn has_name(candidates: Seq<FileDescriptor>, name: Seq<char>) -> bool {
    exists|i: int| 0 <= i < candidates.len() && (#[trigger] candidates[i]).name@ == name
}

/// `a` is `b` followed by more descriptors.
pub open spec fn extends(b: Seq<FileDescriptor>, a: Seq<FileDescriptor>) -> bool {
    b.len() <= a.len() && forall|i: int| 0 <= i < b.len() ==> a[i] == b[i]
}

/// What scanning `data` from position `i` does to the collected descriptors
/// `before`, ending with `after`: at each candidate, a name already collected
/// is passed over one byte on; otherwise the message framed there is parsed,
/// the descriptor it parses to is added (it carries the candidate's name when
/// the name's length byte is below 0x80, a varint of one byte), and scanning
/// resumes past the bytes the message spans.
pub open spec fn scan_run(
    data: Seq<u8>,
    i: int,
    before: Seq<FileDescriptor>,
    after: Seq<FileDescriptor>,
) -> bool
    decreases data.len() - i,
{
    match next_candidate_at(data, i) {
        None => after == before,
        Some(p) => {
            proof {
                lemma_next_candidate_at_bounds(data, i);
            }
            let len = data.len() as int;
            let rest = data.subrange(p, len);
            if has_name(before, decode_utf8(candidate_name_bytes(data, p))) {
                scan_run(data, resume_at(len, p, Some(1usize)), before, after)
            } else {
                let n = spec_consume(rest, 0, false);
                let consumed = if n > 0 {
                    Some(n as usize)
                } else {
                    None
                };
                if n > 0 && parsed_file(rest.subrange(0, n)) is Ok {
                    &&& after.len() > before.len()
                    &&& parsed_file(rest.subrange(0, n)) == Ok::<FileDescriptorView, Seq<char>>(
                        after[before.len() as int]@,
                    )
                    &&& rest[1] < 0x80 ==> after[before.len() as int].name@ == decode_utf8(
                        candidate_name_bytes(data, p),
                    )
                    &&& scan_run(
                        data,
                        resume_at(len, p, consumed),
                        before.push(after[before.len() as int]),
                        after,
                    )
                } else {
                    scan_run(data, resume_at(len, p, consumed), before, after)
                }
            }
        },
    }
}

/// A scan only adds descriptors after those it started with.
pub proof fn lemma_scan_run_extends(
    data: Seq<u8>,
    i: int,
    before: Seq<FileDescriptor>,
    after: Seq<FileDescriptor>,
)
    requires
        scan_run(data, i, before, after),
    ensures
        extends(before, after),
    decreases data.len() - i,
{
    lemma_next_candidate_at_bounds(data, i);
    match next_candidate_at(data, i) {
        None => {},
        Some(p) => {
            let len = data.len() as int;
            let rest = data.subrange(p, len);
            if has_name(before, decode_utf8(candidate_name_bytes(data, p))) {
                lemma_scan_run_extends(data, resume_at(len, p, Some(1usize)), before, after);
            } else {
                let n = spec_consume(rest, 0, false);
                let consumed = if n > 0 {
                    Some(n as usize)
                } else {
                    None
                };
                if n > 0 && parsed_file(rest.subrange(0, n)) is Ok {
                    let mid = before.push(after[before.len() as int]);
                    lemma_scan_run_extends(data, resume_at(len, p, consumed), mid, after);
                    assert forall|k: int| 0 <= k < before.len() implies after[k] == before[k] by {
                        assert(mid[k] == before[k]);
                    }
                } else {
                    lemma_scan_run_extends(data, resume_at(len, p, consumed), before, after);
                }
            }
        },
    }
}

/// A byte below 0x80 is a varint of its own.
proof fn lemma_one_byte_varint(data: Seq<u8>, pos: int)
    requires
        0 <= pos < data.len(),
        data[pos] < 0x80,
    ensures
        spec_read_varint(data, pos) == Some((data[pos] as u64, pos + 1)),
{
    assert(varint_len_from(data, pos, 0) == Some(1nat));
    let s = data.subrange(pos, pos + 1);
    assert(leb(s.drop_first()) == 0);
    assert(s[0] == data[pos]);
    assert(leb(s) == data[pos] as nat);
}

/// A candidate whose length byte is below 0x80 frames a message whose first
/// field is its name: the walk takes in the whole name field, the framed bytes
/// are again framed whole, and their first field's length is that byte.
proof fn lemma_candidate_frame(data: Seq<u8>)
    requires
        is_candidate_at(data, 0),
        data[1] < 0x80,
    ensures
        ({
            let n = spec_consume(data, 0, false);
            let f = data.subrange(0, n);
            &&& 2 + data[1] <= n
            &&& f.len() > 0 && f[0] == 10
            &&& spec_consume(f, 0, false) == f.len()
            &&& spec_read_varint(f, 1) == Some((data[1] as u64, 2int))
            &&& f.subrange(2, 2 + data[1]) == candidate_name_bytes(data, 0)
        }),
{
    let b = data[1];
    lemma_one_byte_varint(data, 0);
    lemma_one_byte_varint(data, 1);
    let tag: u64 = 10;
    assert(tag >> 3u64 == 1) by (bit_vector)
        requires tag == 10;
    assert(tag & 7u64 == 2) by (bit_vector)
        requires tag == 10;
    assert(spec_skip_field(data, 1, 2) == Some(2 + b));
    lemma_consume_bounds(data, 2 + b, true);
    assert(spec_consume(data, 0, false) == spec_consume(data, 2 + b, true));
    law_reframing_is_stable(data);
    let n = spec_consume(data, 0, false);
    let f = data.subrange(0, n);
    assert(agree_upto(data, f, 2));
    lemma_read_varint_prefix(data, f, 1);
    assert(f.subrange(2, 2 + b) =~= candidate_name_bytes(data, 0));
}

/// No two descriptors in `c` share a name.
pub open spec fn names_distinct(c: Seq<FileDescriptor>) -> bool {
    forall|i: int, j: int| 0 <= i < j < c.len() ==> c[i].name@ != c[j].name@
}

/// The message framed at the candidate at `i` parses.
pub open spec fn framed_parses(data: Seq<u8>, i: int) -> bool {
    let rest = data.subrange(i, data.len() as int);
    let n = spec_consume(rest, 0, false);
    n > 0 && parsed_file(rest.subrange(0, n)) is Ok
}

/// Each candidate in `data` whose framed message parses gives the length of
/// its name in one byte below 0x80, which the parser reads as the same length,
/// so that the parsed name is the scanned one.
pub open spec fn parsed_names_are_scanned(data: Seq<u8>) -> bool {
    forall|i: int| #[trigger] is_candidate_at(data, i) && framed_parses(data, i) ==> data[i + 1] < 0x80
}

/// A scan never collects a name twice: when the names collected before it are
/// distinct and each candidate whose message parses states its name's length
/// in one byte below 0x80, the names collected after it are distinct too.
pub proof fn law_scan_keeps_names_distinct(
    data: Seq<u8>,
    i: int,
    before: Seq<FileDescriptor>,
    after: Seq<FileDescriptor>,
)
    requires
        scan_run(data, i, before, after),
        names_distinct(before),
        parsed_names_are_scanned(data),
    ensures
        names_distinct(after),
    decreases data.len() - i,
{
    lemma_next_candidate_at_bounds(data, i);
    match next_candidate_at(data, i) {
        None => {},
        Some(p) => {
            let len = data.len() as int;
            let rest = data.subrange(p, len);
            let name = decode_utf8(candidate_name_bytes(data, p));
            if has_name(before, name) {
                law_scan_keeps_names_distinct(data, resume_at(len, p, Some(1usize)), before, after);
            } else {
                let n = spec_consume(rest, 0, false);
                let consumed = if n > 0 {
                    Some(n as usize)
                } else {
                    None
                };
                if n > 0 && parsed_file(rest.subrange(0, n)) is Ok {
                    let mid = before.push(after[before.len() as int]);
                    assert(rest[1] == data[p + 1]);
                    assert forall|a: int, b: int| 0 <= a < b < mid.len() implies mid[a].name@
                        != mid[b].name@ by {
                        if b == before.len() {
                            assert(mid[a] == before[a]);
                        }
                    }
                    law_scan_keeps_names_distinct(data, resume_at(len, p, consumed), mid, after);
                } else {
                    law_scan_keeps_names_distinct(data, resume_at(len, p, consumed), before, after);
                }
            }
        },
    }
}

impl ProtobufCollector {
    pub fn new() -> (r: Self)
        ensures
            r.candidates@.len() == 0,
    {
        Self { candidates: Vec::new() }
    }

    /// Attempts to parse a file descriptor from the start of `data`.
    ///
    /// Returns `(result, bytes_consumed)`: whether parsing succeeded (or the
    /// error message), and how many bytes the message spans. A descriptor that
    /// parses is added to the candidates.
    pub fn try_parse_candidate(&mut self, data: &[u8]) -> (r: (CandidateResult, usize))
        ensures
            ({
                let n = spec_consume(data@, 0, false);
                if n == 0 {
                    &&& r.1 == 0
                    &&& r.0 matches CandidateResult::Invalid(m) && m@ == "No data was consumed"@
                    &&& final(self).candidates@ == old(self).candidates@
                } else {
                    &&& r.1 == n
                    &&& match parsed_file(data@.subrange(0, n)) {
                        Ok(v) => {
                            &&& r.0 is Parsed
                            &&& final(self).candidates@.len() == old(self).candidates@.len() + 1
                            &&& extends(old(self).candidates@, final(self).candidates@)
                            &&& final(self).candidates@.last()@ == v
                        },
                        Err(m) => {
                            &&& r.0 matches CandidateResult::Invalid(t) && t@ == m
                            &&& final(self).candidates@ == old(self).candidates@
                        },
                    }
                }
            }),
            r.0 is Parsed && is_candidate_at(data@, 0) && data@[1] < 0x80
                ==> final(self).candidates@.last().name@ == decode_utf8(
                candidate_name_bytes(data@, 0),
            ),
    {
        let framed = consume_one_message(data);
        let bytes_consumed = match framed {
            Some(n) => n,
            None => 0,
        };
        assert(bytes_consumed == spec_consume(data@, 0, false));
        if bytes_consumed == 0 {
            let message = String::from_str("No data was consumed");
            return (CandidateResult::Invalid(message), 0);
        }
        let message_bytes = slice_subrange(data, 0, bytes_consumed);
        match parse_file(message_bytes) {
            Ok(descriptor) => {
                proof {
                    if is_candidate_at(data@, 0) && data@[1] < 0x80 {
                        lemma_candidate_frame(data@);
                        assert(message_bytes@ == data@.subrange(0, bytes_consumed as int));
                    }
                }
                self.candidates.push(descriptor);
                (CandidateResult::Parsed, bytes_consumed)
            },
            Err(message) => (CandidateResult::Invalid(message), bytes_consumed),
        }
    }

    /// Checks if a candidate with the given name already exists.
    pub fn has_candidate(&self, name: &str) -> (r: bool)
        ensures
            r == has_name(self.candidates@, name@),
    {
        let target = String::from_str(name);
        for i in 0..self.candidates.len()
            invariant
                target@ == name@,
                forall|j: int| 0 <= j < i ==> self.candidates@[j].name@ != name@,
        {
            if self.candidates[i].name == target {
                return true;
            }
        }
        false
    }
}

impl CandidateHandler for ProtobufCollector {
    /// A name already collected is passed over one byte on with the candidates
    /// unchanged; otherwise the framed message is consumed, and one descriptor
    /// is added exactly when it parses.
    open spec fn handles(
        &self,
        name: Seq<char>,
        buffer: Seq<u8>,
        next: Self,
        consumed: Option<usize>,
    ) -> bool {
        if has_name(self.candidates@, name) {
            consumed == Some(1usize) && next.candidates@ == self.candidates@
        } else {
            let n = spec_consume(buffer, 0, false);
            &&& consumed == (if n > 0 {
                Some(n as usize)
            } else {
                None
            })
            &&& if n > 0 && parsed_file(buffer.subrange(0, n)) is Ok {
                &&& next.candidates@.len() == self.candidates@.len() + 1
                &&& extends(self.candidates@, next.candidates@)
                &&& parsed_file(buffer.subrange(0, n)) == Ok::<FileDescriptorView, Seq<char>>(
                    next.candidates@.last()@,
                )
                &&& buffer[1] < 0x80 ==> next.candidates@.last().name@ == name
            } else {
                next.candidates@ == self.candidates@
            }
        }
    }

    /// A name already collected is skipped one byte on; otherwise the message
    /// at the start of `buffer` is parsed, and the bytes it spans are consumed.
    fn on_candidate(&mut self, name: &str, buffer: &[u8]) -> (consumed: Option<usize>)
        ensures
            has_name(old(self).candidates@, name@) ==> consumed == Some(1usize)
                && final(self).candidates@ == old(self).candidates@,
            !has_name(old(self).candidates@, name@) ==> {
                let n = spec_consume(buffer@, 0, false);
                &&& consumed == (if n > 0 {
                    Some(n as usize)
                } else {
                    None
                })
                &&& if n > 0 && parsed_file(buffer@.subrange(0, n)) is Ok {
                    &&& final(self).candidates@.len() == old(self).candidates@.len() + 1
                    &&& extends(old(self).candidates@, final(self).candidates@)
                    &&& parsed_file(buffer@.subrange(0, n)) == Ok::<FileDescriptorView, Seq<char>>(
                        final(self).candidates@.last()@,
                    )
                    &&& buffer@[1] < 0x80 ==> final(self).candidates@.last().name@ == name@
                } else {
                    final(self).candidates@ == old(self).candidates@
                }
            },
    {
        if self.has_candidate(name) {
            return Some(1);
        }
        let (_result, bytes_consumed) = self.try_parse_candidate(buffer);
        if bytes_consumed > 0 {
            Some(bytes_consumed)
        } else {
            None
        }
    }
}

/// A trace of the scan with the collector as the handler is a run of
/// `scan_run` from the first state's candidates to the last state's.
proof fn lemma_trace_is_run(
    data: Seq<u8>,
    i: int,
    states: Seq<ProtobufCollector>,
    answers: Seq<Option<usize>>,
)
    requires
        scan_trace(data, i, states, answers),
    ensures
        scan_run(data, i, states[0].candidates@, states.last().candidates@),
    decreases data.len() - i,
{
    lemma_next_candidate_at_bounds(data, i);
    match next_candidate_at(data, i) {
        None => {},
        Some(p) => {
            let len = data.len() as int;
            let rest = data.subrange(p, len);
            let next = resume_at(len, p, answers[0]);
            let tail = states.drop_first();
            lemma_trace_is_run(data, next, tail, answers.drop_first());
            assert(tail[0] == states[1]);
            assert(tail.last() == states.last());
            let before = states[0].candidates@;
            let mid = states[1].candidates@;
            let after = states.last().candidates@;
            let name = decode_utf8(candidate_name_bytes(data, p));
            if !has_name(before, name) {
                let n = spec_consume(rest, 0, false);
                if n > 0 && parsed_file(rest.subrange(0, n)) is Ok {
                    lemma_scan_run_extends(data, next, mid, after);
                    assert(after[before.len() as int] == mid.last());
                    assert(before.push(after[before.len() as int]) =~= mid);
                }
            }
        },
    }
}

/// Scans a single binary for protobuf candidates, adding those that parse to
/// the collector: the scan of `scan_file`, with the collector as the handler.
pub fn scan_binary(data: &[u8], collector: &mut ProtobufCollector)
    ensures
        scan_run(data@, 0, old(collector).candidates@, final(collector).candidates@),
        extends(old(collector).candidates@, final(collector).candidates@),
        names_distinct(old(collector).candidates@) && parsed_names_are_scanned(data@)
            ==> names_distinct(final(collector).candidates@),
{
    let ghost start = *collector;
    scan_file(data, collector);
    proof {
        let (states, answers) = choose|states: Seq<ProtobufCollector>, answers: Seq<Option<usize>>|
            #[trigger] scan_trace(data@, 0, states, answers) && states[0] == start
                && states.last() == *collector;
        lemma_trace_is_run(data@, 0, states, answers);
        lemma_scan_run_extends(data@, 0, start.candidates@, collector.candidates@);
        if names_distinct(start.candidates@) && parsed_names_are_scanned(data@) {
            law_scan_keeps_names_distinct(data@, 0, start.candidates@, collector.candidates@);
        }
    }
}

} // verus!
