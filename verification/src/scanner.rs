//! Finding embedded `FileDescriptorProto` blobs in raw binary data.
use vstd::prelude::*;
use vstd::slice::slice_subrange;
use vstd::string::StrSliceExecFns;
use vstd::utf8::{decode_utf8, valid_utf8};

verus! {

/// The byte that opens a candidate: field 1, wire type 2 (length-delimited).
pub const MARKER_START: u8 = 0x0A;

/// The characters of the pattern that a candidate's name must match:
/// `^[a-zA-Z_0-9\\/.]+\.proto$`.
pub open spec fn proto_filename_pattern() -> Seq<char> {
    seq![
        '^', '[', 'a', '-', 'z', 'A', '-', 'Z', '_', '0', '-', '9', '\\', '\\', '/', '.', ']',
        '+', '\\', '.', 'p', 'r', 'o', 't', 'o', '$',
    ]
}

/// A character that may appear in a proto file name.
pub open spec fn is_name_char(c: char) -> bool {
    ||| 'a' <= c <= 'z'
    ||| 'A' <= c <= 'Z'
    ||| '0' <= c <= '9'
    ||| c == '_'
    ||| c == '\\'
    ||| c == '/'
    ||| c == '.'
}

/// `s` ends with `.proto`.
pub open spec fn ends_with_proto(s: Seq<char>) -> bool {
    s.len() >= 6 && s.subrange(s.len() - 6, s.len() as int) == seq!['.', 'p', 'r', 'o', 't', 'o']
}

/// `s` is one or more name characters followed by `.proto`.
pub open spec fn is_proto_file_name(s: Seq<char>) -> bool {
    &&& s.len() >= 7
    &&& ends_with_proto(s)
    &&& forall|i: int| 0 <= i < s.len() ==> is_name_char(#[trigger] s[i])
}

/// Compiles `pattern` with `regex::Regex::new` and asks `Regex::is_match` about
/// `text`. Called with the file name pattern of this crate only, for which the
/// contract states what the regex syntax documents it to mean: a match is one
/// or more characters of the class `[a-zA-Z_0-9\\/.]` followed by `.proto`,
/// spanning the whole text.
#[verifier::external_body]
fn regex_is_match(pattern: &str, text: &str) -> (r: bool)
    requires
        pattern@ == proto_filename_pattern(),
    ensures
        r <==> is_proto_file_name(text@),
{
    regex::Regex::new(pattern).map_or(false, |re| re.is_match(text))
}

/// `std::str::from_utf8`: `Some` exactly when the bytes are valid UTF-8, and
/// then the decoded characters.
#[verifier::external_body]
pub(crate) fn str_from_utf8(bytes: &[u8]) -> (r: Option<&str>)
    ensures
        r is Some <==> valid_utf8(bytes@),
        r matches Some(s) ==> s@ == decode_utf8(bytes@),
{
    std::str::from_utf8(bytes).ok()
}

/// The bytes that a candidate at `i` names: `data[i + 1]` bytes after the length byte.
pub open spec fn candidate_name_bytes(data: Seq<u8>, i: int) -> Seq<u8> {
    data.subrange(i + 2, i + 2 + data[i + 1])
}

/// At `i` stands the marker, a length byte, and that many bytes that decode
/// (as UTF-8) to a proto file name.
pub open spec fn is_candidate_at(data: Seq<u8>, i: int) -> bool {
    &&& 0 <= i
    &&& i + 1 < data.len()
    &&& data[i] == MARKER_START
    &&& i + 2 + data[i + 1] <= data.len()
    &&& valid_utf8(candidate_name_bytes(data, i))
    &&& is_proto_file_name(decode_utf8(candidate_name_bytes(data, i)))
}

/// Receives the candidates that `scan_file` finds.
pub trait CandidateHandler: Sized {
    /// Handling the candidate called `name` at the start of `buffer` may take
    /// the handler from `self` to `next` with the answer `consumed`. A handler
    /// that states nothing of its steps may take any step.
    open spec fn handles(&self, name: Seq<char>, buffer: Seq<u8>, next: Self, consumed: Option<usize>) -> bool {
        true
    }

    /// Handles the candidate called `name` at the start of `buffer`, and says how
    /// many bytes it consumed (`None`: scanning goes on at the next byte).
    fn on_candidate(&mut self, name: &str, buffer: &[u8]) -> (consumed: Option<usize>)
        requires
            is_candidate_at(buffer@, 0),
            name@ == decode_utf8(candidate_name_bytes(buffer@, 0)),
        ensures
            old(self).handles(name@, buffer@, *final(self), consumed),
    ;
}

/// A trace of a scan of `data` from position `i`: `states` are the handler's
/// states and `answers` its answers. The handler handles each candidate that
/// the scan reaches, in order, going from one state to the next; the scan
/// resumes after each one as far as the answer says, and ends where no
/// candidate is left.
pub open spec fn scan_trace<H: CandidateHandler>(
    data: Seq<u8>,
    i: int,
    states: Seq<H>,
    answers: Seq<Option<usize>>,
) -> bool
    decreases data.len() - i,
{
    match next_candidate_at(data, i) {
        None => states.len() == 1 && answers.len() == 0,
        Some(p) => {
            proof {
                lemma_next_candidate_at_bounds(data, i);
            }
            &&& states.len() >= 2
            &&& answers.len() >= 1
            &&& states[0].handles(
                decode_utf8(candidate_name_bytes(data, p)),
                data.subrange(p, data.len() as int),
                states[1],
                answers[0],
            )
            &&& scan_trace(
                data,
                resume_at(data.len() as int, p, answers[0]),
                states.drop_first(),
                answers.drop_first(),
            )
        },
    }
}

/// The positions at which a scan of `data` from `i` calls the handler, given
/// the handler's answers in order.
pub open spec fn scan_calls(data: Seq<u8>, i: int, answers: Seq<Option<usize>>) -> Seq<int>
    decreases data.len() - i,
{
    match next_candidate_at(data, i) {
        None => Seq::empty(),
        Some(p) => {
            proof {
                lemma_next_candidate_at_bounds(data, i);
            }
            if answers.len() == 0 {
                Seq::empty()
            } else {
                seq![p] + scan_calls(
                    data,
                    resume_at(data.len() as int, p, answers[0]),
                    answers.drop_first(),
                )
            }
        },
    }
}

/// Two answers move the scan alike: they are equal, or one says that zero
/// bytes were consumed where the other says none.
pub open spec fn same_step(a: Option<usize>, b: Option<usize>) -> bool {
    ||| a == b
    ||| a == Some(0usize) && b is None
    ||| a is None && b == Some(0usize)
}

/// A handler that answers "zero bytes consumed" makes the scan call the same
/// candidates as one that answers "none" in its place: two scans of the same
/// data whose answers differ only so make the same calls, at the same
/// positions (so with the same names and buffers), in the same order.
pub proof fn law_zero_consumed_is_none<H1: CandidateHandler, H2: CandidateHandler>(
    data: Seq<u8>,
    i: int,
    states1: Seq<H1>,
    answers1: Seq<Option<usize>>,
    states2: Seq<H2>,
    answers2: Seq<Option<usize>>,
)
    requires
        scan_trace(data, i, states1, answers1),
        scan_trace(data, i, states2, answers2),
        forall|k: int|
            0 <= k < answers1.len() && k < answers2.len() ==> same_step(
                #[trigger] answers1[k],
                answers2[k],
            ),
    ensures
        answers1.len() == answers2.len(),
        scan_calls(data, i, answers1) == scan_calls(data, i, answers2),
    decreases data.len() - i,
{
    lemma_next_candidate_at_bounds(data, i);
    match next_candidate_at(data, i) {
        None => {},
        Some(p) => {
            let len = data.len() as int;
            assert(same_step(answers1[0], answers2[0]));
            assert(resume_at(len, p, answers1[0]) == resume_at(len, p, answers2[0]));
            let j = resume_at(len, p, answers1[0]);
            assert forall|k: int|
                0 <= k < answers1.drop_first().len() && k < answers2.drop_first().len()
                implies same_step(
                #[trigger] answers1.drop_first()[k],
                answers2.drop_first()[k],
            ) by {
                assert(same_step(answers1[k + 1], answers2[k + 1]));
            }
            law_zero_consumed_is_none(
                data,
                j,
                states1.drop_first(),
                answers1.drop_first(),
                states2.drop_first(),
                answers2.drop_first(),
            );
        },
    }
}

/// Scanning `data` takes the handler from `h` to `end`: some trace of the scan
/// starts in `h` and ends in `end`.
pub open spec fn handler_run<H: CandidateHandler>(data: Seq<u8>, h: H, end: H) -> bool {
    exists|states: Seq<H>, answers: Seq<Option<usize>>|
        #[trigger] scan_trace(data, 0, states, answers) && states[0] == h && states.last() == end
}

/// `s` ends with `.proto`.
pub fn str_ends_with_proto(s: &str) -> (r: bool)
    ensures
        r == ends_with_proto(s@),
{
    let n = s.unicode_len();
    if n < 6 {
        return false;
    }
    let r = s.get_char(n - 6) == '.' && s.get_char(n - 5) == 'p' && s.get_char(n - 4) == 'r'
        && s.get_char(n - 3) == 'o' && s.get_char(n - 2) == 't' && s.get_char(n - 1) == 'o';
    proof {
        let t = s@.subrange(n - 6, n as int);
        if r {
            assert(t =~= seq!['.', 'p', 'r', 'o', 't', 'o']);
        } else if ends_with_proto(s@) {
            assert(t[0] == s@[n - 6]);
            assert(t[1] == s@[n - 5]);
            assert(t[2] == s@[n - 4]);
            assert(t[3] == s@[n - 3]);
            assert(t[4] == s@[n - 2]);
            assert(t[5] == s@[n - 1]);
        }
    }
    r
}

/// The position of the first candidate at or after `i`.
pub open spec fn next_candidate_at(data: Seq<u8>, i: int) -> Option<int>
    decreases data.len() - i,
{
    if i < 0 || i >= data.len() {
        None
    } else if is_candidate_at(data, i) {
        Some(i)
    } else {
        next_candidate_at(data, i + 1)
    }
}

pub proof fn lemma_next_candidate_at_bounds(data: Seq<u8>, i: int)
    ensures
        next_candidate_at(data, i) matches Some(p) ==> i <= p < data.len() && is_candidate_at(
            data,
            p,
        ),
    decreases data.len() - i,
{
    if 0 <= i < data.len() && !is_candidate_at(data, i) {
        lemma_next_candidate_at_bounds(data, i + 1);
    }
}

/// The first candidate at or after `from`, with its name.
pub fn next_candidate<'a>(data: &'a [u8], from: usize) -> (r: Option<(usize, &'a str)>)
    ensures
        match r {
            Some((i, name)) => {
                &&& from <= i
                &&& is_candidate_at(data@, i as int)
                &&& name@ == decode_utf8(candidate_name_bytes(data@, i as int))
                &&& forall|j: int| from <= j < i ==> !is_candidate_at(data@, j)
                &&& next_candidate_at(data@, from as int) == Some(i as int)
            },
            None => {
                &&& forall|j: int| from <= j ==> !is_candidate_at(data@, j)
                &&& next_candidate_at(data@, from as int) is None
            },
        },
{
    let mut i = from;
    while i < data.len() && data.len() - i > 1
        invariant
            from <= i,
            forall|j: int| from <= j < i ==> !is_candidate_at(data@, j),
            next_candidate_at(data@, from as int) == next_candidate_at(data@, i as int),
        decreases data.len() - i,
    {
        if data[i] == MARKER_START {
            let expected_length = data[i + 1] as usize;
            if expected_length <= data.len() - i - 2 {
                let name_bytes = slice_subrange(data, i + 2, i + 2 + expected_length);
                assert(name_bytes@ =~= candidate_name_bytes(data@, i as int));
                if let Some(proto_name) = str_from_utf8(name_bytes) {
                    if str_ends_with_proto(proto_name) {
                        let pattern = r"^[a-zA-Z_0-9\\/.]+\.proto$";
                        proof {
                            reveal_strlit(r"^[a-zA-Z_0-9\\/.]+\.proto$");
                            assert(pattern@ =~= proto_filename_pattern());
                        }
                        if regex_is_match(pattern, proto_name) {
                            return Some((i, proto_name));
                        }
                    }
                }
            }
        }
        assert(!is_candidate_at(data@, i as int));
        assert(next_candidate_at(data@, i as int) == next_candidate_at(data@, i + 1));
        i += 1;
    }
    proof {
        if i < data.len() {
            assert(!is_candidate_at(data@, i as int));
            assert(next_candidate_at(data@, i + 1) is None);
        }
    }
    None
}

/// Where scanning resumes after the candidate at `i` in data of length `len`,
/// given what the handler consumed: `consumed` bytes on, but at least one byte
/// on and never past the end.
pub open spec fn resume_at(len: int, i: int, consumed: Option<usize>) -> int {
    match consumed {
        Some(n) => if n <= 1 {
            i + 1
        } else if n >= len - i {
            len
        } else {
            i + n
        },
        None => i + 1,
    }
}

/// Where scanning resumes after the candidate at `i`.
pub fn resume_position(len: usize, i: usize, consumed: Option<usize>) -> (r: usize)
    requires
        i < len,
    ensures
        r == resume_at(len as int, i as int, consumed),
{
    match consumed {
        Some(n) => {
            if n <= 1 {
                i + 1
            } else if n >= len - i {
                len
            } else {
                i + n
            }
        },
        None => i + 1,
    }
}

/// Scanning always moves forward and stays within the data: after a candidate
/// at `i`, it resumes past `i` and at most at the end, whatever the handler
/// answered.
pub proof fn law_scan_advances(len: int, i: int, consumed: Option<usize>)
    requires
        0 <= i < len,
    ensures
        i < resume_at(len, i, consumed) <= len,
{
}

/// Scans raw binary data for embedded protobuf `FileDescriptorProto` blobs.
///
/// The scanner looks for the wire-format marker `0x0A` (field 1,
/// length-delimited) followed by a length byte and a name ending in `.proto`.
/// For each such candidate it calls the handler with the name and the data
/// from the marker on; the handler answers how many bytes it consumed, and
/// scanning resumes that far on (at least one byte on).
pub fn scan_file<H: CandidateHandler>(data: &[u8], handler: &mut H)
    ensures
        handler_run(data@, *old(handler), *final(handler)),
{
    let ghost start = *handler;
    let ghost mut pre_states: Seq<H> = Seq::empty();
    let ghost mut pre_answers: Seq<Option<usize>> = Seq::empty();
    let mut i: usize = 0;
    while i < data.len()
        invariant
            start == *old(handler),
            pre_states.len() > 0 ==> pre_states[0] == start,
            pre_states.len() == 0 ==> *handler == start,
            forall|states: Seq<H>, answers: Seq<Option<usize>>|
                #[trigger] scan_trace(data@, i as int, states, answers) && states.len() > 0
                    && states[0] == *handler ==> scan_trace(
                    data@,
                    0,
                    pre_states + states,
                    pre_answers + answers,
                ),
        ensures
            pre_states.len() > 0 ==> pre_states[0] == start,
            pre_states.len() == 0 ==> *handler == start,
            forall|states: Seq<H>, answers: Seq<Option<usize>>|
                #[trigger] scan_trace(data@, i as int, states, answers) && states.len() > 0
                    && states[0] == *handler ==> scan_trace(
                    data@,
                    0,
                    pre_states + states,
                    pre_answers + answers,
                ),
            scan_trace(data@, i as int, seq![*handler], Seq::<Option<usize>>::empty()),
        decreases data.len() - i,
    {
        match next_candidate(data, i) {
            None => {
                assert(scan_trace(data@, i as int, seq![*handler], Seq::<Option<usize>>::empty()));
                break ;
            },
            Some((at, proto_name)) => {
                let buffer = slice_subrange(data, at, data.len());
                proof {
                    assert(buffer@ =~= data@.subrange(at as int, data@.len() as int));
                    assert(candidate_name_bytes(buffer@, 0) =~= candidate_name_bytes(
                        data@,
                        at as int,
                    ));
                }
                let ghost before = *handler;
                let ghost i0 = i as int;
                let consumed = handler.on_candidate(proto_name, buffer);
                i = resume_position(data.len(), at, consumed);
                proof {
                    let name = decode_utf8(candidate_name_bytes(data@, at as int));
                    let rest = data@.subrange(at as int, data@.len() as int);
                    assert(before.handles(name, rest, *handler, consumed));
                    assert forall|states: Seq<H>, answers: Seq<Option<usize>>|
                        #[trigger] scan_trace(data@, i as int, states, answers) && states.len() > 0
                            && states[0] == *handler implies scan_trace(
                        data@,
                        0,
                        pre_states.push(before) + states,
                        pre_answers.push(consumed) + answers,
                    ) by {
                        let s2 = seq![before] + states;
                        let a2 = seq![consumed] + answers;
                        assert(s2.drop_first() =~= states);
                        assert(a2.drop_first() =~= answers);
                        assert(s2[1] == states[0]);
                        assert(scan_trace(data@, i0, s2, a2));
                        assert(pre_states + s2 =~= pre_states.push(before) + states);
                        assert(pre_answers + a2 =~= pre_answers.push(consumed) + answers);
                    }
                    pre_states = pre_states.push(before);
                    pre_answers = pre_answers.push(consumed);
                }
            },
        }
    }
    proof {
        let states = pre_states + seq![*handler];
        let answers = pre_answers;
        assert(pre_answers + Seq::<Option<usize>>::empty() =~= answers);
        assert(scan_trace(data@, 0, states, answers));
        assert(states.last() == *handler);
        assert(states[0] == start);
    }
}

} // verus!
