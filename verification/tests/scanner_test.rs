use steam_protobuf_dumper::scanner::{
    next_candidate, resume_position, scan_file, str_ends_with_proto, CandidateHandler,
};

fn candidate(name: &str) -> Vec<u8> {
    let mut v = vec![0x0A, name.len() as u8];
    v.extend_from_slice(name.as_bytes());
    v
}

struct Recorder {
    seen: Vec<(String, usize)>,
    answer: Option<usize>,
}

impl CandidateHandler for Recorder {
    fn on_candidate(&mut self, name: &str, buffer: &[u8]) -> Option<usize> {
        self.seen.push((name.to_string(), buffer.len()));
        self.answer
    }
}

#[test]
fn finds_first_candidate() {
    let mut data = b"xyz".to_vec();
    data.extend(candidate("steammessages.proto"));
    let found = next_candidate(&data, 0);
    assert_eq!(found, Some((3, "steammessages.proto")));
}

#[test]
fn skips_names_that_do_not_match() {
    let mut data = candidate("bad-name.proto");
    data.extend(candidate("foo.txt"));
    data.extend(candidate("dir/ok_1.proto"));
    let at = data.len() - candidate("dir/ok_1.proto").len();
    assert_eq!(next_candidate(&data, 0), Some((at, "dir/ok_1.proto")));
    assert_eq!(next_candidate(&data, at + 1), None);
}

#[test]
fn skips_truncated_and_invalid_names() {
    let data = [0x0A, 0x09, b'a', b'.', b'p'];
    assert_eq!(next_candidate(&data, 0), None);
    let data = [0x0A, 0x08, 0xFF, b'.', b'p', b'r', b'o', b't', b'o', b'x'];
    assert_eq!(next_candidate(&data, 0), None);
    let data = [0x0A, 0x06, b'.', b'p', b'r', b'o', b't', b'o'];
    assert_eq!(next_candidate(&data, 0), None);
}

#[test]
fn ends_with_proto() {
    assert!(str_ends_with_proto("a.proto"));
    assert!(!str_ends_with_proto("a.prot"));
    assert!(!str_ends_with_proto("proto"));
}

#[test]
fn resume_positions() {
    assert_eq!(resume_position(100, 10, None), 11);
    assert_eq!(resume_position(100, 10, Some(0)), 11);
    assert_eq!(resume_position(100, 10, Some(1)), 11);
    assert_eq!(resume_position(100, 10, Some(25)), 35);
    assert_eq!(resume_position(100, 10, Some(500)), 100);
}

#[test]
fn scan_calls_handler_for_each_candidate() {
    let mut data = candidate("a.proto");
    data.extend(b"..");
    data.extend(candidate("b.proto"));
    let mut r = Recorder { seen: Vec::new(), answer: None };
    scan_file(&data, &mut r);
    assert_eq!(r.seen, vec![("a.proto".to_string(), 20), ("b.proto".to_string(), 9)]);
}

#[test]
fn scan_skips_what_the_handler_consumed() {
    let mut data = candidate("a.proto");
    data.extend(candidate("b.proto"));
    let mut r = Recorder { seen: Vec::new(), answer: Some(18) };
    scan_file(&data, &mut r);
    assert_eq!(r.seen, vec![("a.proto".to_string(), 18)]);
}
