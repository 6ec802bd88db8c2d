use protobuf::descriptor::FileDescriptorProto;
use protobuf::Message;
use steam_protobuf_dumper::collector::{scan_binary, CandidateResult, ProtobufCollector};

fn descriptor_bytes(name: &str, package: &str) -> Vec<u8> {
    let mut p = FileDescriptorProto::new();
    p.set_name(name.to_string());
    p.set_package(package.to_string());
    p.dependency.push("base.proto".to_string());
    p.write_to_bytes().unwrap()
}

#[test]
fn parses_a_descriptor() {
    let bytes = descriptor_bytes("test.proto", "pkg");
    let mut c = ProtobufCollector::new();
    let (result, consumed) = c.try_parse_candidate(&bytes);
    assert!(matches!(result, CandidateResult::Parsed));
    assert_eq!(consumed, bytes.len());
    assert_eq!(c.candidates.len(), 1);
    assert_eq!(c.candidates[0].name, "test.proto");
    assert_eq!(c.candidates[0].package, "pkg");
    assert_eq!(c.candidates[0].dependency, vec!["base.proto".to_string()]);
    assert!(c.has_candidate("test.proto"));
    assert!(!c.has_candidate("other.proto"));
}

#[test]
fn stops_at_the_next_descriptor() {
    let first = descriptor_bytes("a.proto", "x");
    let mut data = first.clone();
    data.extend(descriptor_bytes("b.proto", "y"));
    let mut c = ProtobufCollector::new();
    let (result, consumed) = c.try_parse_candidate(&data);
    assert!(matches!(result, CandidateResult::Parsed));
    assert_eq!(consumed, first.len());
    assert_eq!(c.candidates[0].name, "a.proto");
}

#[test]
fn nothing_consumed_is_invalid() {
    let mut c = ProtobufCollector::new();
    let (result, consumed) = c.try_parse_candidate(&[0x00, 0x01]);
    assert_eq!(consumed, 0);
    match result {
        CandidateResult::Invalid(m) => assert_eq!(m, "No data was consumed"),
        CandidateResult::Parsed => panic!("expected an error"),
    }
    assert!(c.candidates.is_empty());
}

#[test]
fn unparsable_message_is_invalid() {
    // field 1 holds bytes that are not UTF-8, which the name field refuses
    let data = [0x0A, 0x02, 0xFF, 0xFE];
    let mut c = ProtobufCollector::new();
    let (result, consumed) = c.try_parse_candidate(&data);
    assert_eq!(consumed, 4);
    let expected = FileDescriptorProto::parse_from_bytes(&data).unwrap_err().to_string();
    match result {
        CandidateResult::Invalid(m) => assert_eq!(m, expected),
        CandidateResult::Parsed => panic!("expected an error"),
    }
    assert!(c.candidates.is_empty());
}

#[test]
fn scan_binary_collects_each_name_once() {
    let mut data = b"\x00\x01junk".to_vec();
    data.extend(descriptor_bytes("one.proto", "p"));
    data.extend(b"more junk");
    data.extend(descriptor_bytes("two.proto", "p"));
    data.extend(descriptor_bytes("one.proto", "q"));
    let mut c = ProtobufCollector::new();
    scan_binary(&data, &mut c);
    let names: Vec<&str> = c.candidates.iter().map(|d| d.name.as_str()).collect();
    assert_eq!(names, vec!["one.proto", "two.proto"]);
    assert_eq!(c.candidates[0].package, "p");
}
