use steam_protobuf_dumper::descriptor::{
    EnumDescriptor, EnumValueDescriptor, FieldDescriptor, FieldType, FileDescriptor, Label,
    MessageDescriptor,
};
use steam_protobuf_dumper::collector::{scan_binary, CandidateResult, ProtobufCollector};
use steam_protobuf_dumper::dumper::ProtobufDumper;
use steam_protobuf_dumper::scanner::resume_position;
use steam_protobuf_dumper::text::Piece;
use steam_protobuf_dumper::util::to_literal;
use steam_protobuf_dumper::wire::consume_one_message;

fn unescape(lit: &str) -> String {
    let inner: Vec<char> = lit.chars().collect();
    assert_eq!(inner[0], '"');
    assert_eq!(inner[inner.len() - 1], '"');
    let t = &inner[1..inner.len() - 1];
    let mut out = String::new();
    let mut i = 0;
    while i < t.len() {
        if t[i] == '\\' && i + 1 < t.len() {
            out.push(match t[i + 1] {
                'a' => '\x07',
                'b' => '\x08',
                'f' => '\x0C',
                'n' => '\n',
                'r' => '\r',
                't' => '\t',
                'v' => '\x0B',
                other => other,
            });
            i += 2;
        } else {
            out.push(t[i]);
            i += 1;
        }
    }
    out
}

#[test]
fn literal_reads_back() {
    for s in ["", "plain", "a\"b\\c", "\\n", "\x07\x08\x0C\n\r\t\x0B", "tab\tand \"quotes\"\\"] {
        assert_eq!(unescape(&to_literal(s)), s);
    }
}

#[test]
fn scan_advances() {
    for len in 1..6usize {
        for i in 0..len {
            for c in [None, Some(0), Some(1), Some(2), Some(100)] {
                let r = resume_position(len, i, c);
                assert!(i < r && r <= len);
            }
        }
    }
}

#[test]
fn reframing_is_stable() {
    let data = [0x0A, 0x01, b'a', 0x12, 0x02, b'x', b'y', 0x0A, 0x01, b'b', 0x18];
    let n = consume_one_message(&data).unwrap();
    assert_eq!(n, 7);
    assert_eq!(consume_one_message(&data[..n]), Some(n));
}

fn enum_file(name: &str, first: &str) -> FileDescriptor {
    FileDescriptor {
        name: name.to_string(),
        package: "p".to_string(),
        syntax: String::new(),
        dependency: Vec::new(),
        public_dependency: Vec::new(),
        weak_dependency: Vec::new(),
        message_type: Vec::new(),
        enum_type: vec![EnumDescriptor {
            name: "E".to_string(),
            value: vec![EnumValueDescriptor { name: first.to_string(), number: 0, options: None }],
            options: None,
        }],
        service: Vec::new(),
        extension: Vec::new(),
        options: None,
    }
}

#[test]
fn first_definition_wins() {
    let mut user = enum_file("user.proto", "UNUSED");
    user.enum_type.clear();
    user.message_type.push(MessageDescriptor {
        name: "M".to_string(),
        field: vec![FieldDescriptor {
            name: "e".to_string(),
            number: 1,
            label: Label::Optional,
            field_type: FieldType::Enum,
            type_ref: ".p.E".to_string(),
            extendee: String::new(),
            default_value: String::new(),
            json_name: String::new(),
            oneof_index: None,
            options: None,
        }],
        extension: Vec::new(),
        nested_type: Vec::new(),
        enum_type: Vec::new(),
        extension_range: Vec::new(),
        oneof_decl: Vec::new(),
        options: None,
    });
    let mut d = ProtobufDumper::new(vec![enum_file("a.proto", "FIRST"), enum_file("b.proto", "SECOND"), user]);
    assert!(d.analyze());
    let out = d.dump_files();
    let text: String = out[2]
        .pieces
        .iter()
        .map(|p| match p {
            Piece::Text(t) => t.clone(),
            _ => String::new(),
        })
        .collect();
    assert!(text.contains("optional .p.E e = 1 [default = FIRST];"));
}

struct Answering {
    answer: Option<usize>,
    seen: Vec<(String, usize)>,
}

impl steam_protobuf_dumper::scanner::CandidateHandler for Answering {
    fn on_candidate(&mut self, name: &str, buffer: &[u8]) -> Option<usize> {
        self.seen.push((name.to_string(), buffer.len()));
        self.answer
    }
}

#[test]
fn zero_consumed_is_none() {
    let mut data = vec![0x0A, 7];
    data.extend(b"a.proto");
    data.extend(b"xy");
    data.push(0x0A);
    data.push(7);
    data.extend(b"b.proto");
    let mut zero = Answering { answer: Some(0), seen: Vec::new() };
    let mut none = Answering { answer: None, seen: Vec::new() };
    steam_protobuf_dumper::scanner::scan_file(&data, &mut zero);
    steam_protobuf_dumper::scanner::scan_file(&data, &mut none);
    assert_eq!(zero.seen, none.seen);
    assert_eq!(zero.seen.len(), 2);
}

#[test]
fn analysis_ignores_file_order() {
    let mut user = enum_file("user.proto", "X");
    user.dependency.push("a.proto".to_string());
    let a = enum_file("a.proto", "FIRST");
    let mut d1 = ProtobufDumper::new(vec![user, a]);
    let mut user2 = enum_file("user.proto", "X");
    user2.dependency.push("a.proto".to_string());
    let a2 = enum_file("a.proto", "FIRST");
    let mut d2 = ProtobufDumper::new(vec![a2, user2]);
    assert_eq!(d1.analyze(), d2.analyze());
    let mut lonely = enum_file("lonely.proto", "X");
    lonely.dependency.push("missing.proto".to_string());
    let other = enum_file("other.proto", "Y");
    let mut d3 = ProtobufDumper::new(vec![lonely, other]);
    let mut lonely2 = enum_file("lonely.proto", "X");
    lonely2.dependency.push("missing.proto".to_string());
    let other2 = enum_file("other.proto", "Y");
    let mut d4 = ProtobufDumper::new(vec![other2, lonely2]);
    let r3 = d3.analyze();
    assert!(!r3);
    assert_eq!(r3, d4.analyze());
}

#[test]
fn scan_keeps_names_distinct() {
    let bytes = |name: &str| {
        let mut p = protobuf::descriptor::FileDescriptorProto::new();
        p.set_name(name.to_string());
        protobuf::Message::write_to_bytes(&p).unwrap()
    };
    let mut c = ProtobufCollector::new();
    let (result, _) = c.try_parse_candidate(&bytes("a.proto"));
    assert!(matches!(result, CandidateResult::Parsed));
    let mut data = bytes("a.proto");
    data.extend(b"\x01\x02");
    data.extend(bytes("b.proto"));
    data.extend(bytes("b.proto"));
    data.extend(bytes("a.proto"));
    scan_binary(&data, &mut c);
    let names: Vec<&str> = c.candidates.iter().map(|d| d.name.as_str()).collect();
    assert_eq!(names, vec!["a.proto", "b.proto"]);
}
