use steam_protobuf_dumper::descriptor::{
    DeprecatedOpts, EnumDescriptor, EnumValueDescriptor, ExtRange, FieldDescriptor, FieldOpts,
    FieldType, FileDescriptor, FileOpts, Label, MessageDescriptor, MessageOpts, MethodDescriptor,
    OptimizeMode, ServiceDescriptor, UnknownField, UnknownValue,
};
use steam_protobuf_dumper::dumper::{get_package_path, FieldRef, ProtobufDumper, TypeMap, TypeSource};
use steam_protobuf_dumper::options::extract_scalar_from_unknown;
use steam_protobuf_dumper::render::ProtoFile;
use steam_protobuf_dumper::text::{bool_str, bytes_debug, i64_text, u64_text, Piece};

fn render(pieces: &[Piece]) -> String {
    let mut s = String::new();
    for p in pieces {
        match p {
            Piece::Text(t) => s.push_str(t),
            Piece::Double(b) => s.push_str(&f64::from_bits(*b).to_string()),
            Piece::Float(b) => s.push_str(&f32::from_bits(*b).to_string()),
        }
    }
    s
}

fn field(name: &str, number: i32, label: Label, t: FieldType, referenced: &str) -> FieldDescriptor {
    FieldDescriptor {
        name: name.to_string(),
        number,
        label,
        field_type: t,
        type_ref: referenced.to_string(),
        extendee: String::new(),
        default_value: String::new(),
        json_name: String::new(),
        oneof_index: None,
        options: None,
    }
}

fn message(name: &str, fields: Vec<FieldDescriptor>) -> MessageDescriptor {
    MessageDescriptor {
        name: name.to_string(),
        field: fields,
        extension: Vec::new(),
        nested_type: Vec::new(),
        enum_type: Vec::new(),
        extension_range: Vec::new(),
        oneof_decl: Vec::new(),
        options: None,
    }
}

fn enumeration(name: &str, values: &[(&str, i32)]) -> EnumDescriptor {
    EnumDescriptor {
        name: name.to_string(),
        value: values
            .iter()
            .map(|(n, v)| EnumValueDescriptor { name: n.to_string(), number: *v, options: None })
            .collect(),
        options: None,
    }
}

fn file(name: &str, package: &str) -> FileDescriptor {
    FileDescriptor {
        name: name.to_string(),
        package: package.to_string(),
        syntax: String::new(),
        dependency: Vec::new(),
        public_dependency: Vec::new(),
        weak_dependency: Vec::new(),
        message_type: Vec::new(),
        enum_type: Vec::new(),
        service: Vec::new(),
        extension: Vec::new(),
        options: None,
    }
}

fn field_opts(deprecated: Option<bool>, unknown: Vec<UnknownField>) -> FieldOpts {
    FieldOpts {
        ctype: None,
        packed: None,
        jstype: None,
        lazy: None,
        deprecated,
        weak: None,
        unknown_fields: unknown,
    }
}

fn dump_one(files: Vec<FileDescriptor>, which: &str) -> (bool, String) {
    let mut d = ProtobufDumper::new(files);
    let ok = d.analyze();
    let out: Vec<ProtoFile> = d.dump_files();
    let f = out.iter().find(|f| f.name == which).expect("file dumped");
    (ok, render(&f.pieces))
}

fn simple_file() -> FileDescriptor {
    let mut f = file("test.proto", "test");
    f.syntax = "proto2".to_string();
    f.enum_type.push(enumeration("Color", &[("RED", 0), ("BLUE", 1)]));
    f.message_type.push(message(
        "Foo",
        vec![
            field("id", 1, Label::Optional, FieldType::Int32, ""),
            field("c", 2, Label::Optional, FieldType::Enum, ".test.Color"),
        ],
    ));
    f.service.push(ServiceDescriptor {
        name: "Svc".to_string(),
        method: vec![MethodDescriptor {
            name: "Get".to_string(),
            input_type: ".test.Foo".to_string(),
            output_type: ".test.Foo".to_string(),
            client_streaming: false,
            server_streaming: false,
            options: None,
        }],
        options: None,
    });
    f
}

#[test]
fn package_paths() {
    assert_eq!(get_package_path("test", "Foo"), ".test.Foo");
    assert_eq!(get_package_path(".test", "Foo"), ".test.Foo");
    assert_eq!(get_package_path("", "Foo"), ".Foo");
    assert_eq!(get_package_path("test", ".other.Foo"), ".other.Foo");
}

#[test]
fn dumps_a_simple_file() {
    let (ok, text) = dump_one(vec![simple_file()], "test.proto");
    assert!(ok);
    assert_eq!(
        text,
        "syntax = \"proto2\";\n\npackage test;\n\nenum Color {\n\tRED = 0;\n\tBLUE = 1;\n}\n\n\
         message Foo {\n\toptional int32 id = 1;\n\toptional .test.Color c = 2 [default = RED];\n}\n\n\
         service Svc {\n\trpc Get (.test.Foo) returns (.test.Foo);\n}\n"
    );
}

#[test]
fn one_file_per_descriptor() {
    let mut d = ProtobufDumper::new(vec![simple_file(), file("empty.proto", "")]);
    assert!(d.analyze());
    let out = d.dump_files();
    assert_eq!(out.len(), 2);
    assert_eq!(out[0].name, "test.proto");
    assert_eq!(out[1].name, "empty.proto");
    assert_eq!(render(&out[1].pieces), "");
}

#[test]
fn missing_dependency_fails() {
    let mut f = simple_file();
    f.dependency.push("missing.proto".to_string());
    let mut d = ProtobufDumper::new(vec![f]);
    assert!(!d.analyze());
}

#[test]
fn google_dependencies_are_not_required() {
    let mut f = simple_file();
    f.dependency.push("google/protobuf/descriptor.proto".to_string());
    let mut d = ProtobufDumper::new(vec![f]);
    assert!(d.analyze());
}

#[test]
fn unknown_type_fails() {
    let mut f = simple_file();
    f.message_type[0].field.push(field("t", 3, Label::Optional, FieldType::Message, ".other.Thing"));
    let mut d = ProtobufDumper::new(vec![f]);
    assert!(!d.analyze());
}

#[test]
fn type_defined_in_another_file_resolves() {
    let mut a = simple_file();
    a.dependency.push("other.proto".to_string());
    a.message_type[0].field.push(field("t", 3, Label::Repeated, FieldType::Message, ".other.Thing"));
    let mut b = file("other.proto", "other");
    b.message_type.push(message("Thing", vec![]));
    let (ok, text) = dump_one(vec![a, b], "test.proto");
    assert!(ok);
    assert!(text.contains("import \"other.proto\";\n\npackage test;"));
    assert!(text.contains("\trepeated .other.Thing t = 3;\n"));
}

fn descriptor_file() -> FileDescriptor {
    let mut g = file("google/protobuf/descriptor.proto", "google.protobuf");
    g.message_type.push(message("FieldOptions", vec![]));
    g.message_type.push(message("MessageOptions", vec![]));
    g
}

#[test]
fn dumps_options_extensions_oneofs_and_ranges() {
    let mut o = file("opts.proto", "test");
    o.syntax = "proto2".to_string();
    o.dependency = vec!["google/protobuf/descriptor.proto".to_string(), "other.proto".to_string()];
    o.public_dependency = vec![1];
    o.options = Some(FileOpts {
        java_package: Some("com.test".to_string()),
        java_outer_classname: None,
        java_multiple_files: None,
        java_generate_equals_and_hash: None,
        java_string_check_utf8: None,
        optimize_for: Some(OptimizeMode::CodeSize),
        go_package: None,
        cc_generic_services: None,
        java_generic_services: None,
        py_generic_services: None,
        php_generic_services: None,
        deprecated: None,
        cc_enable_arenas: None,
        objc_class_prefix: None,
        csharp_namespace: None,
        swift_prefix: None,
        php_class_prefix: None,
        php_namespace: None,
        php_metadata_namespace: None,
        ruby_package: None,
        unknown_fields: Vec::new(),
    });
    let mut label_text = field("label_text", 50000, Label::Optional, FieldType::String, "");
    label_text.extendee = ".google.protobuf.FieldOptions".to_string();
    let mut level = field("level", 50001, Label::Optional, FieldType::Enum, ".test.Level");
    level.extendee = ".google.protobuf.FieldOptions".to_string();
    o.extension = vec![label_text, level];
    o.enum_type.push(enumeration("Level", &[("LOW", 0), ("HIGH", 1)]));
    let mut a = field("a", 1, Label::Optional, FieldType::Int32, "");
    a.options = Some(field_opts(
        Some(true),
        vec![
            UnknownField { number: 50001, value: UnknownValue::Varint(1) },
            UnknownField { number: 50000, value: UnknownValue::LengthDelimited(b"hi".to_vec()) },
        ],
    ));
    let mut x = field("x", 2, Label::Optional, FieldType::Int64, "");
    x.oneof_index = Some(0);
    let mut y = field("y", 3, Label::Optional, FieldType::String, "");
    y.oneof_index = Some(0);
    y.json_name = "yName".to_string();
    let mut msg = message("Msg", vec![a, x, y]);
    msg.options = Some(MessageOpts {
        message_set_wire_format: None,
        no_standard_descriptor_accessor: None,
        deprecated: Some(false),
        unknown_fields: Vec::new(),
    });
    msg.nested_type.push(message("Inner", vec![field("flag", 1, Label::Optional, FieldType::Bool, "")]));
    msg.oneof_decl.push("choice".to_string());
    msg.extension_range = vec![ExtRange { start: 100, end: 536870912 }, ExtRange { start: 1000, end: 2000 }];
    o.message_type.push(msg);
    let mut other = file("other.proto", "test");
    other.message_type.push(message("Bar", vec![]));
    let (ok, text) = dump_one(vec![descriptor_file(), other, o], "opts.proto");
    assert!(ok);
    let expected = "syntax = \"proto2\";\n\
import \"google/protobuf/descriptor.proto\";\n\
import public \"other.proto\";\n\
\n\
package test;\n\
\n\
option optimize_for = CODE_SIZE;\n\
option java_package = \"com.test\";\n\
\n\
extend .google.protobuf.FieldOptions {\n\
\toptional string label_text = 50000;\n\
\toptional .test.Level level = 50001 [default = LOW];\n\
}\n\
\n\
enum Level {\n\
\tLOW = 0;\n\
\tHIGH = 1;\n\
}\n\
\n\
message Msg {\n\
\toption deprecated = false;\n\
\n\
\tmessage Inner {\n\
\t\toptional bool flag = 1;\n\
\t}\n\
\n\
\toptional int32 a = 1 [deprecated = true, (label_text) = \"hi\", (level) = HIGH];\n\
\n\
\toneof choice {\n\
\t\tint64 x = 2;\n\
\t\tstring y = 3 [json_name = \"yName\"];\n\
\t}\n\
\n\
\textensions 100 to max;\n\
\textensions 1000 to 2000;\n\
}\n";
    assert_eq!(text, expected);
}

#[test]
fn message_typed_custom_option() {
    let mut f = file("meta.proto", "test");
    f.dependency.push("google/protobuf/descriptor.proto".to_string());
    let mut meta_ext = field("meta", 50100, Label::Optional, FieldType::Message, ".test.Meta");
    meta_ext.extendee = ".google.protobuf.MessageOptions".to_string();
    f.extension.push(meta_ext);
    f.message_type.push(message(
        "Meta",
        vec![
            field("level_no", 20, Label::Optional, FieldType::Int32, ""),
            field("note", 21, Label::Optional, FieldType::String, ""),
        ],
    ));
    // field 20 = varint 7, field 21 = "x"
    let payload = vec![0xA0, 0x01, 0x07, 0xAA, 0x01, 0x01, b'x'];
    let mut m = message("Tagged", vec![]);
    m.options = Some(MessageOpts {
        message_set_wire_format: None,
        no_standard_descriptor_accessor: None,
        deprecated: None,
        unknown_fields: vec![UnknownField { number: 50100, value: UnknownValue::LengthDelimited(payload) }],
    });
    f.message_type.push(m);
    let (ok, text) = dump_one(vec![descriptor_file(), f], "meta.proto");
    assert!(ok);
    assert!(text.contains(
        "message Tagged {\n\toption (meta).level_no = 7;\n\toption (meta).note = \"x\";\n}\n"
    ));
}

#[test]
fn services_with_streams_and_options() {
    let mut f = file("svc.proto", "");
    f.service.push(ServiceDescriptor {
        name: "S".to_string(),
        method: vec![
            MethodDescriptor {
                name: "A".to_string(),
                input_type: ".In".to_string(),
                output_type: ".Out".to_string(),
                client_streaming: true,
                server_streaming: false,
                options: Some(DeprecatedOpts { deprecated: Some(true), unknown_fields: Vec::new() }),
            },
            MethodDescriptor {
                name: "B".to_string(),
                input_type: ".In".to_string(),
                output_type: ".Out".to_string(),
                client_streaming: false,
                server_streaming: true,
                options: None,
            },
        ],
        options: Some(DeprecatedOpts { deprecated: Some(false), unknown_fields: Vec::new() }),
    });
    let mut d = ProtobufDumper::new(vec![f]);
    let ok = d.analyze();
    assert!(!ok);
    let out = d.dump_files();
    assert_eq!(
        render(&out[0].pieces),
        "service S {\n\toption deprecated = false;\n\n\trpc A (stream .In) returns (.Out) {\n\t\toption deprecated = true;\n\t}\n\n\trpc B (.In) returns (stream .Out);\n}\n"
    );
}

#[test]
fn extension_groups_in_first_appearance_order() {
    let mut f = file("ext.proto", "p");
    let mut a = field("a", 100, Label::Optional, FieldType::Int32, "");
    a.extendee = ".p.Y".to_string();
    let mut b = field("b", 101, Label::Repeated, FieldType::Int32, "");
    b.extendee = ".p.X".to_string();
    let mut c = field("c", 102, Label::Required, FieldType::String, "");
    c.extendee = ".p.Y".to_string();
    c.default_value = "q\"".to_string();
    f.extension = vec![a, b, c];
    f.message_type.push(message("X", vec![]));
    f.message_type.push(message("Y", vec![]));
    let (ok, text) = dump_one(vec![f], "ext.proto");
    assert!(ok);
    assert_eq!(
        text,
        "package p;\n\nextend .p.Y {\n\toptional int32 a = 100;\n\trequired string c = 102 [default = \"q\\\"\"];\n}\n\n\
         extend .p.X {\n\trepeated int32 b = 101;\n}\n\nmessage X {\n}\n\nmessage Y {\n}\n"
    );
}

fn fref(number: i32, t: FieldType) -> FieldRef {
    FieldRef {
        name: "f".to_string(),
        number,
        field_type: t,
        type_ref: String::new(),
        extendee: String::new(),
    }
}

fn scalar(unknown: &Vec<UnknownField>, number: i32, t: FieldType) -> Option<String> {
    extract_scalar_from_unknown(unknown, &fref(number, t)).map(|d| render(&d.into_pieces()))
}

#[test]
fn scalars_from_unknown_fields() {
    let unknown = vec![
        UnknownField { number: 1, value: UnknownValue::Varint(0xFFFF_FFFF_FFFF_FFFF) },
        UnknownField { number: 2, value: UnknownValue::Fixed32(0xFFFF_FFFE) },
        UnknownField { number: 3, value: UnknownValue::Fixed64(1.5f64.to_bits()) },
        UnknownField { number: 4, value: UnknownValue::Fixed32(2.5f32.to_bits()) },
        UnknownField { number: 5, value: UnknownValue::LengthDelimited(vec![1, 2, 3]) },
        UnknownField { number: 6, value: UnknownValue::Varint(0) },
        UnknownField { number: 7, value: UnknownValue::LengthDelimited(vec![0xFF]) },
        UnknownField { number: 7, value: UnknownValue::LengthDelimited(b"ok".to_vec()) },
    ];
    assert_eq!(scalar(&unknown, 1, FieldType::Int32), Some("4294967295".to_string()));
    assert_eq!(scalar(&unknown, 1, FieldType::UInt64), Some("18446744073709551615".to_string()));
    assert_eq!(scalar(&unknown, 1, FieldType::SInt32), Some("-1".to_string()));
    assert_eq!(scalar(&unknown, 1, FieldType::SInt64), Some("-1".to_string()));
    assert_eq!(scalar(&unknown, 2, FieldType::SFixed32), Some("-2".to_string()));
    assert_eq!(scalar(&unknown, 2, FieldType::Fixed32), Some("4294967294".to_string()));
    assert_eq!(scalar(&unknown, 2, FieldType::Int64), None);
    assert_eq!(scalar(&unknown, 3, FieldType::Double), Some("1.5".to_string()));
    assert_eq!(scalar(&unknown, 4, FieldType::Float), Some("2.5".to_string()));
    assert_eq!(scalar(&unknown, 5, FieldType::Bytes), Some("[1, 2, 3]".to_string()));
    assert_eq!(scalar(&unknown, 5, FieldType::String), Some("\"\u{1}\u{2}\u{3}\"".to_string()));
    assert_eq!(scalar(&unknown, 6, FieldType::Bool), Some("false".to_string()));
    assert_eq!(scalar(&unknown, 1, FieldType::Bool), Some("true".to_string()));
    assert_eq!(scalar(&unknown, 7, FieldType::String), Some("\"ok\"".to_string()));
    assert_eq!(scalar(&unknown, 8, FieldType::Int32), None);
    assert_eq!(scalar(&unknown, 1, FieldType::Message), None);
}

#[test]
fn number_and_bool_texts() {
    assert_eq!(u64_text(0), "0");
    assert_eq!(u64_text(1234567890), "1234567890");
    assert_eq!(i64_text(-42), "-42");
    assert_eq!(i64_text(i64::MIN), "-9223372036854775808");
    assert_eq!(bool_str(true), "true");
    assert_eq!(bool_str(false), "false");
    assert_eq!(bytes_debug(&[]), "[]");
    assert_eq!(bytes_debug(&[0, 255]), "[0, 255]");
}

#[test]
fn registration_is_exact() {
    let mut types = TypeMap::new();
    types.get_or_create_type_node(".p.A".to_string(), None, TypeSource::Reference);
    assert_eq!(types.len(), 1);
    assert!(!types.get(".p.A").unwrap().defined);
    types.get_or_create_type_node(".p.A".to_string(), Some("a.proto".to_string()), TypeSource::Service);
    let a = types.get(".p.A").unwrap();
    assert!(a.defined);
    assert_eq!(a.proto_name.as_deref(), Some("a.proto"));
    types.get_or_create_type_node(".p.A".to_string(), Some("b.proto".to_string()), TypeSource::Service);
    assert_eq!(types.get(".p.A").unwrap().proto_name.as_deref(), Some("a.proto"));
    types.get_or_create_type_node(".p.B".to_string(), Some("b.proto".to_string()), TypeSource::Service);
    assert_eq!(types.len(), 2);
    assert_eq!(types.node(1).name, ".p.B");
    assert!(types.node(1).defined);
    assert_eq!(types.node(0).name, ".p.A");
}
