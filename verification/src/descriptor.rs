//! The library's own model of a `FileDescriptorProto` and the messages in it:
//! the values that the dependency analysis and the `.proto` rendering read.
use vstd::prelude::*;

verus! {

/// Field cardinality (`FieldDescriptorProto.Label`).
#[derive(PartialEq, Eq, Structural, Clone, Copy, Debug)]
pub enum Label {
    Optional,
    Required,
    Repeated,
}

/// Field type (`FieldDescriptorProto.Type`).
#[derive(PartialEq, Eq, Structural, Clone, Copy, Debug)]
pub enum FieldType {
    Double,
    Float,
    Int64,
    UInt64,
    Int32,
    Fixed64,
    Fixed32,
    Bool,
    String,
    Group,
    Message,
    Bytes,
    UInt32,
    Enum,
    SFixed32,
    SFixed64,
    SInt32,
    SInt64,
}

/// `FileOpts.OptimizeMode`.
#[derive(PartialEq, Eq, Structural, Clone, Copy, Debug)]
pub enum OptimizeMode {
    Speed,
    CodeSize,
    LiteRuntime,
}

/// `FieldOpts.CType`.
#[derive(PartialEq, Eq, Structural, Clone, Copy, Debug)]
pub enum CType {
    String,
    Cord,
    StringPiece,
}

/// `FieldOpts.JSType`.
#[derive(PartialEq, Eq, Structural, Clone, Copy, Debug)]
pub enum JSType {
    JsNormal,
    JsString,
    JsNumber,
}

/// The value of a field that the options message did not know.
#[derive(Debug)]
pub enum UnknownValue {
    Fixed32(u32),
    Fixed64(u64),
    Varint(u64),
    LengthDelimited(Vec<u8>),
}

/// The mathematical value of an `UnknownValue`.
pub enum UnknownValueView {
    Fixed32(u32),
    Fixed64(u64),
    Varint(u64),
    LengthDelimited(Seq<u8>),
}

impl View for UnknownValue {
    type V = UnknownValueView;

    open spec fn view(&self) -> UnknownValueView {
        match self {
            UnknownValue::Fixed32(v) => UnknownValueView::Fixed32(*v),
            UnknownValue::Fixed64(v) => UnknownValueView::Fixed64(*v),
            UnknownValue::Varint(v) => UnknownValueView::Varint(*v),
            UnknownValue::LengthDelimited(b) => UnknownValueView::LengthDelimited(b@),
        }
    }
}

/// One unknown field: its number and one of its values.
#[derive(Debug)]
pub struct UnknownField {
    pub number: u32,
    pub value: UnknownValue,
}

impl View for UnknownField {
    type V = (u32, UnknownValueView);

    open spec fn view(&self) -> (u32, UnknownValueView) {
        (self.number, self.value@)
    }
}

/// A length-delimited value is shorter than `n` bytes (other values always hold).
pub open spec fn payload_below(v: UnknownValueView, n: nat) -> bool {
    match v {
        UnknownValueView::LengthDelimited(b) => b.len() < n,
        _ => true,
    }
}

/// The views of a list of unknown fields.
pub open spec fn unknown_views(fields: Seq<UnknownField>) -> Seq<(u32, UnknownValueView)> {
    fields.map_values(|f: UnknownField| f@)
}

/// The values recorded for field `number`, in order.
pub open spec fn values_for(vals: Seq<(u32, UnknownValueView)>, number: u32) -> Seq<UnknownValueView>
    decreases vals.len(),
{
    if vals.len() == 0 {
        Seq::empty()
    } else {
        values_for(vals.drop_last(), number) + (if vals.last().0 == number {
            seq![vals.last().1]
        } else {
            Seq::empty()
        })
    }
}

pub proof fn lemma_values_for_append(
    a: Seq<(u32, UnknownValueView)>,
    b: Seq<(u32, UnknownValueView)>,
    number: u32,
)
    ensures
        values_for(a + b, number) == values_for(a, number) + values_for(b, number),
    decreases b.len(),
{
    if b.len() == 0 {
        assert(a + b =~= a);
        assert(values_for(a, number) + values_for(b, number) =~= values_for(a, number));
    } else {
        lemma_values_for_append(a, b.drop_last(), number);
        assert((a + b).drop_last() =~= a + b.drop_last());
        assert((a + b).last() == b.last());
        assert(values_for(a + b, number) =~= values_for(a, number) + values_for(b, number));
    }
}

/// `FileOptions`: the standard options that were set, and the unknown fields.
#[derive(Debug)]
pub struct FileOpts {
    pub java_package: Option<String>,
    pub java_outer_classname: Option<String>,
    pub java_multiple_files: Option<bool>,
    pub java_generate_equals_and_hash: Option<bool>,
    pub java_string_check_utf8: Option<bool>,
    pub optimize_for: Option<OptimizeMode>,
    pub go_package: Option<String>,
    pub cc_generic_services: Option<bool>,
    pub java_generic_services: Option<bool>,
    pub py_generic_services: Option<bool>,
    pub php_generic_services: Option<bool>,
    pub deprecated: Option<bool>,
    pub cc_enable_arenas: Option<bool>,
    pub objc_class_prefix: Option<String>,
    pub csharp_namespace: Option<String>,
    pub swift_prefix: Option<String>,
    pub php_class_prefix: Option<String>,
    pub php_namespace: Option<String>,
    pub php_metadata_namespace: Option<String>,
    pub ruby_package: Option<String>,
    pub unknown_fields: Vec<UnknownField>,
}

/// `MessageOptions`.
#[derive(Debug)]
pub struct MessageOpts {
    pub message_set_wire_format: Option<bool>,
    pub no_standard_descriptor_accessor: Option<bool>,
    pub deprecated: Option<bool>,
    pub unknown_fields: Vec<UnknownField>,
}

/// `FieldOptions`.
#[derive(Debug)]
pub struct FieldOpts {
    pub ctype: Option<CType>,
    pub packed: Option<bool>,
    pub jstype: Option<JSType>,
    pub lazy: Option<bool>,
    pub deprecated: Option<bool>,
    pub weak: Option<bool>,
    pub unknown_fields: Vec<UnknownField>,
}

/// `EnumOptions`.
#[derive(Debug)]
pub struct EnumOpts {
    pub allow_alias: Option<bool>,
    pub deprecated: Option<bool>,
    pub unknown_fields: Vec<UnknownField>,
}

/// Options that only carry `deprecated` (enum values, services, methods).
#[derive(Debug)]
pub struct DeprecatedOpts {
    pub deprecated: Option<bool>,
    pub unknown_fields: Vec<UnknownField>,
}

/// `FieldDescriptorProto`.
#[derive(Debug)]
pub struct FieldDescriptor {
    pub name: String,
    pub number: i32,
    pub label: Label,
    pub field_type: FieldType,
    pub type_ref: String,
    pub extendee: String,
    pub default_value: String,
    pub json_name: String,
    pub oneof_index: Option<i32>,
    pub options: Option<FieldOpts>,
}

/// `EnumValueDescriptorProto`.
#[derive(Debug)]
pub struct EnumValueDescriptor {
    pub name: String,
    pub number: i32,
    pub options: Option<DeprecatedOpts>,
}

/// `EnumDescriptorProto`.
#[derive(Debug)]
pub struct EnumDescriptor {
    pub name: String,
    pub value: Vec<EnumValueDescriptor>,
    pub options: Option<EnumOpts>,
}

/// `DescriptorProto.ExtensionRange`.
#[derive(Debug)]
pub struct ExtRange {
    pub start: i32,
    pub end: i32,
}

/// `DescriptorProto`.
#[derive(Debug)]
pub struct MessageDescriptor {
    pub name: String,
    pub field: Vec<FieldDescriptor>,
    pub extension: Vec<FieldDescriptor>,
    pub nested_type: Vec<MessageDescriptor>,
    pub enum_type: Vec<EnumDescriptor>,
    pub extension_range: Vec<ExtRange>,
    pub oneof_decl: Vec<String>,
    pub options: Option<MessageOpts>,
}

/// `MethodDescriptorProto`.
#[derive(Debug)]
pub struct MethodDescriptor {
    pub name: String,
    pub input_type: String,
    pub output_type: String,
    pub client_streaming: bool,
    pub server_streaming: bool,
    pub options: Option<DeprecatedOpts>,
}

/// `ServiceDescriptorProto`.
#[derive(Debug)]
pub struct ServiceDescriptor {
    pub name: String,
    pub method: Vec<MethodDescriptor>,
    pub options: Option<DeprecatedOpts>,
}

/// `FileDescriptorProto`.
#[derive(Debug)]
pub struct FileDescriptor {
    pub name: String,
    pub package: String,
    pub syntax: String,
    pub dependency: Vec<String>,
    pub public_dependency: Vec<i32>,
    pub weak_dependency: Vec<i32>,
    pub message_type: Vec<MessageDescriptor>,
    pub enum_type: Vec<EnumDescriptor>,
    pub service: Vec<ServiceDescriptor>,
    pub extension: Vec<FieldDescriptor>,
    pub options: Option<FileOpts>,
}

/// The label that a wire value stands for: unknown values read as `Optional`.
pub open spec fn label_of_value(v: i32) -> Label {
    if v == 2 {
        Label::Required
    } else if v == 3 {
        Label::Repeated
    } else {
        Label::Optional
    }
}

pub fn label_from_value(v: i32) -> (r: Label)
    ensures
        r == label_of_value(v),
{
    if v == 2 {
        Label::Required
    } else if v == 3 {
        Label::Repeated
    } else {
        Label::Optional
    }
}

/// The field type that a wire value stands for: unknown values read as `Double`.
pub open spec fn field_type_of_value(v: i32) -> FieldType {
    if v == 2 {
        FieldType::Float
    } else if v == 3 {
        FieldType::Int64
    } else if v == 4 {
        FieldType::UInt64
    } else if v == 5 {
        FieldType::Int32
    } else if v == 6 {
        FieldType::Fixed64
    } else if v == 7 {
        FieldType::Fixed32
    } else if v == 8 {
        FieldType::Bool
    } else if v == 9 {
        FieldType::String
    } else if v == 10 {
        FieldType::Group
    } else if v == 11 {
        FieldType::Message
    } else if v == 12 {
        FieldType::Bytes
    } else if v == 13 {
        FieldType::UInt32
    } else if v == 14 {
        FieldType::Enum
    } else if v == 15 {
        FieldType::SFixed32
    } else if v == 16 {
        FieldType::SFixed64
    } else if v == 17 {
        FieldType::SInt32
    } else if v == 18 {
        FieldType::SInt64
    } else {
        FieldType::Double
    }
}

pub fn field_type_from_value(v: i32) -> (r: FieldType)
    ensures
        r == field_type_of_value(v),
{
    if v == 2 {
        FieldType::Float
    } else if v == 3 {
        FieldType::Int64
    } else if v == 4 {
        FieldType::UInt64
    } else if v == 5 {
        FieldType::Int32
    } else if v == 6 {
        FieldType::Fixed64
    } else if v == 7 {
        FieldType::Fixed32
    } else if v == 8 {
        FieldType::Bool
    } else if v == 9 {
        FieldType::String
    } else if v == 10 {
        FieldType::Group
    } else if v == 11 {
        FieldType::Message
    } else if v == 12 {
        FieldType::Bytes
    } else if v == 13 {
        FieldType::UInt32
    } else if v == 14 {
        FieldType::Enum
    } else if v == 15 {
        FieldType::SFixed32
    } else if v == 16 {
        FieldType::SFixed64
    } else if v == 17 {
        FieldType::SInt32
    } else if v == 18 {
        FieldType::SInt64
    } else {
        FieldType::Double
    }
}

/// The optimize mode that a wire value stands for: unknown values read as `Speed`.
pub open spec fn optimize_mode_of_value(v: i32) -> OptimizeMode {
    if v == 2 {
        OptimizeMode::CodeSize
    } else if v == 3 {
        OptimizeMode::LiteRuntime
    } else {
        OptimizeMode::Speed
    }
}

pub fn optimize_mode_from_value(v: i32) -> (r: OptimizeMode)
    ensures
        r == optimize_mode_of_value(v),
{
    if v == 2 {
        OptimizeMode::CodeSize
    } else if v == 3 {
        OptimizeMode::LiteRuntime
    } else {
        OptimizeMode::Speed
    }
}

/// The C type that a wire value stands for: unknown values read as `String`.
pub open spec fn ctype_of_value(v: i32) -> CType {
    if v == 1 {
        CType::Cord
    } else if v == 2 {
        CType::StringPiece
    } else {
        CType::String
    }
}

pub fn ctype_from_value(v: i32) -> (r: CType)
    ensures
        r == ctype_of_value(v),
{
    if v == 1 {
        CType::Cord
    } else if v == 2 {
        CType::StringPiece
    } else {
        CType::String
    }
}

/// The JavaScript type that a wire value stands for: unknown values read as `JsNormal`.
pub open spec fn jstype_of_value(v: i32) -> JSType {
    if v == 1 {
        JSType::JsString
    } else if v == 2 {
        JSType::JsNumber
    } else {
        JSType::JsNormal
    }
}

pub fn jstype_from_value(v: i32) -> (r: JSType)
    ensures
        r == jstype_of_value(v),
{
    if v == 1 {
        JSType::JsString
    } else if v == 2 {
        JSType::JsNumber
    } else {
        JSType::JsNormal
    }
}


// ─── The descriptors as plain values ────────────────────────────────────────

/// A string option's value, when set.
pub open spec fn opt_text(o: Option<String>) -> Option<Seq<char>> {
    match o {
        Some(s) => Some(s@),
        None => None,
    }
}

/// The values of each field number among some unknown fields (their order
/// between different numbers does not count).
pub open spec fn unknown_map(fields: Seq<UnknownField>) -> Map<u32, Seq<UnknownValueView>> {
    Map::new(|n: u32| true, |n: u32| values_for(unknown_views(fields), n))
}

pub struct FileOptsView {
    pub java_package: Option<Seq<char>>,
    pub java_outer_classname: Option<Seq<char>>,
    pub java_multiple_files: Option<bool>,
    pub java_generate_equals_and_hash: Option<bool>,
    pub java_string_check_utf8: Option<bool>,
    pub optimize_for: Option<OptimizeMode>,
    pub go_package: Option<Seq<char>>,
    pub cc_generic_services: Option<bool>,
    pub java_generic_services: Option<bool>,
    pub py_generic_services: Option<bool>,
    pub php_generic_services: Option<bool>,
    pub deprecated: Option<bool>,
    pub cc_enable_arenas: Option<bool>,
    pub objc_class_prefix: Option<Seq<char>>,
    pub csharp_namespace: Option<Seq<char>>,
    pub swift_prefix: Option<Seq<char>>,
    pub php_class_prefix: Option<Seq<char>>,
    pub php_namespace: Option<Seq<char>>,
    pub php_metadata_namespace: Option<Seq<char>>,
    pub ruby_package: Option<Seq<char>>,
    pub unknown_fields: Map<u32, Seq<UnknownValueView>>,
}

impl View for FileOpts {
    type V = FileOptsView;

    open spec fn view(&self) -> FileOptsView {
        FileOptsView {
            java_package: opt_text(self.java_package),
            java_outer_classname: opt_text(self.java_outer_classname),
            java_multiple_files: self.java_multiple_files,
            java_generate_equals_and_hash: self.java_generate_equals_and_hash,
            java_string_check_utf8: self.java_string_check_utf8,
            optimize_for: self.optimize_for,
            go_package: opt_text(self.go_package),
            cc_generic_services: self.cc_generic_services,
            java_generic_services: self.java_generic_services,
            py_generic_services: self.py_generic_services,
            php_generic_services: self.php_generic_services,
            deprecated: self.deprecated,
            cc_enable_arenas: self.cc_enable_arenas,
            objc_class_prefix: opt_text(self.objc_class_prefix),
            csharp_namespace: opt_text(self.csharp_namespace),
            swift_prefix: opt_text(self.swift_prefix),
            php_class_prefix: opt_text(self.php_class_prefix),
            php_namespace: opt_text(self.php_namespace),
            php_metadata_namespace: opt_text(self.php_metadata_namespace),
            ruby_package: opt_text(self.ruby_package),
            unknown_fields: unknown_map(self.unknown_fields@),
        }
    }
}

pub struct MessageOptsView {
    pub message_set_wire_format: Option<bool>,
    pub no_standard_descriptor_accessor: Option<bool>,
    pub deprecated: Option<bool>,
    pub unknown_fields: Map<u32, Seq<UnknownValueView>>,
}

impl View for MessageOpts {
    type V = MessageOptsView;

    open spec fn view(&self) -> MessageOptsView {
        MessageOptsView {
            message_set_wire_format: self.message_set_wire_format,
            no_standard_descriptor_accessor: self.no_standard_descriptor_accessor,
            deprecated: self.deprecated,
            unknown_fields: unknown_map(self.unknown_fields@),
        }
    }
}

pub struct FieldOptsView {
    pub ctype: Option<CType>,
    pub packed: Option<bool>,
    pub jstype: Option<JSType>,
    pub lazy: Option<bool>,
    pub deprecated: Option<bool>,
    pub weak: Option<bool>,
    pub unknown_fields: Map<u32, Seq<UnknownValueView>>,
}

impl View for FieldOpts {
    type V = FieldOptsView;

    open spec fn view(&self) -> FieldOptsView {
        FieldOptsView {
            ctype: self.ctype,
            packed: self.packed,
            jstype: self.jstype,
            lazy: self.lazy,
            deprecated: self.deprecated,
            weak: self.weak,
            unknown_fields: unknown_map(self.unknown_fields@),
        }
    }
}

pub struct EnumOptsView {
    pub allow_alias: Option<bool>,
    pub deprecated: Option<bool>,
    pub unknown_fields: Map<u32, Seq<UnknownValueView>>,
}

impl View for EnumOpts {
    type V = EnumOptsView;

    open spec fn view(&self) -> EnumOptsView {
        EnumOptsView {
            allow_alias: self.allow_alias,
            deprecated: self.deprecated,
            unknown_fields: unknown_map(self.unknown_fields@),
        }
    }
}

pub struct DeprecatedOptsView {
    pub deprecated: Option<bool>,
    pub unknown_fields: Map<u32, Seq<UnknownValueView>>,
}

impl View for DeprecatedOpts {
    type V = DeprecatedOptsView;

    open spec fn view(&self) -> DeprecatedOptsView {
        DeprecatedOptsView {
            deprecated: self.deprecated,
            unknown_fields: unknown_map(self.unknown_fields@),
        }
    }
}

/// An optional options message as a plain value.
pub open spec fn opts_view<T: View>(o: Option<T>) -> Option<T::V> {
    match o {
        Some(x) => Some(x@),
        None => None,
    }
}

pub struct FieldDescriptorView {
    pub name: Seq<char>,
    pub number: i32,
    pub label: Label,
    pub field_type: FieldType,
    pub type_ref: Seq<char>,
    pub extendee: Seq<char>,
    pub default_value: Seq<char>,
    pub json_name: Seq<char>,
    pub oneof_index: Option<i32>,
    pub options: Option<FieldOptsView>,
}

impl View for FieldDescriptor {
    type V = FieldDescriptorView;

    open spec fn view(&self) -> FieldDescriptorView {
        FieldDescriptorView {
            name: self.name@,
            number: self.number,
            label: self.label,
            field_type: self.field_type,
            type_ref: self.type_ref@,
            extendee: self.extendee@,
            default_value: self.default_value@,
            json_name: self.json_name@,
            oneof_index: self.oneof_index,
            options: opts_view(self.options),
        }
    }
}

pub open spec fn fields_view(s: Seq<FieldDescriptor>) -> Seq<FieldDescriptorView> {
    s.map_values(|f: FieldDescriptor| f@)
}

pub struct EnumValueDescriptorView {
    pub name: Seq<char>,
    pub number: i32,
    pub options: Option<DeprecatedOptsView>,
}

impl View for EnumValueDescriptor {
    type V = EnumValueDescriptorView;

    open spec fn view(&self) -> EnumValueDescriptorView {
        EnumValueDescriptorView {
            name: self.name@,
            number: self.number,
            options: opts_view(self.options),
        }
    }
}

pub struct EnumDescriptorView {
    pub name: Seq<char>,
    pub value: Seq<EnumValueDescriptorView>,
    pub options: Option<EnumOptsView>,
}

impl View for EnumDescriptor {
    type V = EnumDescriptorView;

    open spec fn view(&self) -> EnumDescriptorView {
        EnumDescriptorView {
            name: self.name@,
            value: self.value@.map_values(|v: EnumValueDescriptor| v@),
            options: opts_view(self.options),
        }
    }
}

pub open spec fn enums_view(s: Seq<EnumDescriptor>) -> Seq<EnumDescriptorView> {
    s.map_values(|e: EnumDescriptor| e@)
}

pub struct MessageDescriptorView {
    pub name: Seq<char>,
    pub field: Seq<FieldDescriptorView>,
    pub extension: Seq<FieldDescriptorView>,
    pub nested_type: Seq<MessageDescriptorView>,
    pub enum_type: Seq<EnumDescriptorView>,
    pub extension_range: Seq<(i32, i32)>,
    pub oneof_decl: Seq<Seq<char>>,
    pub options: Option<MessageOptsView>,
}

/// A message as a plain value, with the messages nested in it.
pub open spec fn message_view(m: MessageDescriptor) -> MessageDescriptorView
    decreases m, 1nat,
{
    proof {
        assert(decreases_to!(m => m.nested_type));
        assert(decreases_to!(m.nested_type => m.nested_type@));
    }
    MessageDescriptorView {
        name: m.name@,
        field: fields_view(m.field@),
        extension: fields_view(m.extension@),
        nested_type: messages_view(m.nested_type@),
        enum_type: enums_view(m.enum_type@),
        extension_range: m.extension_range@.map_values(|r: ExtRange| (r.start, r.end)),
        oneof_decl: m.oneof_decl@.map_values(|s: String| s@),
        options: opts_view(m.options),
    }
}

pub open spec fn messages_view(ms: Seq<MessageDescriptor>) -> Seq<MessageDescriptorView>
    decreases ms, 0nat,
{
    if ms.len() == 0 {
        Seq::empty()
    } else {
        proof {
            assert(ms.drop_last() =~= ms.subrange(0, ms.len() - 1));
            assert(decreases_to!(ms => ms.subrange(0, ms.len() - 1)));
            assert(decreases_to!(ms => ms[ms.len() - 1]));
        }
        messages_view(ms.drop_last()).push(message_view(ms.last()))
    }
}

pub struct MethodDescriptorView {
    pub name: Seq<char>,
    pub input_type: Seq<char>,
    pub output_type: Seq<char>,
    pub client_streaming: bool,
    pub server_streaming: bool,
    pub options: Option<DeprecatedOptsView>,
}

impl View for MethodDescriptor {
    type V = MethodDescriptorView;

    open spec fn view(&self) -> MethodDescriptorView {
        MethodDescriptorView {
            name: self.name@,
            input_type: self.input_type@,
            output_type: self.output_type@,
            client_streaming: self.client_streaming,
            server_streaming: self.server_streaming,
            options: opts_view(self.options),
        }
    }
}

pub struct ServiceDescriptorView {
    pub name: Seq<char>,
    pub method: Seq<MethodDescriptorView>,
    pub options: Option<DeprecatedOptsView>,
}

impl View for ServiceDescriptor {
    type V = ServiceDescriptorView;

    open spec fn view(&self) -> ServiceDescriptorView {
        ServiceDescriptorView {
            name: self.name@,
            method: self.method@.map_values(|m: MethodDescriptor| m@),
            options: opts_view(self.options),
        }
    }
}

/// A file descriptor as a plain value.
pub struct FileDescriptorView {
    pub name: Seq<char>,
    pub package: Seq<char>,
    pub syntax: Seq<char>,
    pub dependency: Seq<Seq<char>>,
    pub public_dependency: Seq<i32>,
    pub weak_dependency: Seq<i32>,
    pub message_type: Seq<MessageDescriptorView>,
    pub enum_type: Seq<EnumDescriptorView>,
    pub service: Seq<ServiceDescriptorView>,
    pub extension: Seq<FieldDescriptorView>,
    pub options: Option<FileOptsView>,
}

impl View for FileDescriptor {
    type V = FileDescriptorView;

    open spec fn view(&self) -> FileDescriptorView {
        FileDescriptorView {
            name: self.name@,
            package: self.package@,
            syntax: self.syntax@,
            dependency: self.dependency@.map_values(|s: String| s@),
            public_dependency: self.public_dependency@,
            weak_dependency: self.weak_dependency@,
            message_type: messages_view(self.message_type@),
            enum_type: enums_view(self.enum_type@),
            service: self.service@.map_values(|s: ServiceDescriptor| s@),
            extension: fields_view(self.extension@),
            options: opts_view(self.options),
        }
    }
}

/// The plain values of a list of file descriptors.
pub open spec fn files_view(s: Seq<FileDescriptor>) -> Seq<FileDescriptorView> {
    s.map_values(|f: FileDescriptor| f@)
}

} // verus!
