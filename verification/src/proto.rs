//! Reading parsed `protobuf` descriptor messages into the library's own model.
//!
//! The `protobuf` crate parses the bytes; the items marked `external_body` below
//! each read one field of its generated messages. The message types are opaque
//! to Verus, so those readers promise nothing about the value they hand back.
use crate::descriptor::{
    ctype_from_value, field_type_from_value, jstype_from_value, label_from_value,
    optimize_mode_from_value, DeprecatedOpts, EnumDescriptor, EnumOpts, EnumValueDescriptor, ExtRange,
    FieldDescriptor, FieldOpts, FileDescriptor, FileOpts, MessageDescriptor, MessageOpts,
    MethodDescriptor, ServiceDescriptor, UnknownField, FileDescriptorView, UnknownValue, UnknownValueView, unknown_views,
    payload_below, values_for,
};
use protobuf::descriptor as pb;
use protobuf::Enum;
use protobuf::Message;
use protobuf::UnknownValueRef;
use crate::wire::{spec_consume, spec_read_varint};
use vstd::prelude::*;
use vstd::utf8::{decode_utf8, valid_utf8};

verus! {

#[verifier::external_type_specification]
#[verifier::external_body]
pub struct ExFileDescriptorProto(pb::FileDescriptorProto);

#[verifier::external_type_specification]
#[verifier::external_body]
pub struct ExDescriptorProto(pb::DescriptorProto);

#[verifier::external_type_specification]
#[verifier::external_body]
pub struct ExFieldDescriptorProto(pb::FieldDescriptorProto);

#[verifier::external_type_specification]
#[verifier::external_body]
pub struct ExEnumDescriptorProto(pb::EnumDescriptorProto);

#[verifier::external_type_specification]
#[verifier::external_body]
pub struct ExEnumValueDescriptorProto(pb::EnumValueDescriptorProto);

#[verifier::external_type_specification]
#[verifier::external_body]
pub struct ExServiceDescriptorProto(pb::ServiceDescriptorProto);

#[verifier::external_type_specification]
#[verifier::external_body]
pub struct ExMethodDescriptorProto(pb::MethodDescriptorProto);

#[verifier::external_type_specification]
#[verifier::external_body]
pub struct ExOneofDescriptorProto(pb::OneofDescriptorProto);

#[verifier::external_type_specification]
#[verifier::external_body]
pub struct ExExtensionRange(pb::descriptor_proto::ExtensionRange);

#[verifier::external_type_specification]
#[verifier::external_body]
pub struct ExFileOptions(pb::FileOptions);

#[verifier::external_type_specification]
#[verifier::external_body]
pub struct ExMessageOptions(pb::MessageOptions);

#[verifier::external_type_specification]
#[verifier::external_body]
pub struct ExFieldOptions(pb::FieldOptions);

#[verifier::external_type_specification]
#[verifier::external_body]
pub struct ExEnumOptions(pb::EnumOptions);

#[verifier::external_type_specification]
#[verifier::external_body]
pub struct ExEnumValueOptions(pb::EnumValueOptions);

#[verifier::external_type_specification]
#[verifier::external_body]
pub struct ExServiceOptions(pb::ServiceOptions);

#[verifier::external_type_specification]
#[verifier::external_body]
pub struct ExMethodOptions(pb::MethodOptions);

#[verifier::external_type_specification]
#[verifier::external_body]
pub struct ExUnknownFields(protobuf::UnknownFields);

/// `FileDescriptorProto::name()` (the empty string when unset), as a `String`.
#[verifier::external_body]
fn file_name(p: &pb::FileDescriptorProto) -> String {
    p.name().to_string()
}
/// `FileDescriptorProto::package()` (the empty string when unset), as a `String`.
#[verifier::external_body]
fn file_package(p: &pb::FileDescriptorProto) -> String {
    p.package().to_string()
}
/// `FileDescriptorProto::syntax()` (the empty string when unset), as a `String`.
#[verifier::external_body]
fn file_syntax(p: &pb::FileDescriptorProto) -> String {
    p.syntax().to_string()
}
/// A copy of the `FileDescriptorProto.dependency` list.
#[verifier::external_body]
fn file_dependency(p: &pb::FileDescriptorProto) -> Vec<String> {
    p.dependency.clone()
}
/// A copy of the `FileDescriptorProto.public_dependency` list.
#[verifier::external_body]
fn file_public_dependency(p: &pb::FileDescriptorProto) -> Vec<i32> {
    p.public_dependency.clone()
}
/// A copy of the `FileDescriptorProto.weak_dependency` list.
#[verifier::external_body]
fn file_weak_dependency(p: &pb::FileDescriptorProto) -> Vec<i32> {
    p.weak_dependency.clone()
}
/// The `FileDescriptorProto.message_type` list.
#[verifier::external_body]
fn file_message_type(p: &pb::FileDescriptorProto) -> &Vec<pb::DescriptorProto> {
    &p.message_type
}
/// The `FileDescriptorProto.enum_type` list.
#[verifier::external_body]
fn file_enum_type(p: &pb::FileDescriptorProto) -> &Vec<pb::EnumDescriptorProto> {
    &p.enum_type
}
/// The `FileDescriptorProto.service` list.
#[verifier::external_body]
fn file_service(p: &pb::FileDescriptorProto) -> &Vec<pb::ServiceDescriptorProto> {
    &p.service
}
/// The `FileDescriptorProto.extension` list.
#[verifier::external_body]
fn file_extension(p: &pb::FileDescriptorProto) -> &Vec<pb::FieldDescriptorProto> {
    &p.extension
}
/// The `FileDescriptorProto.options` message, when it is set.
#[verifier::external_body]
fn file_options(p: &pb::FileDescriptorProto) -> Option<&pb::FileOptions> {
    p.options.as_ref()
}
/// `DescriptorProto::name()` (the empty string when unset), as a `String`.
#[verifier::external_body]
fn message_name(p: &pb::DescriptorProto) -> String {
    p.name().to_string()
}
/// The `DescriptorProto.field` list.
#[verifier::external_body]
fn message_field(p: &pb::DescriptorProto) -> &Vec<pb::FieldDescriptorProto> {
    &p.field
}
/// The `DescriptorProto.extension` list.
#[verifier::external_body]
fn message_extension(p: &pb::DescriptorProto) -> &Vec<pb::FieldDescriptorProto> {
    &p.extension
}
/// The `DescriptorProto.nested_type` list.
#[verifier::external_body]
fn message_nested_type(p: &pb::DescriptorProto) -> &Vec<pb::DescriptorProto> {
    &p.nested_type
}
/// The `DescriptorProto.enum_type` list.
#[verifier::external_body]
fn message_enum_type(p: &pb::DescriptorProto) -> &Vec<pb::EnumDescriptorProto> {
    &p.enum_type
}
/// The `DescriptorProto.extension_range` list.
#[verifier::external_body]
fn message_extension_range(p: &pb::DescriptorProto) -> &Vec<pb::descriptor_proto::ExtensionRange> {
    &p.extension_range
}
/// The `DescriptorProto.oneof_decl` list.
#[verifier::external_body]
fn message_oneof_decl(p: &pb::DescriptorProto) -> &Vec<pb::OneofDescriptorProto> {
    &p.oneof_decl
}
/// The `DescriptorProto.options` message, when it is set.
#[verifier::external_body]
fn message_options(p: &pb::DescriptorProto) -> Option<&pb::MessageOptions> {
    p.options.as_ref()
}
/// `DescriptorProto.ExtensionRange::start()` (zero when unset).
#[verifier::external_body]
fn range_start(p: &pb::descriptor_proto::ExtensionRange) -> i32 {
    p.start()
}
/// `DescriptorProto.ExtensionRange::end()` (zero when unset).
#[verifier::external_body]
fn range_end(p: &pb::descriptor_proto::ExtensionRange) -> i32 {
    p.end()
}
/// `OneofDescriptorProto::name()` (the empty string when unset), as a `String`.
#[verifier::external_body]
fn oneof_name(p: &pb::OneofDescriptorProto) -> String {
    p.name().to_string()
}
/// `FieldDescriptorProto::name()` (the empty string when unset), as a `String`.
#[verifier::external_body]
fn field_name(p: &pb::FieldDescriptorProto) -> String {
    p.name().to_string()
}
/// `FieldDescriptorProto::number()` (zero when unset).
#[verifier::external_body]
fn field_number(p: &pb::FieldDescriptorProto) -> i32 {
    p.number()
}
/// The number of `FieldDescriptorProto::label()` (the default variant when unset or unknown).
#[verifier::external_body]
fn field_label(p: &pb::FieldDescriptorProto) -> i32 {
    p.label().value()
}
/// The number of `FieldDescriptorProto::type_()` (the default variant when unset or unknown).
#[verifier::external_body]
fn field_type(p: &pb::FieldDescriptorProto) -> i32 {
    p.type_().value()
}
/// The name of the type that a field refers to: field 6 of `FieldDescriptorProto`
/// (the empty string when unset), read through the crate's reflection with
/// `field_by_number` and `get_singular_field_or_default`.
#[verifier::external_body]
fn field_referenced_type(p: &pb::FieldDescriptorProto) -> String {
    <pb::FieldDescriptorProto as protobuf::MessageFull>::descriptor()
        .field_by_number(6)
        .and_then(|f| f.get_singular_field_or_default(p).to_str().map(|s| s.to_string()))
        .unwrap_or_default()
}
/// `FieldDescriptorProto::extendee()` (the empty string when unset), as a `String`.
#[verifier::external_body]
fn field_extendee(p: &pb::FieldDescriptorProto) -> String {
    p.extendee().to_string()
}
/// `FieldDescriptorProto::default_value()` (the empty string when unset), as a `String`.
#[verifier::external_body]
fn field_default_value(p: &pb::FieldDescriptorProto) -> String {
    p.default_value().to_string()
}
/// `FieldDescriptorProto::json_name()` (the empty string when unset), as a `String`.
#[verifier::external_body]
fn field_json_name(p: &pb::FieldDescriptorProto) -> String {
    p.json_name().to_string()
}
/// A copy of the `FieldDescriptorProto.oneof_index` field (`None` when unset).
#[verifier::external_body]
fn field_oneof_index(p: &pb::FieldDescriptorProto) -> Option<i32> {
    p.oneof_index.clone()
}
/// The `FieldDescriptorProto.options` message, when it is set.
#[verifier::external_body]
fn field_options(p: &pb::FieldDescriptorProto) -> Option<&pb::FieldOptions> {
    p.options.as_ref()
}
/// `EnumDescriptorProto::name()` (the empty string when unset), as a `String`.
#[verifier::external_body]
fn enum_name(p: &pb::EnumDescriptorProto) -> String {
    p.name().to_string()
}
/// The `EnumDescriptorProto.value` list.
#[verifier::external_body]
fn enum_value(p: &pb::EnumDescriptorProto) -> &Vec<pb::EnumValueDescriptorProto> {
    &p.value
}
/// The `EnumDescriptorProto.options` message, when it is set.
#[verifier::external_body]
fn enum_options(p: &pb::EnumDescriptorProto) -> Option<&pb::EnumOptions> {
    p.options.as_ref()
}
/// `EnumValueDescriptorProto::name()` (the empty string when unset), as a `String`.
#[verifier::external_body]
fn enum_value_name(p: &pb::EnumValueDescriptorProto) -> String {
    p.name().to_string()
}
/// `EnumValueDescriptorProto::number()` (zero when unset).
#[verifier::external_body]
fn enum_value_number(p: &pb::EnumValueDescriptorProto) -> i32 {
    p.number()
}
/// The `EnumValueDescriptorProto.options` message, when it is set.
#[verifier::external_body]
fn enum_value_options(p: &pb::EnumValueDescriptorProto) -> Option<&pb::EnumValueOptions> {
    p.options.as_ref()
}
/// `ServiceDescriptorProto::name()` (the empty string when unset), as a `String`.
#[verifier::external_body]
fn service_name(p: &pb::ServiceDescriptorProto) -> String {
    p.name().to_string()
}
/// The `ServiceDescriptorProto.method` list.
#[verifier::external_body]
fn service_method(p: &pb::ServiceDescriptorProto) -> &Vec<pb::MethodDescriptorProto> {
    &p.method
}
/// The `ServiceDescriptorProto.options` message, when it is set.
#[verifier::external_body]
fn service_options(p: &pb::ServiceDescriptorProto) -> Option<&pb::ServiceOptions> {
    p.options.as_ref()
}
/// `MethodDescriptorProto::name()` (the empty string when unset), as a `String`.
#[verifier::external_body]
fn method_name(p: &pb::MethodDescriptorProto) -> String {
    p.name().to_string()
}
/// `MethodDescriptorProto::input_type()` (the empty string when unset), as a `String`.
#[verifier::external_body]
fn method_input_type(p: &pb::MethodDescriptorProto) -> String {
    p.input_type().to_string()
}
/// `MethodDescriptorProto::output_type()` (the empty string when unset), as a `String`.
#[verifier::external_body]
fn method_output_type(p: &pb::MethodDescriptorProto) -> String {
    p.output_type().to_string()
}
/// `MethodDescriptorProto::client_streaming()` (false when unset).
#[verifier::external_body]
fn method_client_streaming(p: &pb::MethodDescriptorProto) -> bool {
    p.client_streaming()
}
/// `MethodDescriptorProto::server_streaming()` (false when unset).
#[verifier::external_body]
fn method_server_streaming(p: &pb::MethodDescriptorProto) -> bool {
    p.server_streaming()
}
/// The `MethodDescriptorProto.options` message, when it is set.
#[verifier::external_body]
fn method_options(p: &pb::MethodDescriptorProto) -> Option<&pb::MethodOptions> {
    p.options.as_ref()
}
/// A copy of the `FileOptions.java_package` field (`None` when unset).
#[verifier::external_body]
fn file_opt_java_package(p: &pb::FileOptions) -> Option<String> {
    p.java_package.clone()
}
/// A copy of the `FileOptions.java_outer_classname` field (`None` when unset).
#[verifier::external_body]
fn file_opt_java_outer_classname(p: &pb::FileOptions) -> Option<String> {
    p.java_outer_classname.clone()
}
/// A copy of the `FileOptions.java_multiple_files` field (`None` when unset).
#[verifier::external_body]
fn file_opt_java_multiple_files(p: &pb::FileOptions) -> Option<bool> {
    p.java_multiple_files.clone()
}
/// A copy of the `FileOptions.java_generate_equals_and_hash` field (`None` when unset).
#[verifier::external_body]
fn file_opt_java_generate_equals_and_hash(p: &pb::FileOptions) -> Option<bool> {
    p.java_generate_equals_and_hash.clone()
}
/// A copy of the `FileOptions.java_string_check_utf8` field (`None` when unset).
#[verifier::external_body]
fn file_opt_java_string_check_utf8(p: &pb::FileOptions) -> Option<bool> {
    p.java_string_check_utf8.clone()
}
/// The number of `FileOptions::optimize_for()` when the field is set (`None` when unset).
#[verifier::external_body]
fn file_opt_optimize_for(p: &pb::FileOptions) -> Option<i32> {
    p.optimize_for.map(|_| p.optimize_for().value())
}
/// A copy of the `FileOptions.go_package` field (`None` when unset).
#[verifier::external_body]
fn file_opt_go_package(p: &pb::FileOptions) -> Option<String> {
    p.go_package.clone()
}
/// A copy of the `FileOptions.cc_generic_services` field (`None` when unset).
#[verifier::external_body]
fn file_opt_cc_generic_services(p: &pb::FileOptions) -> Option<bool> {
    p.cc_generic_services.clone()
}
/// A copy of the `FileOptions.java_generic_services` field (`None` when unset).
#[verifier::external_body]
fn file_opt_java_generic_services(p: &pb::FileOptions) -> Option<bool> {
    p.java_generic_services.clone()
}
/// A copy of the `FileOptions.py_generic_services` field (`None` when unset).
#[verifier::external_body]
fn file_opt_py_generic_services(p: &pb::FileOptions) -> Option<bool> {
    p.py_generic_services.clone()
}
/// A copy of the `FileOptions.php_generic_services` field (`None` when unset).
#[verifier::external_body]
fn file_opt_php_generic_services(p: &pb::FileOptions) -> Option<bool> {
    p.php_generic_services.clone()
}
/// A copy of the `FileOptions.deprecated` field (`None` when unset).
#[verifier::external_body]
fn file_opt_deprecated(p: &pb::FileOptions) -> Option<bool> {
    p.deprecated.clone()
}
/// A copy of the `FileOptions.cc_enable_arenas` field (`None` when unset).
#[verifier::external_body]
fn file_opt_cc_enable_arenas(p: &pb::FileOptions) -> Option<bool> {
    p.cc_enable_arenas.clone()
}
/// A copy of the `FileOptions.objc_class_prefix` field (`None` when unset).
#[verifier::external_body]
fn file_opt_objc_class_prefix(p: &pb::FileOptions) -> Option<String> {
    p.objc_class_prefix.clone()
}
/// A copy of the `FileOptions.csharp_namespace` field (`None` when unset).
#[verifier::external_body]
fn file_opt_csharp_namespace(p: &pb::FileOptions) -> Option<String> {
    p.csharp_namespace.clone()
}
/// A copy of the `FileOptions.swift_prefix` field (`None` when unset).
#[verifier::external_body]
fn file_opt_swift_prefix(p: &pb::FileOptions) -> Option<String> {
    p.swift_prefix.clone()
}
/// A copy of the `FileOptions.php_class_prefix` field (`None` when unset).
#[verifier::external_body]
fn file_opt_php_class_prefix(p: &pb::FileOptions) -> Option<String> {
    p.php_class_prefix.clone()
}
/// A copy of the `FileOptions.php_namespace` field (`None` when unset).
#[verifier::external_body]
fn file_opt_php_namespace(p: &pb::FileOptions) -> Option<String> {
    p.php_namespace.clone()
}
/// A copy of the `FileOptions.php_metadata_namespace` field (`None` when unset).
#[verifier::external_body]
fn file_opt_php_metadata_namespace(p: &pb::FileOptions) -> Option<String> {
    p.php_metadata_namespace.clone()
}
/// A copy of the `FileOptions.ruby_package` field (`None` when unset).
#[verifier::external_body]
fn file_opt_ruby_package(p: &pb::FileOptions) -> Option<String> {
    p.ruby_package.clone()
}
/// The unknown fields kept by `FileOptions`.
#[verifier::external_body]
fn file_opt_unknown(p: &pb::FileOptions) -> &protobuf::UnknownFields {
    p.special_fields.unknown_fields()
}
/// A copy of the `MessageOptions.message_set_wire_format` field (`None` when unset).
#[verifier::external_body]
fn message_opt_message_set_wire_format(p: &pb::MessageOptions) -> Option<bool> {
    p.message_set_wire_format.clone()
}
/// A copy of the `MessageOptions.no_standard_descriptor_accessor` field (`None` when unset).
#[verifier::external_body]
fn message_opt_no_standard_descriptor_accessor(p: &pb::MessageOptions) -> Option<bool> {
    p.no_standard_descriptor_accessor.clone()
}
/// A copy of the `MessageOptions.deprecated` field (`None` when unset).
#[verifier::external_body]
fn message_opt_deprecated(p: &pb::MessageOptions) -> Option<bool> {
    p.deprecated.clone()
}
/// The unknown fields kept by `MessageOptions`.
#[verifier::external_body]
fn message_opt_unknown(p: &pb::MessageOptions) -> &protobuf::UnknownFields {
    p.special_fields.unknown_fields()
}
/// The number of `FieldOptions::ctype()` when the field is set (`None` when unset).
#[verifier::external_body]
fn field_opt_ctype(p: &pb::FieldOptions) -> Option<i32> {
    p.ctype.map(|_| p.ctype().value())
}
/// A copy of the `FieldOptions.packed` field (`None` when unset).
#[verifier::external_body]
fn field_opt_packed(p: &pb::FieldOptions) -> Option<bool> {
    p.packed.clone()
}
/// The number of `FieldOptions::jstype()` when the field is set (`None` when unset).
#[verifier::external_body]
fn field_opt_jstype(p: &pb::FieldOptions) -> Option<i32> {
    p.jstype.map(|_| p.jstype().value())
}
/// A copy of the `FieldOptions.lazy` field (`None` when unset).
#[verifier::external_body]
fn field_opt_lazy(p: &pb::FieldOptions) -> Option<bool> {
    p.lazy.clone()
}
/// A copy of the `FieldOptions.deprecated` field (`None` when unset).
#[verifier::external_body]
fn field_opt_deprecated(p: &pb::FieldOptions) -> Option<bool> {
    p.deprecated.clone()
}
/// A copy of the `FieldOptions.weak` field (`None` when unset).
#[verifier::external_body]
fn field_opt_weak(p: &pb::FieldOptions) -> Option<bool> {
    p.weak.clone()
}
/// The unknown fields kept by `FieldOptions`.
#[verifier::external_body]
fn field_opt_unknown(p: &pb::FieldOptions) -> &protobuf::UnknownFields {
    p.special_fields.unknown_fields()
}
/// A copy of the `EnumOptions.allow_alias` field (`None` when unset).
#[verifier::external_body]
fn enum_opt_allow_alias(p: &pb::EnumOptions) -> Option<bool> {
    p.allow_alias.clone()
}
/// A copy of the `EnumOptions.deprecated` field (`None` when unset).
#[verifier::external_body]
fn enum_opt_deprecated(p: &pb::EnumOptions) -> Option<bool> {
    p.deprecated.clone()
}
/// The unknown fields kept by `EnumOptions`.
#[verifier::external_body]
fn enum_opt_unknown(p: &pb::EnumOptions) -> &protobuf::UnknownFields {
    p.special_fields.unknown_fields()
}
/// A copy of the `EnumValueOptions.deprecated` field (`None` when unset).
#[verifier::external_body]
fn enum_value_opt_deprecated(p: &pb::EnumValueOptions) -> Option<bool> {
    p.deprecated.clone()
}
/// The unknown fields kept by `EnumValueOptions`.
#[verifier::external_body]
fn enum_value_opt_unknown(p: &pb::EnumValueOptions) -> &protobuf::UnknownFields {
    p.special_fields.unknown_fields()
}
/// A copy of the `ServiceOptions.deprecated` field (`None` when unset).
#[verifier::external_body]
fn service_opt_deprecated(p: &pb::ServiceOptions) -> Option<bool> {
    p.deprecated.clone()
}
/// The unknown fields kept by `ServiceOptions`.
#[verifier::external_body]
fn service_opt_unknown(p: &pb::ServiceOptions) -> &protobuf::UnknownFields {
    p.special_fields.unknown_fields()
}
/// A copy of the `MethodOptions.deprecated` field (`None` when unset).
#[verifier::external_body]
fn method_opt_deprecated(p: &pb::MethodOptions) -> Option<bool> {
    p.deprecated.clone()
}
/// The unknown fields kept by `MethodOptions`.
#[verifier::external_body]
fn method_opt_unknown(p: &pb::MethodOptions) -> &protobuf::UnknownFields {
    p.special_fields.unknown_fields()
}
/// The values of `UnknownFields::iter`, each as the library's `UnknownField`
/// (a length-delimited value is copied).
#[verifier::external_body]
fn unknown_field_list(u: &protobuf::UnknownFields) -> Vec<UnknownField> {
    u.iter().map(|(number, v)| UnknownField { number, value: match v {
        UnknownValueRef::Fixed32(x) => UnknownValue::Fixed32(x),
        UnknownValueRef::Fixed64(x) => UnknownValue::Fixed64(x),
        UnknownValueRef::Varint(x) => UnknownValue::Varint(x),
        UnknownValueRef::LengthDelimited(b) => UnknownValue::LengthDelimited(b.to_vec()),
    } }).collect()
}

/// What parsing `bytes` as a `FileDescriptorProto` gives, as the library's
/// model reads it: the descriptor as a plain value, or the text of the parse
/// error.
pub uninterp spec fn parsed_file(bytes: Seq<u8>) -> Result<FileDescriptorView, Seq<char>>;

/// Parses `bytes` with `FileDescriptorProto::parse_from_bytes`; a parsed
/// message is read into the library's model by `file_descriptor_from_proto`,
/// and an error is turned into its `Display` text. Both are functions of the
/// bytes alone, named `parsed_file(bytes)`.
///
/// One fact about the name is stated as well. The generated parser reads tag
/// 10 (field 1, length-delimited) as the `name` string, checking its UTF-8, and
/// a later field 1 would replace it. When the bytes start with that tag and the
/// framing walk `spec_consume` covers all of them, no other field numbered 1
/// stands at the top level: every tag the parser reads there is a tag that the
/// walk read too, since the parser fails on what the walk passes over
/// differently (an oversized varint, a stray end-group). The name is then the
/// string of the first field.
#[verifier::external_body]
pub(crate) fn parse_file(bytes: &[u8]) -> (r: Result<FileDescriptor, String>)
    ensures
        match r {
            Ok(d) => {
                &&& parsed_file(bytes@) == Ok::<FileDescriptorView, Seq<char>>(d@)
                &&& (bytes@.len() > 0 && bytes@[0] == 10 && spec_consume(bytes@, 0, false)
                    == bytes@.len()) ==> match spec_read_varint(bytes@, 1) {
                    Some((l, q)) => q + l <= bytes@.len() ==> {
                        &&& valid_utf8(bytes@.subrange(q, q + l))
                        &&& d.name@ == decode_utf8(bytes@.subrange(q, q + l))
                    },
                    None => true,
                }
            },
            Err(m) => parsed_file(bytes@) == Err::<FileDescriptorView, Seq<char>>(m@),
        },
{
    pb::FileDescriptorProto::parse_from_bytes(bytes).map(|p| file_descriptor_from_proto(&p)).map_err(|e| e.to_string())
}

/// The unknown values recorded for field `number` when `bytes` are parsed as a
/// `DescriptorProto`, in the order in which `UnknownFields::iter` hands them out
/// (for one number: the fixed32 values, the fixed64 values, the varints, then
/// the length-delimited values, each in the order read); `None` when parsing
/// fails.
pub uninterp spec fn message_unknown_values(bytes: Seq<u8>, number: u32) -> Option<Seq<UnknownValueView>>;

/// Parses `bytes` with `DescriptorProto::parse_from_bytes` and hands out the
/// unknown fields of the result, as `unknown_field_list` does. The values of
/// each field number are named `message_unknown_values(bytes, number)`; the
/// order between different numbers follows a hash map and is left open. A
/// length-delimited unknown value is a part of the input that follows its tag
/// and length, so it is shorter than the input.
#[verifier::external_body]
pub(crate) fn parse_message_unknown_fields(bytes: &[u8]) -> (r: Option<Vec<UnknownField>>)
    ensures
        forall|n: u32| (r is Some <==> (#[trigger] message_unknown_values(bytes@, n)) is Some),
        r matches Some(v) ==> forall|n: u32|
            values_for(unknown_views(v@), n) == (#[trigger] message_unknown_values(bytes@, n))->0,
        r matches Some(v) ==> forall|i: int|
            0 <= i < v@.len() ==> payload_below(#[trigger] v@[i].value@, bytes@.len()),
{
    pb::DescriptorProto::parse_from_bytes(bytes).ok().map(|m| m.special_fields.unknown_fields().iter().map(|(number, v)| UnknownField { number, value: match v {
        UnknownValueRef::Fixed32(x) => UnknownValue::Fixed32(x),
        UnknownValueRef::Fixed64(x) => UnknownValue::Fixed64(x),
        UnknownValueRef::Varint(x) => UnknownValue::Varint(x),
        UnknownValueRef::LengthDelimited(b) => UnknownValue::LengthDelimited(b.to_vec()),
    } }).collect())
}

fn unknown_fields(u: &protobuf::UnknownFields) -> Vec<UnknownField> {
    unknown_field_list(u)
}

fn file_options_from_proto(o: &pb::FileOptions) -> FileOpts {
    FileOpts {
        java_package: file_opt_java_package(o),
        java_outer_classname: file_opt_java_outer_classname(o),
        java_multiple_files: file_opt_java_multiple_files(o),
        java_generate_equals_and_hash: file_opt_java_generate_equals_and_hash(o),
        java_string_check_utf8: file_opt_java_string_check_utf8(o),
        optimize_for: match file_opt_optimize_for(o) {
            Some(v) => Some(optimize_mode_from_value(v)),
            None => None,
        },
        go_package: file_opt_go_package(o),
        cc_generic_services: file_opt_cc_generic_services(o),
        java_generic_services: file_opt_java_generic_services(o),
        py_generic_services: file_opt_py_generic_services(o),
        php_generic_services: file_opt_php_generic_services(o),
        deprecated: file_opt_deprecated(o),
        cc_enable_arenas: file_opt_cc_enable_arenas(o),
        objc_class_prefix: file_opt_objc_class_prefix(o),
        csharp_namespace: file_opt_csharp_namespace(o),
        swift_prefix: file_opt_swift_prefix(o),
        php_class_prefix: file_opt_php_class_prefix(o),
        php_namespace: file_opt_php_namespace(o),
        php_metadata_namespace: file_opt_php_metadata_namespace(o),
        ruby_package: file_opt_ruby_package(o),
        unknown_fields: unknown_fields(file_opt_unknown(o)),
    }
}

fn message_options_from_proto(o: &pb::MessageOptions) -> MessageOpts {
    MessageOpts {
        message_set_wire_format: message_opt_message_set_wire_format(o),
        no_standard_descriptor_accessor: message_opt_no_standard_descriptor_accessor(o),
        deprecated: message_opt_deprecated(o),
        unknown_fields: unknown_fields(message_opt_unknown(o)),
    }
}

fn field_options_from_proto(o: &pb::FieldOptions) -> FieldOpts {
    FieldOpts {
        ctype: match field_opt_ctype(o) {
            Some(v) => Some(ctype_from_value(v)),
            None => None,
        },
        packed: field_opt_packed(o),
        jstype: match field_opt_jstype(o) {
            Some(v) => Some(jstype_from_value(v)),
            None => None,
        },
        lazy: field_opt_lazy(o),
        deprecated: field_opt_deprecated(o),
        weak: field_opt_weak(o),
        unknown_fields: unknown_fields(field_opt_unknown(o)),
    }
}

fn enum_options_from_proto(o: &pb::EnumOptions) -> EnumOpts {
    EnumOpts {
        allow_alias: enum_opt_allow_alias(o),
        deprecated: enum_opt_deprecated(o),
        unknown_fields: unknown_fields(enum_opt_unknown(o)),
    }
}

fn field_from_proto(f: &pb::FieldDescriptorProto) -> FieldDescriptor {
    FieldDescriptor {
        name: field_name(f),
        number: field_number(f),
        label: label_from_value(field_label(f)),
        field_type: field_type_from_value(field_type(f)),
        type_ref: field_referenced_type(f),
        extendee: field_extendee(f),
        default_value: field_default_value(f),
        json_name: field_json_name(f),
        oneof_index: field_oneof_index(f),
        options: match field_options(f) {
            Some(o) => Some(field_options_from_proto(o)),
            None => None,
        },
    }
}

fn fields_from_proto(v: &Vec<pb::FieldDescriptorProto>) -> (r: Vec<FieldDescriptor>)
    ensures
        r@.len() == v@.len(),
{
    let mut out = Vec::new();
    for i in 0..v.len()
        invariant
            out@.len() == i,
    {
        out.push(field_from_proto(&v[i]));
    }
    out
}

fn enum_from_proto(e: &pb::EnumDescriptorProto) -> EnumDescriptor {
    let values = enum_value(e);
    let mut value = Vec::new();
    for i in 0..values.len() {
        let v = &values[i];
        value.push(
            EnumValueDescriptor {
                name: enum_value_name(v),
                number: enum_value_number(v),
                options: match enum_value_options(v) {
                    Some(o) => Some(
                        DeprecatedOpts {
                            deprecated: enum_value_opt_deprecated(o),
                            unknown_fields: unknown_fields(enum_value_opt_unknown(o)),
                        },
                    ),
                    None => None,
                },
            },
        );
    }
    EnumDescriptor {
        name: enum_name(e),
        value,
        options: match enum_options(e) {
            Some(o) => Some(enum_options_from_proto(o)),
            None => None,
        },
    }
}

fn enums_from_proto(v: &Vec<pb::EnumDescriptorProto>) -> (r: Vec<EnumDescriptor>)
    ensures
        r@.len() == v@.len(),
{
    let mut out = Vec::new();
    for i in 0..v.len()
        invariant
            out@.len() == i,
    {
        out.push(enum_from_proto(&v[i]));
    }
    out
}

/// Nesting of messages that the `protobuf` crate accepts: its parser refuses
/// input nested deeper than its recursion limit of 100.
pub const MAX_NESTING: usize = 100;

/// No message is nested in `m` more than `depth` levels deep.
pub open spec fn nested_within(m: MessageDescriptor, depth: nat) -> bool
    decreases depth,
{
    if depth == 0 {
        m.nested_type@.len() == 0
    } else {
        forall|i: int|
            0 <= i < m.nested_type@.len() ==> nested_within(
                #[trigger] m.nested_type@[i],
                (depth - 1) as nat,
            )
    }
}

fn message_from_proto(m: &pb::DescriptorProto, depth: usize) -> (r: MessageDescriptor)
    ensures
        nested_within(r, depth as nat),
    decreases depth,
{
    let nested = message_nested_type(m);
    let mut nested_type: Vec<MessageDescriptor> = Vec::new();
    if depth > 0 {
        for i in 0..nested.len()
            invariant
                depth > 0,
                forall|k: int|
                    0 <= k < nested_type@.len() ==> nested_within(
                        #[trigger] nested_type@[k],
                        (depth - 1) as nat,
                    ),
        {
            nested_type.push(message_from_proto(&nested[i], depth - 1));
        }
    }
    let ranges = message_extension_range(m);
    let mut extension_range = Vec::new();
    for i in 0..ranges.len() {
        extension_range.push(ExtRange { start: range_start(&ranges[i]), end: range_end(&ranges[i]) });
    }
    let oneofs = message_oneof_decl(m);
    let mut oneof_decl = Vec::new();
    for i in 0..oneofs.len() {
        oneof_decl.push(oneof_name(&oneofs[i]));
    }
    MessageDescriptor {
        name: message_name(m),
        field: fields_from_proto(message_field(m)),
        extension: fields_from_proto(message_extension(m)),
        nested_type,
        enum_type: enums_from_proto(message_enum_type(m)),
        extension_range,
        oneof_decl,
        options: match message_options(m) {
            Some(o) => Some(message_options_from_proto(o)),
            None => None,
        },
    }
}

fn service_from_proto(s: &pb::ServiceDescriptorProto) -> ServiceDescriptor {
    let methods = service_method(s);
    let mut method = Vec::new();
    for i in 0..methods.len() {
        let m = &methods[i];
        method.push(
            MethodDescriptor {
                name: method_name(m),
                input_type: method_input_type(m),
                output_type: method_output_type(m),
                client_streaming: method_client_streaming(m),
                server_streaming: method_server_streaming(m),
                options: match method_options(m) {
                    Some(o) => Some(
                        DeprecatedOpts {
                            deprecated: method_opt_deprecated(o),
                            unknown_fields: unknown_fields(method_opt_unknown(o)),
                        },
                    ),
                    None => None,
                },
            },
        );
    }
    ServiceDescriptor {
        name: service_name(s),
        method,
        options: match service_options(s) {
            Some(o) => Some(
                DeprecatedOpts {
                    deprecated: service_opt_deprecated(o),
                    unknown_fields: unknown_fields(service_opt_unknown(o)),
                },
            ),
            None => None,
        },
    }
}

/// The library's model of a parsed `FileDescriptorProto`, read field by field.
pub(crate) fn file_descriptor_from_proto(p: &pb::FileDescriptorProto) -> (r: FileDescriptor)
    ensures
        forall|i: int|
            0 <= i < r.message_type@.len() ==> nested_within(
                #[trigger] r.message_type@[i],
                MAX_NESTING as nat,
            ),
{
    let messages = file_message_type(p);
    let mut message_type: Vec<MessageDescriptor> = Vec::new();
    for i in 0..messages.len()
        invariant
            forall|k: int|
                0 <= k < message_type@.len() ==> nested_within(
                    #[trigger] message_type@[k],
                    MAX_NESTING as nat,
                ),
    {
        message_type.push(message_from_proto(&messages[i], MAX_NESTING));
    }
    let services = file_service(p);
    let mut service = Vec::new();
    for i in 0..services.len() {
        service.push(service_from_proto(&services[i]));
    }
    FileDescriptor {
        name: file_name(p),
        package: file_package(p),
        syntax: file_syntax(p),
        dependency: file_dependency(p),
        public_dependency: file_public_dependency(p),
        weak_dependency: file_weak_dependency(p),
        message_type,
        enum_type: enums_from_proto(file_enum_type(p)),
        service,
        extension: fields_from_proto(file_extension(p)),
        options: match file_options(p) {
            Some(o) => Some(file_options_from_proto(o)),
            None => None,
        },
    }
}

} // verus!
