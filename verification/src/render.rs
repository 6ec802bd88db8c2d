//! The `.proto` source text of a file descriptor.
//!
//! Each part of a file is stated as a spec function from the part (and the
//! blank-line marker that the parts before it left) to the glyphs it writes.
//! A blank line separates two parts whenever the marker is set; writing a
//! part clears it (`append_heading_space`), and finishing a block sets it.
use crate::descriptor::{
    EnumDescriptor, EnumValueDescriptor, ExtRange, FieldDescriptor, FieldType, FileDescriptor,
    Label, MessageDescriptor, MethodDescriptor, ServiceDescriptor,
};
use crate::dumper::{
    find, is_named_type, type_names, FileMap, FileNodeView, SourceView, TypeMap, TypeNodeView,
};
use crate::options::{
    deprecated_opts_kvs, enum_opts_kvs, field_opts_kvs, file_opts_kvs, is_custom_key,
    lemma_field_opts_lack, lemma_keyed_basics, lemma_option_key_letters, message_opts_kvs,
    sets_option,
};
use crate::dumper::{contains_string, enum_refs_view, lemma_find_props, strings_view, TypeSource};
use crate::options::{
    doc_of_string, dump_enum_options, dump_enum_value_options, dump_field_options,
    dump_file_options, dump_message_options, dump_method_options, dump_service_options, kv_views,
    push_kv, str_eq, text_doc, KeyValue,
};
use crate::dumper::ProtobufDumper;
use crate::text::{i64_text, int_text, lift, pieces_glyphs, Doc, Glyph, Piece};
use crate::util::{literal_of, to_literal};
use vstd::string::StringExecFns;
use vstd::prelude::*;

verus! {

/// What the text of a file depends on besides the file itself: the type map,
/// the file graph and the name of the file being written.
pub struct RenderCtx {
    pub types: Seq<TypeNodeView>,
    pub graph: Seq<FileNodeView>,
    pub source: Seq<char>,
}

/// The blank line written before a part when the marker is set.
pub open spec fn heading(m: bool) -> Seq<Glyph> {
    if m {
        lift(seq!['\n'])
    } else {
        Seq::empty()
    }
}

/// `key = value`.
pub open spec fn kv_text(e: (Seq<char>, Seq<Glyph>)) -> Seq<Glyph> {
    lift(e.0) + lift(" = "@) + e.1
}

/// The options joined by `", "`.
pub open spec fn kv_list_text(kvs: Seq<(Seq<char>, Seq<Glyph>)>) -> Seq<Glyph>
    decreases kvs.len(),
{
    if kvs.len() == 0 {
        Seq::empty()
    } else if kvs.len() == 1 {
        kv_text(kvs[0])
    } else {
        kv_list_text(kvs.drop_last()) + lift(", "@) + kv_text(kvs.last())
    }
}

/// ` [k = v, ...]`, or nothing when there are no options.
pub open spec fn params_text(kvs: Seq<(Seq<char>, Seq<Glyph>)>) -> Seq<Glyph> {
    if kvs.len() == 0 {
        Seq::empty()
    } else {
        lift(" ["@) + kv_list_text(kvs) + lift("]"@)
    }
}

/// One `option k = v;` line per option, each behind `ind` and `prefix`.
pub open spec fn option_lines(
    kvs: Seq<(Seq<char>, Seq<Glyph>)>,
    ind: Seq<char>,
    prefix: Seq<char>,
) -> Seq<Glyph>
    decreases kvs.len(),
{
    if kvs.len() == 0 {
        Seq::empty()
    } else {
        option_lines(kvs.drop_last(), ind, prefix) + lift(ind) + lift(prefix) + kv_text(kvs.last())
            + lift(";\n"@)
    }
}

// ─── Field declarations ─────────────────────────────────────────────────────

pub open spec fn label_text(l: Label) -> Seq<char> {
    match l {
        Label::Required => "required"@,
        Label::Repeated => "repeated"@,
        Label::Optional => "optional"@,
    }
}

pub open spec fn type_text(t: FieldType) -> Seq<char> {
    match t {
        FieldType::Int32 => "int32"@,
        FieldType::Int64 => "int64"@,
        FieldType::SInt32 => "sint32"@,
        FieldType::SInt64 => "sint64"@,
        FieldType::UInt32 => "uint32"@,
        FieldType::UInt64 => "uint64"@,
        FieldType::String => "string"@,
        FieldType::Bool => "bool"@,
        FieldType::Bytes => "bytes"@,
        FieldType::Double => "double"@,
        FieldType::Enum => "enum"@,
        FieldType::Float => "float"@,
        FieldType::Group => "GROUP"@,
        FieldType::Message => "message"@,
        FieldType::Fixed32 => "fixed32"@,
        FieldType::Fixed64 => "fixed64"@,
        FieldType::SFixed32 => "sfixed32"@,
        FieldType::SFixed64 => "sfixed64"@,
    }
}

/// The type written in a declaration: the referenced name for a message or
/// enum, the scalar's name otherwise.
pub open spec fn resolved_type(f: FieldDescriptor) -> Seq<char> {
    if is_named_type(f.field_type) {
        f.type_ref@
    } else {
        type_text(f.field_type)
    }
}

/// The `default` option: the declared default (quoted for a string), or, for
/// a singular enum field without one, the first value of its enum type.
pub open spec fn default_kvs(types: Seq<TypeNodeView>, f: FieldDescriptor) -> Seq<
    (Seq<char>, Seq<Glyph>),
> {
    if f.default_value@.len() != 0 {
        seq![
            ("default"@, lift(
                if f.field_type == FieldType::String {
                    literal_of(f.default_value@)
                } else {
                    f.default_value@
                },
            )),
        ]
    } else if f.field_type == FieldType::Enum && f.label != Label::Repeated {
        match find(type_names(types), f.type_ref@) {
            Some(i) => match types[i].source {
                SourceView::Enum(values) => if values.len() > 0 {
                    seq![("default"@, lift(values[0].0))]
                } else {
                    Seq::empty()
                },
                _ => Seq::empty(),
            },
            None => Seq::empty(),
        }
    } else {
        Seq::empty()
    }
}

/// The `json_name` option, when the field has one.
pub open spec fn json_kvs(f: FieldDescriptor) -> Seq<(Seq<char>, Seq<Glyph>)> {
    if f.json_name@.len() != 0 {
        seq![("json_name"@, lift(literal_of(f.json_name@)))]
    } else {
        Seq::empty()
    }
}

/// The options in a field declaration's brackets.
pub open spec fn decl_kvs(ctx: RenderCtx, f: FieldDescriptor) -> Seq<(Seq<char>, Seq<Glyph>)> {
    default_kvs(ctx.types, f) + json_kvs(f) + field_opts_kvs(
        ctx.types,
        ctx.graph,
        ctx.source,
        f.options,
    )
}

/// A declaration carries a `default` option only where the field declares
/// one or is a singular enum field: a declared default is written once, as
/// given (quoted for a string field); a repeated field without a declared
/// default gets none, and neither does a field of another type than enum.
pub proof fn law_default_option(ctx: RenderCtx, f: FieldDescriptor)
    ensures
        f.default_value@.len() != 0 ==> sets_option(
            decl_kvs(ctx, f),
            "default"@,
            Some(
                lift(
                    if f.field_type == FieldType::String {
                        literal_of(f.default_value@)
                    } else {
                        f.default_value@
                    },
                ),
            ),
        ),
        f.default_value@.len() == 0 && (f.label == Label::Repeated || f.field_type
            != FieldType::Enum) ==> sets_option(decl_kvs(ctx, f), "default"@, None),
{
    lemma_keyed_basics();
    lemma_option_key_letters();
    assert(!is_custom_key("default"@));
    lemma_field_opts_lack(ctx.types, ctx.graph, ctx.source, f.options, "default"@);
}

/// `[label ]type name = number[ [options]];`
#[verifier::opaque]
pub open spec fn decl_text(ctx: RenderCtx, f: FieldDescriptor, emit_label: bool) -> Seq<Glyph> {
    (if emit_label {
        lift(label_text(f.label)) + lift(" "@)
    } else {
        Seq::empty()
    }) + lift(resolved_type(f)) + lift(" "@) + lift(f.name@) + lift(" = "@) + lift(
        int_text(f.number as int),
    ) + params_text(decl_kvs(ctx, f)) + lift(";"@)
}

/// A declaration on a line of its own, behind `ind` and `tabs`.
pub open spec fn field_line(
    ctx: RenderCtx,
    f: FieldDescriptor,
    ind: Seq<char>,
    tabs: Seq<char>,
    emit_label: bool,
) -> Seq<Glyph> {
    lift(ind) + lift(tabs) + decl_text(ctx, f, emit_label) + lift(seq!['\n'])
}

// ─── Extensions ─────────────────────────────────────────────────────────────

/// The extended types, each once, in the order of their first field.
pub open spec fn extendees(fields: Seq<FieldDescriptor>) -> Seq<Seq<char>>
    decreases fields.len(),
{
    if fields.len() == 0 {
        Seq::empty()
    } else {
        let e = extendees(fields.drop_last());
        let x = fields.last().extendee@;
        if x.len() == 0 || e.contains(x) {
            e
        } else {
            e.push(x)
        }
    }
}

/// The declarations of the fields that extend `x`.
pub open spec fn group_lines(
    ctx: RenderCtx,
    fields: Seq<FieldDescriptor>,
    x: Seq<char>,
    ind: Seq<char>,
) -> Seq<Glyph>
    decreases fields.len(),
{
    if fields.len() == 0 {
        Seq::empty()
    } else {
        group_lines(ctx, fields.drop_last(), x, ind) + (if fields.last().extendee@ == x {
            field_line(ctx, fields.last(), ind, "\t"@, true)
        } else {
            Seq::empty()
        })
    }
}

/// The `extend` blocks for the extended types `xs`.
pub open spec fn groups_text(
    ctx: RenderCtx,
    fields: Seq<FieldDescriptor>,
    xs: Seq<Seq<char>>,
    ind: Seq<char>,
    m: bool,
) -> Seq<Glyph>
    decreases xs.len(),
{
    if xs.len() == 0 {
        Seq::empty()
    } else {
        groups_text(ctx, fields, xs.drop_last(), ind, m) + heading(
            if xs.len() == 1 {
                m
            } else {
                true
            },
        ) + group_block(ctx, fields, xs.last(), ind)
    }
}

/// The `extend` block for the extended type `x`.
pub open spec fn group_block(ctx: RenderCtx, fields: Seq<FieldDescriptor>, x: Seq<char>, ind: Seq<char>) -> Seq<
    Glyph,
> {
    lift(ind) + lift("extend "@) + lift(x) + lift(" {\n"@) + group_lines(ctx, fields, x, ind) + lift(
        ind,
    ) + lift("}\n"@)
}

/// The extension fields, one `extend` block per extended type.
#[verifier::opaque]
pub open spec fn extensions_text(
    ctx: RenderCtx,
    fields: Seq<FieldDescriptor>,
    ind: Seq<char>,
    m: bool,
) -> Seq<Glyph> {
    groups_text(ctx, fields, extendees(fields), ind, m)
}

// ─── Enums ──────────────────────────────────────────────────────────────────

pub open spec fn enum_value_line(ctx: RenderCtx, v: EnumValueDescriptor, ind: Seq<char>) -> Seq<
    Glyph,
> {
    lift(ind) + lift("\t"@) + lift(v.name@) + lift(" = "@) + lift(int_text(v.number as int))
        + params_text(
        deprecated_opts_kvs(
            ctx.types,
            ctx.graph,
            ctx.source,
            ".google.protobuf.EnumValueOptions"@,
            v.options,
        ),
    ) + lift(";\n"@)
}

pub open spec fn enum_values_text(
    ctx: RenderCtx,
    vs: Seq<EnumValueDescriptor>,
    ind: Seq<char>,
) -> Seq<Glyph>
    decreases vs.len(),
{
    if vs.len() == 0 {
        Seq::empty()
    } else {
        enum_values_text(ctx, vs.drop_last(), ind) + enum_value_line(ctx, vs.last(), ind)
    }
}

/// An `enum` block: its options, then its values.
pub open spec fn enum_text(ctx: RenderCtx, e: EnumDescriptor, ind: Seq<char>, m: bool) -> Seq<
    Glyph,
> {
    heading(m) + lift(ind) + lift("enum "@) + lift(e.name@) + lift(" {\n"@) + option_lines(
        enum_opts_kvs(ctx.types, ctx.graph, ctx.source, e.options),
        ind,
        "\toption "@,
    ) + enum_values_text(ctx, e.value@, ind) + lift(ind) + lift("}\n"@)
}

pub open spec fn enums_text(ctx: RenderCtx, es: Seq<EnumDescriptor>, ind: Seq<char>, m: bool) -> Seq<
    Glyph,
>
    decreases es.len(),
{
    if es.len() == 0 {
        Seq::empty()
    } else {
        enums_text(ctx, es.drop_last(), ind, m) + enum_text(
            ctx,
            es.last(),
            ind,
            if es.len() == 1 {
                m
            } else {
                true
            },
        )
    }
}

// ─── Messages ───────────────────────────────────────────────────────────────

/// Some field is outside every oneof.
pub open spec fn any_root(fields: Seq<FieldDescriptor>) -> bool
    decreases fields.len(),
{
    fields.len() > 0 && (any_root(fields.drop_last()) || fields.last().oneof_index is None)
}

/// The declarations of the fields outside every oneof; a blank line before
/// the first when the marker is set.
pub open spec fn root_lines(ctx: RenderCtx, fields: Seq<FieldDescriptor>, ind: Seq<char>, m: bool) -> Seq<
    Glyph,
>
    decreases fields.len(),
{
    if fields.len() == 0 {
        Seq::empty()
    } else {
        root_lines(ctx, fields.drop_last(), ind, m) + (if fields.last().oneof_index is None {
            heading(m && !any_root(fields.drop_last())) + field_line(ctx, fields.last(), ind, "\t"@, true)
        } else {
            Seq::empty()
        })
    }
}

/// The declarations of the fields of oneof number `k`.
pub open spec fn oneof_lines(ctx: RenderCtx, fields: Seq<FieldDescriptor>, k: int, ind: Seq<char>) -> Seq<
    Glyph,
>
    decreases fields.len(),
{
    if fields.len() == 0 {
        Seq::empty()
    } else {
        oneof_lines(ctx, fields.drop_last(), k, ind) + (if fields.last().oneof_index == Some(
            k as i32,
        ) {
            field_line(ctx, fields.last(), ind, "\t\t"@, false)
        } else {
            Seq::empty()
        })
    }
}

/// The `oneof` blocks, for the oneofs named `names`.
pub open spec fn oneofs_text(
    ctx: RenderCtx,
    fields: Seq<FieldDescriptor>,
    names: Seq<String>,
    ind: Seq<char>,
    m: bool,
) -> Seq<Glyph>
    decreases names.len(),
{
    if names.len() == 0 {
        Seq::empty()
    } else {
        oneofs_text(ctx, fields, names.drop_last(), ind, m) + heading(
            if names.len() == 1 {
                m
            } else {
                true
            },
        ) + oneof_block(ctx, fields, names.last()@, names.len() - 1, ind)
    }
}

/// The `oneof` block of oneof number `k`, called `name`.
pub open spec fn oneof_block(
    ctx: RenderCtx,
    fields: Seq<FieldDescriptor>,
    name: Seq<char>,
    k: int,
    ind: Seq<char>,
) -> Seq<Glyph> {
    lift(ind) + lift("\toneof "@) + lift(name) + lift(" {\n"@) + oneof_lines(ctx, fields, k, ind)
        + lift(ind) + lift("\t}\n"@)
}

/// The end of an extension range: `max` from the largest field number on.
pub open spec fn range_end_text(end: i32) -> Seq<char> {
    if end >= 536870911 {
        "max"@
    } else {
        int_text(end as int)
    }
}

/// The `extensions` lines; a blank line before the first when the marker is set.
pub open spec fn ranges_text(rs: Seq<ExtRange>, ind: Seq<char>, m: bool) -> Seq<Glyph>
    decreases rs.len(),
{
    if rs.len() == 0 {
        Seq::empty()
    } else {
        ranges_text(rs.drop_last(), ind, m) + heading(rs.len() == 1 && m) + range_line(rs.last(), ind)
    }
}

/// `extensions start to end;`
pub open spec fn range_line(r: ExtRange, ind: Seq<char>) -> Seq<Glyph> {
    lift(ind) + lift("\textensions "@) + lift(int_text(r.start as int)) + lift(" to "@) + lift(
        range_end_text(r.end),
    ) + lift(";\n"@)
}

/// The first line of a `message` block and its options.
#[verifier::opaque]
pub open spec fn message_head(ctx: RenderCtx, msg: MessageDescriptor, ind: Seq<char>) -> Seq<Glyph> {
    lift(ind) + lift("message "@) + lift(msg.name@) + lift(" {\n"@) + option_lines(
        message_opts_kvs(ctx.types, ctx.graph, ctx.source, msg.options),
        ind,
        "\toption "@,
    )
}

/// The marker after the options of a message: set when there are options.
pub open spec fn head_marker(ctx: RenderCtx, msg: MessageDescriptor) -> bool {
    message_opts_kvs(ctx.types, ctx.graph, ctx.source, msg.options).len() > 0
}

/// The parts of a `message` block after its nested messages: nested enums,
/// fields outside oneofs, oneofs, extension ranges.
#[verifier::opaque]
pub open spec fn message_tail(ctx: RenderCtx, msg: MessageDescriptor, ind: Seq<char>, m: bool) -> Seq<
    Glyph,
> {
    let m3 = msg.enum_type@.len() > 0 || m;
    let m4 = any_root(msg.field@) || m3;
    let m5 = msg.oneof_decl@.len() > 0 || m4;
    enums_text(ctx, msg.enum_type@, ind + "\t"@, m) + root_lines(ctx, msg.field@, ind, m3)
        + oneofs_text(ctx, msg.field@, msg.oneof_decl@, ind, m4) + ranges_text(
        msg.extension_range@,
        ind,
        m5,
    )
}

/// A `message` block: options, extensions, nested messages, nested enums,
/// fields outside oneofs, oneofs, extension ranges.
pub open spec fn message_text(ctx: RenderCtx, msg: MessageDescriptor, ind: Seq<char>, m: bool) -> Seq<
    Glyph,
>
    decreases msg, 1nat,
{
    let inner = ind + "\t"@;
    let m0 = head_marker(ctx, msg);
    let m1 = extendees(msg.extension@).len() > 0 || m0;
    let m2 = msg.nested_type@.len() > 0 || m1;
    proof {
        assert(decreases_to!(msg => msg.nested_type));
        assert(decreases_to!(msg.nested_type => msg.nested_type@));
    }
    heading(m) + message_head(ctx, msg, ind) + extensions_text(ctx, msg.extension@, inner, m0)
        + messages_text(ctx, msg.nested_type@, inner, m1) + message_tail(ctx, msg, ind, m2) + lift(
        ind,
    ) + lift("}\n"@)
}

pub open spec fn messages_text(
    ctx: RenderCtx,
    ms: Seq<MessageDescriptor>,
    ind: Seq<char>,
    m: bool,
) -> Seq<Glyph>
    decreases ms, 0nat,
{
    if ms.len() == 0 {
        Seq::empty()
    } else {
        proof {
            assert(ms.drop_last() =~= ms.subrange(0, ms.len() - 1));
            assert(decreases_to!(ms => ms.subrange(0, ms.len() - 1)));
            assert(decreases_to!(ms => ms[ms.len() - 1]));
        }
        messages_text(ctx, ms.drop_last(), ind, m) + message_text(
            ctx,
            ms.last(),
            ind,
            if ms.len() == 1 {
                m
            } else {
                true
            },
        )
    }
}


// ─── Where the parts of a message stand ─────────────────────────────────────

/// `part` stands in `text` from position `k` on.
pub open spec fn occurs_at(text: Seq<Glyph>, part: Seq<Glyph>, k: int) -> bool {
    &&& 0 <= k
    &&& k + part.len() <= text.len()
    &&& text.subrange(k, k + part.len()) == part
}

/// The parts `parts` stand in `text` at the positions `ps`, in order.
pub open spec fn occur_in_order(text: Seq<Glyph>, parts: Seq<Seq<Glyph>>, ps: Seq<int>) -> bool {
    &&& ps.len() == parts.len()
    &&& forall|i: int| 0 <= i < ps.len() ==> occurs_at(text, parts[i], #[trigger] ps[i])
    &&& forall|i: int, j: int| 0 <= i < j < ps.len() ==> ps[i] < ps[j]
}

/// The first lines of the `enum` blocks of `es` behind `ind`.
pub open spec fn enum_openings(es: Seq<EnumDescriptor>, ind: Seq<char>) -> Seq<Seq<Glyph>> {
    es.map_values(|e: EnumDescriptor| enum_opening(e, ind))
}

/// The first line of an `enum` block behind `ind`.
pub open spec fn enum_opening(e: EnumDescriptor, ind: Seq<char>) -> Seq<Glyph> {
    lift(ind) + lift("enum "@) + lift(e.name@) + lift(" {\n"@)
}

proof fn lemma_occurs_prefix(a: Seq<Glyph>, b: Seq<Glyph>, part: Seq<Glyph>, k: int)
    requires
        occurs_at(a, part, k),
    ensures
        occurs_at(a + b, part, k),
{
    assert((a + b).subrange(k, k + part.len()) =~= a.subrange(k, k + part.len()));
}

proof fn lemma_occurs_shift(a: Seq<Glyph>, b: Seq<Glyph>, part: Seq<Glyph>, k: int)
    requires
        occurs_at(b, part, k),
    ensures
        occurs_at(a + b, part, a.len() + k),
{
    assert((a + b).subrange(a.len() + k, a.len() + k + part.len()) =~= b.subrange(
        k,
        k + part.len(),
    ));
}

/// Where the first lines of the enum blocks stand in `enums_text`: in order,
/// one per enum.
proof fn lemma_enum_openings(ctx: RenderCtx, es: Seq<EnumDescriptor>, ind: Seq<char>, m: bool) -> (ps: Seq<int>)
    ensures
        ps.len() == es.len(),
        forall|i: int|
            0 <= i < ps.len() ==> occurs_at(
                enums_text(ctx, es, ind, m),
                enum_opening(es[i], ind),
                #[trigger] ps[i],
            ),
        forall|i: int, j: int| 0 <= i < j < ps.len() ==> ps[i] < ps[j],
    decreases es.len(),
{
    if es.len() == 0 {
        Seq::empty()
    } else {
        let prev = es.drop_last();
        let ps0 = lemma_enum_openings(ctx, prev, ind, m);
        let a = enums_text(ctx, prev, ind, m);
        let mk = if es.len() == 1 {
            m
        } else {
            true
        };
        let e = es.last();
        let t = enum_text(ctx, e, ind, mk);
        let open = enum_opening(e, ind);
        let h = heading(mk);
        let rest = option_lines(enum_opts_kvs(ctx.types, ctx.graph, ctx.source, e.options), ind, "\toption "@)
            + enum_values_text(ctx, e.value@, ind) + lift(ind) + lift("}\n"@);
        assert(t =~= h + open + rest);
        assert(occurs_at(h + open + rest, open, h.len() as int)) by {
            assert((h + open + rest).subrange(h.len() as int, (h.len() + open.len()) as int) =~= open);
        }
        assert(enums_text(ctx, es, ind, m) == a + t);
        assert forall|i: int| 0 <= i < ps0.len() implies occurs_at(
            a + t,
            enum_opening(es[i], ind),
            #[trigger] ps0[i],
        ) by {
            assert(prev[i] == es[i]);
            lemma_occurs_prefix(a, t, enum_opening(es[i], ind), ps0[i]);
        }
        lemma_occurs_shift(a, t, open, h.len() as int);
        let ps = ps0.push((a.len() + h.len()) as int);
        assert forall|i: int| 0 <= i < ps.len() implies occurs_at(
            enums_text(ctx, es, ind, m),
            enum_opening(es[i], ind),
            #[trigger] ps[i],
        ) by {
            if i < ps0.len() {
                assert(ps[i] == ps0[i]);
            }
        }
        assert forall|i: int, j: int| 0 <= i < j < ps.len() implies ps[i] < ps[j] by {
            if j == ps.len() - 1 {
                assert(ps[i] == ps0[i]);
                assert(occurs_at(a + t, enum_opening(es[i], ind), ps0[i]));
                assert(prev[i] == es[i]);
                assert(occurs_at(a, enum_opening(prev[i], ind), ps0[i]));
            } else {
                assert(ps[i] == ps0[i] && ps[j] == ps0[j]);
            }
        }
        ps
    }
}

/// The first line of a `message` block behind `ind`.
pub open spec fn message_opening(msg: MessageDescriptor, ind: Seq<char>) -> Seq<Glyph> {
    lift(ind) + lift("message "@) + lift(msg.name@) + lift(" {\n"@)
}

/// The first lines of the `message` blocks of `ms` behind `ind`.
pub open spec fn message_openings(ms: Seq<MessageDescriptor>, ind: Seq<char>) -> Seq<Seq<Glyph>> {
    ms.map_values(|n: MessageDescriptor| message_opening(n, ind))
}

/// A message block starts, after the blank line its marker asks for, with
/// its first line.
proof fn lemma_message_opening(ctx: RenderCtx, msg: MessageDescriptor, ind: Seq<char>, m: bool)
    ensures
        occurs_at(message_text(ctx, msg, ind, m), message_opening(msg, ind), heading(m).len() as int),
{
    reveal(message_head);
    let h = heading(m);
    let open = message_opening(msg, ind);
    let head = message_head(ctx, msg, ind);
    let opts = option_lines(
        message_opts_kvs(ctx.types, ctx.graph, ctx.source, msg.options),
        ind,
        "\toption "@,
    );
    assert(head =~= open + opts);
    let t = message_text(ctx, msg, ind, m);
    let inner = ind + "\t"@;
    let m0 = head_marker(ctx, msg);
    let m1 = extendees(msg.extension@).len() > 0 || m0;
    let m2 = msg.nested_type@.len() > 0 || m1;
    let rest = extensions_text(ctx, msg.extension@, inner, m0) + messages_text(
        ctx,
        msg.nested_type@,
        inner,
        m1,
    ) + message_tail(ctx, msg, ind, m2) + lift(ind) + lift("}\n"@);
    assert(t =~= h + open + (opts + rest));
    assert((h + open + (opts + rest)).subrange(h.len() as int, (h.len() + open.len()) as int)
        =~= open);
}

/// Where the first lines of the message blocks stand in `messages_text`: in
/// order, one per message.
proof fn lemma_message_openings(ctx: RenderCtx, ms: Seq<MessageDescriptor>, ind: Seq<char>, m: bool) -> (ps: Seq<int>)
    ensures
        occur_in_order(messages_text(ctx, ms, ind, m), message_openings(ms, ind), ps),
    decreases ms.len(),
{
    if ms.len() == 0 {
        Seq::empty()
    } else {
        let prev = ms.drop_last();
        let ps0 = lemma_message_openings(ctx, prev, ind, m);
        let a = messages_text(ctx, prev, ind, m);
        let mk = if ms.len() == 1 {
            m
        } else {
            true
        };
        let n = ms.last();
        let t = message_text(ctx, n, ind, mk);
        let open = message_opening(n, ind);
        let k = heading(mk).len() as int;
        lemma_message_opening(ctx, n, ind, mk);
        assert(messages_text(ctx, ms, ind, m) == a + t);
        let parts = message_openings(ms, ind);
        let parts0 = message_openings(prev, ind);
        assert forall|i: int| 0 <= i < ps0.len() implies occurs_at(a + t, parts[i], #[trigger] ps0[i]) by {
            assert(prev[i] == ms[i]);
            assert(parts0[i] == parts[i]);
            lemma_occurs_prefix(a, t, parts[i], ps0[i]);
        }
        lemma_occurs_shift(a, t, open, k);
        let ps = ps0.push(a.len() + k);
        assert forall|i: int| 0 <= i < ps.len() implies occurs_at(
            messages_text(ctx, ms, ind, m),
            parts[i],
            #[trigger] ps[i],
        ) by {
            if i < ps0.len() {
                assert(ps[i] == ps0[i]);
            }
        }
        assert forall|i: int, j: int| 0 <= i < j < ps.len() implies ps[i] < ps[j] by {
            if j == ps.len() - 1 {
                assert(ps[i] == ps0[i]);
                assert(occurs_at(a, parts0[i], ps0[i]));
                assert(parts0[i] == message_opening(prev[i], ind));
            } else {
                assert(ps[i] == ps0[i] && ps[j] == ps0[j]);
            }
        }
        ps
    }
}

/// Every message nested in a message is written inside the outer message's
/// block, one tab deeper and in the order of the nested messages: the line
/// `message Name {` of each stands behind the block's indentation and a tab,
/// and that of an earlier message comes first.
pub proof fn law_nested_messages_are_written(
    ctx: RenderCtx,
    msg: MessageDescriptor,
    ind: Seq<char>,
    m: bool,
)
    ensures
        exists|ps: Seq<int>|
            #[trigger] occur_in_order(
                message_text(ctx, msg, ind, m),
                message_openings(msg.nested_type@, ind + "\t"@),
                ps,
            ),
{
    let inner = ind + "\t"@;
    let m0 = head_marker(ctx, msg);
    let m1 = extendees(msg.extension@).len() > 0 || m0;
    let m2 = msg.nested_type@.len() > 0 || m1;
    let before = heading(m) + message_head(ctx, msg, ind) + extensions_text(ctx, msg.extension@, inner, m0);
    let nested = messages_text(ctx, msg.nested_type@, inner, m1);
    let tail = message_tail(ctx, msg, ind, m2);
    let text = message_text(ctx, msg, ind, m);
    assert(text == before + nested + tail + lift(ind) + lift("}\n"@));
    let ps0 = lemma_message_openings(ctx, msg.nested_type@, inner, m1);
    let parts = message_openings(msg.nested_type@, inner);
    let ps = ps0.map_values(|p: int| before.len() as int + p);
    assert forall|i: int| 0 <= i < ps.len() implies occurs_at(text, parts[i], #[trigger] ps[i]) by {
        let part = parts[i];
        assert(occurs_at(nested, part, ps0[i]));
        lemma_occurs_shift(before, nested, part, ps0[i]);
        lemma_occurs_prefix(before + nested, tail, part, ps[i]);
        lemma_occurs_prefix(before + nested + tail, lift(ind), part, ps[i]);
        lemma_occurs_prefix(before + nested + tail + lift(ind), lift("}\n"@), part, ps[i]);
    }
    assert forall|i: int, j: int| 0 <= i < j < ps.len() implies ps[i] < ps[j] by {
        assert(ps0[i] < ps0[j]);
    }
    assert(occur_in_order(text, parts, ps));
}

/// Each field outside every oneof has its declaration line, with its label,
/// in `root_lines`.
proof fn lemma_root_line_occurs(
    ctx: RenderCtx,
    fields: Seq<FieldDescriptor>,
    ind: Seq<char>,
    m: bool,
    i: int,
) -> (k: int)
    requires
        0 <= i < fields.len(),
        fields[i].oneof_index is None,
    ensures
        occurs_at(root_lines(ctx, fields, ind, m), field_line(ctx, fields[i], ind, "\t"@, true), k),
    decreases fields.len(),
{
    let prev = fields.drop_last();
    let a = root_lines(ctx, prev, ind, m);
    let f = fields.last();
    let b = if f.oneof_index is None {
        heading(m && !any_root(prev)) + field_line(ctx, f, ind, "\t"@, true)
    } else {
        Seq::empty()
    };
    assert(root_lines(ctx, fields, ind, m) == a + b);
    if i < fields.len() - 1 {
        assert(prev[i] == fields[i]);
        let k0 = lemma_root_line_occurs(ctx, prev, ind, m, i);
        lemma_occurs_prefix(a, b, field_line(ctx, fields[i], ind, "\t"@, true), k0);
        k0
    } else {
        let h = heading(m && !any_root(prev));
        let line = field_line(ctx, f, ind, "\t"@, true);
        assert(b.subrange(h.len() as int, (h.len() + line.len()) as int) =~= line);
        lemma_occurs_shift(a, b, line, h.len() as int);
        (a.len() + h.len()) as int
    }
}

/// Every field of a message outside its oneofs is declared, with its label,
/// on a line of its own inside the message's block, one tab deeper than the
/// block.
pub proof fn law_message_fields_are_written(
    ctx: RenderCtx,
    msg: MessageDescriptor,
    ind: Seq<char>,
    m: bool,
    i: int,
)
    requires
        0 <= i < msg.field@.len(),
        msg.field@[i].oneof_index is None,
    ensures
        exists|k: int|
            occurs_at(
                message_text(ctx, msg, ind, m),
                field_line(ctx, msg.field@[i], ind, "\t"@, true),
                k,
            ),
{
    reveal(message_tail);
    let inner = ind + "\t"@;
    let m0 = head_marker(ctx, msg);
    let m1 = extendees(msg.extension@).len() > 0 || m0;
    let m2 = msg.nested_type@.len() > 0 || m1;
    let m3 = msg.enum_type@.len() > 0 || m2;
    let m4 = any_root(msg.field@) || m3;
    let m5 = msg.oneof_decl@.len() > 0 || m4;
    let before = heading(m) + message_head(ctx, msg, ind) + extensions_text(ctx, msg.extension@, inner, m0)
        + messages_text(ctx, msg.nested_type@, inner, m1);
    let en = enums_text(ctx, msg.enum_type@, inner, m2);
    let roots = root_lines(ctx, msg.field@, ind, m3);
    let oo = oneofs_text(ctx, msg.field@, msg.oneof_decl@, ind, m4);
    let rg = ranges_text(msg.extension_range@, ind, m5);
    let tail = message_tail(ctx, msg, ind, m2);
    assert(tail == en + roots + oo + rg);
    let text = message_text(ctx, msg, ind, m);
    assert(text == before + tail + lift(ind) + lift("}\n"@));
    let line = field_line(ctx, msg.field@[i], ind, "\t"@, true);
    let k0 = lemma_root_line_occurs(ctx, msg.field@, ind, m3, i);
    lemma_occurs_shift(en, roots, line, k0);
    let k1 = en.len() + k0;
    lemma_occurs_prefix(en + roots, oo, line, k1);
    lemma_occurs_prefix(en + roots + oo, rg, line, k1);
    lemma_occurs_shift(before, tail, line, k1);
    let k = before.len() + k1;
    lemma_occurs_prefix(before + tail, lift(ind), line, k);
    lemma_occurs_prefix(before + tail + lift(ind), lift("}\n"@), line, k);
}

proof fn lemma_occurs_in_tail(
    ctx: RenderCtx,
    msg: MessageDescriptor,
    ind: Seq<char>,
    m: bool,
    part: Seq<Glyph>,
    k: int,
)
    requires
        occurs_at(enums_text(ctx, msg.enum_type@, ind + "\t"@, m), part, k),
    ensures
        occurs_at(message_tail(ctx, msg, ind, m), part, k),
{
    reveal(message_tail);
    let m3 = msg.enum_type@.len() > 0 || m;
    let m4 = any_root(msg.field@) || m3;
    let a = enums_text(ctx, msg.enum_type@, ind + "\t"@, m);
    let b = root_lines(ctx, msg.field@, ind, m3);
    let c = oneofs_text(ctx, msg.field@, msg.oneof_decl@, ind, m4);
    lemma_occurs_prefix(a, b, part, k);
    lemma_occurs_prefix(a + b, c, part, k);
    lemma_occurs_prefix(
        a + b + c,
        ranges_text(msg.extension_range@, ind, msg.oneof_decl@.len() > 0 || m4),
        part,
        k,
    );
}

/// Every enum nested in a message is written inside the message's block, one
/// tab deeper than the block and in the order of the enums: the line
/// `enum Name {` of each stands behind the block's indentation and a tab, and
/// that of an earlier enum comes first.
pub proof fn law_nested_enums_are_written(ctx: RenderCtx, msg: MessageDescriptor, ind: Seq<char>, m: bool)
    ensures
        exists|ps: Seq<int>|
            #[trigger] occur_in_order(
                message_text(ctx, msg, ind, m),
                enum_openings(msg.enum_type@, ind + "\t"@),
                ps,
            ),
{
    let inner = ind + "\t"@;
    let m0 = head_marker(ctx, msg);
    let m1 = extendees(msg.extension@).len() > 0 || m0;
    let m2 = msg.nested_type@.len() > 0 || m1;
    let before = heading(m) + message_head(ctx, msg, ind) + extensions_text(ctx, msg.extension@, inner, m0)
        + messages_text(ctx, msg.nested_type@, inner, m1);
    let tail = message_tail(ctx, msg, ind, m2);
    let text = message_text(ctx, msg, ind, m);
    assert(text == before + tail + lift(ind) + lift("}\n"@));
    let ps0 = lemma_enum_openings(ctx, msg.enum_type@, inner, m2);
    let parts = enum_openings(msg.enum_type@, inner);
    let ps = ps0.map_values(|p: int| before.len() as int + p);
    assert forall|i: int| 0 <= i < ps.len() implies occurs_at(text, parts[i], #[trigger] ps[i]) by {
        let part = enum_opening(msg.enum_type@[i], inner);
        assert(parts[i] == part);
        lemma_occurs_in_tail(ctx, msg, ind, m2, part, ps0[i]);
        lemma_occurs_shift(before, tail, part, ps0[i]);
        lemma_occurs_prefix(before + tail, lift(ind), part, ps[i]);
        lemma_occurs_prefix(before + tail + lift(ind), lift("}\n"@), part, ps[i]);
    }
    assert forall|i: int, j: int| 0 <= i < j < ps.len() implies ps[i] < ps[j] by {
        assert(ps0[i] < ps0[j]);
    }
    assert(occur_in_order(text, parts, ps));
}

/// A file's text writes each of its top-level enums and then each of its
/// top-level messages as a block of its own, without indentation and in the
/// order of the descriptor: the first line of every enum block comes before
/// the first line of every message block, and within each kind an earlier
/// one comes first.
pub proof fn law_file_blocks_are_written(ctx: RenderCtx, p: FileDescriptor)
    ensures
        exists|ps: Seq<int>, qs: Seq<int>|
            #[trigger] occur_in_order(
                file_text(ctx, p),
                enum_openings(p.enum_type@, Seq::empty()),
                ps,
            ) && #[trigger] occur_in_order(
                file_text(ctx, p),
                message_openings(p.message_type@, Seq::empty()),
                qs,
            ) && forall|i: int, j: int| 0 <= i < ps.len() && 0 <= j < qs.len() ==> ps[i] < qs[j],
{
    let m4 = head_markers(ctx, p).2;
    let m5 = extendees(p.extension@).len() > 0 || m4;
    let m6 = p.enum_type@.len() > 0 || m5;
    let m7 = p.message_type@.len() > 0 || m6;
    let e: Seq<char> = Seq::empty();
    let a = file_head(ctx, p) + extensions_text(ctx, p.extension@, e, m4);
    let en = enums_text(ctx, p.enum_type@, e, m5);
    let ms = messages_text(ctx, p.message_type@, e, m6);
    let sv = services_text(ctx, p.service@, m7);
    let text = file_text(ctx, p);
    assert(text == a + en + ms + sv);
    let ps0 = lemma_enum_openings(ctx, p.enum_type@, e, m5);
    let qs0 = lemma_message_openings(ctx, p.message_type@, e, m6);
    let eparts = enum_openings(p.enum_type@, e);
    let mparts = message_openings(p.message_type@, e);
    let ps = ps0.map_values(|x: int| a.len() as int + x);
    let qs = qs0.map_values(|x: int| (a.len() + en.len()) as int + x);
    assert forall|i: int| 0 <= i < ps.len() implies occurs_at(text, eparts[i], #[trigger] ps[i]) by {
        lemma_occurs_shift(a, en, eparts[i], ps0[i]);
        lemma_occurs_prefix(a + en, ms, eparts[i], ps[i]);
        lemma_occurs_prefix(a + en + ms, sv, eparts[i], ps[i]);
    }
    assert forall|i: int| 0 <= i < qs.len() implies occurs_at(text, mparts[i], #[trigger] qs[i]) by {
        lemma_occurs_shift(a + en, ms, mparts[i], qs0[i]);
        lemma_occurs_prefix(a + en + ms, sv, mparts[i], qs[i]);
    }
    assert forall|i: int, j: int| 0 <= i < j < ps.len() implies ps[i] < ps[j] by {
        assert(ps0[i] < ps0[j]);
    }
    assert forall|i: int, j: int| 0 <= i < j < qs.len() implies qs[i] < qs[j] by {
        assert(qs0[i] < qs0[j]);
    }
    assert forall|i: int, j: int| 0 <= i < ps.len() && 0 <= j < qs.len() implies ps[i] < qs[j] by {
        assert(occurs_at(en, eparts[i], ps0[i]));
        assert(eparts[i].len() > 0) by {
            assert(eparts[i] == enum_opening(p.enum_type@[i], e));
            reveal_strlit("enum ");
            assert(lift("enum "@).len() == 5);
        }
        assert(occurs_at(ms, mparts[j], qs0[j]));
    }
    assert(occur_in_order(text, eparts, ps));
    assert(occur_in_order(text, mparts, qs));
}

// ─── Services ───────────────────────────────────────────────────────────────

/// The options of a method.
pub open spec fn method_kvs(ctx: RenderCtx, meth: MethodDescriptor) -> Seq<(Seq<char>, Seq<Glyph>)> {
    deprecated_opts_kvs(ctx.types, ctx.graph, ctx.source, ".google.protobuf.MethodOptions"@, meth.options)
}

pub open spec fn stream_text(b: bool) -> Seq<char> {
    if b {
        "stream "@
    } else {
        Seq::empty()
    }
}

/// `\trpc name ([stream ]input) returns ([stream ]output)`
pub open spec fn method_decl(meth: MethodDescriptor) -> Seq<Glyph> {
    lift("\trpc "@) + lift(meth.name@) + lift(" ("@) + lift(stream_text(meth.client_streaming)) + lift(
        meth.input_type@,
    ) + lift(") returns ("@) + lift(stream_text(meth.server_streaming)) + lift(meth.output_type@)
        + lift(")"@)
}

/// An `rpc` declaration: a block when the method has options.
#[verifier::opaque]
pub open spec fn method_text(ctx: RenderCtx, meth: MethodDescriptor, m: bool) -> Seq<Glyph> {
    let opts = method_kvs(ctx, meth);
    heading(m) + method_decl(meth) + (if opts.len() == 0 {
        lift(";\n"@)
    } else {
        lift(" {\n"@) + option_lines(opts, Seq::empty(), "\t\toption "@) + lift("\t}\n"@)
    })
}

/// The marker after the methods `ms`: set only by a method with options.
pub open spec fn methods_marker(ctx: RenderCtx, ms: Seq<MethodDescriptor>, m: bool) -> bool {
    if ms.len() == 0 {
        m
    } else {
        method_kvs(ctx, ms.last()).len() > 0
    }
}

pub open spec fn methods_text(ctx: RenderCtx, ms: Seq<MethodDescriptor>, m: bool) -> Seq<Glyph>
    decreases ms.len(),
{
    if ms.len() == 0 {
        Seq::empty()
    } else {
        methods_text(ctx, ms.drop_last(), m) + method_text(
            ctx,
            ms.last(),
            methods_marker(ctx, ms.drop_last(), m),
        )
    }
}

/// A `service` block: its options, then its methods.
#[verifier::opaque]
pub open spec fn service_text(ctx: RenderCtx, s: ServiceDescriptor, m: bool) -> Seq<Glyph> {
    let opts = deprecated_opts_kvs(
        ctx.types,
        ctx.graph,
        ctx.source,
        ".google.protobuf.ServiceOptions"@,
        s.options,
    );
    heading(m) + lift("service "@) + lift(s.name@) + lift(" {\n"@) + option_lines(
        opts,
        Seq::empty(),
        "\toption "@,
    ) + methods_text(ctx, s.method@, opts.len() > 0) + lift("}\n"@)
}

pub open spec fn services_text(ctx: RenderCtx, ss: Seq<ServiceDescriptor>, m: bool) -> Seq<Glyph>
    decreases ss.len(),
{
    if ss.len() == 0 {
        Seq::empty()
    } else {
        services_text(ctx, ss.drop_last(), m) + service_text(
            ctx,
            ss.last(),
            if ss.len() == 1 {
                m
            } else {
                true
            },
        )
    }
}

// ─── Files ──────────────────────────────────────────────────────────────────

/// `public `, `weak ` or nothing, by the lists of public and weak imports.
pub open spec fn import_modifier(k: int, public: Seq<i32>, weak: Seq<i32>) -> Seq<char> {
    if public.contains(k as i32) {
        "public "@
    } else if weak.contains(k as i32) {
        "weak "@
    } else {
        Seq::empty()
    }
}

/// One `import` line per dependency.
pub open spec fn imports_text(deps: Seq<String>, public: Seq<i32>, weak: Seq<i32>) -> Seq<Glyph>
    decreases deps.len(),
{
    if deps.len() == 0 {
        Seq::empty()
    } else {
        imports_text(deps.drop_last(), public, weak) + lift("import "@) + lift(
            import_modifier(deps.len() - 1, public, weak),
        ) + lift("\""@) + lift(deps.last()@) + lift("\";\n"@)
    }
}

/// The context in which file `p` is written.
pub open spec fn file_ctx(types: Seq<TypeNodeView>, graph: Seq<FileNodeView>, p: FileDescriptor) -> RenderCtx {
    RenderCtx { types, graph, source: p.name@ }
}

/// The marker after the options of a file.
pub open spec fn head_markers(ctx: RenderCtx, p: FileDescriptor) -> (bool, bool, bool) {
    let m1 = p.syntax@.len() > 0;
    let m2 = p.dependency@.len() > 0 || m1;
    let m3 = p.package@.len() > 0 || m2;
    (m2, m3, file_opts_kvs(ctx.types, ctx.graph, ctx.source, p.options).len() > 0 || m3)
}

/// The `syntax` line, when the file names its syntax.
pub open spec fn syntax_text(p: FileDescriptor) -> Seq<Glyph> {
    if p.syntax@.len() > 0 {
        lift("syntax = "@) + lift(literal_of(p.syntax@)) + lift(";\n"@)
    } else {
        Seq::empty()
    }
}

/// The `package` line, when the file has a package.
pub open spec fn package_text(p: FileDescriptor, m: bool) -> Seq<Glyph> {
    if p.package@.len() > 0 {
        heading(m) + lift("package "@) + lift(p.package@) + lift(";\n"@)
    } else {
        Seq::empty()
    }
}

/// The file's `option` lines.
pub open spec fn file_options_text(opts: Seq<(Seq<char>, Seq<Glyph>)>, m: bool) -> Seq<Glyph> {
    if opts.len() > 0 {
        heading(m) + option_lines(opts, Seq::empty(), "option "@)
    } else {
        Seq::empty()
    }
}

/// The first parts of a file: syntax, imports, package, options.
#[verifier::opaque]
pub open spec fn file_head(ctx: RenderCtx, p: FileDescriptor) -> Seq<Glyph> {
    let (m2, m3, m4) = head_markers(ctx, p);
    syntax_text(p) + imports_text(p.dependency@, p.public_dependency@, p.weak_dependency@)
        + package_text(p, m2) + file_options_text(
        file_opts_kvs(ctx.types, ctx.graph, ctx.source, p.options),
        m3,
    )
}

/// The `.proto` text of file `p`: syntax, imports, package, options,
/// extensions, enums, messages, services.
pub open spec fn file_text(ctx: RenderCtx, p: FileDescriptor) -> Seq<Glyph> {
    let m4 = head_markers(ctx, p).2;
    let m5 = extendees(p.extension@).len() > 0 || m4;
    let m6 = p.enum_type@.len() > 0 || m5;
    let m7 = p.message_type@.len() > 0 || m6;
    file_head(ctx, p) + extensions_text(ctx, p.extension@, Seq::empty(), m4) + enums_text(
        ctx,
        p.enum_type@,
        Seq::empty(),
        m5,
    ) + messages_text(ctx, p.message_type@, Seq::empty(), m6) + services_text(ctx, p.service@, m7)
}

// ─── Writing ────────────────────────────────────────────────────────────────

/// Writes a blank line when the marker is set, and clears the marker.
pub fn append_heading_space(sb: &mut Doc, marker: &mut bool)
    ensures
        final(sb)@ == old(sb)@ + heading(*old(marker)),
        !*final(marker),
{
    if *marker {
        sb.push_char('\n');
        *marker = false;
    } else {
        assert(sb@ =~= old(sb)@ + heading(*old(marker)));
    }
}

pub proof fn lemma_kv_views_append(a: Seq<KeyValue>, b: Seq<KeyValue>)
    ensures
        kv_views(a + b) == kv_views(a) + kv_views(b),
{
    assert(kv_views(a + b) =~= kv_views(a) + kv_views(b));
}

/// Appends the options of `tail` to `kv`.
fn append_kvs(kv: &mut Vec<KeyValue>, tail: Vec<KeyValue>)
    ensures
        kv_views(final(kv)@) == kv_views(old(kv)@) + kv_views(tail@),
{
    let ghost start = kv@;
    let mut tail = tail;
    let ghost t = tail@;
    kv.append(&mut tail);
    proof {
        lemma_kv_views_append(start, t);
    }
}

/// Writes `key = value`.
fn push_kv_text(d: &mut Doc, e: KeyValue)
    ensures
        final(d)@ == old(d)@ + kv_text(e@),
{
    let ghost ev = e@;
    d.push_str(e.key.as_str());
    d.push_str(" = ");
    d.append_doc(e.value);
    assert(d@ =~= old(d)@ + kv_text(ev));
}

/// Writes ` [k = v, ...]`, or nothing when there are no options.
fn push_params(d: &mut Doc, kvs: Vec<KeyValue>)
    ensures
        final(d)@ == old(d)@ + params_text(kv_views(kvs@)),
{
    let ghost kvv = kv_views(kvs@);
    if kvs.len() == 0 {
        assert(d@ =~= old(d)@ + params_text(kvv));
        return;
    }
    d.push_str(" [");
    let ghost start = d@;
    assert(kvv.take(0) =~= Seq::<(Seq<char>, Seq<Glyph>)>::empty());
    assert(start + kv_list_text(kvv.take(0)) =~= start);
    let mut first = true;
    for e in it: kvs
        invariant
            kvv == kv_views(it.seq()),
            first == (it.index() == 0),
            d@ == start + kv_list_text(kvv.take(it.index() as int)),
    {
        let ghost k = it.index() as int;
        assert(kvv[k] == e@);
        assert(kvv.take(k + 1).drop_last() =~= kvv.take(k));
        if !first {
            d.push_str(", ");
        }
        push_kv_text(d, e);
        assert(kvv.take(k + 1).last() == kvv[k]);
        assert(d@ =~= start + kv_list_text(kvv.take(k + 1)));
        first = false;
    }
    assert(kvv.take(kvv.len() as int) =~= kvv);
    d.push_str("]");
    assert(d@ =~= old(d)@ + params_text(kvv));
}

/// Writes one `option` line per option.
fn push_option_lines(d: &mut Doc, kvs: Vec<KeyValue>, ind: &str, prefix: &str)
    ensures
        final(d)@ == old(d)@ + option_lines(kv_views(kvs@), ind@, prefix@),
{
    let ghost kvv = kv_views(kvs@);
    let ghost start = d@;
    assert(kvv.take(0) =~= Seq::<(Seq<char>, Seq<Glyph>)>::empty());
    assert(start + option_lines(kvv.take(0), ind@, prefix@) =~= start);
    for e in it: kvs
        invariant
            kvv == kv_views(it.seq()),
            d@ == start + option_lines(kvv.take(it.index() as int), ind@, prefix@),
    {
        let ghost k = it.index() as int;
        assert(kvv[k] == e@);
        assert(kvv.take(k + 1).drop_last() =~= kvv.take(k));
        d.push_str(ind);
        d.push_str(prefix);
        push_kv_text(d, e);
        d.push_str(";\n");
        assert(d@ =~= start + option_lines(kvv.take(k + 1), ind@, prefix@));
    }
    assert(kvv.take(kvv.len() as int) =~= kvv);
}

/// The word for a label.
pub fn get_label(label: Label) -> (r: &'static str)
    ensures
        r@ == label_text(label),
{
    match label {
        Label::Required => "required",
        Label::Repeated => "repeated",
        Label::Optional => "optional",
    }
}

/// The word for a scalar type.
pub fn get_type(t: FieldType) -> (r: &'static str)
    ensures
        r@ == type_text(t),
{
    match t {
        FieldType::Int32 => "int32",
        FieldType::Int64 => "int64",
        FieldType::SInt32 => "sint32",
        FieldType::SInt64 => "sint64",
        FieldType::UInt32 => "uint32",
        FieldType::UInt64 => "uint64",
        FieldType::String => "string",
        FieldType::Bool => "bool",
        FieldType::Bytes => "bytes",
        FieldType::Double => "double",
        FieldType::Enum => "enum",
        FieldType::Float => "float",
        FieldType::Group => "GROUP",
        FieldType::Message => "message",
        FieldType::Fixed32 => "fixed32",
        FieldType::Fixed64 => "fixed64",
        FieldType::SFixed32 => "sfixed32",
        FieldType::SFixed64 => "sfixed64",
    }
}

/// The type written in a field's declaration.
pub fn resolve_type(field: &FieldDescriptor) -> (r: String)
    ensures
        r@ == resolved_type(*field),
{
    if field.field_type == FieldType::Message || field.field_type == FieldType::Enum {
        field.type_ref.clone()
    } else {
        String::from_str(get_type(field.field_type))
    }
}

/// The type map, the file graph and the name of the file being written.
pub struct Writer<'a> {
    pub types: &'a TypeMap,
    pub files: &'a FileMap,
    pub source: &'a str,
}

impl<'a> Writer<'a> {
    pub open spec fn ctx(&self) -> RenderCtx {
        RenderCtx { types: self.types@, graph: self.files@, source: self.source@ }
    }

    pub open spec fn wf(&self) -> bool {
        self.types.wf() && self.files.wf()
    }

    /// The `default` option of a field.
    fn default_option(&self, field: &FieldDescriptor, kv: &mut Vec<KeyValue>)
        requires
            self.wf(),
        ensures
            kv_views(final(kv)@) == kv_views(old(kv)@) + default_kvs(self.types@, *field),
    {
        let ghost start = kv_views(kv@);
        if !field.default_value.as_str().is_empty() {
            let value = if field.field_type == FieldType::String {
                to_literal(field.default_value.as_str())
            } else {
                field.default_value.clone()
            };
            push_kv(kv, String::from_str("default"), doc_of_string(value));
            return;
        }
        if field.field_type == FieldType::Enum && field.label != Label::Repeated {
            proof {
                lemma_find_props(type_names(self.types@), field.type_ref@);
            }
            match self.types.get(field.type_ref.as_str()) {
                Some(node) => match &node.source {
                    TypeSource::Enum(values) => {
                        if values.len() > 0 {
                            assert(enum_refs_view(values@)[0] == values@[0]@);
                            push_kv(kv, String::from_str("default"), text_doc(values[0].name.as_str()));
                            return;
                        }
                    },
                    _ => {},
                },
                None => {},
            }
        }
        assert(kv_views(kv@) =~= start + default_kvs(self.types@, *field));
    }

    /// The declaration of a field: `[label ]type name = number[ [options]];`.
    pub fn build_descriptor_declaration(&self, field: &FieldDescriptor, emit_field_label: bool) -> (d: Doc)
        requires
            self.wf(),
        ensures
            d@ == decl_text(self.ctx(), *field, emit_field_label),
    {
        let mut kv: Vec<KeyValue> = Vec::new();
        assert(kv_views(kv@) =~= Seq::<(Seq<char>, Seq<Glyph>)>::empty());
        self.default_option(field, &mut kv);
        if !field.json_name.as_str().is_empty() {
            push_kv(&mut kv, String::from_str("json_name"), doc_of_string(to_literal(field.json_name.as_str())));
        } else {
            assert(kv_views(kv@) =~= kv_views(kv@) + json_kvs(*field));
        }
        let field_options = dump_field_options(self.types, self.files, self.source, &field.options);
        append_kvs(&mut kv, field_options);
        assert(kv_views(kv@) =~= decl_kvs(self.ctx(), *field));
        let mut d = Doc::new();
        if emit_field_label {
            d.push_str(get_label(field.label));
            d.push_str(" ");
        }
        d.push_str(resolve_type(field).as_str());
        d.push_str(" ");
        d.push_str(field.name.as_str());
        d.push_str(" = ");
        d.push_str(i64_text(field.number as i64).as_str());
        push_params(&mut d, kv);
        d.push_str(";");
        reveal(decl_text);
        assert(d@ =~= decl_text(self.ctx(), *field, emit_field_label));
        d
    }

    /// Writes a declaration on a line of its own.
    fn push_field_line(&self, sb: &mut Doc, f: &FieldDescriptor, ind: &str, tabs: &str, emit_label: bool)
        requires
            self.wf(),
        ensures
            final(sb)@ == old(sb)@ + field_line(self.ctx(), *f, ind@, tabs@, emit_label),
    {
        sb.push_str(ind);
        sb.push_str(tabs);
        let decl = self.build_descriptor_declaration(f, emit_label);
        sb.append_doc(decl);
        sb.push_char('\n');
        assert(sb@ =~= old(sb)@ + field_line(self.ctx(), *f, ind@, tabs@, emit_label));
    }

    /// The extended types of `fields`, each once, in the order of their first field.
    fn extendee_list(fields: &Vec<FieldDescriptor>) -> (r: Vec<String>)
        ensures
            strings_view(r@) == extendees(fields@),
    {
        let mut r: Vec<String> = Vec::new();
        assert(fields@.take(0) =~= Seq::<FieldDescriptor>::empty());
        assert(strings_view(r@) =~= extendees(fields@.take(0)));
        for i in 0..fields.len()
            invariant
                strings_view(r@) == extendees(fields@.take(i as int)),
        {
            assert(fields@.take(i + 1).drop_last() =~= fields@.take(i as int));
            assert(fields@.take(i + 1).last() == fields@[i as int]);
            let x = &fields[i].extendee;
            if !x.as_str().is_empty() && !contains_string(&r, x.as_str()) {
                let ghost before = r@;
                r.push(x.clone());
                assert(strings_view(r@) =~= strings_view(before).push(x@));
            }
        }
        assert(fields@.take(fields.len() as int) =~= fields@);
        r
    }

    /// Writes the declarations of the fields that extend `x`.
    fn push_group_lines(&self, d: &mut Doc, fields: &Vec<FieldDescriptor>, x: &str, ind: &str)
        requires
            self.wf(),
        ensures
            final(d)@ == old(d)@ + group_lines(self.ctx(), fields@, x@, ind@),
    {
        let ghost start = d@;
        assert(fields@.take(0) =~= Seq::<FieldDescriptor>::empty());
        assert(start + group_lines(self.ctx(), fields@.take(0), x@, ind@) =~= start);
        for i in 0..fields.len()
            invariant
                self.wf(),
                d@ == start + group_lines(self.ctx(), fields@.take(i as int), x@, ind@),
        {
            assert(fields@.take(i + 1).drop_last() =~= fields@.take(i as int));
            assert(fields@.take(i + 1).last() == fields@[i as int]);
            let f = &fields[i];
            if str_eq(f.extendee.as_str(), x) {
                self.push_field_line(d, f, ind, "\t", true);
            }
            assert(d@ =~= start + group_lines(self.ctx(), fields@.take(i + 1), x@, ind@));
        }
        assert(fields@.take(fields.len() as int) =~= fields@);
    }

    /// Writes the `extend` block for the extended type `x`.
    fn push_group_block(&self, sb: &mut Doc, fields: &Vec<FieldDescriptor>, x: &str, ind: &str)
        requires
            self.wf(),
        ensures
            final(sb)@ == old(sb)@ + group_block(self.ctx(), fields@, x@, ind@),
    {
        sb.push_str(ind);
        sb.push_str("extend ");
        sb.push_str(x);
        sb.push_str(" {\n");
        self.push_group_lines(sb, fields, x, ind);
        sb.push_str(ind);
        sb.push_str("}\n");
        assert(sb@ =~= old(sb)@ + group_block(self.ctx(), fields@, x@, ind@));
    }

    /// Writes the extension fields, one `extend` block per extended type.
    pub fn dump_extension_descriptors(
        &self,
        fields: &Vec<FieldDescriptor>,
        sb: &mut Doc,
        ind: &str,
        marker: &mut bool,
    )
        requires
            self.wf(),
        ensures
            final(sb)@ == old(sb)@ + extensions_text(self.ctx(), fields@, ind@, *old(marker)),
            *final(marker) == (extendees(fields@).len() > 0 || *old(marker)),
    {
        let xs = Self::extendee_list(fields);
        let ghost xv = strings_view(xs@);
        let ghost m0 = *marker;
        let ghost start = sb@;
        assert(xv.take(0) =~= Seq::<Seq<char>>::empty());
        assert(start + groups_text(self.ctx(), fields@, xv.take(0), ind@, m0) =~= start);
        for j in 0..xs.len()
            invariant
                self.wf(),
                xv == strings_view(xs@),
                xv == extendees(fields@),
                *marker == (j > 0 || m0),
                sb@ == start + groups_text(self.ctx(), fields@, xv.take(j as int), ind@, m0),
        {
            assert(xv.take(j + 1).drop_last() =~= xv.take(j as int));
            assert(xv.take(j + 1).last() == xs@[j as int]@);
            append_heading_space(sb, marker);
            self.push_group_block(sb, fields, xs[j].as_str(), ind);
            *marker = true;
            assert(sb@ =~= start + groups_text(self.ctx(), fields@, xv.take(j + 1), ind@, m0));
        }
        assert(xv.take(xs.len() as int) =~= xv);
        reveal(extensions_text);
    }

    /// Writes the line of one enum value.
    fn push_enum_value_line(&self, sb: &mut Doc, v: &EnumValueDescriptor, ind: &str)
        requires
            self.wf(),
        ensures
            final(sb)@ == old(sb)@ + enum_value_line(self.ctx(), *v, ind@),
    {
        sb.push_str(ind);
        sb.push_str("\t");
        sb.push_str(v.name.as_str());
        sb.push_str(" = ");
        sb.push_str(i64_text(v.number as i64).as_str());
        let options = dump_enum_value_options(self.types, self.files, self.source, &v.options);
        push_params(sb, options);
        sb.push_str(";\n");
        assert(sb@ =~= old(sb)@ + enum_value_line(self.ctx(), *v, ind@));
    }

    /// Writes the lines of the values of an enum.
    fn push_enum_values(&self, sb: &mut Doc, values: &Vec<EnumValueDescriptor>, ind: &str)
        requires
            self.wf(),
        ensures
            final(sb)@ == old(sb)@ + enum_values_text(self.ctx(), values@, ind@),
    {
        let ghost start = sb@;
        assert(values@.take(0) =~= Seq::<EnumValueDescriptor>::empty());
        assert(start + enum_values_text(self.ctx(), values@.take(0), ind@) =~= start);
        for i in 0..values.len()
            invariant
                self.wf(),
                sb@ == start + enum_values_text(self.ctx(), values@.take(i as int), ind@),
        {
            assert(values@.take(i + 1).drop_last() =~= values@.take(i as int));
            assert(values@.take(i + 1).last() == values@[i as int]);
            self.push_enum_value_line(sb, &values[i], ind);
            assert(sb@ =~= start + enum_values_text(self.ctx(), values@.take(i + 1), ind@));
        }
        assert(values@.take(values.len() as int) =~= values@);
    }

    /// Writes an `enum` block.
    pub fn dump_enum_descriptor(&self, field: &EnumDescriptor, sb: &mut Doc, ind: &str, marker: &mut bool)
        requires
            self.wf(),
        ensures
            final(sb)@ == old(sb)@ + enum_text(self.ctx(), *field, ind@, *old(marker)),
            *final(marker),
    {
        append_heading_space(sb, marker);
        sb.push_str(ind);
        sb.push_str("enum ");
        sb.push_str(field.name.as_str());
        sb.push_str(" {\n");
        let opts = dump_enum_options(self.types, self.files, self.source, &field.options);
        push_option_lines(sb, opts, ind, "\toption ");
        self.push_enum_values(sb, &field.value, ind);
        sb.push_str(ind);
        sb.push_str("}\n");
        *marker = true;
        assert(sb@ =~= old(sb)@ + enum_text(self.ctx(), *field, ind@, *old(marker)));
    }

    /// Writes the `enum` blocks.
    fn dump_enums(&self, es: &Vec<EnumDescriptor>, sb: &mut Doc, ind: &str, marker: &mut bool)
        requires
            self.wf(),
        ensures
            final(sb)@ == old(sb)@ + enums_text(self.ctx(), es@, ind@, *old(marker)),
            *final(marker) == (es@.len() > 0 || *old(marker)),
    {
        let ghost m0 = *marker;
        let ghost start = sb@;
        assert(es@.take(0) =~= Seq::<EnumDescriptor>::empty());
        assert(start + enums_text(self.ctx(), es@.take(0), ind@, m0) =~= start);
        for i in 0..es.len()
            invariant
                self.wf(),
                *marker == (i > 0 || m0),
                sb@ == start + enums_text(self.ctx(), es@.take(i as int), ind@, m0),
        {
            assert(es@.take(i + 1).drop_last() =~= es@.take(i as int));
            assert(es@.take(i + 1).last() == es@[i as int]);
            self.dump_enum_descriptor(&es[i], sb, ind, marker);
            assert(sb@ =~= start + enums_text(self.ctx(), es@.take(i + 1), ind@, m0));
        }
        assert(es@.take(es.len() as int) =~= es@);
    }

    /// Writes the declarations of the fields outside every oneof.
    fn push_root_fields(&self, sb: &mut Doc, fields: &Vec<FieldDescriptor>, ind: &str, marker: &mut bool)
        requires
            self.wf(),
        ensures
            final(sb)@ == old(sb)@ + root_lines(self.ctx(), fields@, ind@, *old(marker)),
            *final(marker) == (any_root(fields@) || *old(marker)),
    {
        let ghost m0 = *marker;
        let ghost start = sb@;
        let mut any = false;
        let mut m = *marker;
        assert(fields@.take(0) =~= Seq::<FieldDescriptor>::empty());
        assert(start + root_lines(self.ctx(), fields@.take(0), ind@, m0) =~= start);
        for i in 0..fields.len()
            invariant
                self.wf(),
                any == any_root(fields@.take(i as int)),
                m == (m0 && !any),
                sb@ == start + root_lines(self.ctx(), fields@.take(i as int), ind@, m0),
        {
            assert(fields@.take(i + 1).drop_last() =~= fields@.take(i as int));
            assert(fields@.take(i + 1).last() == fields@[i as int]);
            let f = &fields[i];
            if f.oneof_index.is_none() {
                append_heading_space(sb, &mut m);
                self.push_field_line(sb, f, ind, "\t", true);
                any = true;
            }
            assert(sb@ =~= start + root_lines(self.ctx(), fields@.take(i + 1), ind@, m0));
        }
        assert(fields@.take(fields.len() as int) =~= fields@);
        *marker = any || *marker;
    }

    /// Writes the declarations of the fields of oneof number `k`.
    fn push_oneof_lines(&self, sb: &mut Doc, fields: &Vec<FieldDescriptor>, k: usize, ind: &str)
        requires
            self.wf(),
        ensures
            final(sb)@ == old(sb)@ + oneof_lines(self.ctx(), fields@, k as int, ind@),
    {
        let ghost start = sb@;
        let key = #[verifier::truncate] (k as i32);
        assert(fields@.take(0) =~= Seq::<FieldDescriptor>::empty());
        assert(start + oneof_lines(self.ctx(), fields@.take(0), k as int, ind@) =~= start);
        for i in 0..fields.len()
            invariant
                self.wf(),
                key == (k as int) as i32,
                sb@ == start + oneof_lines(self.ctx(), fields@.take(i as int), k as int, ind@),
        {
            assert(fields@.take(i + 1).drop_last() =~= fields@.take(i as int));
            assert(fields@.take(i + 1).last() == fields@[i as int]);
            let f = &fields[i];
            let in_oneof = match f.oneof_index {
                Some(x) => x == key,
                None => false,
            };
            if in_oneof {
                self.push_field_line(sb, f, ind, "\t\t", false);
            }
            assert(sb@ =~= start + oneof_lines(self.ctx(), fields@.take(i + 1), k as int, ind@));
        }
        assert(fields@.take(fields.len() as int) =~= fields@);
    }

    /// Writes the `oneof` block of oneof number `k`.
    fn push_oneof_block(&self, sb: &mut Doc, fields: &Vec<FieldDescriptor>, name: &str, k: usize, ind: &str)
        requires
            self.wf(),
        ensures
            final(sb)@ == old(sb)@ + oneof_block(self.ctx(), fields@, name@, k as int, ind@),
    {
        sb.push_str(ind);
        sb.push_str("\toneof ");
        sb.push_str(name);
        sb.push_str(" {\n");
        self.push_oneof_lines(sb, fields, k, ind);
        sb.push_str(ind);
        sb.push_str("\t}\n");
        assert(sb@ =~= old(sb)@ + oneof_block(self.ctx(), fields@, name@, k as int, ind@));
    }

    /// Writes the `oneof` blocks.
    fn push_oneofs(
        &self,
        sb: &mut Doc,
        fields: &Vec<FieldDescriptor>,
        names: &Vec<String>,
        ind: &str,
        marker: &mut bool,
    )
        requires
            self.wf(),
        ensures
            final(sb)@ == old(sb)@ + oneofs_text(self.ctx(), fields@, names@, ind@, *old(marker)),
            *final(marker) == (names@.len() > 0 || *old(marker)),
    {
        let ghost m0 = *marker;
        let ghost start = sb@;
        assert(names@.take(0) =~= Seq::<String>::empty());
        assert(start + oneofs_text(self.ctx(), fields@, names@.take(0), ind@, m0) =~= start);
        for j in 0..names.len()
            invariant
                self.wf(),
                *marker == (j > 0 || m0),
                sb@ == start + oneofs_text(self.ctx(), fields@, names@.take(j as int), ind@, m0),
        {
            assert(names@.take(j + 1).drop_last() =~= names@.take(j as int));
            assert(names@.take(j + 1).last() == names@[j as int]);
            append_heading_space(sb, marker);
            self.push_oneof_block(sb, fields, names[j].as_str(), j, ind);
            *marker = true;
            assert(sb@ =~= start + oneofs_text(self.ctx(), fields@, names@.take(j + 1), ind@, m0));
        }
        assert(names@.take(names.len() as int) =~= names@);
    }

    /// Writes one `extensions` line.
    fn push_range_line(sb: &mut Doc, range: &ExtRange, ind: &str)
        ensures
            final(sb)@ == old(sb)@ + range_line(*range, ind@),
    {
        sb.push_str(ind);
        sb.push_str("\textensions ");
        sb.push_str(i64_text(range.start as i64).as_str());
        sb.push_str(" to ");
        if range.end >= 536870911 {
            sb.push_str("max");
        } else {
            sb.push_str(i64_text(range.end as i64).as_str());
        }
        sb.push_str(";\n");
        assert(sb@ =~= old(sb)@ + range_line(*range, ind@));
    }

    /// Writes the `extensions` lines.
    fn push_ranges(sb: &mut Doc, ranges: &Vec<ExtRange>, ind: &str, marker: &mut bool)
        ensures
            final(sb)@ == old(sb)@ + ranges_text(ranges@, ind@, *old(marker)),
    {
        let ghost m0 = *marker;
        let ghost start = sb@;
        assert(ranges@.take(0) =~= Seq::<ExtRange>::empty());
        assert(start + ranges_text(ranges@.take(0), ind@, m0) =~= start);
        for i in 0..ranges.len()
            invariant
                *marker == (i == 0 && m0),
                sb@ == start + ranges_text(ranges@.take(i as int), ind@, m0),
        {
            assert(ranges@.take(i + 1).drop_last() =~= ranges@.take(i as int));
            assert(ranges@.take(i + 1).last() == ranges@[i as int]);
            append_heading_space(sb, marker);
            Self::push_range_line(sb, &ranges[i], ind);
            assert(sb@ =~= start + ranges_text(ranges@.take(i + 1), ind@, m0));
        }
        assert(ranges@.take(ranges.len() as int) =~= ranges@);
    }

    /// Writes the first line of a `message` block and its options.
    fn push_message_head(&self, proto: &MessageDescriptor, sb: &mut Doc, ind: &str) -> (m: bool)
        requires
            self.wf(),
        ensures
            final(sb)@ == old(sb)@ + message_head(self.ctx(), *proto, ind@),
            m == head_marker(self.ctx(), *proto),
    {
        sb.push_str(ind);
        sb.push_str("message ");
        sb.push_str(proto.name.as_str());
        sb.push_str(" {\n");
        let options = dump_message_options(self.types, self.files, self.source, &proto.options);
        let m = options.len() > 0;
        push_option_lines(sb, options, ind, "\toption ");
        reveal(message_head);
        assert(sb@ =~= old(sb)@ + message_head(self.ctx(), *proto, ind@));
        m
    }

    /// Writes the parts of a `message` block after its nested messages.
    fn push_message_tail(&self, proto: &MessageDescriptor, sb: &mut Doc, ind: &str, inner: &str, marker: &mut bool)
        requires
            self.wf(),
            inner@ == ind@ + "\t"@,
        ensures
            final(sb)@ == old(sb)@ + message_tail(self.ctx(), *proto, ind@, *old(marker)),
    {
        self.dump_enums(&proto.enum_type, sb, inner, marker);
        self.push_root_fields(sb, &proto.field, ind, marker);
        self.push_oneofs(sb, &proto.field, &proto.oneof_decl, ind, marker);
        Self::push_ranges(sb, &proto.extension_range, ind, marker);
        reveal(message_tail);
        assert(sb@ =~= old(sb)@ + message_tail(self.ctx(), *proto, ind@, *old(marker)));
    }

    /// Writes a `message` block, with its nested messages and enums.
    pub fn dump_descriptor(&self, proto: &MessageDescriptor, sb: &mut Doc, ind: &str, marker: &mut bool)
        requires
            self.wf(),
        ensures
            final(sb)@ == old(sb)@ + message_text(self.ctx(), *proto, ind@, *old(marker)),
            *final(marker),
        decreases proto,
    {
        let ghost ctx = self.ctx();
        let mut inner = String::from_str(ind);
        inner.append("\t");
        append_heading_space(sb, marker);
        let mut inner_marker = self.push_message_head(proto, sb, ind);
        self.dump_extension_descriptors(&proto.extension, sb, inner.as_str(), &mut inner_marker);
        let ghost t2 = sb@;
        let ghost m1 = inner_marker;
        let nested = &proto.nested_type;
        assert(nested@.take(0) =~= Seq::<MessageDescriptor>::empty());
        assert(t2 + messages_text(ctx, nested@.take(0), inner@, m1) =~= t2);
        for i in 0..nested.len()
            invariant
                self.wf(),
                ctx == self.ctx(),
                nested == &proto.nested_type,
                inner_marker == (i > 0 || m1),
                sb@ == t2 + messages_text(ctx, nested@.take(i as int), inner@, m1),
        {
            assert(nested@.take(i + 1).drop_last() =~= nested@.take(i as int));
            assert(nested@.take(i + 1).last() == nested@[i as int]);
            proof {
                assert(decreases_to!(proto => proto.nested_type));
                assert(decreases_to!(proto.nested_type => proto.nested_type@));
                assert(decreases_to!(proto.nested_type@ => proto.nested_type@[i as int]));
            }
            self.dump_descriptor(&nested[i], sb, inner.as_str(), &mut inner_marker);
            assert(sb@ =~= t2 + messages_text(ctx, nested@.take(i + 1), inner@, m1));
        }
        assert(nested@.take(nested.len() as int) =~= nested@);
        self.push_message_tail(proto, sb, ind, inner.as_str(), &mut inner_marker);
        sb.push_str(ind);
        sb.push_str("}\n");
        *marker = true;
        assert(sb@ =~= old(sb)@ + message_text(ctx, *proto, ind@, *old(marker)));
    }

    /// Writes `\trpc name ([stream ]input) returns ([stream ]output)`.
    fn push_method_decl(method: &MethodDescriptor, sb: &mut Doc)
        ensures
            final(sb)@ == old(sb)@ + method_decl(*method),
    {
        sb.push_str("\trpc ");
        sb.push_str(method.name.as_str());
        sb.push_str(" (");
        if method.client_streaming {
            sb.push_str("stream ");
        } else {
            assert(lift(stream_text(false)) =~= Seq::<Glyph>::empty());
        }
        sb.push_str(method.input_type.as_str());
        sb.push_str(") returns (");
        if method.server_streaming {
            sb.push_str("stream ");
        } else {
            assert(lift(stream_text(false)) =~= Seq::<Glyph>::empty());
        }
        sb.push_str(method.output_type.as_str());
        sb.push_str(")");
        assert(sb@ =~= old(sb)@ + method_decl(*method));
    }

    /// Writes an `rpc` declaration.
    fn push_method(&self, method: &MethodDescriptor, sb: &mut Doc, marker: &mut bool)
        requires
            self.wf(),
        ensures
            final(sb)@ == old(sb)@ + method_text(self.ctx(), *method, *old(marker)),
            *final(marker) == (method_kvs(self.ctx(), *method).len() > 0),
    {
        let ghost start = sb@;
        let ghost m0 = *marker;
        append_heading_space(sb, marker);
        Self::push_method_decl(method, sb);
        let options = dump_method_options(self.types, self.files, self.source, &method.options);
        if options.len() == 0 {
            sb.push_str(";\n");
        } else {
            sb.push_str(" {\n");
            let empty = String::new();
            push_option_lines(sb, options, empty.as_str(), "\t\toption ");
            sb.push_str("\t}\n");
            *marker = true;
        }
        reveal(method_text);
        assert(sb@ =~= start + method_text(self.ctx(), *method, m0));
    }

    /// Writes a `service` block.
    pub fn dump_service(&self, service: &ServiceDescriptor, sb: &mut Doc, marker: &mut bool)
        requires
            self.wf(),
        ensures
            final(sb)@ == old(sb)@ + service_text(self.ctx(), *service, *old(marker)),
            *final(marker),
    {
        let ghost ctx = self.ctx();
        append_heading_space(sb, marker);
        sb.push_str("service ");
        sb.push_str(service.name.as_str());
        sb.push_str(" {\n");
        let root_options = dump_service_options(self.types, self.files, self.source, &service.options);
        let mut inner_marker = root_options.len() > 0;
        let empty = String::new();
        push_option_lines(sb, root_options, empty.as_str(), "\toption ");
        let ghost t0 = sb@;
        let ghost m0 = inner_marker;
        let methods = &service.method;
        assert(methods@.take(0) =~= Seq::<MethodDescriptor>::empty());
        assert(t0 + methods_text(ctx, methods@.take(0), m0) =~= t0);
        for i in 0..methods.len()
            invariant
                self.wf(),
                ctx == self.ctx(),
                methods == &service.method,
                inner_marker == methods_marker(ctx, methods@.take(i as int), m0),
                sb@ == t0 + methods_text(ctx, methods@.take(i as int), m0),
        {
            assert(methods@.take(i + 1).drop_last() =~= methods@.take(i as int));
            assert(methods@.take(i + 1).last() == methods@[i as int]);
            self.push_method(&methods[i], sb, &mut inner_marker);
            assert(sb@ =~= t0 + methods_text(ctx, methods@.take(i + 1), m0));
        }
        assert(methods@.take(methods.len() as int) =~= methods@);
        sb.push_str("}\n");
        *marker = true;
        reveal(service_text);
        assert(sb@ =~= old(sb)@ + service_text(ctx, *service, *old(marker)));
    }

    /// Writes the `service` blocks.
    fn dump_services(&self, ss: &Vec<ServiceDescriptor>, sb: &mut Doc, marker: &mut bool)
        requires
            self.wf(),
        ensures
            final(sb)@ == old(sb)@ + services_text(self.ctx(), ss@, *old(marker)),
    {
        let ghost m0 = *marker;
        let ghost start = sb@;
        assert(ss@.take(0) =~= Seq::<ServiceDescriptor>::empty());
        assert(start + services_text(self.ctx(), ss@.take(0), m0) =~= start);
        for i in 0..ss.len()
            invariant
                self.wf(),
                *marker == (i > 0 || m0),
                sb@ == start + services_text(self.ctx(), ss@.take(i as int), m0),
        {
            assert(ss@.take(i + 1).drop_last() =~= ss@.take(i as int));
            assert(ss@.take(i + 1).last() == ss@[i as int]);
            self.dump_service(&ss[i], sb, marker);
            assert(sb@ =~= start + services_text(self.ctx(), ss@.take(i + 1), m0));
        }
        assert(ss@.take(ss.len() as int) =~= ss@);
    }

    /// Writes the top-level `message` blocks.
    fn dump_messages(&self, ms: &Vec<MessageDescriptor>, sb: &mut Doc, ind: &str, marker: &mut bool)
        requires
            self.wf(),
        ensures
            final(sb)@ == old(sb)@ + messages_text(self.ctx(), ms@, ind@, *old(marker)),
            *final(marker) == (ms@.len() > 0 || *old(marker)),
    {
        let ghost m0 = *marker;
        let ghost start = sb@;
        assert(ms@.take(0) =~= Seq::<MessageDescriptor>::empty());
        assert(start + messages_text(self.ctx(), ms@.take(0), ind@, m0) =~= start);
        for i in 0..ms.len()
            invariant
                self.wf(),
                *marker == (i > 0 || m0),
                sb@ == start + messages_text(self.ctx(), ms@.take(i as int), ind@, m0),
        {
            assert(ms@.take(i + 1).drop_last() =~= ms@.take(i as int));
            assert(ms@.take(i + 1).last() == ms@[i as int]);
            self.dump_descriptor(&ms[i], sb, ind, marker);
            assert(sb@ =~= start + messages_text(self.ctx(), ms@.take(i + 1), ind@, m0));
        }
        assert(ms@.take(ms.len() as int) =~= ms@);
    }

    /// Writes the first parts of a file: syntax, imports, package, options.
    fn push_file_head(&self, proto: &FileDescriptor, sb: &mut Doc) -> (m: bool)
        requires
            self.wf(),
        ensures
            final(sb)@ == old(sb)@ + file_head(self.ctx(), *proto),
            m == head_markers(self.ctx(), *proto).2,
    {
        let ghost ctx = self.ctx();
        let ghost start = sb@;
        push_syntax(sb, proto);
        let ghost t1 = sb@;
        push_imports(sb, proto);
        let ghost t2 = sb@;
        let mut marker = !proto.syntax.as_str().is_empty() || proto.dependency.len() > 0;
        push_package(sb, proto, &mut marker);
        let ghost t3 = sb@;
        let options = dump_file_options(self.types, self.files, self.source, &proto.options);
        push_file_options(sb, options, &mut marker);
        reveal(file_head);
        assert(sb@ =~= start + file_head(ctx, *proto));
        marker
    }

    /// Writes the `.proto` text of a file.
    pub fn dump_file_descriptor(&self, proto: &FileDescriptor, sb: &mut Doc)
        requires
            self.wf(),
        ensures
            final(sb)@ == old(sb)@ + file_text(self.ctx(), *proto),
    {
        let ghost ctx = self.ctx();
        let mut marker = self.push_file_head(proto, sb);
        let top = String::new();
        self.dump_extension_descriptors(&proto.extension, sb, top.as_str(), &mut marker);
        self.dump_enums(&proto.enum_type, sb, top.as_str(), &mut marker);
        self.dump_messages(&proto.message_type, sb, top.as_str(), &mut marker);
        self.dump_services(&proto.service, sb, &mut marker);
        assert(sb@ =~= old(sb)@ + file_text(ctx, *proto));
    }
}

/// Writes the `syntax` line.
fn push_syntax(sb: &mut Doc, proto: &FileDescriptor)
    ensures
        final(sb)@ == old(sb)@ + syntax_text(*proto),
{
    if !proto.syntax.as_str().is_empty() {
        sb.push_str("syntax = ");
        sb.push_str(to_literal(proto.syntax.as_str()).as_str());
        sb.push_str(";\n");
    }
    assert(sb@ =~= old(sb)@ + syntax_text(*proto));
}

/// Writes the `package` line.
fn push_package(sb: &mut Doc, proto: &FileDescriptor, marker: &mut bool)
    ensures
        final(sb)@ == old(sb)@ + package_text(*proto, *old(marker)),
        *final(marker) == (proto.package@.len() > 0 || *old(marker)),
{
    if !proto.package.as_str().is_empty() {
        append_heading_space(sb, marker);
        sb.push_str("package ");
        sb.push_str(proto.package.as_str());
        sb.push_str(";\n");
        *marker = true;
    }
    assert(sb@ =~= old(sb)@ + package_text(*proto, *old(marker)));
}

/// Writes the file's `option` lines.
fn push_file_options(sb: &mut Doc, options: Vec<KeyValue>, marker: &mut bool)
    ensures
        final(sb)@ == old(sb)@ + file_options_text(kv_views(options@), *old(marker)),
        *final(marker) == (options@.len() > 0 || *old(marker)),
{
    if options.len() > 0 {
        append_heading_space(sb, marker);
        let empty = String::new();
        push_option_lines(sb, options, empty.as_str(), "option ");
        *marker = true;
    }
    assert(sb@ =~= old(sb)@ + file_options_text(kv_views(options@), *old(marker)));
}

/// Whether `v` holds `x`.
fn contains_i32(v: &Vec<i32>, x: i32) -> (r: bool)
    ensures
        r == v@.contains(x),
{
    for i in 0..v.len()
        invariant
            forall|j: int| 0 <= j < i ==> v@[j] != x,
    {
        if v[i] == x {
            return true;
        }
    }
    false
}

/// Writes one `import` line per dependency.
fn push_imports(sb: &mut Doc, proto: &FileDescriptor)
    ensures
        final(sb)@ == old(sb)@ + imports_text(
            proto.dependency@,
            proto.public_dependency@,
            proto.weak_dependency@,
        ),
{
    let deps = &proto.dependency;
    let ghost start = sb@;
    let ghost pubs = proto.public_dependency@;
    let ghost weak = proto.weak_dependency@;
    assert(deps@.take(0) =~= Seq::<String>::empty());
    assert(start + imports_text(deps@.take(0), pubs, weak) =~= start);
    for i in 0..deps.len()
        invariant
            deps == &proto.dependency,
            pubs == proto.public_dependency@,
            weak == proto.weak_dependency@,
            sb@ == start + imports_text(deps@.take(i as int), pubs, weak),
    {
        assert(deps@.take(i + 1).drop_last() =~= deps@.take(i as int));
        assert(deps@.take(i + 1).last() == deps@[i as int]);
        let k = #[verifier::truncate] (i as i32);
        sb.push_str("import ");
        if contains_i32(&proto.public_dependency, k) {
            sb.push_str("public ");
        } else if contains_i32(&proto.weak_dependency, k) {
            sb.push_str("weak ");
        } else {
            assert(lift(Seq::<char>::empty()) =~= Seq::<Glyph>::empty());
        }
        sb.push_str("\"");
        sb.push_str(deps[i].as_str());
        sb.push_str("\";\n");
        assert(sb@ =~= start + imports_text(deps@.take(i + 1), pubs, weak));
    }
    assert(deps@.take(deps.len() as int) =~= deps@);
}

/// One written `.proto` file: its name and its text.
pub struct ProtoFile {
    pub name: String,
    pub pieces: Vec<Piece>,
}

/// `f` is file `p` written in the context of `types` and `graph`.
pub open spec fn is_dump_of(
    f: ProtoFile,
    types: Seq<TypeNodeView>,
    graph: Seq<FileNodeView>,
    p: FileDescriptor,
) -> bool {
    &&& f.name@ == p.name@
    &&& pieces_glyphs(f.pieces@) == file_text(file_ctx(types, graph, p), p)
}

impl ProtobufDumper {
    /// Generates the `.proto` text of each collected descriptor, in order.
    pub fn dump_files(&self) -> (r: Vec<ProtoFile>)
        requires
            self.wf(),
        ensures
            r@.len() == self.descriptors().len(),
            forall|i: int|
                0 <= i < r@.len() ==> is_dump_of(
                    #[trigger] r@[i],
                    self.type_map(),
                    self.graph(),
                    self.descriptors()[i],
                ),
    {
        let protobufs = self.descriptor_list();
        let types = self.type_map_ref();
        let files = self.file_map_ref();
        let mut out: Vec<ProtoFile> = Vec::new();
        for i in 0..protobufs.len()
            invariant
                protobufs@ == self.descriptors(),
                types@ == self.type_map(),
                files@ == self.graph(),
                types.wf(),
                files.wf(),
                out@.len() == i,
                forall|j: int|
                    0 <= j < i ==> is_dump_of(#[trigger] out@[j], types@, files@, protobufs@[j]),
        {
            let proto = &protobufs[i];
            let w = Writer { types, files, source: proto.name.as_str() };
            let mut sb = Doc::new();
            w.dump_file_descriptor(proto, &mut sb);
            assert(sb@ =~= file_text(file_ctx(types@, files@, *proto), *proto));
            let pieces = sb.into_pieces();
            let f = ProtoFile { name: proto.name.clone(), pieces };
            assert(is_dump_of(f, types@, files@, *proto));
            out.push(f);
        }
        out
    }
}

} // verus!
