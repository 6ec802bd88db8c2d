//! Option lists: the standard options that are set, and custom options read
//! back from the unknown fields of an options message.
use crate::descriptor::{
    lemma_values_for_append, payload_below, unknown_views, values_for, CType, DeprecatedOpts, EnumOpts, FieldOpts, FieldType, FileOpts,
    JSType, MessageOpts, OptimizeMode, UnknownField, UnknownValue, UnknownValueView,
};
use crate::dumper::{
    file_names, find, is_named_type, lemma_find_props, type_names, EnumValueRef, FieldRef,
    FieldRefView, FileMap, FileNodeView, SourceView, TypeMap, TypeNodeView, TypeSource,
    enum_refs_view, field_refs_view, strings_view, contains_string,
};
use crate::proto::{message_unknown_values, parse_message_unknown_fields};
use crate::scanner::str_from_utf8;
use crate::text::{
    bool_str, bool_text, bytes_debug, bytes_debug_text, i64_text, int_text, lift, u64_text, Doc,
    Glyph, Piece, piece_glyphs,
};
use crate::util::{literal_of, to_literal};
use vstd::prelude::*;
use vstd::string::StringExecFns;
use vstd::utf8::{decode_utf8, valid_utf8};

verus! {

/// One option: its key and its value text.
pub struct KeyValue {
    pub key: String,
    pub value: Doc,
}

impl View for KeyValue {
    type V = (Seq<char>, Seq<Glyph>);

    open spec fn view(&self) -> (Seq<char>, Seq<Glyph>) {
        (self.key@, self.value@)
    }
}

pub open spec fn kv_views(v: Seq<KeyValue>) -> Seq<(Seq<char>, Seq<Glyph>)> {
    v.map_values(|e: KeyValue| e@)
}

pub proof fn lemma_kv_push(v: Seq<KeyValue>, e: KeyValue)
    ensures
        kv_views(v.push(e)) == kv_views(v).push(e@),
{
    assert(kv_views(v.push(e)) =~= kv_views(v).push(e@));
}

pub(crate) fn text_doc(s: &str) -> (d: Doc)
    ensures
        d@ == lift(s@),
{
    let mut d = Doc::new();
    d.push_str(s);
    assert(d@ =~= lift(s@));
    d
}

pub(crate) fn push_kv(kv: &mut Vec<KeyValue>, key: String, value: Doc)
    ensures
        kv_views(final(kv)@) == kv_views(old(kv)@).push((key@, value@)),
{
    let ghost before = kv@;
    let e = KeyValue { key, value };
    kv.push(e);
    proof {
        lemma_kv_push(before, e);
    }
}

// ─── Scalars in unknown fields ──────────────────────────────────────────────

/// The text of an unknown value read as a scalar of type `t`, when the value
/// has a wire form that such a field takes.
pub open spec fn scalar_value(v: UnknownValueView, t: FieldType) -> Option<Seq<Glyph>> {
    match t {
        FieldType::Int32 | FieldType::UInt32 | FieldType::Fixed32 => match v {
            UnknownValueView::Varint(x) => Some(lift(int_text((x as u32) as int))),
            UnknownValueView::Fixed32(x) => Some(lift(int_text(x as int))),
            _ => None,
        },
        FieldType::Int64 | FieldType::UInt64 | FieldType::Fixed64 => match v {
            UnknownValueView::Varint(x) => Some(lift(int_text(x as int))),
            UnknownValueView::Fixed64(x) => Some(lift(int_text(x as int))),
            _ => None,
        },
        FieldType::SInt32 | FieldType::SFixed32 => match v {
            UnknownValueView::Varint(x) => Some(lift(int_text((x as i32) as int))),
            UnknownValueView::Fixed32(x) => Some(lift(int_text((x as i32) as int))),
            _ => None,
        },
        FieldType::SInt64 | FieldType::SFixed64 => match v {
            UnknownValueView::Varint(x) => Some(lift(int_text((x as i64) as int))),
            UnknownValueView::Fixed64(x) => Some(lift(int_text((x as i64) as int))),
            _ => None,
        },
        FieldType::String => match v {
            UnknownValueView::LengthDelimited(b) => if valid_utf8(b) {
                Some(lift(literal_of(decode_utf8(b))))
            } else {
                None
            },
            _ => None,
        },
        FieldType::Bool => match v {
            UnknownValueView::Varint(x) => Some(lift(bool_text(x != 0))),
            _ => None,
        },
        FieldType::Bytes => match v {
            UnknownValueView::LengthDelimited(b) => Some(lift(bytes_debug_text(b))),
            _ => None,
        },
        FieldType::Double => match v {
            UnknownValueView::Fixed64(x) => Some(seq![Glyph::Double(x)]),
            _ => None,
        },
        FieldType::Float => match v {
            UnknownValueView::Fixed32(x) => Some(seq![Glyph::Float(x)]),
            _ => None,
        },
        _ => None,
    }
}

/// The first of `vals` that reads as a scalar of type `t`.
pub open spec fn scalar_first(vals: Seq<UnknownValueView>, t: FieldType) -> Option<Seq<Glyph>>
    decreases vals.len(),
{
    if vals.len() == 0 {
        None
    } else if scalar_value(vals[0], t) is Some {
        scalar_value(vals[0], t)
    } else {
        scalar_first(vals.drop_first(), t)
    }
}

proof fn lemma_scalar_first_append(a: Seq<UnknownValueView>, b: Seq<UnknownValueView>, t: FieldType)
    ensures
        scalar_first(a + b, t) == (if scalar_first(a, t) is Some {
            scalar_first(a, t)
        } else {
            scalar_first(b, t)
        }),
    decreases a.len(),
{
    if a.len() == 0 {
        assert(a + b =~= b);
    } else {
        assert((a + b)[0] == a[0]);
        assert((a + b).drop_first() =~= a.drop_first() + b);
        lemma_scalar_first_append(a.drop_first(), b, t);
    }
}

/// The values of each field number in `vals`.
pub open spec fn values_of(vals: Seq<(u32, UnknownValueView)>) -> spec_fn(u32) -> Seq<UnknownValueView> {
    |n: u32| values_for(vals, n)
}

/// The values of each field number in `bytes` parsed as a message.
pub open spec fn parsed_values(bytes: Seq<u8>) -> spec_fn(u32) -> Seq<UnknownValueView> {
    |n: u32| message_unknown_values(bytes, n)->0
}

pub(crate) fn doc_of_string(s: String) -> (d: Doc)
    ensures
        d@ == lift(s@),
{
    text_doc(s.as_str())
}

/// The text of one unknown value read as a scalar of type `t`.
fn scalar_text(v: &UnknownValue, t: FieldType) -> (r: Option<Doc>)
    ensures
        match scalar_value(v@, t) {
            Some(g) => r matches Some(d) && d@ == g,
            None => r is None,
        },
{
    match t {
        FieldType::Int32 | FieldType::UInt32 | FieldType::Fixed32 => match v {
            UnknownValue::Varint(x) => Some(doc_of_string(u64_text((*x as u32) as u64))),
            UnknownValue::Fixed32(x) => Some(doc_of_string(u64_text(*x as u64))),
            _ => None,
        },
        FieldType::Int64 | FieldType::UInt64 | FieldType::Fixed64 => match v {
            UnknownValue::Varint(x) => Some(doc_of_string(u64_text(*x))),
            UnknownValue::Fixed64(x) => Some(doc_of_string(u64_text(*x))),
            _ => None,
        },
        FieldType::SInt32 | FieldType::SFixed32 => match v {
            UnknownValue::Varint(x) => Some(doc_of_string(i64_text((*x as i32) as i64))),
            UnknownValue::Fixed32(x) => Some(doc_of_string(i64_text((*x as i32) as i64))),
            _ => None,
        },
        FieldType::SInt64 | FieldType::SFixed64 => match v {
            UnknownValue::Varint(x) => Some(doc_of_string(i64_text(*x as i64))),
            UnknownValue::Fixed64(x) => Some(doc_of_string(i64_text(*x as i64))),
            _ => None,
        },
        FieldType::String => match v {
            UnknownValue::LengthDelimited(b) => match str_from_utf8(b.as_slice()) {
                Some(s) => Some(doc_of_string(to_literal(s))),
                None => None,
            },
            _ => None,
        },
        FieldType::Bool => match v {
            UnknownValue::Varint(x) => Some(doc_of_string(bool_str(*x != 0))),
            _ => None,
        },
        FieldType::Bytes => match v {
            UnknownValue::LengthDelimited(b) => Some(doc_of_string(bytes_debug(b.as_slice()))),
            _ => None,
        },
        FieldType::Double => match v {
            UnknownValue::Fixed64(x) => {
                let mut d = Doc::new();
                d.push_piece(Piece::Double(*x));
                assert(d@ =~= seq![Glyph::Double(*x)]);
                Some(d)
            },
            _ => None,
        },
        FieldType::Float => match v {
            UnknownValue::Fixed32(x) => {
                let mut d = Doc::new();
                d.push_piece(Piece::Float(*x));
                assert(d@ =~= seq![Glyph::Float(*x)]);
                Some(d)
            },
            _ => None,
        },
        _ => None,
    }
}

/// Extracts a scalar value from the unknown fields of a message, matching by
/// field number: the first value of the field that reads as a scalar of its type.
pub fn extract_scalar_from_unknown(unknown_fields: &Vec<UnknownField>, field: &FieldRef) -> (r:
    Option<Doc>)
    ensures
        match scalar_first(
            values_for(unknown_views(unknown_fields@), field.number as u32),
            field.field_type,
        ) {
            Some(g) => r matches Some(d) && d@ == g,
            None => r is None,
        },
{
    let ghost vals = unknown_views(unknown_fields@);
    let field_num = #[verifier::truncate] (field.number as u32);
    let ghost t = field.field_type;
    assert(vals.take(0) =~= Seq::<(u32, UnknownValueView)>::empty());
    for i in 0..unknown_fields.len()
        invariant
            vals == unknown_views(unknown_fields@),
            field_num == field.number as u32,
            t == field.field_type,
            scalar_first(values_for(vals.take(i as int), field_num), t) is None,
    {
        let u = &unknown_fields[i];
        assert(vals.take(i + 1).drop_last() =~= vals.take(i as int));
        assert(vals.take(i + 1).last() == u@);
        let ghost pre = values_for(vals.take(i as int), field_num);
        if u.number == field_num {
            assert(values_for(vals.take(i + 1), field_num) =~= pre + seq![u.value@]);
            let r = scalar_text(&u.value, field.field_type);
            proof {
                lemma_scalar_first_append(pre, seq![u.value@], t);
                assert(seq![u.value@][0] == u.value@);
                assert(seq![u.value@].drop_first() =~= Seq::<UnknownValueView>::empty());
            }
            if r.is_none() {
                assert(scalar_value(u.value@, t) is None);
                assert(seq![u.value@].drop_first() =~= Seq::<UnknownValueView>::empty());
                assert(scalar_first(Seq::<UnknownValueView>::empty(), t) is None);
                assert(scalar_first(seq![u.value@], t) is None);
                assert(scalar_first(pre + seq![u.value@], t) is None);
            }
            if r.is_some() {
                proof {
                    let rest = vals.skip(i + 1);
                    assert(vals =~= vals.take(i + 1) + rest);
                    lemma_values_for_append(vals.take(i + 1), rest, field_num);
                    lemma_scalar_first_append(
                        values_for(vals.take(i + 1), field_num),
                        values_for(rest, field_num),
                        t,
                    );
                }
                return r;
            }
        } else {
            assert(values_for(vals.take(i + 1), field_num) =~= pre);
        }
    }
    assert(vals.take(unknown_fields.len() as int) =~= vals);
    None
}

// ─── Custom options ─────────────────────────────────────────────────────────

/// The key of an option: `(name)` at the top, `path.name` inside a message option.
pub open spec fn option_key(path: Option<Seq<char>>, name: Seq<char>) -> Seq<char> {
    match path {
        Some(p) => p + seq!['.'] + name,
        None => seq!['('] + name + seq![')'],
    }
}

/// The name of the first enum value numbered `n`.
pub open spec fn enum_name_for(values: Seq<(Seq<char>, i32)>, n: i32) -> Option<Seq<char>>
    decreases values.len(),
{
    if values.len() == 0 {
        None
    } else if values[0].1 == n {
        Some(values[0].0)
    } else {
        enum_name_for(values.drop_first(), n)
    }
}

/// Options of an enum type: each varint value that names an enum value, in order.
pub open spec fn enum_kvs(
    vals: Seq<UnknownValueView>,
    key: Seq<char>,
    values: Seq<(Seq<char>, i32)>,
) -> Seq<(Seq<char>, Seq<Glyph>)>
    decreases vals.len(),
{
    if vals.len() == 0 {
        Seq::empty()
    } else {
        enum_kvs(vals.drop_last(), key, values) + match vals.last() {
            UnknownValueView::Varint(v) => match enum_name_for(values, v as i32) {
                Some(name) => seq![(key, lift(name))],
                None => Seq::empty(),
            },
            _ => Seq::empty(),
        }
    }
}

/// Options of a custom option field `f`, read from the values of its number
/// (`vals_of` gives the values of each field number).
pub open spec fn option_kvs(
    types: Seq<TypeNodeView>,
    f: FieldRefView,
    vals_of: spec_fn(u32) -> Seq<UnknownValueView>,
    path: Option<Seq<char>>,
    bound: nat,
) -> Seq<(Seq<char>, Seq<Glyph>)>
    decreases bound, 2nat, 0nat,
{
    let key = option_key(path, f.name);
    let vals = vals_of(f.number as u32);
    if is_named_type(f.field_type) && f.type_ref.len() != 0 {
        match find(type_names(types), f.type_ref) {
            Some(i) => match types[i].source {
                SourceView::Enum(values) => enum_kvs(vals, key, values),
                SourceView::Message(fields) => nested_kvs(types, key, fields, vals, bound),
                _ => Seq::empty(),
            },
            None => Seq::empty(),
        }
    } else {
        match scalar_first(vals, f.field_type) {
            Some(v) => seq![(key, v)],
            None => Seq::empty(),
        }
    }
}

/// Options of a message-typed custom option: each length-delimited value is
/// parsed as a message, and each field of the option's message type is read
/// from it.
pub open spec fn nested_kvs(
    types: Seq<TypeNodeView>,
    key: Seq<char>,
    fields: Seq<FieldRefView>,
    vals: Seq<UnknownValueView>,
    bound: nat,
) -> Seq<(Seq<char>, Seq<Glyph>)>
    decreases bound, 1nat, vals.len(),
{
    if vals.len() == 0 {
        Seq::empty()
    } else {
        nested_kvs(types, key, fields, vals.drop_last(), bound) + match vals.last() {
            UnknownValueView::LengthDelimited(b) => if b.len() < bound {
                if message_unknown_values(b, 0) is Some {
                    fields_kvs(types, fields, parsed_values(b), key, b.len())
                } else {
                    Seq::empty()
                }
            } else {
                Seq::empty()
            },
            _ => Seq::empty(),
        }
    }
}

pub open spec fn fields_kvs(
    types: Seq<TypeNodeView>,
    fields: Seq<FieldRefView>,
    vals_of: spec_fn(u32) -> Seq<UnknownValueView>,
    key: Seq<char>,
    bound: nat,
) -> Seq<(Seq<char>, Seq<Glyph>)>
    decreases bound, 3nat, fields.len(),
{
    if fields.len() == 0 {
        Seq::empty()
    } else {
        fields_kvs(types, fields.drop_last(), vals_of, key, bound) + option_kvs(
            types,
            fields.last(),
            vals_of,
            Some(key),
            bound,
        )
    }
}

/// One more than the longest length-delimited value.
pub open spec fn payload_bound(vals: Seq<(u32, UnknownValueView)>) -> nat
    decreases vals.len(),
{
    if vals.len() == 0 {
        1
    } else {
        let b = payload_bound(vals.drop_last());
        match vals.last().1 {
            UnknownValueView::LengthDelimited(p) => if p.len() + 1 > b {
                p.len() + 1
            } else {
                b
            },
            _ => b,
        }
    }
}

proof fn lemma_payload_bound(vals: Seq<(u32, UnknownValueView)>)
    ensures
        forall|i: int| 0 <= i < vals.len() ==> payload_below(#[trigger] vals[i].1, payload_bound(vals)),
    decreases vals.len(),
{
    if vals.len() > 0 {
        lemma_payload_bound(vals.drop_last());
        assert forall|i: int| 0 <= i < vals.len() implies payload_below(#[trigger] vals[i].1, payload_bound(vals)) by {
            if i < vals.len() - 1 {
                assert(vals[i] == vals.drop_last()[i]);
            }
        }
    }
}

fn option_key_text(path: Option<&str>, name: &str) -> (r: String)
    ensures
        r@ == option_key(
            match path {
                Some(p) => Some(p@),
                None => None,
            },
            name@,
        ),
{
    let mut r = String::new();
    match path {
        Some(p) => {
            r.append(p);
            r.append(".");
            r.append(name);
        },
        None => {
            r.append("(");
            r.append(name);
            r.append(")");
        },
    }
    proof {
        reveal_strlit(".");
        reveal_strlit("(");
        reveal_strlit(")");
    }
    assert(r@ =~= option_key(
        match path {
            Some(p) => Some(p@),
            None => None,
        },
        name@,
    ));
    r
}

fn enum_value_name(values: &Vec<EnumValueRef>, n: i32) -> (r: Option<String>)
    ensures
        match enum_name_for(enum_refs_view(values@), n) {
            Some(name) => r matches Some(s) && s@ == name,
            None => r is None,
        },
{
    let ghost vs = enum_refs_view(values@);
    assert(vs.skip(0) =~= vs);
    for i in 0..values.len()
        invariant
            vs == enum_refs_view(values@),
            enum_name_for(vs, n) == enum_name_for(vs.skip(i as int), n),
    {
        assert(vs.skip(i as int)[0] == values@[i as int]@);
        assert(vs.skip(i as int).drop_first() =~= vs.skip(i + 1));
        if values[i].number == n {
            return Some(values[i].name.clone());
        }
    }
    assert(vs.skip(values.len() as int) =~= Seq::<(Seq<char>, i32)>::empty());
    None
}

pub open spec fn opt_str_view(p: Option<&str>) -> Option<Seq<char>> {
    match p {
        Some(p) => Some(p@),
        None => None,
    }
}

/// Reads custom option `field` from the unknown fields of an options message,
/// appending the options found.
pub fn dump_options_field_recursive(
    types: &TypeMap,
    field: &FieldRef,
    unknown: &Vec<UnknownField>,
    kv: &mut Vec<KeyValue>,
    path: Option<&str>,
    Ghost(bound): Ghost<nat>,
)
    requires
        types.wf(),
        forall|i: int| 0 <= i < unknown@.len() ==> payload_below(#[trigger] unknown@[i].value@, bound),
    ensures
        kv_views(final(kv)@) == kv_views(old(kv)@) + option_kvs(
            types@,
            field@,
            values_of(unknown_views(unknown@)),
            opt_str_view(path),
            bound,
        ),
    decreases bound, 2nat, 0nat,
{
    let ghost vals = unknown_views(unknown@);
    let ghost start = kv_views(kv@);
    let key = option_key_text(path, field.name.as_str());
    let field_num = #[verifier::truncate] (field.number as u32);
    assert(values_of(vals)(field_num) == values_for(vals, field_num));
    assert(vals.take(0) =~= Seq::<(u32, UnknownValueView)>::empty());
    if (field.field_type == FieldType::Message || field.field_type == FieldType::Enum)
        && !field.type_ref.as_str().is_empty() {
        proof {
            lemma_find_props(type_names(types@), field.type_ref@);
        }
        if let Some(type_node) = types.get(field.type_ref.as_str()) {
            match &type_node.source {
                TypeSource::Enum(values) => {
                    let ghost ev = enum_refs_view(values@);
                    assert(start + enum_kvs(values_for(vals.take(0), field_num), key@, ev) =~= start);
                    for i in 0..unknown.len()
                        invariant
                            vals == unknown_views(unknown@),
                            ev == enum_refs_view(values@),
                            field_num == field.number as u32,
                            kv_views(kv@) == start + enum_kvs(values_for(vals.take(i as int), field_num), key@, ev),
                    {
                        let u = &unknown[i];
                        assert(vals.take(i + 1).drop_last() =~= vals.take(i as int));
                        assert(vals.take(i + 1).last() == u@);
                        let ghost pre = values_for(vals.take(i as int), field_num);
                        if u.number == field_num {
                            assert((pre + seq![u.value@]).drop_last() =~= pre);
                            match &u.value {
                                UnknownValue::Varint(v) => {
                                    match enum_value_name(values, *v as i32) {
                                        Some(name) => {
                                            push_kv(kv, key.clone(), doc_of_string(name));
                                        },
                                        None => {},
                                    }
                                },
                                _ => {},
                            }
                        } else {
                            assert(values_for(vals.take(i + 1), field_num) =~= pre);
                        }
                        assert(kv_views(kv@) =~= start + enum_kvs(values_for(vals.take(i + 1), field_num), key@, ev));
                    }
                    assert(vals.take(unknown.len() as int) =~= vals);
                },
                TypeSource::Message(fields) => {
                    let ghost fv = field_refs_view(fields@);
                    assert(start + nested_kvs(types@, key@, fv, values_for(vals.take(0), field_num), bound) =~= start);
                    for i in 0..unknown.len()
                        invariant
                            types.wf(),
                            vals == unknown_views(unknown@),
                            fv == field_refs_view(fields@),
                            field_num == field.number as u32,
                            forall|i: int| 0 <= i < unknown@.len() ==> payload_below(#[trigger] unknown@[i].value@, bound),
                            kv_views(kv@) == start + nested_kvs(types@, key@, fv, values_for(vals.take(i as int), field_num), bound),
                    {
                        let u = &unknown[i];
                        assert(vals.take(i + 1).drop_last() =~= vals.take(i as int));
                        assert(vals.take(i + 1).last() == u@);
                        let ghost pre = values_for(vals.take(i as int), field_num);
                        let ghost base = kv_views(kv@);
                        if u.number == field_num {
                            assert((pre + seq![u.value@]).drop_last() =~= pre);
                            match &u.value {
                                UnknownValue::LengthDelimited(bytes) => {
                                    assert(payload_below(unknown@[i as int].value@, bound));
                                    if let Some(sub) = parse_message_unknown_fields(bytes.as_slice()) {
                                        let ghost sv = unknown_views(sub@);
                                        let ghost b2: nat = bytes@.len();
                                        assert(message_unknown_values(bytes@, 0) is Some);
                                        assert(values_of(sv) =~= parsed_values(bytes@)) by {
                                            assert forall|n: u32| #[trigger] values_of(sv)(n) == parsed_values(bytes@)(n) by {
                                                assert(values_for(sv, n) == message_unknown_values(bytes@, n)->0);
                                            }
                                        }
                                        assert(fv.take(0) =~= Seq::<FieldRefView>::empty());
                                        assert(base + fields_kvs(types@, fv.take(0), parsed_values(bytes@), key@, b2) =~= base);
                                        for j in 0..fields.len()
                                            invariant
                                                types.wf(),
                                                fv == field_refs_view(fields@),
                                                sv == unknown_views(sub@),
                                                values_of(sv) == parsed_values(bytes@),
                                                b2 == bytes@.len(),
                                                b2 < bound,
                                                forall|m: int| 0 <= m < sub@.len() ==> payload_below(#[trigger] sub@[m].value@, b2),
                                                kv_views(kv@) == base + fields_kvs(types@, fv.take(j as int), parsed_values(bytes@), key@, b2),
                                        {
                                            assert(fv.take(j + 1).drop_last() =~= fv.take(j as int));
                                            assert(fv.take(j + 1).last() == fields@[j as int]@);
                                            dump_options_field_recursive(
                                                types,
                                                &fields[j],
                                                &sub,
                                                kv,
                                                Some(key.as_str()),
                                                Ghost(b2),
                                            );
                                        }
                                        assert(fv.take(fields.len() as int) =~= fv);
                                    } else {
                                        assert(message_unknown_values(bytes@, 0) is None);
                                    }
                                },
                                _ => {},
                            }
                        } else {
                            assert(values_for(vals.take(i + 1), field_num) =~= pre);
                        }
                        assert(kv_views(kv@) =~= start + nested_kvs(types@, key@, fv, values_for(vals.take(i + 1), field_num), bound));
                    }
                    assert(vals.take(unknown.len() as int) =~= vals);
                },
                _ => {},
            }
        }
    } else {
        match extract_scalar_from_unknown(unknown, field) {
            Some(value) => {
                push_kv(kv, key, value);
            },
            None => {},
        }
    }
}

// ─── Custom options of one options message ──────────────────────────────────

/// The options that one type node contributes: an extension field of the
/// options type `options_type`, defined in a file of `deps`, read from `vals`.
pub open spec fn node_ext_kvs(
    types: Seq<TypeNodeView>,
    node: TypeNodeView,
    deps: Seq<Seq<char>>,
    options_type: Seq<char>,
    vals: Seq<(u32, UnknownValueView)>,
    bound: nat,
) -> Seq<(Seq<char>, Seq<Glyph>)> {
    match node.proto_name {
        Some(p) => if deps.contains(p) {
            match node.source {
                SourceView::Field(f) => if f.extendee.len() != 0 && f.extendee == options_type {
                    option_kvs(types, f, values_of(vals), None, bound)
                } else {
                    Seq::empty()
                },
                _ => Seq::empty(),
            }
        } else {
            Seq::empty()
        },
        None => Seq::empty(),
    }
}

/// The options that the nodes `nodes` contribute, in order.
pub open spec fn ext_kvs(
    types: Seq<TypeNodeView>,
    nodes: Seq<TypeNodeView>,
    deps: Seq<Seq<char>>,
    options_type: Seq<char>,
    vals: Seq<(u32, UnknownValueView)>,
    bound: nat,
) -> Seq<(Seq<char>, Seq<Glyph>)>
    decreases nodes.len(),
{
    if nodes.len() == 0 {
        Seq::empty()
    } else {
        ext_kvs(types, nodes.drop_last(), deps, options_type, vals, bound) + node_ext_kvs(
            types,
            nodes.last(),
            deps,
            options_type,
            vals,
            bound,
        )
    }
}

/// The custom options set in an options message of type `options_type` that
/// file `source` holds: each extension of that type defined in `source` or in
/// one of its public dependencies, in the order of the type map.
#[verifier::opaque]
pub open spec fn extension_kvs(
    types: Seq<TypeNodeView>,
    graph: Seq<FileNodeView>,
    source: Seq<char>,
    options_type: Seq<char>,
    vals: Seq<(u32, UnknownValueView)>,
) -> Seq<(Seq<char>, Seq<Glyph>)> {
    match find(file_names(graph), source) {
        Some(j) => ext_kvs(
            types,
            types,
            graph[j].public.push(source),
            options_type,
            vals,
            payload_bound(vals),
        ),
        None => Seq::empty(),
    }
}

/// Whether two strings are equal.
pub fn str_eq(a: &str, b: &str) -> (r: bool)
    ensures
        r == (a@ == b@),
{
    let x = String::from_str(a);
    let y = String::from_str(b);
    x == y
}

/// Reads the custom options of an options message of type `options_type` held by
/// file `source_name`, appending them.
pub fn dump_options_extensions(
    types: &TypeMap,
    files: &FileMap,
    source_name: &str,
    options_type: &str,
    unknown: &Vec<UnknownField>,
    kv: &mut Vec<KeyValue>,
)
    requires
        types.wf(),
        files.wf(),
    ensures
        kv_views(final(kv)@) == kv_views(old(kv)@) + extension_kvs(
            types@,
            files@,
            source_name@,
            options_type@,
            unknown_views(unknown@),
        ),
{
    let ghost vals = unknown_views(unknown@);
    let ghost start = kv_views(kv@);
    let ghost bound = payload_bound(vals);
    proof {
        reveal(extension_kvs);
        lemma_payload_bound(vals);
        lemma_find_props(file_names(files@), source_name@);
    }
    let pos = files.position(source_name);
    let j = match pos {
        Some(j) => j,
        None => {
            assert(start + Seq::<(Seq<char>, Seq<Glyph>)>::empty() =~= start);
            return;
        },
    };
    let node = files.node(j);
    let ghost deps = files@[j as int].public.push(source_name@);
    assert forall|i: int| 0 <= i < unknown@.len() implies payload_below(
        #[trigger] unknown@[i].value@,
        bound,
    ) by {
        assert(vals[i] == unknown@[i]@);
        assert(payload_below(vals[i].1, bound));
    }
    assert(types@.take(0) =~= Seq::<TypeNodeView>::empty());
    assert(start + ext_kvs(types@, types@.take(0), deps, options_type@, vals, bound) =~= start);
    let n = types.len();
    for i in 0..n
        invariant
            n == types@.len(),
            types.wf(),
            vals == unknown_views(unknown@),
            bound == payload_bound(vals),
            deps == node@.public.push(source_name@),
            forall|i: int| 0 <= i < unknown@.len() ==> payload_below(#[trigger] unknown@[i].value@, bound),
            kv_views(kv@) == start + ext_kvs(types@, types@.take(i as int), deps, options_type@, vals, bound),
    {
        let tn = types.node(i);
        assert(types@.take(i + 1).drop_last() =~= types@.take(i as int));
        assert(types@.take(i + 1).last() == tn@);
        match &tn.proto_name {
            Some(p) => {
                let in_deps = contains_string(&node.all_public_dependencies, p.as_str()) || str_eq(
                    p.as_str(),
                    source_name,
                );
                assert(in_deps == deps.contains(p@)) by {
                    if deps.contains(p@) && p@ != source_name@ {
                        let k = choose|k: int| 0 <= k < deps.len() && deps[k] == p@;
                        assert(k < node@.public.len());
                        assert(node@.public[k] == p@);
                    }
                    if p@ == source_name@ {
                        assert(deps[deps.len() - 1] == p@);
                    }
                    if node@.public.contains(p@) {
                        let k = choose|k: int| 0 <= k < node@.public.len() && node@.public[k] == p@;
                        assert(deps[k] == p@);
                    }
                }
                if in_deps {
                    match &tn.source {
                        TypeSource::Field(f) => {
                            if !f.extendee.as_str().is_empty() && str_eq(f.extendee.as_str(), options_type) {
                                dump_options_field_recursive(types, f, unknown, kv, None, Ghost(bound));
                            }
                        },
                        _ => {},
                    }
                }
            },
            None => {},
        }
        assert(kv_views(kv@) =~= start + ext_kvs(types@, types@.take(i + 1), deps, options_type@, vals, bound));
    }
    assert(types@.take(n as int) =~= types@);
}


// ─── Looking up an option by key ────────────────────────────────────────────

/// How many entries of `kvs` have the key `key`.
#[verifier::opaque]
pub open spec fn key_count(kvs: Seq<(Seq<char>, Seq<Glyph>)>, key: Seq<char>) -> nat
    decreases kvs.len(),
{
    if kvs.len() == 0 {
        0
    } else {
        key_count(kvs.drop_last(), key) + if kvs.last().0 == key {
            1nat
        } else {
            0nat
        }
    }
}

/// The value of the last entry of `kvs` with the key `key`.
#[verifier::opaque]
pub open spec fn key_value(kvs: Seq<(Seq<char>, Seq<Glyph>)>, key: Seq<char>) -> Option<Seq<Glyph>>
    decreases kvs.len(),
{
    if kvs.len() == 0 {
        None
    } else if kvs.last().0 == key {
        Some(kvs.last().1)
    } else {
        key_value(kvs.drop_last(), key)
    }
}

/// `kvs` gives the option `key` the value `v`: with `Some(t)`, exactly one
/// entry has the key, and it holds `t`; with `None`, no entry has the key.
pub open spec fn sets_option(
    kvs: Seq<(Seq<char>, Seq<Glyph>)>,
    key: Seq<char>,
    v: Option<Seq<Glyph>>,
) -> bool {
    &&& key_count(kvs, key) == (if v is Some {
        1nat
    } else {
        0nat
    })
    &&& key_value(kvs, key) == v
}

/// The text of a boolean option's value, when it is set.
pub open spec fn bool_value(v: Option<bool>) -> Option<Seq<Glyph>> {
    match v {
        Some(b) => Some(lift(bool_text(b))),
        None => None,
    }
}

/// The text of a string option's value, when it is set: a quoted literal.
pub open spec fn str_value(v: Option<String>) -> Option<Seq<Glyph>> {
    match v {
        Some(s) => Some(lift(literal_of(s@))),
        None => None,
    }
}

proof fn lemma_keyed_concat(a: Seq<(Seq<char>, Seq<Glyph>)>, b: Seq<(Seq<char>, Seq<Glyph>)>, k: Seq<char>)
    ensures
        key_count(a + b, k) == key_count(a, k) + key_count(b, k),
        key_value(a + b, k) == if key_value(b, k) is Some {
            key_value(b, k)
        } else {
            key_value(a, k)
        },
    decreases b.len(),
{
    reveal(key_count);
    reveal(key_value);
    if b.len() == 0 {
        assert(a + b =~= a);
    } else {
        lemma_keyed_concat(a, b.drop_last(), k);
        assert((a + b).drop_last() =~= a + b.drop_last());
    }
}

pub proof fn lemma_keyed_basics()
    ensures
        forall|a: Seq<(Seq<char>, Seq<Glyph>)>, b: Seq<(Seq<char>, Seq<Glyph>)>, k: Seq<char>|
            #[trigger] key_count(a + b, k) == key_count(a, k) + key_count(b, k),
        forall|a: Seq<(Seq<char>, Seq<Glyph>)>, b: Seq<(Seq<char>, Seq<Glyph>)>, k: Seq<char>|
            #[trigger] key_value(a + b, k) == if key_value(b, k) is Some {
                key_value(b, k)
            } else {
                key_value(a, k)
            },
        forall|e: (Seq<char>, Seq<Glyph>), k: Seq<char>|
            #[trigger] key_count(seq![e], k) == if e.0 == k {
                1nat
            } else {
                0nat
            },
        forall|e: (Seq<char>, Seq<Glyph>), k: Seq<char>|
            #[trigger] key_value(seq![e], k) == if e.0 == k {
                Some(e.1)
            } else {
                None
            },
        forall|k: Seq<char>| #[trigger] key_count(Seq::empty(), k) == 0,
        forall|k: Seq<char>| #[trigger] key_value(Seq::empty(), k) == None::<Seq<Glyph>>,
{
    reveal(key_count);
    reveal(key_value);
    assert forall|a: Seq<(Seq<char>, Seq<Glyph>)>, b: Seq<(Seq<char>, Seq<Glyph>)>, k: Seq<char>|
        #[trigger] key_count(a + b, k) == key_count(a, k) + key_count(b, k) by {
        lemma_keyed_concat(a, b, k);
    }
    assert forall|a: Seq<(Seq<char>, Seq<Glyph>)>, b: Seq<(Seq<char>, Seq<Glyph>)>, k: Seq<char>|
        #[trigger] key_value(a + b, k) == if key_value(b, k) is Some {
            key_value(b, k)
        } else {
            key_value(a, k)
        } by {
        lemma_keyed_concat(a, b, k);
    }
    assert forall|e: (Seq<char>, Seq<Glyph>), k: Seq<char>| #[trigger] key_count(seq![e], k) == if e.0 == k {
        1nat
    } else {
        0nat
    } by {
        reveal(key_count);
        reveal(key_value);
        let s1 = seq![e];
        assert(s1.len() == 1);
        assert(s1.last() == e);
        assert(s1.drop_last() =~= Seq::<(Seq<char>, Seq<Glyph>)>::empty());
        assert(key_count(s1.drop_last(), k) == 0);
        assert(key_value(s1.drop_last(), k) is None);
    }
    assert forall|e: (Seq<char>, Seq<Glyph>), k: Seq<char>| #[trigger] key_value(seq![e], k) == if e.0 == k {
        Some(e.1)
    } else {
        None
    } by {
        reveal(key_count);
        reveal(key_value);
        let s1 = seq![e];
        assert(s1.len() == 1);
        assert(s1.last() == e);
        assert(s1.drop_last() =~= Seq::<(Seq<char>, Seq<Glyph>)>::empty());
        assert(key_count(s1.drop_last(), k) == 0);
        assert(key_value(s1.drop_last(), k) is None);
    }
}

/// A list of custom options holds no entry with a key that is not in parentheses.
proof fn lemma_custom_keys_miss(kvs: Seq<(Seq<char>, Seq<Glyph>)>, k: Seq<char>)
    requires
        custom_keys(kvs),
        !is_custom_key(k),
    ensures
        key_count(kvs, k) == 0,
        key_value(kvs, k) is None,
    decreases kvs.len(),
{
    reveal(key_count);
    reveal(key_value);
    if kvs.len() > 0 {
        assert(is_custom_key(kvs[kvs.len() - 1].0));
        lemma_custom_keys_miss(kvs.drop_last(), k);
    }
}

/// The length and first two letters of each standard option key, which tell
/// the keys apart.
pub proof fn lemma_option_key_letters()
    ensures
        "deprecated"@.len() == 10 && "deprecated"@[0] == 'd' && "deprecated"@[1] == 'e',
        "optimize_for"@.len() == 12 && "optimize_for"@[0] == 'o' && "optimize_for"@[1] == 'p',
        "cc_generic_services"@.len() == 19 && "cc_generic_services"@[0] == 'c' && "cc_generic_services"@[1] == 'c',
        "cc_enable_arenas"@.len() == 16 && "cc_enable_arenas"@[0] == 'c' && "cc_enable_arenas"@[1] == 'c',
        "go_package"@.len() == 10 && "go_package"@[0] == 'g' && "go_package"@[1] == 'o',
        "java_package"@.len() == 12 && "java_package"@[0] == 'j' && "java_package"@[1] == 'a',
        "java_outer_classname"@.len() == 20 && "java_outer_classname"@[0] == 'j' && "java_outer_classname"@[1] == 'a',
        "java_generate_equals_and_hash"@.len() == 29 && "java_generate_equals_and_hash"@[0] == 'j' && "java_generate_equals_and_hash"@[1] == 'a',
        "java_generic_services"@.len() == 21 && "java_generic_services"@[0] == 'j' && "java_generic_services"@[1] == 'a',
        "java_multiple_files"@.len() == 19 && "java_multiple_files"@[0] == 'j' && "java_multiple_files"@[1] == 'a',
        "java_string_check_utf8"@.len() == 22 && "java_string_check_utf8"@[0] == 'j' && "java_string_check_utf8"@[1] == 'a',
        "py_generic_services"@.len() == 19 && "py_generic_services"@[0] == 'p' && "py_generic_services"@[1] == 'y',
        "ruby_package"@.len() == 12 && "ruby_package"@[0] == 'r' && "ruby_package"@[1] == 'u',
        "objc_class_prefix"@.len() == 17 && "objc_class_prefix"@[0] == 'o' && "objc_class_prefix"@[1] == 'b',
        "csharp_namespace"@.len() == 16 && "csharp_namespace"@[0] == 'c' && "csharp_namespace"@[1] == 's',
        "swift_prefix"@.len() == 12 && "swift_prefix"@[0] == 's' && "swift_prefix"@[1] == 'w',
        "php_generic_services"@.len() == 20 && "php_generic_services"@[0] == 'p' && "php_generic_services"@[1] == 'h',
        "php_class_prefix"@.len() == 16 && "php_class_prefix"@[0] == 'p' && "php_class_prefix"@[1] == 'h',
        "php_namespace"@.len() == 13 && "php_namespace"@[0] == 'p' && "php_namespace"@[1] == 'h',
        "php_metadata_namespace"@.len() == 22 && "php_metadata_namespace"@[0] == 'p' && "php_metadata_namespace"@[1] == 'h',
        "ctype"@.len() == 5 && "ctype"@[0] == 'c' && "ctype"@[1] == 't',
        "lazy"@.len() == 4 && "lazy"@[0] == 'l' && "lazy"@[1] == 'a',
        "packed"@.len() == 6 && "packed"@[0] == 'p' && "packed"@[1] == 'a',
        "weak"@.len() == 4 && "weak"@[0] == 'w' && "weak"@[1] == 'e',
        "jstype"@.len() == 6 && "jstype"@[0] == 'j' && "jstype"@[1] == 's',
        "message_set_wire_format"@.len() == 23 && "message_set_wire_format"@[0] == 'm' && "message_set_wire_format"@[1] == 'e',
        "no_standard_descriptor_accessor"@.len() == 31 && "no_standard_descriptor_accessor"@[0] == 'n' && "no_standard_descriptor_accessor"@[1] == 'o',
        "allow_alias"@.len() == 11 && "allow_alias"@[0] == 'a' && "allow_alias"@[1] == 'l',
        "default"@.len() == 7 && "default"@[0] == 'd' && "default"@[1] == 'e',
        "json_name"@.len() == 9 && "json_name"@[0] == 'j' && "json_name"@[1] == 's',
{
    reveal_strlit("deprecated");
    reveal_strlit("optimize_for");
    reveal_strlit("cc_generic_services");
    reveal_strlit("cc_enable_arenas");
    reveal_strlit("go_package");
    reveal_strlit("java_package");
    reveal_strlit("java_outer_classname");
    reveal_strlit("java_generate_equals_and_hash");
    reveal_strlit("java_generic_services");
    reveal_strlit("java_multiple_files");
    reveal_strlit("java_string_check_utf8");
    reveal_strlit("py_generic_services");
    reveal_strlit("ruby_package");
    reveal_strlit("objc_class_prefix");
    reveal_strlit("csharp_namespace");
    reveal_strlit("swift_prefix");
    reveal_strlit("php_generic_services");
    reveal_strlit("php_class_prefix");
    reveal_strlit("php_namespace");
    reveal_strlit("php_metadata_namespace");
    reveal_strlit("ctype");
    reveal_strlit("lazy");
    reveal_strlit("packed");
    reveal_strlit("weak");
    reveal_strlit("jstype");
    reveal_strlit("message_set_wire_format");
    reveal_strlit("no_standard_descriptor_accessor");
    reveal_strlit("allow_alias");
    reveal_strlit("default");
    reveal_strlit("json_name");
}

// ─── Keys of custom options ─────────────────────────────────────────────────

/// `k` is the key of a custom option: it starts with `(`.
pub open spec fn is_custom_key(k: Seq<char>) -> bool {
    k.len() > 0 && k[0] == '('
}

/// Every key in `kvs` is the key of a custom option.
pub open spec fn custom_keys(kvs: Seq<(Seq<char>, Seq<Glyph>)>) -> bool {
    forall|i: int| 0 <= i < kvs.len() ==> is_custom_key(#[trigger] kvs[i].0)
}

proof fn lemma_custom_keys_concat(a: Seq<(Seq<char>, Seq<Glyph>)>, b: Seq<(Seq<char>, Seq<Glyph>)>)
    requires
        custom_keys(a),
        custom_keys(b),
    ensures
        custom_keys(a + b),
{
    assert forall|i: int| 0 <= i < (a + b).len() implies is_custom_key(#[trigger] (a + b)[i].0) by {
        if i < a.len() {
            assert((a + b)[i] == a[i]);
        } else {
            assert((a + b)[i] == b[i - a.len()]);
        }
    }
}

proof fn lemma_enum_kvs_keys(vals: Seq<UnknownValueView>, key: Seq<char>, values: Seq<(Seq<char>, i32)>)
    requires
        is_custom_key(key),
    ensures
        custom_keys(enum_kvs(vals, key, values)),
    decreases vals.len(),
{
    if vals.len() > 0 {
        lemma_enum_kvs_keys(vals.drop_last(), key, values);
        let tail = match vals.last() {
            UnknownValueView::Varint(v) => match enum_name_for(values, v as i32) {
                Some(name) => seq![(key, lift(name))],
                None => Seq::empty(),
            },
            _ => Seq::empty(),
        };
        lemma_custom_keys_concat(enum_kvs(vals.drop_last(), key, values), tail);
    }
}

proof fn lemma_option_kvs_keys(
    types: Seq<TypeNodeView>,
    f: FieldRefView,
    vals_of: spec_fn(u32) -> Seq<UnknownValueView>,
    path: Option<Seq<char>>,
    bound: nat,
)
    requires
        path matches Some(p) ==> is_custom_key(p),
    ensures
        custom_keys(option_kvs(types, f, vals_of, path, bound)),
    decreases bound, 2nat, 0nat,
{
    let key = option_key(path, f.name);
    assert(key[0] == '(');
    let vals = vals_of(f.number as u32);
    if is_named_type(f.field_type) && f.type_ref.len() != 0 {
        match find(type_names(types), f.type_ref) {
            Some(i) => match types[i].source {
                SourceView::Enum(values) => lemma_enum_kvs_keys(vals, key, values),
                SourceView::Message(fields) => lemma_nested_kvs_keys(types, key, fields, vals, bound),
                _ => {},
            },
            None => {},
        }
    }
}

proof fn lemma_nested_kvs_keys(
    types: Seq<TypeNodeView>,
    key: Seq<char>,
    fields: Seq<FieldRefView>,
    vals: Seq<UnknownValueView>,
    bound: nat,
)
    requires
        is_custom_key(key),
    ensures
        custom_keys(nested_kvs(types, key, fields, vals, bound)),
    decreases bound, 1nat, vals.len(),
{
    if vals.len() > 0 {
        lemma_nested_kvs_keys(types, key, fields, vals.drop_last(), bound);
        let tail = match vals.last() {
            UnknownValueView::LengthDelimited(b) => if b.len() < bound {
                if message_unknown_values(b, 0) is Some {
                    fields_kvs(types, fields, parsed_values(b), key, b.len())
                } else {
                    Seq::empty()
                }
            } else {
                Seq::empty()
            },
            _ => Seq::empty(),
        };
        if let UnknownValueView::LengthDelimited(b) = vals.last() {
            if b.len() < bound {
                lemma_fields_kvs_keys(types, fields, parsed_values(b), key, b.len());
            }
        }
        lemma_custom_keys_concat(nested_kvs(types, key, fields, vals.drop_last(), bound), tail);
    }
}

proof fn lemma_fields_kvs_keys(
    types: Seq<TypeNodeView>,
    fields: Seq<FieldRefView>,
    vals_of: spec_fn(u32) -> Seq<UnknownValueView>,
    key: Seq<char>,
    bound: nat,
)
    requires
        is_custom_key(key),
    ensures
        custom_keys(fields_kvs(types, fields, vals_of, key, bound)),
    decreases bound, 3nat, fields.len(),
{
    if fields.len() > 0 {
        lemma_fields_kvs_keys(types, fields.drop_last(), vals_of, key, bound);
        lemma_option_kvs_keys(types, fields.last(), vals_of, Some(key), bound);
        lemma_custom_keys_concat(
            fields_kvs(types, fields.drop_last(), vals_of, key, bound),
            option_kvs(types, fields.last(), vals_of, Some(key), bound),
        );
    }
}

proof fn lemma_ext_kvs_keys(
    types: Seq<TypeNodeView>,
    nodes: Seq<TypeNodeView>,
    deps: Seq<Seq<char>>,
    options_type: Seq<char>,
    vals: Seq<(u32, UnknownValueView)>,
    bound: nat,
)
    ensures
        custom_keys(ext_kvs(types, nodes, deps, options_type, vals, bound)),
    decreases nodes.len(),
{
    if nodes.len() > 0 {
        lemma_ext_kvs_keys(types, nodes.drop_last(), deps, options_type, vals, bound);
        let node = nodes.last();
        if let Some(p) = node.proto_name {
            if let SourceView::Field(f) = node.source {
                lemma_option_kvs_keys(types, f, values_of(vals), None, bound);
            }
        }
        lemma_custom_keys_concat(
            ext_kvs(types, nodes.drop_last(), deps, options_type, vals, bound),
            node_ext_kvs(types, node, deps, options_type, vals, bound),
        );
    }
}

/// Every custom option is written under a key in parentheses (or, inside a
/// message-typed option, under such a key followed by field names), so no
/// custom option can take the key of a standard one.
pub proof fn law_custom_keys_are_parenthesized(
    types: Seq<TypeNodeView>,
    graph: Seq<FileNodeView>,
    source: Seq<char>,
    options_type: Seq<char>,
    vals: Seq<(u32, UnknownValueView)>,
)
    ensures
        custom_keys(extension_kvs(types, graph, source, options_type, vals)),
{
    reveal(extension_kvs);
    match find(file_names(graph), source) {
        Some(j) => lemma_ext_kvs_keys(
            types,
            types,
            graph[j].public.push(source),
            options_type,
            vals,
            payload_bound(vals),
        ),
        None => {},
    }
}

// ─── Standard options ───────────────────────────────────────────────────────

/// A boolean option, when it is set.
pub open spec fn bool_opt(key: Seq<char>, v: Option<bool>) -> Seq<(Seq<char>, Seq<Glyph>)> {
    match v {
        Some(b) => seq![(key, lift(bool_text(b)))],
        None => Seq::empty(),
    }
}

/// A string option, when it is set: its value as a quoted literal.
pub open spec fn str_opt(key: Seq<char>, v: Option<String>) -> Seq<(Seq<char>, Seq<Glyph>)> {
    match v {
        Some(s) => seq![(key, lift(literal_of(s@)))],
        None => Seq::empty(),
    }
}

/// An enum option, when it is set: the name of its value.
pub open spec fn name_opt(key: Seq<char>, v: Option<Seq<char>>) -> Seq<(Seq<char>, Seq<Glyph>)> {
    match v {
        Some(s) => seq![(key, lift(s))],
        None => Seq::empty(),
    }
}

pub open spec fn optimize_text(m: OptimizeMode) -> Seq<char> {
    match m {
        OptimizeMode::Speed => "SPEED"@,
        OptimizeMode::CodeSize => "CODE_SIZE"@,
        OptimizeMode::LiteRuntime => "LITE_RUNTIME"@,
    }
}

pub open spec fn ctype_text(m: CType) -> Seq<char> {
    match m {
        CType::String => "STRING"@,
        CType::Cord => "CORD"@,
        CType::StringPiece => "STRING_PIECE"@,
    }
}

pub open spec fn jstype_text(m: JSType) -> Seq<char> {
    match m {
        JSType::JsNormal => "JS_NORMAL"@,
        JSType::JsString => "JS_STRING"@,
        JSType::JsNumber => "JS_NUMBER"@,
    }
}

fn optimize_name(m: OptimizeMode) -> (r: &'static str)
    ensures
        r@ == optimize_text(m),
{
    match m {
        OptimizeMode::Speed => "SPEED",
        OptimizeMode::CodeSize => "CODE_SIZE",
        OptimizeMode::LiteRuntime => "LITE_RUNTIME",
    }
}

fn ctype_name(m: CType) -> (r: &'static str)
    ensures
        r@ == ctype_text(m),
{
    match m {
        CType::String => "STRING",
        CType::Cord => "CORD",
        CType::StringPiece => "STRING_PIECE",
    }
}

fn jstype_name(m: JSType) -> (r: &'static str)
    ensures
        r@ == jstype_text(m),
{
    match m {
        JSType::JsNormal => "JS_NORMAL",
        JSType::JsString => "JS_STRING",
        JSType::JsNumber => "JS_NUMBER",
    }
}

fn push_bool_opt(kv: &mut Vec<KeyValue>, key: &str, v: Option<bool>)
    ensures
        kv_views(final(kv)@) == kv_views(old(kv)@) + bool_opt(key@, v),
{
    match v {
        Some(b) => {
            push_kv(kv, String::from_str(key), doc_of_string(bool_str(b)));
        },
        None => {
            assert(kv_views(kv@) =~= kv_views(kv@) + bool_opt(key@, v));
        },
    }
}

fn push_str_opt(kv: &mut Vec<KeyValue>, key: &str, v: &Option<String>)
    ensures
        kv_views(final(kv)@) == kv_views(old(kv)@) + str_opt(key@, *v),
{
    match v {
        Some(s) => {
            push_kv(kv, String::from_str(key), doc_of_string(to_literal(s.as_str())));
        },
        None => {
            assert(kv_views(kv@) =~= kv_views(kv@) + str_opt(key@, *v));
        },
    }
}

fn push_name_opt(kv: &mut Vec<KeyValue>, key: &str, v: Option<&str>)
    ensures
        kv_views(final(kv)@) == kv_views(old(kv)@) + name_opt(key@, opt_str_view(v)),
{
    match v {
        Some(s) => {
            push_kv(kv, String::from_str(key), text_doc(s));
        },
        None => {
            assert(kv_views(kv@) =~= kv_views(kv@) + name_opt(key@, opt_str_view(v)));
        },
    }
}

/// The standard file options that are set, in the order they are written.
pub open spec fn file_std_kvs(o: FileOpts) -> Seq<(Seq<char>, Seq<Glyph>)> {
    bool_opt("deprecated"@, o.deprecated) + name_opt(
        "optimize_for"@,
        match o.optimize_for {
            Some(m) => Some(optimize_text(m)),
            None => None,
        },
    ) + bool_opt("cc_generic_services"@, o.cc_generic_services) + bool_opt(
        "cc_enable_arenas"@,
        o.cc_enable_arenas,
    ) + str_opt("go_package"@, o.go_package) + str_opt("java_package"@, o.java_package)
        + str_opt("java_outer_classname"@, o.java_outer_classname) + bool_opt(
        "java_generate_equals_and_hash"@,
        o.java_generate_equals_and_hash,
    ) + bool_opt("java_generic_services"@, o.java_generic_services) + bool_opt(
        "java_multiple_files"@,
        o.java_multiple_files,
    ) + bool_opt("java_string_check_utf8"@, o.java_string_check_utf8) + bool_opt(
        "py_generic_services"@,
        o.py_generic_services,
    ) + str_opt("ruby_package"@, o.ruby_package) + str_opt(
        "objc_class_prefix"@,
        o.objc_class_prefix,
    ) + str_opt("csharp_namespace"@, o.csharp_namespace) + str_opt(
        "swift_prefix"@,
        o.swift_prefix,
    ) + bool_opt("php_generic_services"@, o.php_generic_services) + str_opt(
        "php_class_prefix"@,
        o.php_class_prefix,
    ) + str_opt("php_namespace"@, o.php_namespace) + str_opt(
        "php_metadata_namespace"@,
        o.php_metadata_namespace,
    )
}

/// The options written for a file: the standard ones that are set, then its
/// custom options.
pub open spec fn file_opts_kvs(
    types: Seq<TypeNodeView>,
    graph: Seq<FileNodeView>,
    source: Seq<char>,
    o: Option<FileOpts>,
) -> Seq<(Seq<char>, Seq<Glyph>)> {
    match o {
        Some(o) => file_std_kvs(o) + extension_kvs(
            types,
            graph,
            source,
            ".google.protobuf.FileOptions"@,
            unknown_views(o.unknown_fields@),
        ),
        None => Seq::empty(),
    }
}

/// The options of a file, as `option` lines write them.
pub fn dump_file_options(
    types: &TypeMap,
    files: &FileMap,
    source_name: &str,
    options: &Option<FileOpts>,
) -> (kv: Vec<KeyValue>)
    requires
        types.wf(),
        files.wf(),
    ensures
        kv_views(kv@) == file_opts_kvs(types@, files@, source_name@, *options),
{
    let mut kv: Vec<KeyValue> = Vec::new();
    let o = match options {
        Some(o) => o,
        None => {
            assert(kv_views(kv@) =~= Seq::<(Seq<char>, Seq<Glyph>)>::empty());
            return kv;
        },
    };
    assert(kv_views(kv@) =~= Seq::<(Seq<char>, Seq<Glyph>)>::empty());
    push_bool_opt(&mut kv, "deprecated", o.deprecated);
    let optimize = match o.optimize_for {
        Some(m) => Some(optimize_name(m)),
        None => None,
    };
    push_name_opt(&mut kv, "optimize_for", optimize);
    push_bool_opt(&mut kv, "cc_generic_services", o.cc_generic_services);
    push_bool_opt(&mut kv, "cc_enable_arenas", o.cc_enable_arenas);
    push_str_opt(&mut kv, "go_package", &o.go_package);
    push_str_opt(&mut kv, "java_package", &o.java_package);
    push_str_opt(&mut kv, "java_outer_classname", &o.java_outer_classname);
    push_bool_opt(&mut kv, "java_generate_equals_and_hash", o.java_generate_equals_and_hash);
    push_bool_opt(&mut kv, "java_generic_services", o.java_generic_services);
    push_bool_opt(&mut kv, "java_multiple_files", o.java_multiple_files);
    push_bool_opt(&mut kv, "java_string_check_utf8", o.java_string_check_utf8);
    push_bool_opt(&mut kv, "py_generic_services", o.py_generic_services);
    push_str_opt(&mut kv, "ruby_package", &o.ruby_package);
    push_str_opt(&mut kv, "objc_class_prefix", &o.objc_class_prefix);
    push_str_opt(&mut kv, "csharp_namespace", &o.csharp_namespace);
    push_str_opt(&mut kv, "swift_prefix", &o.swift_prefix);
    push_bool_opt(&mut kv, "php_generic_services", o.php_generic_services);
    push_str_opt(&mut kv, "php_class_prefix", &o.php_class_prefix);
    push_str_opt(&mut kv, "php_namespace", &o.php_namespace);
    push_str_opt(&mut kv, "php_metadata_namespace", &o.php_metadata_namespace);
    assert(kv_views(kv@) =~= file_std_kvs(*o));
    dump_options_extensions(
        types,
        files,
        source_name,
        ".google.protobuf.FileOptions",
        &o.unknown_fields,
        &mut kv,
    );
    kv
}


proof fn lemma_opt_pieces()
    ensures
        forall|key: Seq<char>, v: Option<bool>, k: Seq<char>|
            #[trigger] key_count(bool_opt(key, v), k) == (if key == k && v is Some {
                1nat
            } else {
                0nat
            }),
        forall|key: Seq<char>, v: Option<bool>, k: Seq<char>|
            #[trigger] key_value(bool_opt(key, v), k) == (if key == k {
                bool_value(v)
            } else {
                None
            }),
        forall|key: Seq<char>, v: Option<String>, k: Seq<char>|
            #[trigger] key_count(str_opt(key, v), k) == (if key == k && v is Some {
                1nat
            } else {
                0nat
            }),
        forall|key: Seq<char>, v: Option<String>, k: Seq<char>|
            #[trigger] key_value(str_opt(key, v), k) == (if key == k {
                str_value(v)
            } else {
                None
            }),
        forall|key: Seq<char>, v: Option<Seq<char>>, k: Seq<char>|
            #[trigger] key_count(name_opt(key, v), k) == (if key == k && v is Some {
                1nat
            } else {
                0nat
            }),
        forall|key: Seq<char>, v: Option<Seq<char>>, k: Seq<char>|
            #[trigger] key_value(name_opt(key, v), k) == (if key == k {
                match v {
                    Some(t) => Some(lift(t)),
                    None => None,
                }
            } else {
                None
            }),
{
    lemma_keyed_basics();
}

/// A list of standard options followed by custom ones has, for every key not
/// in parentheses, the entries of the standard list.
proof fn lemma_std_kvs_then_custom(
    types: Seq<TypeNodeView>,
    graph: Seq<FileNodeView>,
    source: Seq<char>,
    options_type: Seq<char>,
    std: Seq<(Seq<char>, Seq<Glyph>)>,
    vals: Seq<(u32, UnknownValueView)>,
)
    ensures
        forall|k: Seq<char>|
            !is_custom_key(k) ==> key_count(
                #[trigger] (std + extension_kvs(types, graph, source, options_type, vals)),
                k,
            ) == key_count(std, k) && key_value(
                std + extension_kvs(types, graph, source, options_type, vals),
                k,
            ) == key_value(std, k),
{
    let ext = extension_kvs(types, graph, source, options_type, vals);
    law_custom_keys_are_parenthesized(types, graph, source, options_type, vals);
    assert forall|k: Seq<char>| !is_custom_key(k) implies key_count(#[trigger] (std + ext), k)
        == key_count(std, k) && key_value(std + ext, k) == key_value(std, k) by {
        lemma_custom_keys_miss(ext, k);
        lemma_keyed_concat(std, ext, k);
    }
}

proof fn lemma_file_sets_deprecated(o: FileOpts)
    ensures
        sets_option(file_std_kvs(o), "deprecated"@, bool_value(o.deprecated)),
{
    lemma_opt_pieces();
    lemma_keyed_basics();
    lemma_option_key_letters();
}

proof fn lemma_file_sets_optimize_for(o: FileOpts)
    ensures
        sets_option(file_std_kvs(o), "optimize_for"@, match o.optimize_for { Some(m) => Some(lift(optimize_text(m))), None => None }),
{
    lemma_opt_pieces();
    lemma_keyed_basics();
    lemma_option_key_letters();
}

proof fn lemma_file_sets_cc_generic_services(o: FileOpts)
    ensures
        sets_option(file_std_kvs(o), "cc_generic_services"@, bool_value(o.cc_generic_services)),
{
    lemma_opt_pieces();
    lemma_keyed_basics();
    lemma_option_key_letters();
}

proof fn lemma_file_sets_cc_enable_arenas(o: FileOpts)
    ensures
        sets_option(file_std_kvs(o), "cc_enable_arenas"@, bool_value(o.cc_enable_arenas)),
{
    lemma_opt_pieces();
    lemma_keyed_basics();
    lemma_option_key_letters();
}

proof fn lemma_file_sets_go_package(o: FileOpts)
    ensures
        sets_option(file_std_kvs(o), "go_package"@, str_value(o.go_package)),
{
    lemma_opt_pieces();
    lemma_keyed_basics();
    lemma_option_key_letters();
}

proof fn lemma_file_sets_java_package(o: FileOpts)
    ensures
        sets_option(file_std_kvs(o), "java_package"@, str_value(o.java_package)),
{
    lemma_opt_pieces();
    lemma_keyed_basics();
    lemma_option_key_letters();
}

proof fn lemma_file_sets_java_outer_classname(o: FileOpts)
    ensures
        sets_option(file_std_kvs(o), "java_outer_classname"@, str_value(o.java_outer_classname)),
{
    lemma_opt_pieces();
    lemma_keyed_basics();
    lemma_option_key_letters();
}

proof fn lemma_file_sets_java_generate_equals_and_hash(o: FileOpts)
    ensures
        sets_option(file_std_kvs(o), "java_generate_equals_and_hash"@, bool_value(o.java_generate_equals_and_hash)),
{
    lemma_opt_pieces();
    lemma_keyed_basics();
    lemma_option_key_letters();
}

proof fn lemma_file_sets_java_generic_services(o: FileOpts)
    ensures
        sets_option(file_std_kvs(o), "java_generic_services"@, bool_value(o.java_generic_services)),
{
    lemma_opt_pieces();
    lemma_keyed_basics();
    lemma_option_key_letters();
}

proof fn lemma_file_sets_java_multiple_files(o: FileOpts)
    ensures
        sets_option(file_std_kvs(o), "java_multiple_files"@, bool_value(o.java_multiple_files)),
{
    lemma_opt_pieces();
    lemma_keyed_basics();
    lemma_option_key_letters();
}

proof fn lemma_file_sets_java_string_check_utf8(o: FileOpts)
    ensures
        sets_option(file_std_kvs(o), "java_string_check_utf8"@, bool_value(o.java_string_check_utf8)),
{
    lemma_opt_pieces();
    lemma_keyed_basics();
    lemma_option_key_letters();
}

proof fn lemma_file_sets_py_generic_services(o: FileOpts)
    ensures
        sets_option(file_std_kvs(o), "py_generic_services"@, bool_value(o.py_generic_services)),
{
    lemma_opt_pieces();
    lemma_keyed_basics();
    lemma_option_key_letters();
}

proof fn lemma_file_sets_ruby_package(o: FileOpts)
    ensures
        sets_option(file_std_kvs(o), "ruby_package"@, str_value(o.ruby_package)),
{
    lemma_opt_pieces();
    lemma_keyed_basics();
    lemma_option_key_letters();
}

proof fn lemma_file_sets_objc_class_prefix(o: FileOpts)
    ensures
        sets_option(file_std_kvs(o), "objc_class_prefix"@, str_value(o.objc_class_prefix)),
{
    lemma_opt_pieces();
    lemma_keyed_basics();
    lemma_option_key_letters();
}

proof fn lemma_file_sets_csharp_namespace(o: FileOpts)
    ensures
        sets_option(file_std_kvs(o), "csharp_namespace"@, str_value(o.csharp_namespace)),
{
    lemma_opt_pieces();
    lemma_keyed_basics();
    lemma_option_key_letters();
}

proof fn lemma_file_sets_swift_prefix(o: FileOpts)
    ensures
        sets_option(file_std_kvs(o), "swift_prefix"@, str_value(o.swift_prefix)),
{
    lemma_opt_pieces();
    lemma_keyed_basics();
    lemma_option_key_letters();
}

proof fn lemma_file_sets_php_generic_services(o: FileOpts)
    ensures
        sets_option(file_std_kvs(o), "php_generic_services"@, bool_value(o.php_generic_services)),
{
    lemma_opt_pieces();
    lemma_keyed_basics();
    lemma_option_key_letters();
}

proof fn lemma_file_sets_php_class_prefix(o: FileOpts)
    ensures
        sets_option(file_std_kvs(o), "php_class_prefix"@, str_value(o.php_class_prefix)),
{
    lemma_opt_pieces();
    lemma_keyed_basics();
    lemma_option_key_letters();
}

proof fn lemma_file_sets_php_namespace(o: FileOpts)
    ensures
        sets_option(file_std_kvs(o), "php_namespace"@, str_value(o.php_namespace)),
{
    lemma_opt_pieces();
    lemma_keyed_basics();
    lemma_option_key_letters();
}

proof fn lemma_file_sets_php_metadata_namespace(o: FileOpts)
    ensures
        sets_option(file_std_kvs(o), "php_metadata_namespace"@, str_value(o.php_metadata_namespace)),
{
    lemma_opt_pieces();
    lemma_keyed_basics();
    lemma_option_key_letters();
}

/// Each standard file option, on its own, as `file_std_kvs` lists it.
proof fn lemma_file_std_sets(o: FileOpts)
    ensures
        sets_option(file_std_kvs(o), "deprecated"@, bool_value(o.deprecated)),
        sets_option(file_std_kvs(o), "optimize_for"@, match o.optimize_for { Some(m) => Some(lift(optimize_text(m))), None => None }),
        sets_option(file_std_kvs(o), "cc_generic_services"@, bool_value(o.cc_generic_services)),
        sets_option(file_std_kvs(o), "cc_enable_arenas"@, bool_value(o.cc_enable_arenas)),
        sets_option(file_std_kvs(o), "go_package"@, str_value(o.go_package)),
        sets_option(file_std_kvs(o), "java_package"@, str_value(o.java_package)),
        sets_option(file_std_kvs(o), "java_outer_classname"@, str_value(o.java_outer_classname)),
        sets_option(file_std_kvs(o), "java_generate_equals_and_hash"@, bool_value(o.java_generate_equals_and_hash)),
        sets_option(file_std_kvs(o), "java_generic_services"@, bool_value(o.java_generic_services)),
        sets_option(file_std_kvs(o), "java_multiple_files"@, bool_value(o.java_multiple_files)),
        sets_option(file_std_kvs(o), "java_string_check_utf8"@, bool_value(o.java_string_check_utf8)),
        sets_option(file_std_kvs(o), "py_generic_services"@, bool_value(o.py_generic_services)),
        sets_option(file_std_kvs(o), "ruby_package"@, str_value(o.ruby_package)),
        sets_option(file_std_kvs(o), "objc_class_prefix"@, str_value(o.objc_class_prefix)),
        sets_option(file_std_kvs(o), "csharp_namespace"@, str_value(o.csharp_namespace)),
        sets_option(file_std_kvs(o), "swift_prefix"@, str_value(o.swift_prefix)),
        sets_option(file_std_kvs(o), "php_generic_services"@, bool_value(o.php_generic_services)),
        sets_option(file_std_kvs(o), "php_class_prefix"@, str_value(o.php_class_prefix)),
        sets_option(file_std_kvs(o), "php_namespace"@, str_value(o.php_namespace)),
        sets_option(file_std_kvs(o), "php_metadata_namespace"@, str_value(o.php_metadata_namespace)),
{
    lemma_file_sets_deprecated(o);
    lemma_file_sets_optimize_for(o);
    lemma_file_sets_cc_generic_services(o);
    lemma_file_sets_cc_enable_arenas(o);
    lemma_file_sets_go_package(o);
    lemma_file_sets_java_package(o);
    lemma_file_sets_java_outer_classname(o);
    lemma_file_sets_java_generate_equals_and_hash(o);
    lemma_file_sets_java_generic_services(o);
    lemma_file_sets_java_multiple_files(o);
    lemma_file_sets_java_string_check_utf8(o);
    lemma_file_sets_py_generic_services(o);
    lemma_file_sets_ruby_package(o);
    lemma_file_sets_objc_class_prefix(o);
    lemma_file_sets_csharp_namespace(o);
    lemma_file_sets_swift_prefix(o);
    lemma_file_sets_php_generic_services(o);
    lemma_file_sets_php_class_prefix(o);
    lemma_file_sets_php_namespace(o);
    lemma_file_sets_php_metadata_namespace(o);
}

/// Each standard file option is written from its own field and from no
/// other: an option that is set appears exactly once, under its own key and
/// with its value's text; one that is not set does not appear, whatever the
/// other fields and the custom options hold. No options give no entries.
pub proof fn law_file_options_from_own_fields(
    types: Seq<TypeNodeView>,
    graph: Seq<FileNodeView>,
    source: Seq<char>,
    o: FileOpts,
)
    ensures
        file_opts_kvs(types, graph, source, None).len() == 0,
        ({
            let kvs = file_opts_kvs(types, graph, source, Some(o));
            &&& sets_option(kvs, "deprecated"@, bool_value(o.deprecated))
            &&& sets_option(kvs, "optimize_for"@, match o.optimize_for { Some(m) => Some(lift(optimize_text(m))), None => None })
            &&& sets_option(kvs, "cc_generic_services"@, bool_value(o.cc_generic_services))
            &&& sets_option(kvs, "cc_enable_arenas"@, bool_value(o.cc_enable_arenas))
            &&& sets_option(kvs, "go_package"@, str_value(o.go_package))
            &&& sets_option(kvs, "java_package"@, str_value(o.java_package))
            &&& sets_option(kvs, "java_outer_classname"@, str_value(o.java_outer_classname))
            &&& sets_option(kvs, "java_generate_equals_and_hash"@, bool_value(o.java_generate_equals_and_hash))
            &&& sets_option(kvs, "java_generic_services"@, bool_value(o.java_generic_services))
            &&& sets_option(kvs, "java_multiple_files"@, bool_value(o.java_multiple_files))
            &&& sets_option(kvs, "java_string_check_utf8"@, bool_value(o.java_string_check_utf8))
            &&& sets_option(kvs, "py_generic_services"@, bool_value(o.py_generic_services))
            &&& sets_option(kvs, "ruby_package"@, str_value(o.ruby_package))
            &&& sets_option(kvs, "objc_class_prefix"@, str_value(o.objc_class_prefix))
            &&& sets_option(kvs, "csharp_namespace"@, str_value(o.csharp_namespace))
            &&& sets_option(kvs, "swift_prefix"@, str_value(o.swift_prefix))
            &&& sets_option(kvs, "php_generic_services"@, bool_value(o.php_generic_services))
            &&& sets_option(kvs, "php_class_prefix"@, str_value(o.php_class_prefix))
            &&& sets_option(kvs, "php_namespace"@, str_value(o.php_namespace))
            &&& sets_option(kvs, "php_metadata_namespace"@, str_value(o.php_metadata_namespace))
        }),
{
    lemma_file_std_sets(o);
    lemma_std_kvs_then_custom(
        types,
        graph,
        source,
        ".google.protobuf.FileOptions"@,
        file_std_kvs(o),
        unknown_views(o.unknown_fields@),
    );
    lemma_option_key_letters();
    assert(!is_custom_key("deprecated"@));
    assert(!is_custom_key("optimize_for"@));
    assert(!is_custom_key("cc_generic_services"@));
    assert(!is_custom_key("cc_enable_arenas"@));
    assert(!is_custom_key("go_package"@));
    assert(!is_custom_key("java_package"@));
    assert(!is_custom_key("java_outer_classname"@));
    assert(!is_custom_key("java_generate_equals_and_hash"@));
    assert(!is_custom_key("java_generic_services"@));
    assert(!is_custom_key("java_multiple_files"@));
    assert(!is_custom_key("java_string_check_utf8"@));
    assert(!is_custom_key("py_generic_services"@));
    assert(!is_custom_key("ruby_package"@));
    assert(!is_custom_key("objc_class_prefix"@));
    assert(!is_custom_key("csharp_namespace"@));
    assert(!is_custom_key("swift_prefix"@));
    assert(!is_custom_key("php_generic_services"@));
    assert(!is_custom_key("php_class_prefix"@));
    assert(!is_custom_key("php_namespace"@));
    assert(!is_custom_key("php_metadata_namespace"@));
}

/// The standard field options that are set, in the order they are written.
pub open spec fn field_std_kvs(o: FieldOpts) -> Seq<(Seq<char>, Seq<Glyph>)> {
    name_opt(
        "ctype"@,
        match o.ctype {
            Some(m) => Some(ctype_text(m)),
            None => None,
        },
    ) + bool_opt("deprecated"@, o.deprecated) + bool_opt("lazy"@, o.lazy) + bool_opt(
        "packed"@,
        o.packed,
    ) + bool_opt("weak"@, o.weak) + name_opt(
        "jstype"@,
        match o.jstype {
            Some(m) => Some(jstype_text(m)),
            None => None,
        },
    )
}

/// The options written for a field.
pub open spec fn field_opts_kvs(
    types: Seq<TypeNodeView>,
    graph: Seq<FileNodeView>,
    source: Seq<char>,
    o: Option<FieldOpts>,
) -> Seq<(Seq<char>, Seq<Glyph>)> {
    match o {
        Some(o) => field_std_kvs(o) + extension_kvs(
            types,
            graph,
            source,
            ".google.protobuf.FieldOptions"@,
            unknown_views(o.unknown_fields@),
        ),
        None => Seq::empty(),
    }
}

proof fn lemma_field_sets_ctype(o: FieldOpts)
    ensures
        sets_option(field_std_kvs(o), "ctype"@, match o.ctype { Some(m) => Some(lift(ctype_text(m))), None => None }),
{
    lemma_opt_pieces();
    lemma_keyed_basics();
    lemma_option_key_letters();
}

proof fn lemma_field_sets_deprecated(o: FieldOpts)
    ensures
        sets_option(field_std_kvs(o), "deprecated"@, bool_value(o.deprecated)),
{
    lemma_opt_pieces();
    lemma_keyed_basics();
    lemma_option_key_letters();
}

proof fn lemma_field_sets_lazy(o: FieldOpts)
    ensures
        sets_option(field_std_kvs(o), "lazy"@, bool_value(o.lazy)),
{
    lemma_opt_pieces();
    lemma_keyed_basics();
    lemma_option_key_letters();
}

proof fn lemma_field_sets_packed(o: FieldOpts)
    ensures
        sets_option(field_std_kvs(o), "packed"@, bool_value(o.packed)),
{
    lemma_opt_pieces();
    lemma_keyed_basics();
    lemma_option_key_letters();
}

proof fn lemma_field_sets_weak(o: FieldOpts)
    ensures
        sets_option(field_std_kvs(o), "weak"@, bool_value(o.weak)),
{
    lemma_opt_pieces();
    lemma_keyed_basics();
    lemma_option_key_letters();
}

proof fn lemma_field_sets_jstype(o: FieldOpts)
    ensures
        sets_option(field_std_kvs(o), "jstype"@, match o.jstype { Some(m) => Some(lift(jstype_text(m))), None => None }),
{
    lemma_opt_pieces();
    lemma_keyed_basics();
    lemma_option_key_letters();
}

/// A key that is neither in parentheses nor one of the standard field
/// options' keys does not occur among a field's options.
pub proof fn lemma_field_opts_lack(
    types: Seq<TypeNodeView>,
    graph: Seq<FileNodeView>,
    source: Seq<char>,
    o: Option<FieldOpts>,
    k: Seq<char>,
)
    requires
        !is_custom_key(k),
        k != "ctype"@,
        k != "deprecated"@,
        k != "lazy"@,
        k != "packed"@,
        k != "weak"@,
        k != "jstype"@,
    ensures
        key_count(field_opts_kvs(types, graph, source, o), k) == 0,
        key_value(field_opts_kvs(types, graph, source, o), k) is None,
{
    lemma_keyed_basics();
    if let Some(o) = o {
        lemma_opt_pieces();
        lemma_std_kvs_then_custom(
            types,
            graph,
            source,
            ".google.protobuf.FieldOptions"@,
            field_std_kvs(o),
            unknown_views(o.unknown_fields@),
        );
    }
}

/// Each standard field option is written from its own field and from no
/// other: an option that is set appears exactly once, under its own key and
/// with its value's text; one that is not set does not appear, whatever the
/// other fields and the custom options hold. No options give no entries.
pub proof fn law_field_options_from_own_fields(
    types: Seq<TypeNodeView>,
    graph: Seq<FileNodeView>,
    source: Seq<char>,
    o: FieldOpts,
)
    ensures
        field_opts_kvs(types, graph, source, None).len() == 0,
        ({
            let kvs = field_opts_kvs(types, graph, source, Some(o));
            &&& sets_option(kvs, "ctype"@, match o.ctype { Some(m) => Some(lift(ctype_text(m))), None => None })
            &&& sets_option(kvs, "deprecated"@, bool_value(o.deprecated))
            &&& sets_option(kvs, "lazy"@, bool_value(o.lazy))
            &&& sets_option(kvs, "packed"@, bool_value(o.packed))
            &&& sets_option(kvs, "weak"@, bool_value(o.weak))
            &&& sets_option(kvs, "jstype"@, match o.jstype { Some(m) => Some(lift(jstype_text(m))), None => None })
        }),
{
    lemma_field_sets_ctype(o);
    lemma_field_sets_deprecated(o);
    lemma_field_sets_lazy(o);
    lemma_field_sets_packed(o);
    lemma_field_sets_weak(o);
    lemma_field_sets_jstype(o);
    lemma_std_kvs_then_custom(
        types,
        graph,
        source,
        ".google.protobuf.FieldOptions"@,
        field_std_kvs(o),
        unknown_views(o.unknown_fields@),
    );
    lemma_option_key_letters();
    assert(!is_custom_key("ctype"@));
    assert(!is_custom_key("deprecated"@));
    assert(!is_custom_key("lazy"@));
    assert(!is_custom_key("packed"@));
    assert(!is_custom_key("weak"@));
    assert(!is_custom_key("jstype"@));
}

/// The options of a field.
pub fn dump_field_options(
    types: &TypeMap,
    files: &FileMap,
    source_name: &str,
    options: &Option<FieldOpts>,
) -> (kv: Vec<KeyValue>)
    requires
        types.wf(),
        files.wf(),
    ensures
        kv_views(kv@) == field_opts_kvs(types@, files@, source_name@, *options),
{
    let mut kv: Vec<KeyValue> = Vec::new();
    assert(kv_views(kv@) =~= Seq::<(Seq<char>, Seq<Glyph>)>::empty());
    let o = match options {
        Some(o) => o,
        None => {
            return kv;
        },
    };
    let ctype = match o.ctype {
        Some(m) => Some(ctype_name(m)),
        None => None,
    };
    push_name_opt(&mut kv, "ctype", ctype);
    push_bool_opt(&mut kv, "deprecated", o.deprecated);
    push_bool_opt(&mut kv, "lazy", o.lazy);
    push_bool_opt(&mut kv, "packed", o.packed);
    push_bool_opt(&mut kv, "weak", o.weak);
    let jstype = match o.jstype {
        Some(m) => Some(jstype_name(m)),
        None => None,
    };
    push_name_opt(&mut kv, "jstype", jstype);
    assert(kv_views(kv@) =~= field_std_kvs(*o));
    dump_options_extensions(
        types,
        files,
        source_name,
        ".google.protobuf.FieldOptions",
        &o.unknown_fields,
        &mut kv,
    );
    kv
}

/// The standard message options that are set, in the order they are written.
pub open spec fn message_std_kvs(o: MessageOpts) -> Seq<(Seq<char>, Seq<Glyph>)> {
    bool_opt("message_set_wire_format"@, o.message_set_wire_format) + bool_opt(
        "no_standard_descriptor_accessor"@,
        o.no_standard_descriptor_accessor,
    ) + bool_opt("deprecated"@, o.deprecated)
}

/// The options written for a message.
pub open spec fn message_opts_kvs(
    types: Seq<TypeNodeView>,
    graph: Seq<FileNodeView>,
    source: Seq<char>,
    o: Option<MessageOpts>,
) -> Seq<(Seq<char>, Seq<Glyph>)> {
    match o {
        Some(o) => message_std_kvs(o) + extension_kvs(
            types,
            graph,
            source,
            ".google.protobuf.MessageOptions"@,
            unknown_views(o.unknown_fields@),
        ),
        None => Seq::empty(),
    }
}

proof fn lemma_message_sets_message_set_wire_format(o: MessageOpts)
    ensures
        sets_option(message_std_kvs(o), "message_set_wire_format"@, bool_value(o.message_set_wire_format)),
{
    lemma_opt_pieces();
    lemma_keyed_basics();
    lemma_option_key_letters();
}

proof fn lemma_message_sets_no_standard_descriptor_accessor(o: MessageOpts)
    ensures
        sets_option(message_std_kvs(o), "no_standard_descriptor_accessor"@, bool_value(o.no_standard_descriptor_accessor)),
{
    lemma_opt_pieces();
    lemma_keyed_basics();
    lemma_option_key_letters();
}

proof fn lemma_message_sets_deprecated(o: MessageOpts)
    ensures
        sets_option(message_std_kvs(o), "deprecated"@, bool_value(o.deprecated)),
{
    lemma_opt_pieces();
    lemma_keyed_basics();
    lemma_option_key_letters();
}

/// Each standard message option is written from its own field and from no
/// other: an option that is set appears exactly once, under its own key and
/// with its value's text; one that is not set does not appear, whatever the
/// other fields and the custom options hold. No options give no entries.
pub proof fn law_message_options_from_own_fields(
    types: Seq<TypeNodeView>,
    graph: Seq<FileNodeView>,
    source: Seq<char>,
    o: MessageOpts,
)
    ensures
        message_opts_kvs(types, graph, source, None).len() == 0,
        ({
            let kvs = message_opts_kvs(types, graph, source, Some(o));
            &&& sets_option(kvs, "message_set_wire_format"@, bool_value(o.message_set_wire_format))
            &&& sets_option(kvs, "no_standard_descriptor_accessor"@, bool_value(o.no_standard_descriptor_accessor))
            &&& sets_option(kvs, "deprecated"@, bool_value(o.deprecated))
        }),
{
    lemma_message_sets_message_set_wire_format(o);
    lemma_message_sets_no_standard_descriptor_accessor(o);
    lemma_message_sets_deprecated(o);
    lemma_std_kvs_then_custom(
        types,
        graph,
        source,
        ".google.protobuf.MessageOptions"@,
        message_std_kvs(o),
        unknown_views(o.unknown_fields@),
    );
    lemma_option_key_letters();
    assert(!is_custom_key("message_set_wire_format"@));
    assert(!is_custom_key("no_standard_descriptor_accessor"@));
    assert(!is_custom_key("deprecated"@));
}

/// The options of a message.
pub fn dump_message_options(
    types: &TypeMap,
    files: &FileMap,
    source_name: &str,
    options: &Option<MessageOpts>,
) -> (kv: Vec<KeyValue>)
    requires
        types.wf(),
        files.wf(),
    ensures
        kv_views(kv@) == message_opts_kvs(types@, files@, source_name@, *options),
{
    let mut kv: Vec<KeyValue> = Vec::new();
    assert(kv_views(kv@) =~= Seq::<(Seq<char>, Seq<Glyph>)>::empty());
    let o = match options {
        Some(o) => o,
        None => {
            return kv;
        },
    };
    push_bool_opt(&mut kv, "message_set_wire_format", o.message_set_wire_format);
    push_bool_opt(&mut kv, "no_standard_descriptor_accessor", o.no_standard_descriptor_accessor);
    push_bool_opt(&mut kv, "deprecated", o.deprecated);
    assert(kv_views(kv@) =~= message_std_kvs(*o));
    dump_options_extensions(
        types,
        files,
        source_name,
        ".google.protobuf.MessageOptions",
        &o.unknown_fields,
        &mut kv,
    );
    kv
}

/// The standard enum options that are set, in the order they are written.
pub open spec fn enum_std_kvs(o: EnumOpts) -> Seq<(Seq<char>, Seq<Glyph>)> {
    bool_opt("allow_alias"@, o.allow_alias) + bool_opt("deprecated"@, o.deprecated)
}

/// The options written for an enum.
pub open spec fn enum_opts_kvs(
    types: Seq<TypeNodeView>,
    graph: Seq<FileNodeView>,
    source: Seq<char>,
    o: Option<EnumOpts>,
) -> Seq<(Seq<char>, Seq<Glyph>)> {
    match o {
        Some(o) => enum_std_kvs(o) + extension_kvs(
            types,
            graph,
            source,
            ".google.protobuf.EnumOptions"@,
            unknown_views(o.unknown_fields@),
        ),
        None => Seq::empty(),
    }
}

proof fn lemma_enum_sets_allow_alias(o: EnumOpts)
    ensures
        sets_option(enum_std_kvs(o), "allow_alias"@, bool_value(o.allow_alias)),
{
    lemma_opt_pieces();
    lemma_keyed_basics();
    lemma_option_key_letters();
}

proof fn lemma_enum_sets_deprecated(o: EnumOpts)
    ensures
        sets_option(enum_std_kvs(o), "deprecated"@, bool_value(o.deprecated)),
{
    lemma_opt_pieces();
    lemma_keyed_basics();
    lemma_option_key_letters();
}

/// Each standard enum option is written from its own field and from no
/// other: an option that is set appears exactly once, under its own key and
/// with its value's text; one that is not set does not appear, whatever the
/// other fields and the custom options hold. No options give no entries.
pub proof fn law_enum_options_from_own_fields(
    types: Seq<TypeNodeView>,
    graph: Seq<FileNodeView>,
    source: Seq<char>,
    o: EnumOpts,
)
    ensures
        enum_opts_kvs(types, graph, source, None).len() == 0,
        ({
            let kvs = enum_opts_kvs(types, graph, source, Some(o));
            &&& sets_option(kvs, "allow_alias"@, bool_value(o.allow_alias))
            &&& sets_option(kvs, "deprecated"@, bool_value(o.deprecated))
        }),
{
    lemma_enum_sets_allow_alias(o);
    lemma_enum_sets_deprecated(o);
    lemma_std_kvs_then_custom(
        types,
        graph,
        source,
        ".google.protobuf.EnumOptions"@,
        enum_std_kvs(o),
        unknown_views(o.unknown_fields@),
    );
    lemma_option_key_letters();
    assert(!is_custom_key("allow_alias"@));
    assert(!is_custom_key("deprecated"@));
}


/// The options of an enum.
pub fn dump_enum_options(
    types: &TypeMap,
    files: &FileMap,
    source_name: &str,
    options: &Option<EnumOpts>,
) -> (kv: Vec<KeyValue>)
    requires
        types.wf(),
        files.wf(),
    ensures
        kv_views(kv@) == enum_opts_kvs(types@, files@, source_name@, *options),
{
    let mut kv: Vec<KeyValue> = Vec::new();
    assert(kv_views(kv@) =~= Seq::<(Seq<char>, Seq<Glyph>)>::empty());
    let o = match options {
        Some(o) => o,
        None => {
            return kv;
        },
    };
    push_bool_opt(&mut kv, "allow_alias", o.allow_alias);
    push_bool_opt(&mut kv, "deprecated", o.deprecated);
    assert(kv_views(kv@) =~= enum_std_kvs(*o));
    dump_options_extensions(
        types,
        files,
        source_name,
        ".google.protobuf.EnumOptions",
        &o.unknown_fields,
        &mut kv,
    );
    kv
}

/// The options written for an enum value, a service or a method: `deprecated`
/// when it is set, then the custom options of type `options_type`.
pub open spec fn deprecated_opts_kvs(
    types: Seq<TypeNodeView>,
    graph: Seq<FileNodeView>,
    source: Seq<char>,
    options_type: Seq<char>,
    o: Option<DeprecatedOpts>,
) -> Seq<(Seq<char>, Seq<Glyph>)> {
    match o {
        Some(o) => bool_opt("deprecated"@, o.deprecated) + extension_kvs(
            types,
            graph,
            source,
            options_type,
            unknown_views(o.unknown_fields@),
        ),
        None => Seq::empty(),
    }
}

proof fn lemma_deprecated_sets_deprecated(d: Option<bool>)
    ensures
        sets_option(bool_opt("deprecated"@, d), "deprecated"@, bool_value(d)),
{
    lemma_opt_pieces();
}

/// The options of an enum value, a service or a method write `deprecated`
/// from its own field: once with its value's text when it is set, not at all
/// otherwise, whatever the custom options hold. No options give no entries.
pub proof fn law_deprecated_option_from_own_field(
    types: Seq<TypeNodeView>,
    graph: Seq<FileNodeView>,
    source: Seq<char>,
    options_type: Seq<char>,
    o: DeprecatedOpts,
)
    ensures
        deprecated_opts_kvs(types, graph, source, options_type, None).len() == 0,
        sets_option(
            deprecated_opts_kvs(types, graph, source, options_type, Some(o)),
            "deprecated"@,
            bool_value(o.deprecated),
        ),
{
    lemma_deprecated_sets_deprecated(o.deprecated);
    lemma_std_kvs_then_custom(
        types,
        graph,
        source,
        options_type,
        bool_opt("deprecated"@, o.deprecated),
        unknown_views(o.unknown_fields@),
    );
    lemma_option_key_letters();
    assert(!is_custom_key("deprecated"@));
}


fn dump_deprecated_options(
    types: &TypeMap,
    files: &FileMap,
    source_name: &str,
    options_type: &str,
    options: &Option<DeprecatedOpts>,
) -> (kv: Vec<KeyValue>)
    requires
        types.wf(),
        files.wf(),
    ensures
        kv_views(kv@) == deprecated_opts_kvs(types@, files@, source_name@, options_type@, *options),
{
    let mut kv: Vec<KeyValue> = Vec::new();
    assert(kv_views(kv@) =~= Seq::<(Seq<char>, Seq<Glyph>)>::empty());
    let o = match options {
        Some(o) => o,
        None => {
            return kv;
        },
    };
    push_bool_opt(&mut kv, "deprecated", o.deprecated);
    assert(kv_views(kv@) =~= bool_opt("deprecated"@, o.deprecated));
    dump_options_extensions(types, files, source_name, options_type, &o.unknown_fields, &mut kv);
    kv
}

/// The options of an enum value.
pub fn dump_enum_value_options(
    types: &TypeMap,
    files: &FileMap,
    source_name: &str,
    options: &Option<DeprecatedOpts>,
) -> (kv: Vec<KeyValue>)
    requires
        types.wf(),
        files.wf(),
    ensures
        kv_views(kv@) == deprecated_opts_kvs(
            types@,
            files@,
            source_name@,
            ".google.protobuf.EnumValueOptions"@,
            *options,
        ),
{
    dump_deprecated_options(types, files, source_name, ".google.protobuf.EnumValueOptions", options)
}

/// The options of a service.
pub fn dump_service_options(
    types: &TypeMap,
    files: &FileMap,
    source_name: &str,
    options: &Option<DeprecatedOpts>,
) -> (kv: Vec<KeyValue>)
    requires
        types.wf(),
        files.wf(),
    ensures
        kv_views(kv@) == deprecated_opts_kvs(
            types@,
            files@,
            source_name@,
            ".google.protobuf.ServiceOptions"@,
            *options,
        ),
{
    dump_deprecated_options(types, files, source_name, ".google.protobuf.ServiceOptions", options)
}

/// The options of a method.
pub fn dump_method_options(
    types: &TypeMap,
    files: &FileMap,
    source_name: &str,
    options: &Option<DeprecatedOpts>,
) -> (kv: Vec<KeyValue>)
    requires
        types.wf(),
        files.wf(),
    ensures
        kv_views(kv@) == deprecated_opts_kvs(
            types@,
            files@,
            source_name@,
            ".google.protobuf.MethodOptions"@,
            *options,
        ),
{
    dump_deprecated_options(types, files, source_name, ".google.protobuf.MethodOptions", options)
}

} // verus!
