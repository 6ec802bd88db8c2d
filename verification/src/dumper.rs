//! The dependency analysis over collected file descriptors.
use crate::descriptor::{
    EnumDescriptor, FieldDescriptor, FieldType, FileDescriptor, MessageDescriptor,
    ServiceDescriptor,
};
use vstd::hash_map::StringHashMap;
use vstd::prelude::*;
use vstd::string::{StrSliceExecFns, StringExecFns};

verus! {

// ─── What a type node remembers of its source ──────────────────────────────

/// The parts of a field descriptor that the rendering reads back from the type map.
pub struct FieldRef {
    pub name: String,
    pub number: i32,
    pub field_type: FieldType,
    pub type_ref: String,
    pub extendee: String,
}

pub struct FieldRefView {
    pub name: Seq<char>,
    pub number: i32,
    pub field_type: FieldType,
    pub type_ref: Seq<char>,
    pub extendee: Seq<char>,
}

impl View for FieldRef {
    type V = FieldRefView;

    open spec fn view(&self) -> FieldRefView {
        FieldRefView {
            name: self.name@,
            number: self.number,
            field_type: self.field_type,
            type_ref: self.type_ref@,
            extendee: self.extendee@,
        }
    }
}

/// One value of an enum: its name and number.
pub struct EnumValueRef {
    pub name: String,
    pub number: i32,
}

impl View for EnumValueRef {
    type V = (Seq<char>, i32);

    open spec fn view(&self) -> (Seq<char>, i32) {
        (self.name@, self.number)
    }
}

/// What defines a type: nothing yet (a reference only), an extension field,
/// an enum (its values), a message (its fields), or a service.
pub enum TypeSource {
    Reference,
    Field(FieldRef),
    Enum(Vec<EnumValueRef>),
    Message(Vec<FieldRef>),
    Service,
}

pub enum SourceView {
    Reference,
    Field(FieldRefView),
    Enum(Seq<(Seq<char>, i32)>),
    Message(Seq<FieldRefView>),
    Service,
}

pub open spec fn field_refs_view(v: Seq<FieldRef>) -> Seq<FieldRefView> {
    v.map_values(|f: FieldRef| f@)
}

pub open spec fn enum_refs_view(v: Seq<EnumValueRef>) -> Seq<(Seq<char>, i32)> {
    v.map_values(|e: EnumValueRef| e@)
}

impl View for TypeSource {
    type V = SourceView;

    open spec fn view(&self) -> SourceView {
        match self {
            TypeSource::Reference => SourceView::Reference,
            TypeSource::Field(f) => SourceView::Field(f@),
            TypeSource::Enum(v) => SourceView::Enum(enum_refs_view(v@)),
            TypeSource::Message(v) => SourceView::Message(field_refs_view(v@)),
            TypeSource::Service => SourceView::Service,
        }
    }
}

/// The view of a field descriptor as a type source keeps it.
pub open spec fn field_ref_of(f: FieldDescriptor) -> FieldRefView {
    FieldRefView {
        name: f.name@,
        number: f.number,
        field_type: f.field_type,
        type_ref: f.type_ref@,
        extendee: f.extendee@,
    }
}

/// The values of an enum as a type source keeps them.
pub open spec fn enum_values_of(e: EnumDescriptor) -> Seq<(Seq<char>, i32)> {
    e.value@.map_values(|v: crate::descriptor::EnumValueDescriptor| (v.name@, v.number))
}

/// The fields of a message as a type source keeps them.
pub open spec fn message_fields_of(m: MessageDescriptor) -> Seq<FieldRefView> {
    m.field@.map_values(|f: FieldDescriptor| field_ref_of(f))
}

pub fn field_ref(f: &FieldDescriptor) -> (r: FieldRef)
    ensures
        r@ == field_ref_of(*f),
{
    FieldRef {
        name: f.name.clone(),
        number: f.number,
        field_type: f.field_type,
        type_ref: f.type_ref.clone(),
        extendee: f.extendee.clone(),
    }
}

fn enum_source(e: &EnumDescriptor) -> (r: TypeSource)
    ensures
        r@ == SourceView::Enum(enum_values_of(*e)),
{
    let mut values: Vec<EnumValueRef> = Vec::new();
    for i in 0..e.value.len()
        invariant
            values@.len() == i,
            enum_refs_view(values@) =~= enum_values_of(*e).take(i as int),
    {
        let ghost before = values@;
        values.push(EnumValueRef { name: e.value[i].name.clone(), number: e.value[i].number });
        assert(values@ =~= before.push(values@[i as int]));
        assert(enum_refs_view(values@) =~= enum_refs_view(before).push(values@[i as int]@));
    }
    assert(enum_values_of(*e).take(e.value.len() as int) =~= enum_values_of(*e));
    TypeSource::Enum(values)
}

fn message_source(m: &MessageDescriptor) -> (r: TypeSource)
    ensures
        r@ == SourceView::Message(message_fields_of(*m)),
{
    let mut fields: Vec<FieldRef> = Vec::new();
    for i in 0..m.field.len()
        invariant
            fields@.len() == i,
            field_refs_view(fields@) =~= message_fields_of(*m).take(i as int),
    {
        let ghost before = fields@;
        fields.push(field_ref(&m.field[i]));
        assert(fields@ =~= before.push(fields@[i as int]));
        assert(field_refs_view(fields@) =~= field_refs_view(before).push(fields@[i as int]@));
    }
    assert(message_fields_of(*m).take(m.field.len() as int) =~= message_fields_of(*m));
    TypeSource::Message(fields)
}

// ─── Package paths ──────────────────────────────────────────────────────────

/// The fully qualified name of `name` seen from `package`: names that start
/// with `.` are already qualified; otherwise the package (given a leading `.`)
/// and the name are joined with `.`.
pub open spec fn package_path(package: Seq<char>, name: Seq<char>) -> Seq<char> {
    if name.len() > 0 && name[0] == '.' {
        name
    } else {
        let pkg = if package.len() == 0 || package[0] == '.' {
            package
        } else {
            seq!['.'] + package
        };
        pkg + seq!['.'] + name
    }
}

fn starts_with_dot(s: &str) -> (r: bool)
    ensures
        r == (s@.len() > 0 && s@[0] == '.'),
{
    if s.is_empty() {
        false
    } else {
        s.get_char(0) == '.'
    }
}

/// The fully qualified name of `name` seen from `package`.
pub fn get_package_path(package: &str, name: &str) -> (r: String)
    ensures
        r@ == package_path(package@, name@),
{
    if starts_with_dot(name) {
        return String::from_str(name);
    }
    let mut pkg = String::new();
    if !(package.is_empty() || starts_with_dot(package)) {
        pkg.append(".");
    }
    pkg.append(package);
    pkg.append(".");
    pkg.append(name);
    proof {
        reveal_strlit(".");
    }
    assert(pkg@ =~= package_path(package@, name@));
    pkg
}

// ─── Type registrations ─────────────────────────────────────────────────────

/// One registration of a type name with the type map: a definition (with the
/// file that defines it) or a mere reference (no file, `SourceView::Reference`).
pub struct Reg {
    pub name: Seq<char>,
    pub proto_name: Option<Seq<char>>,
    pub source: SourceView,
}

pub open spec fn reference(name: Seq<char>) -> Reg {
    Reg { name, proto_name: None, source: SourceView::Reference }
}

pub open spec fn is_named_type(t: FieldType) -> bool {
    t == FieldType::Message || t == FieldType::Enum
}

/// Registrations made for one file-level extension field.
pub open spec fn extension_regs(package: Seq<char>, proto: Seq<char>, f: FieldDescriptor) -> Seq<Reg> {
    seq![
        Reg {
            name: package_path(package, f.name@),
            proto_name: Some(proto),
            source: SourceView::Field(field_ref_of(f)),
        },
    ] + (if is_named_type(f.field_type) && f.type_ref@.len() != 0 {
        seq![reference(package_path(package, f.type_ref@))]
    } else {
        Seq::empty()
    }) + (if f.extendee@.len() != 0 {
        seq![reference(package_path(package, f.extendee@))]
    } else {
        Seq::empty()
    })
}

pub open spec fn extensions_regs(package: Seq<char>, proto: Seq<char>, s: Seq<FieldDescriptor>) -> Seq<Reg>
    decreases s.len(),
{
    if s.len() == 0 {
        Seq::empty()
    } else {
        extensions_regs(package, proto, s.drop_last()) + extension_regs(package, proto, s.last())
    }
}

/// Registrations for enums defined in `scope` by file `proto`.
pub open spec fn enums_regs(scope: Seq<char>, proto: Seq<char>, s: Seq<EnumDescriptor>) -> Seq<Reg>
    decreases s.len(),
{
    if s.len() == 0 {
        Seq::empty()
    } else {
        enums_regs(scope, proto, s.drop_last()) + seq![
            Reg {
                name: package_path(scope, s.last().name@),
                proto_name: Some(proto),
                source: SourceView::Enum(enum_values_of(s.last())),
            },
        ]
    }
}

/// References made by the extensions declared inside a message: their extendees.
pub open spec fn extendee_refs(package: Seq<char>, s: Seq<FieldDescriptor>) -> Seq<Reg>
    decreases s.len(),
{
    if s.len() == 0 {
        Seq::empty()
    } else {
        extendee_refs(package, s.drop_last()) + (if s.last().extendee@.len() != 0 {
            seq![reference(package_path(package, s.last().extendee@))]
        } else {
            Seq::empty()
        })
    }
}

/// References made by the fields of a message: their named types and extendees.
pub open spec fn field_refs(package: Seq<char>, s: Seq<FieldDescriptor>) -> Seq<Reg>
    decreases s.len(),
{
    if s.len() == 0 {
        Seq::empty()
    } else {
        let f = s.last();
        field_refs(package, s.drop_last()) + (if is_named_type(f.field_type) && f.type_ref@.len()
            != 0 {
            seq![reference(package_path(package, f.type_ref@))]
        } else {
            Seq::empty()
        }) + (if f.extendee@.len() != 0 {
            seq![reference(package_path(package, f.extendee@))]
        } else {
            Seq::empty()
        })
    }
}

/// Registrations for a message (and, recursively, the messages nested in it)
/// defined in `package` by file `proto`.
pub open spec fn message_regs(proto: Seq<char>, package: Seq<char>, m: MessageDescriptor) -> Seq<Reg>
    decreases m,
{
    let scope = package_path(package, m.name@);
    seq![
        Reg {
            name: scope,
            proto_name: Some(proto),
            source: SourceView::Message(message_fields_of(m)),
        },
    ] + extendee_refs(package, m.extension@) + enums_regs(scope, proto, m.enum_type@) + field_refs(
        package,
        m.field@,
    ) + messages_regs(proto, scope, m.nested_type@)
}

pub open spec fn messages_regs(proto: Seq<char>, package: Seq<char>, s: Seq<MessageDescriptor>) -> Seq<Reg>
    decreases s,
{
    if s.len() == 0 {
        Seq::empty()
    } else {
        messages_regs(proto, package, s.subrange(0, s.len() - 1)) + message_regs(
            proto,
            package,
            s[s.len() - 1],
        )
    }
}

/// References made by the methods of a service: their input and output types.
pub open spec fn method_refs(package: Seq<char>, s: Seq<crate::descriptor::MethodDescriptor>) -> Seq<Reg>
    decreases s.len(),
{
    if s.len() == 0 {
        Seq::empty()
    } else {
        let m = s.last();
        method_refs(package, s.drop_last()) + (if m.input_type@.len() != 0 {
            seq![reference(package_path(package, m.input_type@))]
        } else {
            Seq::empty()
        }) + (if m.output_type@.len() != 0 {
            seq![reference(package_path(package, m.output_type@))]
        } else {
            Seq::empty()
        })
    }
}

pub open spec fn services_regs(package: Seq<char>, proto: Seq<char>, s: Seq<ServiceDescriptor>) -> Seq<Reg>
    decreases s.len(),
{
    if s.len() == 0 {
        Seq::empty()
    } else {
        services_regs(package, proto, s.drop_last()) + seq![
            Reg {
                name: package_path(package, s.last().name@),
                proto_name: Some(proto),
                source: SourceView::Service,
            },
        ] + method_refs(package, s.last().method@)
    }
}

/// Every registration that one file makes, in order: extensions, enums,
/// messages, services.
pub open spec fn file_regs(p: FileDescriptor) -> Seq<Reg> {
    extensions_regs(p.package@, p.name@, p.extension@) + enums_regs(
        p.package@,
        p.name@,
        p.enum_type@,
    ) + messages_regs(p.name@, p.package@, p.message_type@) + services_regs(
        p.package@,
        p.name@,
        p.service@,
    )
}

/// The registrations of all files, file by file.
pub open spec fn all_regs(files: Seq<FileDescriptor>) -> Seq<Reg>
    decreases files.len(),
{
    if files.len() == 0 {
        Seq::empty()
    } else {
        all_regs(files.drop_last()) + file_regs(files.last())
    }
}

pub open spec fn reg_names(regs: Seq<Reg>) -> Seq<Seq<char>> {
    regs.map_values(|r: Reg| r.name)
}

// ─── The type map ───────────────────────────────────────────────────────────

/// A node of the type map.
pub struct ProtoTypeNode {
    pub name: String,
    pub proto_name: Option<String>,
    pub source: TypeSource,
    pub defined: bool,
}

pub struct TypeNodeView {
    pub name: Seq<char>,
    pub proto_name: Option<Seq<char>>,
    pub source: SourceView,
    pub defined: bool,
}

pub open spec fn opt_string_view(o: Option<String>) -> Option<Seq<char>> {
    match o {
        Some(s) => Some(s@),
        None => None,
    }
}

impl View for ProtoTypeNode {
    type V = TypeNodeView;

    open spec fn view(&self) -> TypeNodeView {
        TypeNodeView {
            name: self.name@,
            proto_name: opt_string_view(self.proto_name),
            source: self.source@,
            defined: self.defined,
        }
    }
}

pub open spec fn type_views(v: Seq<ProtoTypeNode>) -> Seq<TypeNodeView> {
    v.map_values(|n: ProtoTypeNode| n@)
}

pub open spec fn type_names(v: Seq<TypeNodeView>) -> Seq<Seq<char>> {
    v.map_values(|n: TypeNodeView| n.name)
}

/// No name occurs twice.
pub open spec fn distinct(names: Seq<Seq<char>>) -> bool {
    forall|i: int, j: int| 0 <= i < names.len() && 0 <= j < names.len() && i != j ==> names[i] != names[j]
}

/// The position of `name` in a list of distinct names.
pub open spec fn find(names: Seq<Seq<char>>, name: Seq<char>) -> Option<int> {
    if exists|i: int| 0 <= i < names.len() && names[i] == name {
        Some(choose|i: int| 0 <= i < names.len() && names[i] == name)
    } else {
        None
    }
}

/// The type map after one registration: a new name is added (defined when the
/// registration defines it); an undefined name is defined by the first
/// registration that defines it; otherwise nothing changes.
pub open spec fn register(nodes: Seq<TypeNodeView>, r: Reg) -> Seq<TypeNodeView> {
    let defining = !(r.source is Reference);
    match find(type_names(nodes), r.name) {
        Some(i) => if defining && !nodes[i].defined {
            nodes.update(
                i,
                TypeNodeView {
                    name: nodes[i].name,
                    proto_name: r.proto_name,
                    source: r.source,
                    defined: true,
                },
            )
        } else {
            nodes
        },
        None => nodes.push(
            TypeNodeView {
                name: r.name,
                proto_name: r.proto_name,
                source: r.source,
                defined: defining,
            },
        ),
    }
}

/// The type map after a sequence of registrations.
pub open spec fn register_all(nodes: Seq<TypeNodeView>, regs: Seq<Reg>) -> Seq<TypeNodeView>
    decreases regs.len(),
{
    if regs.len() == 0 {
        nodes
    } else {
        register(register_all(nodes, regs.drop_last()), regs.last())
    }
}

pub proof fn lemma_register_all_append(nodes: Seq<TypeNodeView>, a: Seq<Reg>, b: Seq<Reg>)
    ensures
        register_all(nodes, a + b) == register_all(register_all(nodes, a), b),
    decreases b.len(),
{
    if b.len() == 0 {
        assert(a + b =~= a);
    } else {
        assert((a + b).drop_last() =~= a + b.drop_last());
        assert((a + b).last() == b.last());
        lemma_register_all_append(nodes, a, b.drop_last());
    }
}

/// The names in `names` index `index`: each name maps to its position.
pub open spec fn index_matches(names: Seq<Seq<char>>, index: Map<Seq<char>, usize>) -> bool {
    &&& forall|k: Seq<char>| #[trigger]
        index.contains_key(k) ==> index[k] < names.len() && names[index[k] as int] == k
    &&& forall|i: int| 0 <= i < names.len() ==> #[trigger] index.contains_key(names[i])
        && index[names[i]] == i
}

pub proof fn lemma_index_distinct(names: Seq<Seq<char>>, index: Map<Seq<char>, usize>)
    requires
        index_matches(names, index),
    ensures
        distinct(names),
{
    assert forall|i: int, j: int|
        0 <= i < names.len() && 0 <= j < names.len() && i != j implies names[i] != names[j] by {
        assert(index.contains_key(names[i]));
        assert(index.contains_key(names[j]));
    }
}

pub proof fn lemma_find_index(names: Seq<Seq<char>>, index: Map<Seq<char>, usize>, k: Seq<char>)
    requires
        index_matches(names, index),
    ensures
        find(names, k) == (if index.contains_key(k) {
            Some(index[k] as int)
        } else {
            None::<int>
        }),
{
    lemma_index_distinct(names, index);
    if index.contains_key(k) {
        let i = index[k] as int;
        assert(names[i] == k);
        let j = choose|j: int| 0 <= j < names.len() && names[j] == k;
        assert(j == i);
    } else {
        if exists|i: int| 0 <= i < names.len() && names[i] == k {
            let i = choose|i: int| 0 <= i < names.len() && names[i] == k;
            assert(index.contains_key(names[i]));
        }
    }
}

pub proof fn lemma_find_props(names: Seq<Seq<char>>, name: Seq<char>)
    ensures
        find(names, name) matches Some(i) ==> 0 <= i < names.len() && names[i] == name,
        find(names, name) is None ==> !names.contains(name),
{
    if exists|i: int| 0 <= i < names.len() && names[i] == name {
        let i = choose|i: int| 0 <= i < names.len() && names[i] == name;
        assert(0 <= i < names.len() && names[i] == name);
    }
}

/// Registers `name` with the type map, as `register` describes.
fn register_node(
    types: &mut Vec<ProtoTypeNode>,
    index: &mut StringHashMap<usize>,
    name: String,
    proto_name: Option<String>,
    source: TypeSource,
)
    requires
        index_matches(type_names(type_views(old(types)@)), old(index)@),
    ensures
        index_matches(type_names(type_views(final(types)@)), final(index)@),
        type_views(final(types)@) == register(
            type_views(old(types)@),
            Reg { name: name@, proto_name: opt_string_view(proto_name), source: source@ },
        ),
{
    let ghost old_nodes = type_views(types@);
    let ghost r = Reg { name: name@, proto_name: opt_string_view(proto_name), source: source@ };
    proof {
        lemma_find_index(type_names(old_nodes), index@, name@);
    }
    let is_defining = match source {
        TypeSource::Reference => false,
        _ => true,
    };
    match index.get(name.as_str()) {
        Some(i) => {
            let i = *i;
            if is_defining && !types[i].defined {
                let mut node = ProtoTypeNode {
                    name: String::new(),
                    proto_name,
                    source,
                    defined: true,
                };
                std::mem::swap(&mut node, &mut types[i]);
                types[i].name = node.name;
                assert(type_views(types@) =~= register(old_nodes, r));
                assert(type_names(type_views(types@)) =~= type_names(old_nodes));
                assert(index_matches(type_names(type_views(types@)), index@));
            }
        },
        None => {
            let n = types.len();
            index.insert(name.clone(), n);
            types.push(ProtoTypeNode { name, proto_name, source, defined: is_defining });
            assert(type_views(types@) =~= register(old_nodes, r));
            let ghost names = type_names(type_views(types@));
            assert(names =~= type_names(old_nodes).push(name@));
            assert forall|k: Seq<char>| #[trigger] index@.contains_key(k) implies index@[k]
                < names.len() && names[index@[k] as int] == k by {
                if k != name@ {
                    assert(old(index)@.contains_key(k));
                }
            }
            assert forall|j: int| 0 <= j < names.len() implies #[trigger] index@.contains_key(
                names[j],
            ) && index@[names[j]] == j by {
                if j < n {
                    assert(names[j] == type_names(old_nodes)[j]);
                    assert(old(index)@.contains_key(type_names(old_nodes)[j]));
                }
            }
        },
    }
    assert(index_matches(type_names(type_views(types@)), index@));

}

/// The type map: nodes in the order of their first registration, with an
/// index from name to position.
pub struct TypeMap {
    nodes: Vec<ProtoTypeNode>,
    index: StringHashMap<usize>,
}

impl View for TypeMap {
    type V = Seq<TypeNodeView>;

    closed spec fn view(&self) -> Seq<TypeNodeView> {
        type_views(self.nodes@)
    }
}

pub open spec fn strings_view(v: Seq<String>) -> Seq<Seq<char>> {
    v.map_values(|s: String| s@)
}

impl TypeMap {
    pub closed spec fn wf(&self) -> bool {
        index_matches(type_names(type_views(self.nodes@)), self.index@)
    }

    pub fn new() -> (r: TypeMap)
        ensures
            r.wf(),
            r@ == Seq::<TypeNodeView>::empty(),
    {
        let r = TypeMap { nodes: Vec::new(), index: StringHashMap::new() };
        assert(type_names(type_views(r.nodes@)) =~= Seq::<Seq<char>>::empty());
        assert(r@ =~= Seq::<TypeNodeView>::empty());
        r
    }

    /// The node called `name`, if any.
    pub fn get(&self, name: &str) -> (r: Option<&ProtoTypeNode>)
        requires
            self.wf(),
        ensures
            match find(type_names(self@), name@) {
                Some(i) => r matches Some(n) && n@ == self@[i],
                None => r is None,
            },
    {
        proof {
            lemma_find_index(type_names(type_views(self.nodes@)), self.index@, name@);
        }
        match self.index.get(name) {
            Some(i) => Some(&self.nodes[*i]),
            None => None,
        }
    }

    /// The number of nodes.
    pub fn len(&self) -> (r: usize)
        ensures
            r == self@.len(),
    {
        self.nodes.len()
    }

    /// The node at position `i`.
    pub fn node(&self, i: usize) -> (r: &ProtoTypeNode)
        requires
            i < self@.len(),
        ensures
            r@ == self@[i as int],
    {
        &self.nodes[i]
    }

    /// Registers `name`: makes its node, or marks an undefined one defined
    /// when `source` defines it; the result is exactly what
    /// `registers_exactly` describes.
    pub fn get_or_create_type_node(
        &mut self,
        name: String,
        proto_name: Option<String>,
        source: TypeSource,
    )
        requires
            old(self).wf(),
        ensures
            final(self).wf(),
            final(self)@ == register(
                old(self)@,
                Reg { name: name@, proto_name: opt_string_view(proto_name), source: source@ },
            ),
            registers_exactly(
                old(self)@,
                Reg { name: name@, proto_name: opt_string_view(proto_name), source: source@ },
                final(self)@,
            ),
    {
        let ghost r = Reg { name: name@, proto_name: opt_string_view(proto_name), source: source@ };
        proof {
            lemma_index_distinct(type_names(self@), self.index@);
            law_register_is_exact(self@, r);
        }
        register_node(&mut self.nodes, &mut self.index, name, proto_name, source);
    }

    /// Registers `name` (see `register`) and records it in `names`.
    fn register_name(
        &mut self,
        names: &mut Vec<String>,
        name: String,
        proto_name: Option<String>,
        source: TypeSource,
    )
        requires
            old(self).wf(),
        ensures
            final(self).wf(),
            final(self)@ == register(
                old(self)@,
                Reg { name: name@, proto_name: opt_string_view(proto_name), source: source@ },
            ),
            strings_view(final(names)@) == strings_view(old(names)@).push(name@),
    {
        let copy = name.clone();
        self.get_or_create_type_node(name, proto_name, source);
        let ghost before = names@;
        names.push(copy);
        assert(strings_view(names@) =~= strings_view(before).push(copy@));
    }
}

pub proof fn lemma_register_all_push(nodes: Seq<TypeNodeView>, a: Seq<Reg>, r: Reg)
    ensures
        register_all(nodes, a.push(r)) == register(register_all(nodes, a), r),
{
    assert(a.push(r).drop_last() =~= a);
}

proof fn lemma_find_unique(names: Seq<Seq<char>>, name: Seq<char>, i: int)
    requires
        distinct(names),
        0 <= i < names.len(),
        names[i] == name,
    ensures
        find(names, name) == Some(i),
{
    let j = choose|j: int| 0 <= j < names.len() && names[j] == name;
    assert(names[j] == name);
}

/// Registering keeps every name at its place and adds none twice, and a
/// defined type keeps what defined it: of several definitions of one name,
/// the first is the one that stays.
pub proof fn law_registration_keeps_definitions(nodes: Seq<TypeNodeView>, r: Reg)
    requires
        distinct(type_names(nodes)),
    ensures
        distinct(type_names(register(nodes, r))),
        register(nodes, r).len() >= nodes.len(),
        forall|i: int| 0 <= i < nodes.len() ==> (#[trigger] register(nodes, r)[i]).name == nodes[i].name,
        forall|i: int|
            0 <= i < nodes.len() && nodes[i].defined ==> #[trigger] register(nodes, r)[i] == nodes[i],
{
    let names = type_names(nodes);
    lemma_find_props(names, r.name);
    let after = register(nodes, r);
    match find(names, r.name) {
        Some(i) => {
            assert(type_names(after) =~= names) by {
                assert forall|j: int| 0 <= j < names.len() implies type_names(after)[j] == names[j] by {
                    if j == i {
                        assert(after[j].name == nodes[i].name);
                    }
                }
            }
        },
        None => {
            assert(type_names(after) =~= names.push(r.name));
            assert forall|a: int, b: int|
                0 <= a < type_names(after).len() && 0 <= b < type_names(after).len() && a != b
                implies type_names(after)[a] != type_names(after)[b] by {
                if a == names.len() {
                    assert(names[b] != r.name);
                } else if b == names.len() {
                    assert(names[a] != r.name);
                }
            }
        },
    }
}

/// After a registration its name is in the map, and a registration that
/// defines the name leaves it defined.
pub proof fn law_registered_name_resolves(nodes: Seq<TypeNodeView>, r: Reg)
    requires
        distinct(type_names(nodes)),
    ensures
        find(type_names(register(nodes, r)), r.name) is Some,
        !(r.source is Reference) ==> type_resolves(register(nodes, r), r.name),
{
    let names = type_names(nodes);
    lemma_find_props(names, r.name);
    law_registration_keeps_definitions(nodes, r);
    let after = register(nodes, r);
    match find(names, r.name) {
        Some(i) => {
            assert(type_names(after)[i] == r.name);
            lemma_find_unique(type_names(after), r.name, i);
        },
        None => {
            assert(type_names(after)[nodes.len() as int] == r.name);
            lemma_find_unique(type_names(after), r.name, nodes.len() as int);
        },
    }
}

/// `after` is what registering `r` with `nodes` exactly gives: the names
/// afterwards are the names before and `r.name`; every other entry is left
/// alone; an entry that was defined is left alone (the first definition wins);
/// a defining registration of a name that was absent or undefined records its
/// file and source and marks it defined; a mere reference to an absent name
/// adds it undefined, and a reference to a present name changes nothing.
pub open spec fn registers_exactly(nodes: Seq<TypeNodeView>, r: Reg, after: Seq<TypeNodeView>) -> bool {
    &&& (forall|k: Seq<char>|
            #![trigger type_names(after).contains(k)]
            type_names(after).contains(k) <==> (type_names(nodes).contains(k) || k
                == r.name))
    &&& (forall|i: int|
            0 <= i < nodes.len() && nodes[i].name != r.name ==> #[trigger] after[i]
                == nodes[i])
    &&& (find(type_names(after), r.name) matches Some(j) && ({
            let node = after[j];
            match find(type_names(nodes), r.name) {
                Some(i) => {
                    &&& j == i
                    &&& if !(r.source is Reference) && !nodes[i].defined {
                        node == TypeNodeView {
                            name: r.name,
                            proto_name: r.proto_name,
                            source: r.source,
                            defined: true,
                        }
                    } else {
                        node == nodes[i]
                    }
                },
                None => {
                    &&& j == nodes.len()
                    &&& node == TypeNodeView {
                        name: r.name,
                        proto_name: r.proto_name,
                        source: r.source,
                        defined: !(r.source is Reference),
                    }
                },
            }
        }))
}

/// Registering `r` is exact, as `registers_exactly` spells out.
pub proof fn law_register_is_exact(nodes: Seq<TypeNodeView>, r: Reg)
    requires
        distinct(type_names(nodes)),
    ensures
        registers_exactly(nodes, r, register(nodes, r)),
{
    let names = type_names(nodes);
    lemma_find_props(names, r.name);
    law_registration_keeps_definitions(nodes, r);
    law_registered_name_resolves(nodes, r);
    let after = register(nodes, r);
    match find(names, r.name) {
        Some(i) => {
            assert(type_names(after)[i] == r.name);
            lemma_find_unique(type_names(after), r.name, i);
            assert(type_names(after) =~= names) by {
                assert forall|k: int| 0 <= k < names.len() implies type_names(after)[k] == names[k] by {
                    assert(after[k].name == nodes[k].name);
                }
            }
            assert(names.contains(r.name));
        },
        None => {
            assert(type_names(after)[nodes.len() as int] == r.name);
            lemma_find_unique(type_names(after), r.name, nodes.len() as int);
            assert(type_names(after) =~= names.push(r.name));
            assert forall|k: Seq<char>| #[trigger] type_names(after).contains(k) <==> (names.contains(k) || k == r.name) by {
                if names.contains(k) {
                    let x = choose|x: int| 0 <= x < names.len() && names[x] == k;
                    assert(type_names(after)[x] == k);
                }
                if k == r.name {
                    assert(type_names(after)[nodes.len() as int] == k);
                }
                if type_names(after).contains(k) {
                    let x = choose|x: int| 0 <= x < type_names(after).len() && type_names(after)[x] == k;
                    if x < names.len() {
                        assert(names[x] == k);
                    }
                }
            }
        },
    }
}

proof fn lemma_register_all_distinct(regs: Seq<Reg>)
    ensures
        distinct(type_names(register_all(Seq::empty(), regs))),
    decreases regs.len(),
{
    if regs.len() > 0 {
        lemma_register_all_distinct(regs.drop_last());
        law_registration_keeps_definitions(register_all(Seq::empty(), regs.drop_last()), regs.last());
    } else {
        assert(type_names(Seq::<TypeNodeView>::empty()) =~= Seq::<Seq<char>>::empty());
    }
}

/// Every type that some registration defines is resolved in the map that the
/// registrations build, whatever registrations come before or after it.
pub proof fn law_defined_types_resolve(regs: Seq<Reg>, k: int)
    requires
        0 <= k < regs.len(),
        !(regs[k].source is Reference),
    ensures
        type_resolves(register_all(Seq::empty(), regs), regs[k].name),
    decreases regs.len(),
{
    let before = register_all(Seq::empty(), regs.drop_last());
    lemma_register_all_distinct(regs.drop_last());
    if k == regs.len() - 1 {
        law_registered_name_resolves(before, regs.last());
    } else {
        assert(regs.drop_last()[k] == regs[k]);
        law_defined_types_resolve(regs.drop_last(), k);
        let name = regs[k].name;
        lemma_find_props(type_names(before), name);
        let i = find(type_names(before), name)->0;
        law_registration_keeps_definitions(before, regs.last());
        let after = register(before, regs.last());
        assert(after[i] == before[i]);
        assert(type_names(after)[i] == name);
        lemma_find_unique(type_names(after), name, i);
    }
}

/// The analysis resolves every type that one of the descriptors defines.
pub proof fn law_analysis_resolves_definitions(files: Seq<FileDescriptor>, k: int)
    requires
        0 <= k < all_regs(files).len(),
        !(all_regs(files)[k].source is Reference),
    ensures
        type_resolves(analyzed_types(files), all_regs(files)[k].name),
{
    law_defined_types_resolve(all_regs(files), k);
}

pub proof fn lemma_reg_names_push(a: Seq<Reg>, r: Reg)
    ensures
        reg_names(a.push(r)) == reg_names(a).push(r.name),
{
    assert(reg_names(a.push(r)) =~= reg_names(a).push(r.name));
}

pub proof fn lemma_reg_names_append(a: Seq<Reg>, b: Seq<Reg>)
    ensures
        reg_names(a + b) == reg_names(a) + reg_names(b),
{
    assert(reg_names(a + b) =~= reg_names(a) + reg_names(b));
}

/// Registers a reference to the qualified `name` and records it in `names`.
fn register_reference(
    types: &mut TypeMap,
    names: &mut Vec<String>,
    package: &str,
    name: &str,
    Ghost(acc): Ghost<Seq<Reg>>,
    Ghost(start): Ghost<Seq<TypeNodeView>>,
    Ghost(names0): Ghost<Seq<Seq<char>>>,
) -> (acc2: Ghost<Seq<Reg>>)
    requires
        old(types).wf(),
        old(types)@ == register_all(start, acc),
        strings_view(old(names)@) == names0 + reg_names(acc),
    ensures
        final(types).wf(),
        acc2@ == acc.push(reference(package_path(package@, name@))),
        final(types)@ == register_all(start, acc2@),
        strings_view(final(names)@) == names0 + reg_names(acc2@),
{
    let tn = get_package_path(package, name);
    let ghost r = reference(tn@);
    types.register_name(names, tn, None, TypeSource::Reference);
    proof {
        lemma_register_all_push(start, acc, r);
        lemma_reg_names_push(acc, r);
        assert(names0 + reg_names(acc).push(r.name) =~= (names0 + reg_names(acc)).push(r.name));
    }
    Ghost(acc.push(r))
}

/// Registers a definition and records it in `names`.
fn register_definition(
    types: &mut TypeMap,
    names: &mut Vec<String>,
    name: String,
    proto_name: &str,
    source: TypeSource,
    Ghost(acc): Ghost<Seq<Reg>>,
    Ghost(start): Ghost<Seq<TypeNodeView>>,
    Ghost(names0): Ghost<Seq<Seq<char>>>,
) -> (acc2: Ghost<Seq<Reg>>)
    requires
        old(types).wf(),
        old(types)@ == register_all(start, acc),
        strings_view(old(names)@) == names0 + reg_names(acc),
    ensures
        final(types).wf(),
        acc2@ == acc.push(Reg { name: name@, proto_name: Some(proto_name@), source: source@ }),
        final(types)@ == register_all(start, acc2@),
        strings_view(final(names)@) == names0 + reg_names(acc2@),
{
    let ghost r = Reg { name: name@, proto_name: Some(proto_name@), source: source@ };
    types.register_name(names, name, Some(String::from_str(proto_name)), source);
    proof {
        lemma_register_all_push(start, acc, r);
        lemma_reg_names_push(acc, r);
        assert(names0 + reg_names(acc).push(r.name) =~= (names0 + reg_names(acc)).push(r.name));
    }
    Ghost(acc.push(r))
}

/// Registers a message, the types it defines and the types it refers to, and
/// recursively its nested messages.
fn recursive_analyze_message(
    types: &mut TypeMap,
    msg: &MessageDescriptor,
    proto_name: &str,
    package_path: &str,
    names: &mut Vec<String>,
)
    requires
        old(types).wf(),
    ensures
        final(types).wf(),
        final(types)@ == register_all(
            old(types)@,
            message_regs(proto_name@, package_path@, *msg),
        ),
        strings_view(final(names)@) == strings_view(old(names)@) + reg_names(
            message_regs(proto_name@, package_path@, *msg),
        ),
    decreases msg,
{
    let ghost start = types@;
    let ghost names0 = strings_view(names@);
    proof {
        assert(register_all(start, Seq::<Reg>::empty()) == start);
        assert(names0 + reg_names(Seq::<Reg>::empty()) =~= names0);
    }
    let scope = get_package_path(package_path, msg.name.as_str());
    let Ghost(mut acc) = register_definition(
        types,
        names,
        get_package_path(package_path, msg.name.as_str()),
        proto_name,
        message_source(msg),
        Ghost(Seq::empty()),
        Ghost(start),
        Ghost(names0),
    );
    let ghost head = acc;
    assert(extendee_refs(package_path@, msg.extension@.take(0)) =~= Seq::<Reg>::empty());
    assert(acc =~= head + extendee_refs(package_path@, msg.extension@.take(0)));
    for i in 0..msg.extension.len()
        invariant
            types.wf(),
            types@ == register_all(start, acc),
            strings_view(names@) == names0 + reg_names(acc),
            acc == head + extendee_refs(package_path@, msg.extension@.take(i as int)),
    {
        let ext = &msg.extension[i];
        assert(msg.extension@.take(i + 1).drop_last() =~= msg.extension@.take(i as int));
        if !ext.extendee.as_str().is_empty() {
            let Ghost(a) = register_reference(
                types,
                names,
                package_path,
                ext.extendee.as_str(),
                Ghost(acc),
                Ghost(start),
                Ghost(names0),
            );
            proof {
                acc = a;
            }
        }
        assert(acc =~= head + extendee_refs(package_path@, msg.extension@.take(i + 1)));
    }
    assert(msg.extension@.take(msg.extension.len() as int) =~= msg.extension@);
    let ghost head = acc;
    assert(enums_regs(scope@, proto_name@, msg.enum_type@.take(0)) =~= Seq::<Reg>::empty());
    assert(acc =~= head + enums_regs(scope@, proto_name@, msg.enum_type@.take(0)));
    for i in 0..msg.enum_type.len()
        invariant
            types.wf(),
            types@ == register_all(start, acc),
            strings_view(names@) == names0 + reg_names(acc),
            acc == head + enums_regs(scope@, proto_name@, msg.enum_type@.take(i as int)),
    {
        let e = &msg.enum_type[i];
        assert(msg.enum_type@.take(i + 1).drop_last() =~= msg.enum_type@.take(i as int));
        let Ghost(a) = register_definition(
            types,
            names,
            get_package_path(scope.as_str(), e.name.as_str()),
            proto_name,
            enum_source(e),
            Ghost(acc),
            Ghost(start),
            Ghost(names0),
        );
        proof {
            acc = a;
        }
        assert(acc =~= head + enums_regs(scope@, proto_name@, msg.enum_type@.take(i + 1)));
    }
    assert(msg.enum_type@.take(msg.enum_type.len() as int) =~= msg.enum_type@);
    let ghost head = acc;
    assert(field_refs(package_path@, msg.field@.take(0)) =~= Seq::<Reg>::empty());
    assert(acc =~= head + field_refs(package_path@, msg.field@.take(0)));
    for i in 0..msg.field.len()
        invariant
            types.wf(),
            types@ == register_all(start, acc),
            strings_view(names@) == names0 + reg_names(acc),
            acc == head + field_refs(package_path@, msg.field@.take(i as int)),
    {
        let field = &msg.field[i];
        assert(msg.field@.take(i + 1).drop_last() =~= msg.field@.take(i as int));
        if (field.field_type == FieldType::Message || field.field_type == FieldType::Enum)
            && !field.type_ref.as_str().is_empty() {
            let Ghost(a) = register_reference(
                types,
                names,
                package_path,
                field.type_ref.as_str(),
                Ghost(acc),
                Ghost(start),
                Ghost(names0),
            );
            proof {
                acc = a;
            }
        }
        if !field.extendee.as_str().is_empty() {
            let Ghost(a) = register_reference(
                types,
                names,
                package_path,
                field.extendee.as_str(),
                Ghost(acc),
                Ghost(start),
                Ghost(names0),
            );
            proof {
                acc = a;
            }
        }
        assert(acc =~= head + field_refs(package_path@, msg.field@.take(i + 1)));
    }
    assert(msg.field@.take(msg.field.len() as int) =~= msg.field@);
    let ghost head = acc;
    assert(messages_regs(proto_name@, scope@, msg.nested_type@.take(0)) =~= Seq::<Reg>::empty());
    assert(acc =~= head + messages_regs(proto_name@, scope@, msg.nested_type@.take(0)));
    for i in 0..msg.nested_type.len()
        invariant
            types.wf(),
            types@ == register_all(start, acc),
            strings_view(names@) == names0 + reg_names(acc),
            acc == head + messages_regs(proto_name@, scope@, msg.nested_type@.take(i as int)),
    {
        let nested = &msg.nested_type[i];
        assert(msg.nested_type@.take(i + 1).subrange(0, i as int) =~= msg.nested_type@.take(
            i as int,
        ));
        recursive_analyze_message(types, nested, proto_name, scope.as_str(), names);
        let ghost piece = message_regs(proto_name@, scope@, *nested);
        proof {
            lemma_register_all_append(start, acc, piece);
            lemma_reg_names_append(acc, piece);
            acc = acc + piece;
        }
        assert(acc =~= head + messages_regs(proto_name@, scope@, msg.nested_type@.take(i + 1)));
    }
    assert(msg.nested_type@.take(msg.nested_type.len() as int) =~= msg.nested_type@);
    assert(acc =~= message_regs(proto_name@, package_path@, *msg));
}

/// Registers every type that file `p` defines or refers to; returns the names
/// registered, in order.
fn analyze_file(types: &mut TypeMap, p: &FileDescriptor) -> (names: Vec<String>)
    requires
        old(types).wf(),
    ensures
        final(types).wf(),
        final(types)@ == register_all(old(types)@, file_regs(*p)),
        strings_view(names@) == reg_names(file_regs(*p)),
{
    let ghost start = types@;
    let ghost names0 = Seq::<Seq<char>>::empty();
    let mut names: Vec<String> = Vec::new();
    let package = p.package.as_str();
    let proto_name = p.name.as_str();
    let ghost mut acc = Seq::<Reg>::empty();
    proof {
        assert(strings_view(names@) =~= names0 + reg_names(acc));
        assert(extensions_regs(package@, proto_name@, p.extension@.take(0)) =~= Seq::<Reg>::empty());
    }
    for i in 0..p.extension.len()
        invariant
            types.wf(),
            types@ == register_all(start, acc),
            strings_view(names@) == names0 + reg_names(acc),
            acc == extensions_regs(package@, proto_name@, p.extension@.take(i as int)),
            package@ == p.package@,
            proto_name@ == p.name@,
    {
        let ext = &p.extension[i];
        assert(p.extension@.take(i + 1).drop_last() =~= p.extension@.take(i as int));
        let Ghost(a) = register_definition(
            types,
            &mut names,
            get_package_path(package, ext.name.as_str()),
            proto_name,
            TypeSource::Field(field_ref(ext)),
            Ghost(acc),
            Ghost(start),
            Ghost(names0),
        );
        proof {
            acc = a;
        }
        if (ext.field_type == FieldType::Message || ext.field_type == FieldType::Enum)
            && !ext.type_ref.as_str().is_empty() {
            let Ghost(a) = register_reference(
                types,
                &mut names,
                package,
                ext.type_ref.as_str(),
                Ghost(acc),
                Ghost(start),
                Ghost(names0),
            );
            proof {
                acc = a;
            }
        }
        if !ext.extendee.as_str().is_empty() {
            let Ghost(a) = register_reference(
                types,
                &mut names,
                package,
                ext.extendee.as_str(),
                Ghost(acc),
                Ghost(start),
                Ghost(names0),
            );
            proof {
                acc = a;
            }
        }
        assert(acc =~= extensions_regs(package@, proto_name@, p.extension@.take(i + 1)));
    }
    assert(p.extension@.take(p.extension.len() as int) =~= p.extension@);
    let ghost head = acc;
    assert(enums_regs(package@, proto_name@, p.enum_type@.take(0)) =~= Seq::<Reg>::empty());
    assert(acc =~= head + enums_regs(package@, proto_name@, p.enum_type@.take(0)));
    for i in 0..p.enum_type.len()
        invariant
            types.wf(),
            types@ == register_all(start, acc),
            strings_view(names@) == names0 + reg_names(acc),
            acc == head + enums_regs(package@, proto_name@, p.enum_type@.take(i as int)),
    {
        let e = &p.enum_type[i];
        assert(p.enum_type@.take(i + 1).drop_last() =~= p.enum_type@.take(i as int));
        let Ghost(a) = register_definition(
            types,
            &mut names,
            get_package_path(package, e.name.as_str()),
            proto_name,
            enum_source(e),
            Ghost(acc),
            Ghost(start),
            Ghost(names0),
        );
        proof {
            acc = a;
        }
        assert(acc =~= head + enums_regs(package@, proto_name@, p.enum_type@.take(i + 1)));
    }
    assert(p.enum_type@.take(p.enum_type.len() as int) =~= p.enum_type@);
    let ghost head = acc;
    assert(messages_regs(proto_name@, package@, p.message_type@.take(0)) =~= Seq::<Reg>::empty());
    assert(acc =~= head + messages_regs(proto_name@, package@, p.message_type@.take(0)));
    for i in 0..p.message_type.len()
        invariant
            types.wf(),
            types@ == register_all(start, acc),
            strings_view(names@) == names0 + reg_names(acc),
            acc == head + messages_regs(proto_name@, package@, p.message_type@.take(i as int)),
    {
        let msg = &p.message_type[i];
        assert(p.message_type@.take(i + 1).subrange(0, i as int) =~= p.message_type@.take(
            i as int,
        ));
        recursive_analyze_message(types, msg, proto_name, package, &mut names);
        let ghost piece = message_regs(proto_name@, package@, *msg);
        proof {
            lemma_register_all_append(start, acc, piece);
            lemma_reg_names_append(acc, piece);
            acc = acc + piece;
        }
        assert(acc =~= head + messages_regs(proto_name@, package@, p.message_type@.take(i + 1)));
    }
    assert(p.message_type@.take(p.message_type.len() as int) =~= p.message_type@);
    let ghost head = acc;
    assert(services_regs(package@, proto_name@, p.service@.take(0)) =~= Seq::<Reg>::empty());
    assert(acc =~= head + services_regs(package@, proto_name@, p.service@.take(0)));
    for i in 0..p.service.len()
        invariant
            types.wf(),
            types@ == register_all(start, acc),
            strings_view(names@) == names0 + reg_names(acc),
            acc == head + services_regs(package@, proto_name@, p.service@.take(i as int)),
    {
        let service = &p.service[i];
        assert(p.service@.take(i + 1).drop_last() =~= p.service@.take(i as int));
        let Ghost(a) = register_definition(
            types,
            &mut names,
            get_package_path(package, service.name.as_str()),
            proto_name,
            TypeSource::Service,
            Ghost(acc),
            Ghost(start),
            Ghost(names0),
        );
        proof {
            acc = a;
        }
        let ghost svc_head = acc;
        assert(method_refs(package@, service.method@.take(0)) =~= Seq::<Reg>::empty());
        assert(acc =~= svc_head + method_refs(package@, service.method@.take(0)));
        for j in 0..service.method.len()
            invariant
                types.wf(),
                types@ == register_all(start, acc),
                strings_view(names@) == names0 + reg_names(acc),
                acc == svc_head + method_refs(package@, service.method@.take(j as int)),
        {
            let method = &service.method[j];
            assert(service.method@.take(j + 1).drop_last() =~= service.method@.take(j as int));
            if !method.input_type.as_str().is_empty() {
                let Ghost(a) = register_reference(
                    types,
                    &mut names,
                    package,
                    method.input_type.as_str(),
                    Ghost(acc),
                    Ghost(start),
                    Ghost(names0),
                );
                proof {
                    acc = a;
                }
            }
            if !method.output_type.as_str().is_empty() {
                let Ghost(a) = register_reference(
                    types,
                    &mut names,
                    package,
                    method.output_type.as_str(),
                    Ghost(acc),
                    Ghost(start),
                    Ghost(names0),
                );
                proof {
                    acc = a;
                }
            }
            assert(acc =~= svc_head + method_refs(package@, service.method@.take(j + 1)));
        }
        assert(service.method@.take(service.method.len() as int) =~= service.method@);
        assert(acc =~= head + services_regs(package@, proto_name@, p.service@.take(i + 1)));
    }
    assert(p.service@.take(p.service.len() as int) =~= p.service@);
    assert(acc =~= file_regs(*p));
    assert(strings_view(names@) =~= reg_names(file_regs(*p)));
    names
}

// ─── The file map ───────────────────────────────────────────────────────────

/// A node of the file dependency graph.
pub struct ProtoNode {
    pub name: String,
    /// Position of the file's descriptor among the dumper's descriptors
    /// (`None` for a dependency that no descriptor provides).
    pub proto: Option<usize>,
    pub dependencies: Vec<String>,
    pub all_public_dependencies: Vec<String>,
    pub types: Vec<String>,
    pub defined: bool,
}

pub struct FileNodeView {
    pub name: Seq<char>,
    pub proto: Option<int>,
    pub dependencies: Seq<Seq<char>>,
    pub public: Seq<Seq<char>>,
    pub types: Seq<Seq<char>>,
    pub defined: bool,
}

impl View for ProtoNode {
    type V = FileNodeView;

    open spec fn view(&self) -> FileNodeView {
        FileNodeView {
            name: self.name@,
            proto: match self.proto {
                Some(k) => Some(k as int),
                None => None,
            },
            dependencies: strings_view(self.dependencies@),
            public: strings_view(self.all_public_dependencies@),
            types: strings_view(self.types@),
            defined: self.defined,
        }
    }
}

pub open spec fn node_views(v: Seq<ProtoNode>) -> Seq<FileNodeView> {
    v.map_values(|n: ProtoNode| n@)
}

pub open spec fn file_names(v: Seq<FileNodeView>) -> Seq<Seq<char>> {
    v.map_values(|n: FileNodeView| n.name)
}

/// Insert-or-replace by name, as a map insertion does.
pub open spec fn upsert(nodes: Seq<FileNodeView>, n: FileNodeView) -> Seq<FileNodeView> {
    match find(file_names(nodes), n.name) {
        Some(i) => nodes.update(i, n),
        None => nodes.push(n),
    }
}

/// The file graph: nodes in the order of their first insertion, with an index
/// from name to position.
pub struct FileMap {
    nodes: Vec<ProtoNode>,
    index: StringHashMap<usize>,
}

impl View for FileMap {
    type V = Seq<FileNodeView>;

    closed spec fn view(&self) -> Seq<FileNodeView> {
        node_views(self.nodes@)
    }
}

impl FileMap {
    pub closed spec fn wf(&self) -> bool {
        index_matches(file_names(node_views(self.nodes@)), self.index@)
    }

    pub fn new() -> (r: FileMap)
        ensures
            r.wf(),
            r@ == Seq::<FileNodeView>::empty(),
    {
        let r = FileMap { nodes: Vec::new(), index: StringHashMap::new() };
        assert(file_names(node_views(r.nodes@)) =~= Seq::<Seq<char>>::empty());
        assert(r@ =~= Seq::<FileNodeView>::empty());
        r
    }

    pub fn len(&self) -> (r: usize)
        ensures
            r == self@.len(),
    {
        self.nodes.len()
    }

    pub fn node(&self, i: usize) -> (r: &ProtoNode)
        requires
            i < self@.len(),
        ensures
            r@ == self@[i as int],
    {
        &self.nodes[i]
    }

    /// The position of the node called `name`, if any.
    pub fn position(&self, name: &str) -> (r: Option<usize>)
        requires
            self.wf(),
        ensures
            match find(file_names(self@), name@) {
                Some(i) => r is Some && r->0 as int == i,
                None => r is None,
            },
    {
        proof {
            lemma_find_index(file_names(node_views(self.nodes@)), self.index@, name@);
        }
        match self.index.get(name) {
            Some(i) => Some(*i),
            None => None,
        }
    }

    /// Inserts `node`, replacing the node of the same name if there is one.
    pub fn upsert(&mut self, node: ProtoNode)
        requires
            old(self).wf(),
        ensures
            final(self).wf(),
            final(self)@ == upsert(old(self)@, node@),
    {
        let ghost old_nodes = self@;
        let ghost nv = node@;
        proof {
            lemma_find_index(file_names(old_nodes), self.index@, node.name@);
        }
        match self.index.get(node.name.as_str()) {
            Some(i) => {
                let i = *i;
                self.nodes.set(i, node);
                assert(self@ =~= upsert(old_nodes, nv));
                assert(file_names(self@) =~= file_names(old_nodes));
            },
            None => {
                let n = self.nodes.len();
                self.index.insert(node.name.clone(), n);
                self.nodes.push(node);
                assert(self@ =~= upsert(old_nodes, nv));
                let ghost names = file_names(self@);
                assert(names =~= file_names(old_nodes).push(nv.name));
                assert forall|k: Seq<char>| #[trigger] self.index@.contains_key(k) implies self.index@[k]
                    < names.len() && names[self.index@[k] as int] == k by {
                    if k != nv.name {
                        assert(old(self).index@.contains_key(k));
                    }
                }
                assert forall|j: int| 0 <= j < names.len() implies #[trigger] self.index@.contains_key(
                    names[j],
                ) && self.index@[names[j]] == j by {
                    if j < n {
                        assert(names[j] == file_names(old_nodes)[j]);
                        assert(old(self).index@.contains_key(file_names(old_nodes)[j]));
                    }
                }
            },
        }
        assert(index_matches(file_names(node_views(self.nodes@)), self.index@));
    }

    /// Replaces the dependencies of node `i`.
    pub fn set_dependencies(&mut self, i: usize, deps: Vec<String>)
        requires
            old(self).wf(),
            i < old(self)@.len(),
        ensures
            final(self).wf(),
            final(self)@ == old(self)@.update(
                i as int,
                FileNodeView { dependencies: strings_view(deps@), ..old(self)@[i as int] },
            ),
    {
        let ghost old_nodes = self@;
        let mut node = ProtoNode {
            name: String::new(),
            proto: None,
            dependencies: deps,
            all_public_dependencies: Vec::new(),
            types: Vec::new(),
            defined: false,
        };
        std::mem::swap(&mut node, &mut self.nodes[i]);
        std::mem::swap(&mut node.name, &mut self.nodes[i].name);
        std::mem::swap(&mut node.all_public_dependencies, &mut self.nodes[i].all_public_dependencies);
        std::mem::swap(&mut node.types, &mut self.nodes[i].types);
        self.nodes[i].proto = node.proto;
        self.nodes[i].defined = node.defined;
        assert(self@ =~= old_nodes.update(
            i as int,
            FileNodeView { dependencies: strings_view(deps@), ..old_nodes[i as int] },
        ));
        assert(file_names(self@) =~= file_names(old_nodes));
        assert(index_matches(file_names(node_views(self.nodes@)), self.index@));
    }

    /// Replaces the public dependencies of node `i`.
    pub fn set_public(&mut self, i: usize, public: Vec<String>)
        requires
            old(self).wf(),
            i < old(self)@.len(),
        ensures
            final(self).wf(),
            final(self)@ == old(self)@.update(
                i as int,
                FileNodeView { public: strings_view(public@), ..old(self)@[i as int] },
            ),
    {
        let ghost old_nodes = self@;
        let mut node = ProtoNode {
            name: String::new(),
            proto: None,
            dependencies: Vec::new(),
            all_public_dependencies: public,
            types: Vec::new(),
            defined: false,
        };
        std::mem::swap(&mut node, &mut self.nodes[i]);
        std::mem::swap(&mut node.name, &mut self.nodes[i].name);
        std::mem::swap(&mut node.dependencies, &mut self.nodes[i].dependencies);
        std::mem::swap(&mut node.types, &mut self.nodes[i].types);
        self.nodes[i].proto = node.proto;
        self.nodes[i].defined = node.defined;
        assert(self@ =~= old_nodes.update(
            i as int,
            FileNodeView { public: strings_view(public@), ..old_nodes[i as int] },
        ));
        assert(file_names(self@) =~= file_names(old_nodes));
        assert(index_matches(file_names(node_views(self.nodes@)), self.index@));
    }
}

// ─── The analysis, stated ───────────────────────────────────────────────────

/// The node that file `p`, at position `k`, gets in the first phase.
pub open spec fn node_for_file(p: FileDescriptor, k: int) -> FileNodeView {
    FileNodeView {
        name: p.name@,
        proto: Some(k),
        dependencies: Seq::empty(),
        public: Seq::empty(),
        types: reg_names(file_regs(p)),
        defined: true,
    }
}

/// The file nodes after every descriptor has been inserted, in order (a later
/// descriptor of the same name replaces an earlier one's node).
pub open spec fn phase1_nodes(files: Seq<FileDescriptor>) -> Seq<FileNodeView>
    decreases files.len(),
{
    if files.len() == 0 {
        Seq::empty()
    } else {
        upsert(phase1_nodes(files.drop_last()), node_for_file(files.last(), files.len() - 1))
    }
}

pub open spec fn google_prefix() -> Seq<char> {
    seq!['g', 'o', 'o', 'g', 'l', 'e']
}

pub open spec fn starts_with_google(s: Seq<char>) -> bool {
    s.len() >= 6 && s.subrange(0, 6) == google_prefix()
}

/// The dependencies that are not under `google`.
pub open spec fn non_google(deps: Seq<Seq<char>>) -> Seq<Seq<char>>
    decreases deps.len(),
{
    if deps.len() == 0 {
        Seq::empty()
    } else {
        non_google(deps.drop_last()) + (if starts_with_google(deps.last()) {
            Seq::empty()
        } else {
            seq![deps.last()]
        })
    }
}

/// The descriptor at position `k`, when there is one.
pub open spec fn file_at(files: Seq<FileDescriptor>, k: Option<int>) -> Option<FileDescriptor> {
    match k {
        Some(k) => if 0 <= k < files.len() {
            Some(files[k])
        } else {
            None
        },
        None => None,
    }
}

/// The dependencies a node records: those of its descriptor not under `google`.
pub open spec fn resolved_deps(n: FileNodeView, files: Seq<FileDescriptor>) -> Seq<Seq<char>> {
    match file_at(files, n.proto) {
        Some(p) => non_google(strings_view(p.dependency@)),
        None => Seq::empty(),
    }
}

pub open spec fn with_dependencies(nodes: Seq<FileNodeView>, files: Seq<FileDescriptor>) -> Seq<
    FileNodeView,
> {
    Seq::new(
        nodes.len(),
        |i: int| FileNodeView { dependencies: resolved_deps(nodes[i], files), ..nodes[i] },
    )
}

/// `acc` extended by the dependencies in `deps` that are neither known nor in `acc` yet.
pub open spec fn add_missing(acc: Seq<Seq<char>>, known: Seq<Seq<char>>, deps: Seq<Seq<char>>) -> Seq<Seq<char>>
    decreases deps.len(),
{
    if deps.len() == 0 {
        acc
    } else {
        let a = add_missing(acc, known, deps.drop_last());
        let d = deps.last();
        if known.contains(d) || a.contains(d) {
            a
        } else {
            a.push(d)
        }
    }
}

/// The dependencies that no file provides, each once, in the order first met.
pub open spec fn missing_deps(known: Seq<Seq<char>>, nodes: Seq<FileNodeView>) -> Seq<Seq<char>>
    decreases nodes.len(),
{
    if nodes.len() == 0 {
        Seq::empty()
    } else {
        add_missing(missing_deps(known, nodes.drop_last()), known, nodes.last().dependencies)
    }
}

/// The node that stands for a dependency that no descriptor provides.
pub open spec fn placeholder(name: Seq<char>) -> FileNodeView {
    FileNodeView {
        name,
        proto: None,
        dependencies: Seq::empty(),
        public: Seq::empty(),
        types: Seq::empty(),
        defined: false,
    }
}

/// The file graph before public dependencies are computed: every file with
/// its dependencies, then a placeholder for each missing dependency.
pub open spec fn graph_nodes(files: Seq<FileDescriptor>) -> Seq<FileNodeView> {
    let n2 = with_dependencies(phase1_nodes(files), files);
    n2 + missing_deps(file_names(phase1_nodes(files)), n2).map_values(
        |d: Seq<char>| placeholder(d),
    )
}

/// The type map that the analysis builds.
pub open spec fn analyzed_types(files: Seq<FileDescriptor>) -> Seq<TypeNodeView> {
    register_all(Seq::empty(), all_regs(files))
}

/// `name` is a node of `nodes` that a descriptor defines.
pub open spec fn file_resolves(nodes: Seq<FileNodeView>, name: Seq<char>) -> bool {
    match find(file_names(nodes), name) {
        Some(j) => nodes[j].defined,
        None => false,
    }
}

/// `name` is a type that some descriptor defines.
pub open spec fn type_resolves(types: Seq<TypeNodeView>, name: Seq<char>) -> bool {
    match find(type_names(types), name) {
        Some(j) => types[j].defined,
        None => false,
    }
}

/// Every dependency of every node is a defined file, and every type that a
/// file refers to or defines is defined.
pub open spec fn all_resolved(nodes: Seq<FileNodeView>, types: Seq<TypeNodeView>) -> bool {
    forall|i: int|
        #![trigger nodes[i]]
        0 <= i < nodes.len() ==> (forall|j: int|
            0 <= j < nodes[i].dependencies.len() ==> file_resolves(
                nodes,
                #[trigger] nodes[i].dependencies[j],
            )) && (forall|j: int|
            0 <= j < nodes[i].types.len() ==> type_resolves(types, #[trigger] nodes[i].types[j]))
}

/// The descriptor of the node called `name`, if it has one.
pub open spec fn descriptor_of(
    files: Seq<FileDescriptor>,
    nodes: Seq<FileNodeView>,
    name: Seq<char>,
) -> Option<FileDescriptor> {
    match find(file_names(nodes), name) {
        Some(j) => file_at(files, nodes[j].proto),
        None => None,
    }
}

/// The dependencies that `public_dependency` of `p` points at, in order
/// (indices out of range are passed over).
pub open spec fn public_list(p: FileDescriptor) -> Seq<Seq<char>> {
    public_list_of(strings_view(p.dependency@), p.public_dependency@)
}

pub open spec fn public_list_of(deps: Seq<Seq<char>>, idx: Seq<i32>) -> Seq<Seq<char>>
    decreases idx.len(),
{
    if idx.len() == 0 {
        Seq::empty()
    } else {
        let i = idx.last();
        public_list_of(deps, idx.drop_last()) + (if 0 <= i < deps.len() {
            seq![deps[i as int]]
        } else {
            Seq::empty()
        })
    }
}

/// The direct dependencies of the file called `root`.
pub open spec fn root_deps(files: Seq<FileDescriptor>, nodes: Seq<FileNodeView>, root: Seq<char>) -> Seq<Seq<char>> {
    match descriptor_of(files, nodes, root) {
        Some(p) => strings_view(p.dependency@),
        None => Seq::empty(),
    }
}

/// The public dependencies of the file called `name`.
pub open spec fn public_of(files: Seq<FileDescriptor>, nodes: Seq<FileNodeView>, name: Seq<char>) -> Seq<Seq<char>> {
    match descriptor_of(files, nodes, name) {
        Some(p) => public_list(p),
        None => Seq::empty(),
    }
}

/// `r` is the set of names reachable from `root`: its direct dependencies, and
/// closed under public dependencies; each name occurs once, and each comes in
/// as a direct dependency of `root` or a public dependency of an earlier name.
pub open spec fn is_public_closure(
    files: Seq<FileDescriptor>,
    nodes: Seq<FileNodeView>,
    root: Seq<char>,
    r: Seq<Seq<char>>,
) -> bool {
    &&& r.no_duplicates()
    &&& forall|j: int| 0 <= j < root_deps(files, nodes, root).len() ==> r.contains(
        #[trigger] root_deps(files, nodes, root)[j],
    )
    &&& forall|i: int, j: int|
        0 <= i < r.len() && 0 <= j < public_of(files, nodes, r[i]).len() ==> r.contains(
            #[trigger] public_of(files, nodes, r[i])[j],
        )
    &&& forall|i: int|
        0 <= i < r.len() ==> root_deps(files, nodes, root).contains(#[trigger] r[i]) || exists|
            j: int,
        |
            0 <= j < i && public_of(files, nodes, r[j]).contains(r[i])
}

// ─── Public dependency closure ──────────────────────────────────────────────

/// Whether `v` holds a string equal to `s`.
pub fn contains_string(v: &Vec<String>, s: &str) -> (r: bool)
    ensures
        r == strings_view(v@).contains(s@),
{
    let target = String::from_str(s);
    for i in 0..v.len()
        invariant
            target@ == s@,
            forall|j: int| 0 <= j < i ==> v@[j]@ != s@,
    {
        if v[i] == target {
            assert(strings_view(v@)[i as int] == s@);
            return true;
        }
    }
    proof {
        if strings_view(v@).contains(s@) {
            let j = choose|j: int| 0 <= j < strings_view(v@).len() && strings_view(v@)[j] == s@;
            assert(v@[j]@ == s@);
        }
    }
    false
}

/// Every dependency list of every descriptor, one after the other.
pub open spec fn all_dependencies(files: Seq<FileDescriptor>) -> Seq<Seq<char>>
    decreases files.len(),
{
    if files.len() == 0 {
        Seq::empty()
    } else {
        all_dependencies(files.drop_last()) + strings_view(files.last().dependency@)
    }
}

proof fn lemma_all_dependencies_contains(files: Seq<FileDescriptor>, k: int, d: Seq<char>)
    requires
        0 <= k < files.len(),
        strings_view(files[k].dependency@).contains(d),
    ensures
        all_dependencies(files).contains(d),
    decreases files.len(),
{
    let last = strings_view(files.last().dependency@);
    let prev = all_dependencies(files.drop_last());
    if k == files.len() - 1 {
        let j = choose|j: int| 0 <= j < last.len() && last[j] == d;
        assert((prev + last)[prev.len() + j] == d);
    } else {
        lemma_all_dependencies_contains(files.drop_last(), k, d);
        let j = choose|j: int| 0 <= j < prev.len() && prev[j] == d;
        assert((prev + last)[j] == d);
    }
}

proof fn lemma_public_list_in_deps(deps: Seq<Seq<char>>, idx: Seq<i32>, d: Seq<char>)
    requires
        public_list_of(deps, idx).contains(d),
    ensures
        deps.contains(d),
    decreases idx.len(),
{
    let prev = public_list_of(deps, idx.drop_last());
    let i = idx.last();
    if prev.contains(d) {
        lemma_public_list_in_deps(deps, idx.drop_last(), d);
    } else {
        let j = choose|j: int| 0 <= j < public_list_of(deps, idx).len() && public_list_of(deps, idx)[j] == d;
        assert(j >= prev.len());
        assert(d == deps[i as int]);
    }
}

/// Appends `d` unless it is there already.
fn push_unique(r: &mut Vec<String>, d: &String)
    ensures
        final(r)@ == (if strings_view(old(r)@).contains(d@) {
            old(r)@
        } else {
            old(r)@.push(*d)
        }),
        strings_view(final(r)@) == (if strings_view(old(r)@).contains(d@) {
            strings_view(old(r)@)
        } else {
            strings_view(old(r)@).push(d@)
        }),
{
    if !contains_string(r, d.as_str()) {
        let ghost before = r@;
        r.push(d.clone());
        assert(strings_view(r@) =~= strings_view(before).push(d@));
    }
}

proof fn lemma_no_dup_len_bound(r: Seq<Seq<char>>, u: Seq<Seq<char>>)
    requires
        r.no_duplicates(),
        forall|i: int| 0 <= i < r.len() ==> u.contains(#[trigger] r[i]),
    ensures
        r.len() <= u.len(),
{
    r.unique_seq_to_set();
    u.lemma_cardinality_of_set();
    assert(r.to_set().subset_of(u.to_set())) by {
        assert forall|x: Seq<char>| r.to_set().contains(x) implies u.to_set().contains(x) by {
            let i = choose|i: int| 0 <= i < r.len() && r[i] == x;
            assert(u.contains(r[i]));
        }
    }
    vstd::set_lib::lemma_len_subset(r.to_set(), u.to_set());
}

/// The descriptor of the node called `name`, as `descriptor_of` describes it.
fn descriptor_index(files: &FileMap, protobufs: &Vec<FileDescriptor>, name: &str) -> (r: Option<usize>)
    requires
        files.wf(),
    ensures
        match descriptor_of(protobufs@, files@, name@) {
            Some(p) => r matches Some(k) && k < protobufs@.len() && protobufs@[k as int] == p,
            None => r is None,
        },
{
    let pos = files.position(name);
    proof {
        lemma_find_props(file_names(files@), name@);
    }
    match pos {
        Some(j) => {
            let node = files.node(j);
            assert(find(file_names(files@), name@) == Some(j as int));
            match node.proto {
                Some(k) => {
                    assert(files@[j as int].proto == Some(k as int));
                    if k < protobufs.len() {
                        Some(k)
                    } else {
                        None
                    }
                },
                None => None,
            }
        },
        None => None,
    }
}

proof fn lemma_grow(before: Seq<Seq<char>>, after: Seq<Seq<char>>)
    requires
        before.len() <= after.len(),
        forall|j: int| 0 <= j < before.len() ==> after[j] == before[j],
    ensures
        forall|x: Seq<char>| before.contains(x) ==> after.contains(x),
{
    assert forall|x: Seq<char>| before.contains(x) implies after.contains(x) by {
        let j = choose|j: int| 0 <= j < before.len() && before[j] == x;
        assert(after[j] == x);
    }
}

proof fn lemma_public_list_prefix(deps: Seq<Seq<char>>, idx: Seq<i32>, m: int, x: Seq<char>)
    requires
        0 <= m <= idx.len(),
        public_list_of(deps, idx.take(m)).contains(x),
    ensures
        public_list_of(deps, idx).contains(x),
    decreases idx.len() - m,
{
    if m < idx.len() {
        assert(idx.take(m + 1).drop_last() =~= idx.take(m));
        let a = public_list_of(deps, idx.take(m));
        let b = public_list_of(deps, idx.take(m + 1));
        lemma_grow(a, b);
        lemma_public_list_prefix(deps, idx, m + 1, x);
    } else {
        assert(idx.take(m) =~= idx);
    }
}

/// Appends to `r` each name of `public_list_of(items, idx)` that `r` lacks.
fn extend_with_public(r: &mut Vec<String>, items: &Vec<String>, idx: &Vec<i32>)
    requires
        strings_view(old(r)@).no_duplicates(),
    ensures
        strings_view(final(r)@).no_duplicates(),
        old(r)@.len() <= final(r)@.len(),
        forall|j: int| 0 <= j < old(r)@.len() ==> final(r)@[j] == old(r)@[j],
        forall|b: int|
            0 <= b < public_list_of(strings_view(items@), idx@).len() ==> strings_view(
                final(r)@,
            ).contains(#[trigger] public_list_of(strings_view(items@), idx@)[b]),
        forall|j: int|
            old(r)@.len() <= j < final(r)@.len() ==> public_list_of(
                strings_view(items@),
                idx@,
            ).contains(#[trigger] strings_view(final(r)@)[j]),
{
    let ghost deps = strings_view(items@);
    let ghost start = r@;
    assert(public_list_of(deps, idx@.take(0)) =~= Seq::<Seq<char>>::empty());
    let mut m: usize = 0;
    while m < idx.len()
        invariant
            m <= idx@.len(),
            deps == strings_view(items@),
            strings_view(r@).no_duplicates(),
            start.len() <= r@.len(),
            forall|j: int| 0 <= j < start.len() ==> r@[j] == start[j],
            forall|b: int|
                0 <= b < public_list_of(deps, idx@.take(m as int)).len() ==> strings_view(
                    r@,
                ).contains(#[trigger] public_list_of(deps, idx@.take(m as int))[b]),
            forall|j: int|
                start.len() <= j < r@.len() ==> public_list_of(deps, idx@.take(m as int)).contains(
                    #[trigger] strings_view(r@)[j],
                ),
        decreases idx@.len() - m,
    {
        let ix = idx[m];
        let ghost before = strings_view(r@);
        let ghost prev = public_list_of(deps, idx@.take(m as int));
        let ghost cur = public_list_of(deps, idx@.take(m + 1));
        assert(idx@.take(m + 1).drop_last() =~= idx@.take(m as int));
        assert(idx@.take(m + 1).last() == ix);
        if ix >= 0 && (ix as usize) < items.len() {
            let d = &items[ix as usize];
            assert(deps[ix as int] == d@);
            push_unique(r, d);
            proof {
                let after = strings_view(r@);
                lemma_grow(before, after);
                assert(cur == prev.push(d@));
                lemma_grow(prev, cur);
                assert(cur[prev.len() as int] == d@);
                assert(after.contains(d@)) by {
                    if !before.contains(d@) {
                        assert(after[before.len() as int] == d@);
                    }
                }
                assert forall|b: int| 0 <= b < cur.len() implies after.contains(#[trigger] cur[b]) by {
                    if b < prev.len() {
                        assert(cur[b] == prev[b]);
                        assert(0 <= b < public_list_of(deps, idx@.take(m as int)).len());
                        assert(before.contains(public_list_of(deps, idx@.take(m as int))[b]));
                    }
                }
                assert forall|j: int| start.len() <= j < after.len() implies cur.contains(
                    #[trigger] after[j],
                ) by {
                    if j < before.len() {
                        assert(after[j] == before[j]);
                        assert(prev.contains(before[j]));
                    } else {
                        assert(after[j] == d@);
                    }
                }
            }
        } else {
            assert(cur =~= prev);
        }
        m += 1;
    }
    assert(idx@.take(idx@.len() as int) =~= idx@);
}

/// What the closure loop keeps: the first `i` names have had their public
/// dependencies added.
#[verifier::opaque]
spec fn closure_inv(
    fs: Seq<FileDescriptor>,
    ns: Seq<FileNodeView>,
    u: Seq<Seq<char>>,
    rd: Seq<Seq<char>>,
    r: Seq<Seq<char>>,
    i: int,
) -> bool {
    &&& 0 <= i <= r.len() <= u.len()
    &&& r.no_duplicates()
    &&& forall|j: int| 0 <= j < rd.len() ==> r.contains(#[trigger] rd[j])
    &&& forall|j: int| 0 <= j < r.len() ==> u.contains(#[trigger] r[j])
    &&& forall|a: int, b: int|
        0 <= a < i && 0 <= b < public_of(fs, ns, r[a]).len() ==> r.contains(
            #[trigger] public_of(fs, ns, r[a])[b],
        )
    &&& forall|j: int|
        0 <= j < r.len() ==> rd.contains(#[trigger] r[j]) || exists|m: int|
            0 <= m < j && public_of(fs, ns, r[m]).contains(r[j])
}

proof fn lemma_closure_step(
    fs: Seq<FileDescriptor>,
    ns: Seq<FileNodeView>,
    u: Seq<Seq<char>>,
    rd: Seq<Seq<char>>,
    before: Seq<Seq<char>>,
    after: Seq<Seq<char>>,
    i: int,
)
    requires
        closure_inv(fs, ns, u, rd, before, i),
        i < before.len(),
        before.len() <= after.len(),
        forall|j: int| 0 <= j < before.len() ==> after[j] == before[j],
        after.no_duplicates(),
        forall|b: int|
            0 <= b < public_of(fs, ns, before[i]).len() ==> after.contains(
                #[trigger] public_of(fs, ns, before[i])[b],
            ),
        forall|j: int|
            before.len() <= j < after.len() ==> public_of(fs, ns, before[i]).contains(
                #[trigger] after[j],
            ),
        forall|j: int| before.len() <= j < after.len() ==> u.contains(#[trigger] after[j]),
    ensures
        closure_inv(fs, ns, u, rd, after, i + 1),
{
    reveal(closure_inv);
    lemma_grow(before, after);
    assert forall|j: int| 0 <= j < after.len() implies u.contains(#[trigger] after[j]) by {
        if j < before.len() {
            assert(after[j] == before[j]);
        }
    }
    lemma_no_dup_len_bound(after, u);
    assert forall|a: int, b: int|
        0 <= a < i + 1 && 0 <= b < public_of(fs, ns, after[a]).len() implies after.contains(
        #[trigger] public_of(fs, ns, after[a])[b],
    ) by {
        assert(after[a] == before[a]);
        if a < i {
            assert(before.contains(public_of(fs, ns, before[a])[b]));
        }
    }
    assert forall|j: int| 0 <= j < after.len() implies rd.contains(#[trigger] after[j]) || exists|
        m: int,
    |
        0 <= m < j && public_of(fs, ns, after[m]).contains(after[j]) by {
        if j < before.len() {
            assert(after[j] == before[j]);
            if !rd.contains(before[j]) {
                let m = choose|m: int|
                    0 <= m < j && public_of(fs, ns, before[m]).contains(before[j]);
                assert(after[m] == before[m]);
            }
        } else {
            assert(after[i] == before[i]);
            assert(public_of(fs, ns, after[i]).contains(after[j]));
        }
    }
    assert forall|j: int| 0 <= j < rd.len() implies after.contains(#[trigger] rd[j]) by {
        assert(before.contains(rd[j]));
    }
}

proof fn lemma_closure_done(
    fs: Seq<FileDescriptor>,
    ns: Seq<FileNodeView>,
    u: Seq<Seq<char>>,
    root: Seq<char>,
    r: Seq<Seq<char>>,
)
    requires
        closure_inv(fs, ns, u, root_deps(fs, ns, root), r, r.len() as int),
    ensures
        is_public_closure(fs, ns, root, r),
{
    reveal(closure_inv);
}

/// The public dependency set of the node called `root` (see `is_public_closure`).
fn public_closure(files: &FileMap, protobufs: &Vec<FileDescriptor>, root: &str) -> (r: Vec<String>)
    requires
        files.wf(),
    ensures
        is_public_closure(protobufs@, files@, root@, strings_view(r@)),
{
    let ghost fs = protobufs@;
    let ghost ns = files@;
    let ghost u = all_dependencies(fs);
    let mut r: Vec<String> = Vec::new();
    let ghost rd = root_deps(fs, ns, root@);
    assert(strings_view(r@) =~= Seq::<Seq<char>>::empty());
    if let Some(k) = descriptor_index(files, protobufs, root) {
        let deps = &protobufs[k].dependency;
        assert(rd == strings_view(deps@));
        for i in 0..deps.len()
            invariant
                k < fs.len(),
                deps@ == fs[k as int].dependency@,
                rd == strings_view(deps@),
                strings_view(r@).no_duplicates(),
                forall|j: int| 0 <= j < i ==> strings_view(r@).contains(#[trigger] rd[j]),
                forall|j: int| 0 <= j < r@.len() ==> rd.contains(#[trigger] strings_view(r@)[j]),
        {
            let ghost before = strings_view(r@);
            push_unique(&mut r, &deps[i]);
            assert(rd[i as int] == deps@[i as int]@);
            proof {
                let after = strings_view(r@);
                lemma_grow(before, after);
                if !before.contains(rd[i as int]) {
                    assert(after == before.push(rd[i as int]));
                    assert(after[before.len() as int] == rd[i as int]);
                } else {
                    assert(after == before);
                }
                assert forall|j: int| 0 <= j < r@.len() implies rd.contains(#[trigger] after[j]) by {
                    if j < before.len() {
                        assert(after[j] == before[j]);
                    } else {
                        assert(after == before.push(rd[i as int]));
                        assert(rd[i as int] == after[j]);
                    }
                }
            }
        }
    }
    let mut i: usize = 0;
    proof {
        assert forall|j: int| 0 <= j < r@.len() implies u.contains(#[trigger] strings_view(r@)[j]) by {
            let p = descriptor_of(fs, ns, root@)->0;
            let k = choose|k: int| 0 <= k < fs.len() && fs[k] == p;
            lemma_all_dependencies_contains(fs, k, strings_view(r@)[j]);
        }
        lemma_no_dup_len_bound(strings_view(r@), u);
        reveal(closure_inv);
        assert(closure_inv(fs, ns, u, rd, strings_view(r@), 0));
    }
    while i < r.len()
        invariant
            files.wf(),
            fs == protobufs@,
            ns == files@,
            u == all_dependencies(fs),
            rd == root_deps(fs, ns, root@),
            i <= r@.len(),
            closure_inv(fs, ns, u, rd, strings_view(r@), i as int),
        decreases u.len() - i,
    {
        proof {
            reveal(closure_inv);
        }
        let name = r[i].clone();
        let ghost before = strings_view(r@);
        assert(before[i as int] == name@);
        if let Some(k) = descriptor_index(files, protobufs, name.as_str()) {
            let p = &protobufs[k];
            proof {
                reveal(closure_inv);
            }
            extend_with_public(&mut r, &p.dependency, &p.public_dependency);
            proof {
                let after = strings_view(r@);
                assert(public_of(fs, ns, before[i as int]) == public_list_of(
                    strings_view(p.dependency@),
                    p.public_dependency@,
                ));
                assert forall|j: int| before.len() <= j < after.len() implies u.contains(
                    #[trigger] after[j],
                ) by {
                    lemma_public_list_in_deps(
                        strings_view(p.dependency@),
                        p.public_dependency@,
                        after[j],
                    );
                    lemma_all_dependencies_contains(fs, k as int, after[j]);
                }
                assert forall|j: int| 0 <= j < before.len() implies after[j] == before[j] by {
                    assert(strings_view(r@)[j] == r@[j]@);
                }
                lemma_closure_step(fs, ns, u, rd, before, after, i as int);
            }
        } else {
            proof {
                assert(public_of(fs, ns, before[i as int]) =~= Seq::<Seq<char>>::empty());
                lemma_closure_step(fs, ns, u, rd, before, before, i as int);
            }
        }
        i += 1;
    }
    proof {
        lemma_closure_done(fs, ns, u, root@, strings_view(r@));
    }
    r
}

// ─── Dependencies that no descriptor provides ───────────────────────────────

fn starts_with_google_str(s: &str) -> (r: bool)
    ensures
        r == starts_with_google(s@),
{
    let n = s.unicode_len();
    if n < 6 {
        return false;
    }
    let r = s.get_char(0) == 'g' && s.get_char(1) == 'o' && s.get_char(2) == 'o' && s.get_char(3)
        == 'g' && s.get_char(4) == 'l' && s.get_char(5) == 'e';
    proof {
        let t = s@.subrange(0, 6);
        if r {
            assert(t =~= google_prefix());
        } else if starts_with_google(s@) {
            assert(t[0] == s@[0]);
            assert(t[1] == s@[1]);
            assert(t[2] == s@[2]);
            assert(t[3] == s@[3]);
            assert(t[4] == s@[4]);
            assert(t[5] == s@[5]);
        }
    }
    r
}

/// The dependencies not under `google`, in order.
fn non_google_deps(deps: &Vec<String>) -> (r: Vec<String>)
    ensures
        strings_view(r@) == non_google(strings_view(deps@)),
{
    let mut r: Vec<String> = Vec::new();
    let ghost d = strings_view(deps@);
    assert(non_google(d.take(0)) =~= Seq::<Seq<char>>::empty());
    assert(strings_view(r@) =~= Seq::<Seq<char>>::empty());
    for i in 0..deps.len()
        invariant
            d == strings_view(deps@),
            strings_view(r@) == non_google(d.take(i as int)),
    {
        assert(d.take(i + 1).drop_last() =~= d.take(i as int));
        assert(d.take(i + 1).last() == deps@[i as int]@);
        let ghost before = r@;
        if !starts_with_google_str(deps[i].as_str()) {
            r.push(deps[i].clone());
            assert(strings_view(r@) =~= strings_view(before) + seq![deps@[i as int]@]);
        } else {
            assert(non_google(d.take(i + 1)) =~= non_google(d.take(i as int)));
        }
    }
    assert(d.take(deps.len() as int) =~= d);
    r
}

proof fn lemma_add_missing(acc: Seq<Seq<char>>, known: Seq<Seq<char>>, deps: Seq<Seq<char>>)
    requires
        acc.no_duplicates(),
        forall|j: int| 0 <= j < acc.len() ==> !known.contains(#[trigger] acc[j]),
    ensures
        add_missing(acc, known, deps).no_duplicates(),
        forall|j: int|
            0 <= j < add_missing(acc, known, deps).len() ==> !known.contains(
                #[trigger] add_missing(acc, known, deps)[j],
            ),
        acc.len() <= add_missing(acc, known, deps).len(),
        forall|j: int| 0 <= j < acc.len() ==> add_missing(acc, known, deps)[j] == acc[j],
    decreases deps.len(),
{
    if deps.len() > 0 {
        lemma_add_missing(acc, known, deps.drop_last());
        let a = add_missing(acc, known, deps.drop_last());
        let d = deps.last();
        if !(known.contains(d) || a.contains(d)) {
            let b = a.push(d);
            assert forall|j: int| 0 <= j < b.len() implies !known.contains(#[trigger] b[j]) by {
                if j < a.len() {
                    assert(b[j] == a[j]);
                }
            }
            assert forall|x: int, y: int| 0 <= x < b.len() && 0 <= y < b.len() && x != y implies b[x]
                != b[y] by {
                if x < a.len() && y < a.len() {
                    assert(b[x] == a[x] && b[y] == a[y]);
                } else if x < a.len() {
                    assert(b[x] == a[x]);
                    assert(a.contains(a[x]));
                } else if y < a.len() {
                    assert(b[y] == a[y]);
                    assert(a.contains(a[y]));
                }
            }
        }
    }
}

proof fn lemma_missing_deps(known: Seq<Seq<char>>, nodes: Seq<FileNodeView>)
    ensures
        missing_deps(known, nodes).no_duplicates(),
        forall|j: int|
            0 <= j < missing_deps(known, nodes).len() ==> !known.contains(
                #[trigger] missing_deps(known, nodes)[j],
            ),
    decreases nodes.len(),
{
    if nodes.len() > 0 {
        lemma_missing_deps(known, nodes.drop_last());
        lemma_add_missing(missing_deps(known, nodes.drop_last()), known, nodes.last().dependencies);
    }
}

fn placeholder_node(name: &String) -> (r: ProtoNode)
    ensures
        r@ == placeholder(name@),
{
    let r = ProtoNode {
        name: name.clone(),
        proto: None,
        dependencies: Vec::new(),
        all_public_dependencies: Vec::new(),
        types: Vec::new(),
        defined: false,
    };
    assert(strings_view(r.dependencies@) =~= Seq::<Seq<char>>::empty());
    assert(strings_view(r.all_public_dependencies@) =~= Seq::<Seq<char>>::empty());
    assert(strings_view(r.types@) =~= Seq::<Seq<char>>::empty());
    r
}

// ─── The phases of the analysis ─────────────────────────────────────────────

/// Phase 1: every descriptor registers its types and gets a file node.
fn phase_register(protobufs: &Vec<FileDescriptor>, files: &mut FileMap, types: &mut TypeMap)
    requires
        old(files).wf(),
        old(types).wf(),
        old(files)@ == Seq::<FileNodeView>::empty(),
        old(types)@ == Seq::<TypeNodeView>::empty(),
    ensures
        final(files).wf(),
        final(types).wf(),
        final(files)@ == phase1_nodes(protobufs@),
        final(types)@ == analyzed_types(protobufs@),
{
    let ghost fs = protobufs@;
    assert(fs.take(0) =~= Seq::<FileDescriptor>::empty());
    for k in 0..protobufs.len()
        invariant
            fs == protobufs@,
            files.wf(),
            types.wf(),
            files@ == phase1_nodes(fs.take(k as int)),
            types@ == register_all(Seq::empty(), all_regs(fs.take(k as int))),
    {
        let p = &protobufs[k];
        assert(fs.take(k + 1).drop_last() =~= fs.take(k as int));
        assert(fs.take(k + 1).last() == *p);
        let ghost before = types@;
        let names = analyze_file(types, p);
        proof {
            lemma_register_all_append(Seq::empty(), all_regs(fs.take(k as int)), file_regs(*p));
        }
        let node = ProtoNode {
            name: p.name.clone(),
            proto: Some(k),
            dependencies: Vec::new(),
            all_public_dependencies: Vec::new(),
            types: names,
            defined: true,
        };
        assert(strings_view(node.dependencies@) =~= Seq::<Seq<char>>::empty());
        assert(strings_view(node.all_public_dependencies@) =~= Seq::<Seq<char>>::empty());
        assert(node@ == node_for_file(*p, k as int));
        files.upsert(node);
    }
    assert(fs.take(protobufs.len() as int) =~= fs);
}

/// Phase 2: every node records its dependencies not under `google`, and each
/// dependency that no file provides gets a placeholder node.
#[verifier::rlimit(30)]
fn phase_dependencies(protobufs: &Vec<FileDescriptor>, files: &mut FileMap)
    requires
        old(files).wf(),
        old(files)@ == phase1_nodes(protobufs@),
    ensures
        final(files).wf(),
        final(files)@ == graph_nodes(protobufs@),
{
    let ghost fs = protobufs@;
    let ghost n1 = files@;
    let ghost known = file_names(n1);
    let ghost w = with_dependencies(n1, fs);
    let n = files.len();
    let mut missing: Vec<String> = Vec::new();
    assert(w.take(0) =~= Seq::<FileNodeView>::empty());
    assert(strings_view(missing@) =~= Seq::<Seq<char>>::empty());
    for i in 0..n
        invariant
            fs == protobufs@,
            n == n1.len(),
            w == with_dependencies(n1, fs),
            known == file_names(n1),
            files.wf(),
            files@.len() == n,
            file_names(files@) == known,
            forall|j: int| 0 <= j < i ==> files@[j] == w[j],
            forall|j: int| i <= j < n ==> files@[j] == n1[j],
            strings_view(missing@) == missing_deps(known, w.take(i as int)),
    {
        let node = files.node(i);
        assert(node@ == n1[i as int]);
        let deps = match node.proto {
            Some(k) => if k < protobufs.len() {
                non_google_deps(&protobufs[k].dependency)
            } else {
                Vec::new()
            },
            None => Vec::new(),
        };
        assert(strings_view(deps@) =~= resolved_deps(n1[i as int], fs));
        assert(w.take(i + 1).drop_last() =~= w.take(i as int));
        assert(w[i as int].dependencies == strings_view(deps@));
        let ghost m0 = strings_view(missing@);
        let ghost dv = strings_view(deps@);
        assert(dv.take(0) =~= Seq::<Seq<char>>::empty());
        for m in 0..deps.len()
            invariant
                files.wf(),
                file_names(files@) == known,
                dv == strings_view(deps@),
                strings_view(missing@) == add_missing(m0, known, dv.take(m as int)),
        {
            assert(dv.take(m + 1).drop_last() =~= dv.take(m as int));
            assert(dv.take(m + 1).last() == deps@[m as int]@);
            let d = &deps[m];
            proof {
                lemma_find_props(file_names(files@), d@);
            }
            let ghost before = missing@;
            if files.position(d.as_str()).is_none() && !contains_string(&missing, d.as_str()) {
                missing.push(d.clone());
                assert(strings_view(missing@) =~= strings_view(before).push(d@));
            }
        }
        assert(dv.take(deps.len() as int) =~= dv);
        files.set_dependencies(i, deps);
        assert(files@[i as int] == w[i as int]);
        assert(file_names(files@) =~= known) by {
            assert forall|j: int| 0 <= j < n implies file_names(files@)[j] == known[j] by {
                if j < i + 1 {
                    assert(files@[j] == w[j]);
                } else {
                    assert(files@[j] == n1[j]);
                }
            }
        }
    }
    assert(files@ =~= w);
    assert(w.take(n as int) =~= w);
    let ghost mv = strings_view(missing@);
    proof {
        lemma_missing_deps(known, w);
    }
    assert(mv == missing_deps(known, w));
    let ghost ph = mv.map_values(|d: Seq<char>| placeholder(d));
    assert(w + ph.take(0) =~= w);
    for m in 0..missing.len()
        invariant
            files.wf(),
            mv == strings_view(missing@),
            mv.no_duplicates(),
            forall|j: int| 0 <= j < mv.len() ==> !known.contains(#[trigger] mv[j]),
            known == file_names(n1),
            file_names(w) == known,
            ph == mv.map_values(|d: Seq<char>| placeholder(d)),
            files@ == w + ph.take(m as int),
    {
        let d = &missing[m];
        assert(mv[m as int] == d@);
        assert(file_names(files@) =~= known + mv.take(m as int)) by {
            assert forall|j: int| 0 <= j < files@.len() implies file_names(files@)[j] == (known
                + mv.take(m as int))[j] by {
                if j >= w.len() {
                    assert(files@[j] == ph[j - w.len()]);
                }
            }
        }
        proof {
            lemma_find_props(file_names(files@), d@);
            if file_names(files@).contains(d@) {
                let j = choose|j: int| 0 <= j < file_names(files@).len() && file_names(files@)[j] == d@;
                if j < known.len() {
                    assert(known.contains(d@));
                } else {
                    assert(mv[j - known.len()] == mv[m as int]);
                }
            }
        }
        files.upsert(placeholder_node(d));
        assert(files@ =~= w + ph.take(m + 1));
    }
    assert(ph.take(missing.len() as int) =~= ph);
    assert(file_names(phase1_nodes(fs)) == known);
}

/// Phase 3: whether every dependency and every type is defined.
fn phase_check(files: &FileMap, types: &TypeMap) -> (ok: bool)
    requires
        files.wf(),
        types.wf(),
    ensures
        ok == all_resolved(files@, types@),
{
    let ghost nodes = files@;
    let n = files.len();
    for i in 0..n
        invariant
            files.wf(),
            types.wf(),
            nodes == files@,
            n == nodes.len(),
            forall|a: int|
                #![trigger nodes[a]]
                0 <= a < i ==> (forall|j: int|
                    0 <= j < nodes[a].dependencies.len() ==> file_resolves(
                        nodes,
                        #[trigger] nodes[a].dependencies[j],
                    )) && (forall|j: int|
                    0 <= j < nodes[a].types.len() ==> type_resolves(
                        types@,
                        #[trigger] nodes[a].types[j],
                    )),
    {
        let node = files.node(i);
        let ghost nv = nodes[i as int];
        for j in 0..node.dependencies.len()
            invariant
                files.wf(),
                nodes == files@,
                n == nodes.len(),
                i < n,
                nv == nodes[i as int],
                node@ == nv,
                forall|b: int|
                    0 <= b < j ==> file_resolves(nodes, #[trigger] nv.dependencies[b]),
        {
            let d = &node.dependencies[j];
            assert(nv.dependencies[j as int] == d@);
            proof {
                lemma_find_props(file_names(nodes), d@);
            }
            let ok = match files.position(d.as_str()) {
                Some(p) => files.node(p).defined,
                None => false,
            };
            if !ok {
                assert(!file_resolves(nodes, nv.dependencies[j as int]));
                assert(!all_resolved(nodes, types@));
                return false;
            }
        }
        for j in 0..node.types.len()
            invariant
                types.wf(),
                nodes == files@,
                n == nodes.len(),
                i < n,
                nv == nodes[i as int],
                node@ == nv,
                forall|b: int|
                    0 <= b < j ==> type_resolves(types@, #[trigger] nv.types[b]),
        {
            let t = &node.types[j];
            assert(nv.types[j as int] == t@);
            let ok = match types.get(t.as_str()) {
                Some(tn) => tn.defined,
                None => false,
            };
            if !ok {
                assert(!type_resolves(types@, nv.types[j as int]));
                assert(!all_resolved(nodes, types@));
                return false;
            }
        }
    }
    true
}

proof fn lemma_same_graph_shape(fs: Seq<FileDescriptor>, a: Seq<FileNodeView>, b: Seq<FileNodeView>)
    requires
        file_names(a) == file_names(b),
        a.len() == b.len(),
        forall|j: int| 0 <= j < a.len() ==> a[j].proto == b[j].proto,
    ensures
        forall|x: Seq<char>| #[trigger] descriptor_of(fs, a, x) == descriptor_of(fs, b, x),
        forall|x: Seq<char>| #[trigger] public_of(fs, a, x) == public_of(fs, b, x),
        forall|x: Seq<char>| #[trigger] root_deps(fs, a, x) == root_deps(fs, b, x),
{
    assert forall|x: Seq<char>| #[trigger] descriptor_of(fs, a, x) == descriptor_of(fs, b, x) by {
        lemma_find_props(file_names(a), x);
    }
    assert forall|x: Seq<char>| #[trigger] public_of(fs, a, x) == public_of(fs, b, x) by {
        assert(descriptor_of(fs, a, x) == descriptor_of(fs, b, x));
    }
    assert forall|x: Seq<char>| #[trigger] root_deps(fs, a, x) == root_deps(fs, b, x) by {
        assert(descriptor_of(fs, a, x) == descriptor_of(fs, b, x));
    }
}

proof fn lemma_closure_same_shape(
    fs: Seq<FileDescriptor>,
    a: Seq<FileNodeView>,
    b: Seq<FileNodeView>,
    root: Seq<char>,
    r: Seq<Seq<char>>,
)
    requires
        file_names(a) == file_names(b),
        a.len() == b.len(),
        forall|j: int| 0 <= j < a.len() ==> a[j].proto == b[j].proto,
        is_public_closure(fs, a, root, r),
    ensures
        is_public_closure(fs, b, root, r),
{
    lemma_same_graph_shape(fs, a, b);
    assert(root_deps(fs, a, root) == root_deps(fs, b, root));
    assert forall|i: int, j: int|
        0 <= i < r.len() && 0 <= j < public_of(fs, b, r[i]).len() implies r.contains(
        #[trigger] public_of(fs, b, r[i])[j],
    ) by {
        assert(public_of(fs, a, r[i]) == public_of(fs, b, r[i]));
    }
    assert forall|i: int|
        0 <= i < r.len() implies root_deps(fs, b, root).contains(#[trigger] r[i]) || exists|
        j: int,
    |
        0 <= j < i && public_of(fs, b, r[j]).contains(r[i]) by {
        if !root_deps(fs, a, root).contains(r[i]) {
            let j = choose|j: int| 0 <= j < i && public_of(fs, a, r[j]).contains(r[i]);
            assert(public_of(fs, a, r[j]) == public_of(fs, b, r[j]));
        }
    }
}

/// The file graph after the analysis succeeded: `graph` with each node's
/// public dependency set filled in.
pub open spec fn is_analyzed_graph(fs: Seq<FileDescriptor>, nodes: Seq<FileNodeView>) -> bool {
    let g = graph_nodes(fs);
    &&& nodes.len() == g.len()
    &&& forall|i: int|
        0 <= i < g.len() ==> #[trigger] nodes[i] == (FileNodeView { public: nodes[i].public, ..g[i] })
            && is_public_closure(fs, g, g[i].name, nodes[i].public)
}

/// Phase 4: every node gets its public dependency set.
fn phase_public(protobufs: &Vec<FileDescriptor>, files: &mut FileMap)
    requires
        old(files).wf(),
        old(files)@ == graph_nodes(protobufs@),
    ensures
        final(files).wf(),
        is_analyzed_graph(protobufs@, final(files)@),
{
    let ghost fs = protobufs@;
    let ghost g = files@;
    let n = files.len();
    for i in 0..n
        invariant
            n == g.len(),
            fs == protobufs@,
            g == graph_nodes(fs),
            files.wf(),
            files@.len() == g.len(),
            file_names(files@) == file_names(g),
            forall|j: int| 0 <= j < files@.len() ==> files@[j].proto == g[j].proto,
            forall|j: int|
                0 <= j < i ==> #[trigger] files@[j] == (FileNodeView { public: files@[j].public, ..g[j] })
                    && is_public_closure(fs, g, g[j].name, files@[j].public),
            forall|j: int| i <= j < g.len() ==> files@[j] == g[j],
    {
        let name = files.node(i).name.clone();
        let public = public_closure(files, protobufs, name.as_str());
        proof {
            lemma_closure_same_shape(fs, files@, g, name@, strings_view(public@));
        }
        let ghost before = files@;
        files.set_public(i, public);
        assert(file_names(files@) =~= file_names(g)) by {
            assert forall|j: int| 0 <= j < files@.len() implies file_names(files@)[j] == file_names(g)[j] by {
                assert(files@[j].name == before[j].name);
            }
        }
        assert(files@[i as int] == (FileNodeView { public: files@[i as int].public, ..g[i as int] }));
    }
}

// ─── The order of the files ─────────────────────────────────────────────────

/// No two files have the same name.
pub open spec fn files_distinct(fs: Seq<FileDescriptor>) -> bool {
    forall|i: int, j: int|
        0 <= i < fs.len() && 0 <= j < fs.len() && i != j ==> #[trigger] fs[i].name@
            != #[trigger] fs[j].name@
}

proof fn lemma_phase1_distinct(fs: Seq<FileDescriptor>)
    requires
        files_distinct(fs),
    ensures
        phase1_nodes(fs).len() == fs.len(),
        forall|k: int| 0 <= k < fs.len() ==> #[trigger] phase1_nodes(fs)[k] == node_for_file(fs[k], k),
    decreases fs.len(),
{
    if fs.len() > 0 {
        let prev = fs.drop_last();
        assert(files_distinct(prev)) by {
            assert forall|i: int, j: int|
                0 <= i < prev.len() && 0 <= j < prev.len() && i != j implies #[trigger] prev[i].name@
                != #[trigger] prev[j].name@ by {
                assert(prev[i] == fs[i] && prev[j] == fs[j]);
            }
        }
        lemma_phase1_distinct(prev);
        let p = phase1_nodes(prev);
        let last = fs.last();
        lemma_find_props(file_names(p), last.name@);
        if file_names(p).contains(last.name@) {
            let k = choose|k: int| 0 <= k < file_names(p).len() && file_names(p)[k] == last.name@;
            assert(p[k] == node_for_file(fs[k], k));
            assert(fs[k].name@ == fs[fs.len() - 1].name@);
        }
        assert(phase1_nodes(fs) =~= p.push(node_for_file(last, fs.len() - 1)));
        assert forall|k: int| 0 <= k < fs.len() implies #[trigger] phase1_nodes(fs)[k] == node_for_file(fs[k], k) by {
            if k < fs.len() - 1 {
                assert(prev[k] == fs[k]);
            }
        }
    }
}

/// Some file defines the type `t`.
pub open spec fn defines(fs: Seq<FileDescriptor>, t: Seq<char>) -> bool {
    exists|j: int, m: int|
        0 <= j < fs.len() && 0 <= m < file_regs(fs[j]).len() && #[trigger] file_regs(fs[j])[m].name
            == t && !(file_regs(fs[j])[m].source is Reference)
}

proof fn lemma_all_regs_index(fs: Seq<FileDescriptor>, j: int, m: int) -> (idx: int)
    requires
        0 <= j < fs.len(),
        0 <= m < file_regs(fs[j]).len(),
    ensures
        0 <= idx < all_regs(fs).len(),
        all_regs(fs)[idx] == file_regs(fs[j])[m],
    decreases fs.len(),
{
    let prev = fs.drop_last();
    if j == fs.len() - 1 {
        all_regs(prev).len() + m
    } else {
        assert(prev[j] == fs[j]);
        let k = lemma_all_regs_index(prev, j, m);
        assert(all_regs(fs)[k] == all_regs(prev)[k]);
        k
    }
}

proof fn lemma_all_regs_origin(fs: Seq<FileDescriptor>, idx: int) -> (jm: (int, int))
    requires
        0 <= idx < all_regs(fs).len(),
    ensures
        0 <= jm.0 < fs.len(),
        0 <= jm.1 < file_regs(fs[jm.0]).len(),
        all_regs(fs)[idx] == file_regs(fs[jm.0])[jm.1],
    decreases fs.len(),
{
    let prev = fs.drop_last();
    if idx < all_regs(prev).len() {
        let jm = lemma_all_regs_origin(prev, idx);
        assert(prev[jm.0] == fs[jm.0]);
        assert(all_regs(fs)[idx] == all_regs(prev)[idx]);
        jm
    } else {
        (fs.len() - 1, idx - all_regs(prev).len())
    }
}

/// A type that the registrations resolve is defined by one of them.
proof fn lemma_resolved_is_defined(regs: Seq<Reg>, t: Seq<char>) -> (idx: int)
    requires
        type_resolves(register_all(Seq::empty(), regs), t),
    ensures
        0 <= idx < regs.len(),
        regs[idx].name == t,
        !(regs[idx].source is Reference),
    decreases regs.len(),
{
    if regs.len() == 0 {
        assert(type_names(Seq::<TypeNodeView>::empty()) =~= Seq::<Seq<char>>::empty());
        lemma_find_props(type_names(Seq::<TypeNodeView>::empty()), t);
        0
    } else {
        let prev = regs.drop_last();
        let r = regs.last();
        let before = register_all(Seq::empty(), prev);
        let after = register(before, r);
        lemma_register_all_distinct(prev);
        law_register_is_exact(before, r);
        law_registration_keeps_definitions(before, r);
        lemma_find_props(type_names(after), t);
        if r.name == t && !(r.source is Reference) {
            regs.len() - 1
        } else {
            let x = find(type_names(after), t)->0;
            assert(after[x].defined);
            lemma_find_props(type_names(before), t);
            if r.name != t {
                assert(type_names(after).contains(t));
                assert(type_names(before).contains(t));
                let i = find(type_names(before), t)->0;
                assert(after[i] == before[i]);
                assert(type_names(after)[i] == t);
                lemma_find_unique(type_names(after), t, i);
                assert(type_resolves(before, t));
            } else {
                assert(type_resolves(before, t));
            }
            let k = lemma_resolved_is_defined(prev, t);
            assert(regs[k] == prev[k]);
            k
        }
    }
}

/// The analysis resolves a type exactly when some file defines it.
proof fn lemma_type_resolves_iff(fs: Seq<FileDescriptor>, t: Seq<char>)
    ensures
        type_resolves(analyzed_types(fs), t) <==> defines(fs, t),
{
    if type_resolves(analyzed_types(fs), t) {
        let idx = lemma_resolved_is_defined(all_regs(fs), t);
        let jm = lemma_all_regs_origin(fs, idx);
        assert(file_regs(fs[jm.0])[jm.1].name == t);
    }
    if defines(fs, t) {
        let (j, m) = choose|j: int, m: int|
            0 <= j < fs.len() && 0 <= m < file_regs(fs[j]).len() && #[trigger] file_regs(
                fs[j],
            )[m].name == t && !(file_regs(fs[j])[m].source is Reference);
        let idx = lemma_all_regs_index(fs, j, m);
        law_analysis_resolves_definitions(fs, idx);
    }
}

proof fn lemma_enums_regs_at(scope: Seq<char>, proto: Seq<char>, s: Seq<EnumDescriptor>, i: int)
    requires
        0 <= i < s.len(),
    ensures
        enums_regs(scope, proto, s).len() == s.len(),
        enums_regs(scope, proto, s)[i] == (Reg {
            name: package_path(scope, s[i].name@),
            proto_name: Some(proto),
            source: SourceView::Enum(enum_values_of(s[i])),
        }),
    decreases s.len(),
{
    let prev = s.drop_last();
    if i < s.len() - 1 {
        lemma_enums_regs_at(scope, proto, prev, i);
        assert(prev[i] == s[i]);
    } else if prev.len() > 0 {
        lemma_enums_regs_at(scope, proto, prev, 0);
    } else {
        assert(enums_regs(scope, proto, prev) =~= Seq::<Reg>::empty());
    }
}

proof fn lemma_messages_regs_part(
    proto: Seq<char>,
    package: Seq<char>,
    s: Seq<MessageDescriptor>,
    i: int,
    k: int,
) -> (idx: int)
    requires
        0 <= i < s.len(),
        0 <= k < message_regs(proto, package, s[i]).len(),
    ensures
        0 <= idx < messages_regs(proto, package, s).len(),
        messages_regs(proto, package, s)[idx] == message_regs(proto, package, s[i])[k],
    decreases s.len(),
{
    let prev = s.subrange(0, s.len() - 1);
    if i == s.len() - 1 {
        messages_regs(proto, package, prev).len() + k
    } else {
        assert(prev[i] == s[i]);
        let j = lemma_messages_regs_part(proto, package, prev, i, k);
        assert(messages_regs(proto, package, s)[j] == messages_regs(proto, package, prev)[j]);
        j
    }
}

proof fn lemma_extensions_regs_part(package: Seq<char>, proto: Seq<char>, s: Seq<FieldDescriptor>, i: int) -> (idx: int)
    requires
        0 <= i < s.len(),
    ensures
        0 <= idx < extensions_regs(package, proto, s).len(),
        extensions_regs(package, proto, s)[idx] == extension_regs(package, proto, s[i])[0],
    decreases s.len(),
{
    let prev = s.drop_last();
    if i == s.len() - 1 {
        extensions_regs(package, proto, prev).len() as int
    } else {
        assert(prev[i] == s[i]);
        let j = lemma_extensions_regs_part(package, proto, prev, i);
        assert(extensions_regs(package, proto, s)[j] == extensions_regs(package, proto, prev)[j]);
        j
    }
}

proof fn lemma_services_regs_part(package: Seq<char>, proto: Seq<char>, s: Seq<ServiceDescriptor>, i: int) -> (idx: int)
    requires
        0 <= i < s.len(),
    ensures
        0 <= idx < services_regs(package, proto, s).len(),
        services_regs(package, proto, s)[idx] == (Reg {
            name: package_path(package, s[i].name@),
            proto_name: Some(proto),
            source: SourceView::Service,
        }),
    decreases s.len(),
{
    let prev = s.drop_last();
    if i == s.len() - 1 {
        services_regs(package, proto, prev).len() as int
    } else {
        assert(prev[i] == s[i]);
        let j = lemma_services_regs_part(package, proto, prev, i);
        assert(services_regs(package, proto, s)[j] == services_regs(package, proto, prev)[j]);
        j
    }
}

/// The types a file declares at its top level are named within its package:
/// the analysis defines each extension, enum, message and service `t` of a
/// file in package `pkg` as `package_path(pkg, t.name)`.
pub proof fn law_file_types_are_packaged(fs: Seq<FileDescriptor>, j: int)
    requires
        0 <= j < fs.len(),
    ensures
        ({
            let f = fs[j];
            let types = analyzed_types(fs);
            &&& forall|i: int|
                0 <= i < f.extension@.len() ==> type_resolves(
                    types,
                    package_path(f.package@, (#[trigger] f.extension@[i]).name@),
                )
            &&& forall|i: int|
                0 <= i < f.enum_type@.len() ==> type_resolves(
                    types,
                    package_path(f.package@, (#[trigger] f.enum_type@[i]).name@),
                )
            &&& forall|i: int|
                0 <= i < f.message_type@.len() ==> type_resolves(
                    types,
                    package_path(f.package@, (#[trigger] f.message_type@[i]).name@),
                )
            &&& forall|i: int|
                0 <= i < f.service@.len() ==> type_resolves(
                    types,
                    package_path(f.package@, (#[trigger] f.service@[i]).name@),
                )
        }),
{
    let f = fs[j];
    let pkg = f.package@;
    let proto = f.name@;
    let xs = extensions_regs(pkg, proto, f.extension@);
    let es = enums_regs(pkg, proto, f.enum_type@);
    let ms = messages_regs(proto, pkg, f.message_type@);
    let ss = services_regs(pkg, proto, f.service@);
    assert(file_regs(f) == xs + es + ms + ss);
    assert forall|i: int| 0 <= i < f.extension@.len() implies type_resolves(
        analyzed_types(fs),
        package_path(pkg, (#[trigger] f.extension@[i]).name@),
    ) by {
        let idx = lemma_extensions_regs_part(pkg, proto, f.extension@, i);
        assert(file_regs(f)[idx] == xs[idx]);
        lemma_type_resolves_iff(fs, package_path(pkg, f.extension@[i].name@));
        assert(file_regs(fs[j])[idx].name == package_path(pkg, f.extension@[i].name@));
    }
    assert forall|i: int| 0 <= i < f.enum_type@.len() implies type_resolves(
        analyzed_types(fs),
        package_path(pkg, (#[trigger] f.enum_type@[i]).name@),
    ) by {
        lemma_enums_regs_at(pkg, proto, f.enum_type@, i);
        let idx = xs.len() + i;
        assert(file_regs(f)[idx] == es[i]);
        lemma_type_resolves_iff(fs, package_path(pkg, f.enum_type@[i].name@));
        assert(file_regs(fs[j])[idx].name == package_path(pkg, f.enum_type@[i].name@));
    }
    assert forall|i: int| 0 <= i < f.message_type@.len() implies type_resolves(
        analyzed_types(fs),
        package_path(pkg, (#[trigger] f.message_type@[i]).name@),
    ) by {
        let m = f.message_type@[i];
        assert(message_regs(proto, pkg, m)[0].name == package_path(pkg, m.name@));
        let k = lemma_messages_regs_part(proto, pkg, f.message_type@, i, 0);
        let idx = xs.len() + es.len() + k;
        assert(file_regs(f)[idx] == ms[k]);
        lemma_type_resolves_iff(fs, package_path(pkg, m.name@));
        assert(file_regs(fs[j])[idx].name == package_path(pkg, m.name@));
    }
    assert forall|i: int| 0 <= i < f.service@.len() implies type_resolves(
        analyzed_types(fs),
        package_path(pkg, (#[trigger] f.service@[i]).name@),
    ) by {
        let k = lemma_services_regs_part(pkg, proto, f.service@, i);
        let idx = xs.len() + es.len() + ms.len() + k;
        assert(file_regs(f)[idx] == ss[k]);
        lemma_type_resolves_iff(fs, package_path(pkg, f.service@[i].name@));
        assert(file_regs(fs[j])[idx].name == package_path(pkg, f.service@[i].name@));
    }
}

/// Types nested in a message are named within the message: for a message
/// `m` of a file in package `pkg`, the analysis defines each enum `e` of `m`
/// as `package_path(package_path(pkg, m.name), e.name)`, and each message `n`
/// nested in `m` as `package_path(package_path(pkg, m.name), n.name)`.
pub proof fn law_nested_types_are_scoped(fs: Seq<FileDescriptor>, j: int, mi: int)
    requires
        0 <= j < fs.len(),
        0 <= mi < fs[j].message_type@.len(),
    ensures
        ({
            let m = fs[j].message_type@[mi];
            let scope = package_path(fs[j].package@, m.name@);
            &&& forall|ei: int|
                0 <= ei < m.enum_type@.len() ==> type_resolves(
                    analyzed_types(fs),
                    package_path(scope, (#[trigger] m.enum_type@[ei]).name@),
                )
            &&& forall|ni: int|
                0 <= ni < m.nested_type@.len() ==> type_resolves(
                    analyzed_types(fs),
                    package_path(scope, (#[trigger] m.nested_type@[ni]).name@),
                )
        }),
{
    let f = fs[j];
    let m = f.message_type@[mi];
    let scope = package_path(f.package@, m.name@);
    let proto = f.name@;
    let mr = message_regs(proto, f.package@, m);
    let pre = extensions_regs(f.package@, proto, f.extension@) + enums_regs(f.package@, proto, f.enum_type@);
    let msgs = messages_regs(proto, f.package@, f.message_type@);
    let svcs = services_regs(f.package@, proto, f.service@);
    assert(file_regs(f) == pre + msgs + svcs);
    let head = seq![
        Reg { name: scope, proto_name: Some(proto), source: SourceView::Message(message_fields_of(m)) },
    ] + extendee_refs(f.package@, m.extension@);
    let en = enums_regs(scope, proto, m.enum_type@);
    let fr = field_refs(f.package@, m.field@);
    let nested = messages_regs(proto, scope, m.nested_type@);
    assert(mr == head + en + fr + nested);
    assert forall|ei: int| 0 <= ei < m.enum_type@.len() implies type_resolves(
        analyzed_types(fs),
        package_path(scope, (#[trigger] m.enum_type@[ei]).name@),
    ) by {
        lemma_enums_regs_at(scope, proto, m.enum_type@, ei);
        let k = head.len() + ei;
        assert(mr[k] == en[ei]);
        let idx = lemma_messages_regs_part(proto, f.package@, f.message_type@, mi, k);
        assert(file_regs(f)[pre.len() + idx] == msgs[idx]);
        lemma_type_resolves_iff(fs, package_path(scope, m.enum_type@[ei].name@));
        assert(file_regs(fs[j])[pre.len() + idx].name == package_path(scope, m.enum_type@[ei].name@));
    }
    assert forall|ni: int| 0 <= ni < m.nested_type@.len() implies type_resolves(
        analyzed_types(fs),
        package_path(scope, (#[trigger] m.nested_type@[ni]).name@),
    ) by {
        let n = m.nested_type@[ni];
        assert(message_regs(proto, scope, n)[0].name == package_path(scope, n.name@));
        let k0 = lemma_messages_regs_part(proto, scope, m.nested_type@, ni, 0);
        let k = head.len() + en.len() + fr.len() + k0;
        assert(mr[k] == nested[k0]);
        let idx = lemma_messages_regs_part(proto, f.package@, f.message_type@, mi, k);
        assert(file_regs(f)[pre.len() + idx] == msgs[idx]);
        lemma_type_resolves_iff(fs, package_path(scope, n.name@));
        assert(file_regs(fs[j])[pre.len() + idx].name == package_path(scope, n.name@));
    }
}

/// Some file is called `d`.
pub open spec fn file_named(fs: Seq<FileDescriptor>, d: Seq<char>) -> bool {
    exists|j: int| 0 <= j < fs.len() && #[trigger] fs[j].name@ == d
}

/// The dependencies of a file that must be provided (those not under `google`).
pub open spec fn file_deps(f: FileDescriptor) -> Seq<Seq<char>> {
    non_google(strings_view(f.dependency@))
}

/// Every file's required dependencies are files, and every type that a file
/// defines or refers to is defined by some file.
pub open spec fn all_known(fs: Seq<FileDescriptor>) -> bool {
    forall|k: int|
        #![trigger fs[k]]
        0 <= k < fs.len() ==> (forall|x: int|
            0 <= x < file_deps(fs[k]).len() ==> file_named(fs, #[trigger] file_deps(fs[k])[x])) && (
        forall|x: int|
            0 <= x < reg_names(file_regs(fs[k])).len() ==> defines(
                fs,
                #[trigger] reg_names(file_regs(fs[k]))[x],
            ))
}

proof fn lemma_graph_shape(fs: Seq<FileDescriptor>)
    requires
        files_distinct(fs),
    ensures
        graph_nodes(fs).len() >= fs.len(),
        forall|k: int|
            0 <= k < fs.len() ==> {
                let n = #[trigger] graph_nodes(fs)[k];
                &&& n.dependencies == file_deps(fs[k])
                &&& n.types == reg_names(file_regs(fs[k]))
                &&& n.name == fs[k].name@
                &&& n.defined
            },
        forall|i: int|
            fs.len() <= i < graph_nodes(fs).len() ==> {
                let n = #[trigger] graph_nodes(fs)[i];
                &&& n.dependencies.len() == 0
                &&& n.types.len() == 0
                &&& !n.defined
                &&& !file_named(fs, n.name)
            },
{
    lemma_phase1_distinct(fs);
    let p1 = phase1_nodes(fs);
    let n2 = with_dependencies(p1, fs);
    let miss = missing_deps(file_names(p1), n2);
    lemma_missing_deps(file_names(p1), n2);
    let g = graph_nodes(fs);
    assert forall|k: int| 0 <= k < fs.len() implies {
        let n = #[trigger] g[k];
        &&& n.dependencies == file_deps(fs[k])
        &&& n.types == reg_names(file_regs(fs[k]))
        &&& n.name == fs[k].name@
        &&& n.defined
    } by {
        assert(g[k] == n2[k]);
        assert(p1[k] == node_for_file(fs[k], k));
        assert(file_at(fs, Some(k)) == Some(fs[k]));
    }
    assert forall|i: int| fs.len() <= i < g.len() implies {
        let n = #[trigger] g[i];
        &&& n.dependencies.len() == 0
        &&& n.types.len() == 0
        &&& !n.defined
        &&& !file_named(fs, n.name)
    } by {
        let d = miss[i - fs.len()];
        assert(g[i] == placeholder(d));
        assert(!file_names(p1).contains(d));
        if file_named(fs, d) {
            let j = choose|j: int| 0 <= j < fs.len() && #[trigger] fs[j].name@ == d;
            assert(p1[j] == node_for_file(fs[j], j));
            assert(file_names(p1)[j] == d);
        }
    }
}

proof fn lemma_file_resolves_iff(fs: Seq<FileDescriptor>, d: Seq<char>)
    requires
        files_distinct(fs),
    ensures
        file_resolves(graph_nodes(fs), d) <==> file_named(fs, d),
{
    lemma_graph_shape(fs);
    let g = graph_nodes(fs);
    lemma_find_props(file_names(g), d);
    if file_named(fs, d) {
        let j = choose|j: int| 0 <= j < fs.len() && #[trigger] fs[j].name@ == d;
        assert(g[j].name == d);
        assert(file_names(g)[j] == d);
        let x = find(file_names(g), d)->0;
        if x >= fs.len() {
            assert(g[x].name == d);
        }
    }
    if file_resolves(g, d) {
        let x = find(file_names(g), d)->0;
        assert(g[x].defined);
        assert(x < fs.len());
        assert(fs[x].name@ == d);
    }
}

proof fn lemma_all_resolved_iff(fs: Seq<FileDescriptor>)
    requires
        files_distinct(fs),
    ensures
        all_resolved(graph_nodes(fs), analyzed_types(fs)) <==> all_known(fs),
{
    lemma_graph_shape(fs);
    let g = graph_nodes(fs);
    let types = analyzed_types(fs);
    if all_resolved(g, types) {
        assert forall|k: int| #![trigger fs[k]] 0 <= k < fs.len() implies (forall|x: int|
            0 <= x < file_deps(fs[k]).len() ==> file_named(fs, #[trigger] file_deps(fs[k])[x])) && (
        forall|x: int|
            0 <= x < reg_names(file_regs(fs[k])).len() ==> defines(
                fs,
                #[trigger] reg_names(file_regs(fs[k]))[x],
            )) by {
            let n = g[k];
            assert forall|x: int| 0 <= x < file_deps(fs[k]).len() implies file_named(
                fs,
                #[trigger] file_deps(fs[k])[x],
            ) by {
                assert(n.dependencies[x] == file_deps(fs[k])[x]);
                assert(file_resolves(g, n.dependencies[x]));
                lemma_file_resolves_iff(fs, n.dependencies[x]);
            }
            assert forall|x: int| 0 <= x < reg_names(file_regs(fs[k])).len() implies defines(
                fs,
                #[trigger] reg_names(file_regs(fs[k]))[x],
            ) by {
                assert(n.types[x] == reg_names(file_regs(fs[k]))[x]);
                assert(type_resolves(types, n.types[x]));
                lemma_type_resolves_iff(fs, n.types[x]);
            }
        }
    }
    if all_known(fs) {
        assert forall|i: int| #![trigger g[i]] 0 <= i < g.len() implies (forall|j: int|
            0 <= j < g[i].dependencies.len() ==> file_resolves(
                g,
                #[trigger] g[i].dependencies[j],
            )) && (forall|j: int|
            0 <= j < g[i].types.len() ==> type_resolves(types, #[trigger] g[i].types[j])) by {
            if i < fs.len() {
                assert(fs[i] == fs[i]);
                assert forall|j: int| 0 <= j < g[i].dependencies.len() implies file_resolves(
                    g,
                    #[trigger] g[i].dependencies[j],
                ) by {
                    assert(g[i].dependencies[j] == file_deps(fs[i])[j]);
                    lemma_file_resolves_iff(fs, g[i].dependencies[j]);
                }
                assert forall|j: int| 0 <= j < g[i].types.len() implies type_resolves(
                    types,
                    #[trigger] g[i].types[j],
                ) by {
                    assert(g[i].types[j] == reg_names(file_regs(fs[i]))[j]);
                    lemma_type_resolves_iff(fs, g[i].types[j]);
                }
            }
        }
    }
}

/// `qs` holds the files of `ps` in another order: `qs[k]` is `ps[perm[k]]`,
/// and every file of `ps` occurs in `qs`.
pub open spec fn reordered(ps: Seq<FileDescriptor>, qs: Seq<FileDescriptor>, perm: Seq<int>) -> bool {
    &&& ps.len() == qs.len()
    &&& perm.len() == qs.len()
    &&& forall|k: int| 0 <= k < qs.len() ==> 0 <= #[trigger] perm[k] < ps.len() && qs[k] == ps[perm[k]]
    &&& forall|j: int|
        #![trigger ps[j]]
        0 <= j < ps.len() ==> exists|k: int| 0 <= k < qs.len() && #[trigger] perm[k] == j
}

proof fn lemma_reordered_same_knowledge(
    ps: Seq<FileDescriptor>,
    qs: Seq<FileDescriptor>,
    perm: Seq<int>,
)
    requires
        reordered(ps, qs, perm),
    ensures
        forall|d: Seq<char>| #[trigger] file_named(ps, d) <==> file_named(qs, d),
        forall|t: Seq<char>| #[trigger] defines(ps, t) <==> defines(qs, t),
{
    assert forall|d: Seq<char>| #[trigger] file_named(ps, d) <==> file_named(qs, d) by {
        if file_named(ps, d) {
            let j = choose|j: int| 0 <= j < ps.len() && #[trigger] ps[j].name@ == d;
            let k = choose|k: int| 0 <= k < qs.len() && #[trigger] perm[k] == j;
            assert(qs[k].name@ == d);
        }
        if file_named(qs, d) {
            let k = choose|k: int| 0 <= k < qs.len() && #[trigger] qs[k].name@ == d;
            assert(perm[k] == perm[k]);
            assert(ps[perm[k]].name@ == d);
        }
    }
    assert forall|t: Seq<char>| #[trigger] defines(ps, t) <==> defines(qs, t) by {
        if defines(ps, t) {
            let (j, m) = choose|j: int, m: int|
                0 <= j < ps.len() && 0 <= m < file_regs(ps[j]).len() && #[trigger] file_regs(
                    ps[j],
                )[m].name == t && !(file_regs(ps[j])[m].source is Reference);
            let k = choose|k: int| 0 <= k < qs.len() && #[trigger] perm[k] == j;
            assert(file_regs(qs[k])[m].name == t);
        }
        if defines(qs, t) {
            let (k, m) = choose|k: int, m: int|
                0 <= k < qs.len() && 0 <= m < file_regs(qs[k]).len() && #[trigger] file_regs(
                    qs[k],
                )[m].name == t && !(file_regs(qs[k])[m].source is Reference);
            assert(perm[k] == perm[k]);
            assert(file_regs(ps[perm[k]])[m].name == t);
        }
    }
}

/// The analysis does not depend on the order of the files: the same files
/// (no two with one name) given in another order are found resolved, or not,
/// alike.
pub proof fn law_analysis_ignores_file_order(
    ps: Seq<FileDescriptor>,
    qs: Seq<FileDescriptor>,
    perm: Seq<int>,
)
    requires
        files_distinct(ps),
        files_distinct(qs),
        reordered(ps, qs, perm),
    ensures
        all_resolved(graph_nodes(ps), analyzed_types(ps)) == all_resolved(
            graph_nodes(qs),
            analyzed_types(qs),
        ),
{
    lemma_all_resolved_iff(ps);
    lemma_all_resolved_iff(qs);
    lemma_reordered_same_knowledge(ps, qs, perm);
    if all_known(ps) {
        assert forall|k: int| #![trigger qs[k]] 0 <= k < qs.len() implies (forall|x: int|
            0 <= x < file_deps(qs[k]).len() ==> file_named(qs, #[trigger] file_deps(qs[k])[x])) && (
        forall|x: int|
            0 <= x < reg_names(file_regs(qs[k])).len() ==> defines(
                qs,
                #[trigger] reg_names(file_regs(qs[k]))[x],
            )) by {
            let j = perm[k];
            assert(ps[j] == qs[k]);
            assert forall|x: int| 0 <= x < file_deps(qs[k]).len() implies file_named(
                qs,
                #[trigger] file_deps(qs[k])[x],
            ) by {
                assert(file_named(ps, file_deps(ps[j])[x]));
            }
            assert forall|x: int| 0 <= x < reg_names(file_regs(qs[k])).len() implies defines(
                qs,
                #[trigger] reg_names(file_regs(qs[k]))[x],
            ) by {
                assert(defines(ps, reg_names(file_regs(ps[j]))[x]));
            }
        }
    }
    if all_known(qs) {
        assert forall|j: int| #![trigger ps[j]] 0 <= j < ps.len() implies (forall|x: int|
            0 <= x < file_deps(ps[j]).len() ==> file_named(ps, #[trigger] file_deps(ps[j])[x])) && (
        forall|x: int|
            0 <= x < reg_names(file_regs(ps[j])).len() ==> defines(
                ps,
                #[trigger] reg_names(file_regs(ps[j]))[x],
            )) by {
            let k = choose|k: int| 0 <= k < qs.len() && #[trigger] perm[k] == j;
            assert(qs[k] == ps[j]);
            assert forall|x: int| 0 <= x < file_deps(ps[j]).len() implies file_named(
                ps,
                #[trigger] file_deps(ps[j])[x],
            ) by {
                assert(file_named(qs, file_deps(qs[k])[x]));
            }
            assert forall|x: int| 0 <= x < reg_names(file_regs(ps[j])).len() implies defines(
                ps,
                #[trigger] reg_names(file_regs(ps[j]))[x],
            ) by {
                assert(defines(qs, reg_names(file_regs(qs[k]))[x]));
            }
        }
    }
}

// ─── The dumper ─────────────────────────────────────────────────────────────

/// Analyzes protobuf dependency graphs and generates `.proto` source text.
pub struct ProtobufDumper {
    protobufs: Vec<FileDescriptor>,
    files: FileMap,
    types: TypeMap,
}

impl ProtobufDumper {
    /// The descriptors to analyze and dump.
    pub closed spec fn descriptors(&self) -> Seq<FileDescriptor> {
        self.protobufs@
    }

    /// The file graph.
    pub closed spec fn graph(&self) -> Seq<FileNodeView> {
        self.files@
    }

    /// The type map.
    pub closed spec fn type_map(&self) -> Seq<TypeNodeView> {
        self.types@
    }

    pub closed spec fn wf(&self) -> bool {
        self.files.wf() && self.types.wf()
    }

    pub fn new(protobufs: Vec<FileDescriptor>) -> (r: Self)
        ensures
            r.wf(),
            r.descriptors() == protobufs@,
            r.graph() == Seq::<FileNodeView>::empty(),
            r.type_map() == Seq::<TypeNodeView>::empty(),
    {
        ProtobufDumper { protobufs, files: FileMap::new(), types: TypeMap::new() }
    }

    /// The type map, as the rendering reads it.
    pub(crate) fn type_map_ref(&self) -> (r: &TypeMap)
        requires
            self.wf(),
        ensures
            r.wf(),
            r@ == self.type_map(),
    {
        &self.types
    }

    /// The file graph, as the rendering reads it.
    pub(crate) fn file_map_ref(&self) -> (r: &FileMap)
        requires
            self.wf(),
        ensures
            r.wf(),
            r@ == self.graph(),
    {
        &self.files
    }

    /// The descriptors, as the rendering reads them.
    pub(crate) fn descriptor_list(&self) -> (r: &Vec<FileDescriptor>)
        ensures
            r@ == self.descriptors(),
    {
        &self.protobufs
    }

    /// Builds the dependency graph and resolves all type references.
    /// Returns `true` if all dependencies and types are resolved.
    pub fn analyze(&mut self) -> (ok: bool)
        ensures
            final(self).wf(),
            final(self).descriptors() == old(self).descriptors(),
            final(self).type_map() == analyzed_types(old(self).descriptors()),
            ok == all_resolved(
                graph_nodes(old(self).descriptors()),
                analyzed_types(old(self).descriptors()),
            ),
            !ok ==> final(self).graph() == graph_nodes(old(self).descriptors()),
            ok ==> is_analyzed_graph(old(self).descriptors(), final(self).graph()),
    {
        self.files = FileMap::new();
        self.types = TypeMap::new();
        phase_register(&self.protobufs, &mut self.files, &mut self.types);
        phase_dependencies(&self.protobufs, &mut self.files);
        if !phase_check(&self.files, &self.types) {
            return false;
        }
        phase_public(&self.protobufs, &mut self.files);
        true
    }
}

} // verus!
