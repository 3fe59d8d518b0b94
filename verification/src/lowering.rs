//! Lowering MIR to Sonatina: the errors it reports, and the plan of the
//! module it builds.

use crate::text::{decimal, push_decimal};
use std::collections::HashMap;
use vstd::prelude::*;

verus! {

broadcast use {
    vstd::std_specs::hash::axiom_usize_obeys_hash_table_key_model,
    vstd::std_specs::hash::axiom_random_state_builds_valid_hashers,
    vstd::std_specs::hash::axiom_maps_deref_key_to_value,
    vstd::std_specs::hash::axiom_contains_deref_key,
};


/// Why lowering to Sonatina failed.
#[derive(Debug, Clone)]
pub enum LowerError {
    /// The module builder refused a declaration.
    Builder(String),
    /// Compiling the module to an EVM object failed.
    ObjectCompile(String),
}

/// The builder error with the builder's message.
pub fn builder_error(message: String) -> (e: LowerError)
    ensures
        e == LowerError::Builder(message),
{
    LowerError::Builder(message)
}

/// The messages joined, a semicolon and a space between each two.
pub open spec fn joined(messages: Seq<Seq<char>>) -> Seq<char>
    decreases messages.len(),
{
    if messages.len() == 0 {
        Seq::empty()
    } else if messages.len() == 1 {
        messages[0]
    } else {
        joined(messages.drop_last()) + "; "@ + messages.last()
    }
}

/// The object compilation error that lists every error, each as its debug
/// text, joined by semicolons.
pub fn object_compile_error(errors: &[String]) -> (e: LowerError)
    ensures
        e matches LowerError::ObjectCompile(m) && m@ == joined(errors@.map_values(|s: String| s@)),
{
    let ghost ms = errors@.map_values(|s: String| s@);
    let mut out = String::new();
    let mut i: usize = 0;
    while i < errors.len()
        invariant
            ms == errors@.map_values(|s: String| s@),
            i <= errors@.len(),
            out@ == joined(ms.take(i as int)),
        decreases errors@.len() - i,
    {
        if i > 0 {
            out.append("; ");
        }
        out.append(errors[i].as_str());
        assert(ms.take(i + 1).drop_last() == ms.take(i as int));
        assert(out@ =~= joined(ms.take(i + 1)));
        i = i + 1;
    }
    assert(ms.take(ms.len() as int) == ms);
    LowerError::ObjectCompile(out)
}

/// A primitive type of Plank.
#[derive(Debug, Clone, Copy, PartialEq, Eq, Structural)]
pub enum PrimitiveType {
    Void,
    Never,
    Bool,
    U256,
    MemoryPointer,
    Function,
    Type,
}

/// A Plank type, as the MIR's type table holds it: a primitive, or a struct
/// given by the type ids of its fields.
#[derive(Debug, Clone)]
pub enum PlankType {
    Primitive(PrimitiveType),
    Struct(Vec<usize>),
}

/// A Sonatina value type: the unit type (which only stands for a field with
/// no runtime value), a boolean, a 256-bit word, or the struct type declared
/// for a Plank type id.
#[derive(Debug, Clone, Copy, PartialEq, Eq, Structural)]
pub enum SonaShape {
    Unit,
    I1,
    I256,
    Struct(usize),
}

/// A MIR function, as lowering reads it: the locals that are its
/// parameters, the type of each local, and its return type.
#[derive(Debug, Clone)]
pub struct MirFunction {
    pub params: Vec<usize>,
    pub locals: Vec<usize>,
    pub return_type: usize,
}

/// What lowering reads of a MIR program: its type table, its functions, the
/// initialisation function and the runtime entry point if there is one.
#[derive(Debug, Clone)]
pub struct MirModel {
    pub types: Vec<PlankType>,
    pub fns: Vec<MirFunction>,
    pub init: usize,
    pub run: Option<usize>,
}

/// The field type ids of a struct type, or nothing for a primitive.
pub open spec fn fields_of(t: PlankType) -> Seq<usize> {
    match t {
        PlankType::Struct(fields) => fields@,
        PlankType::Primitive(_) => Seq::empty(),
    }
}

/// A type that exists only at compile time.
pub open spec fn is_comptime(t: PlankType) -> bool {
    t matches PlankType::Primitive(p) && (p == PrimitiveType::Function || p == PrimitiveType::Type)
}

/// The runtime shape of a primitive: none for `void` and `never`.
pub open spec fn primitive_shape(p: PrimitiveType) -> Option<SonaShape> {
    match p {
        PrimitiveType::Bool => Some(SonaShape::I1),
        PrimitiveType::U256 | PrimitiveType::MemoryPointer => Some(SonaShape::I256),
        _ => None,
    }
}

/// The type of a struct field: its shape, or the unit type where the field
/// has no runtime value.
pub open spec fn field_type(s: Option<SonaShape>) -> SonaShape {
    match s {
        Some(shape) => shape,
        None => SonaShape::Unit,
    }
}

/// Every field of every struct names a type of the table.
pub open spec fn types_closed(types: Seq<PlankType>) -> bool {
    forall|t: int, i: int|
        0 <= t < types.len() && 0 <= i < fields_of(types[t]).len() ==> #[trigger] fields_of(
            types[t],
        )[i] < types.len()
}

/// `depth` decreases from every struct to each of its fields, so no struct
/// contains itself.
pub open spec fn depth_ok(types: Seq<PlankType>, depth: Seq<nat>) -> bool {
    &&& depth.len() == types.len()
    &&& forall|t: int, i: int|
        0 <= t < types.len() && 0 <= i < fields_of(types[t]).len() ==> depth[#[trigger] fields_of(
            types[t],
        )[i] as int] < depth[t]
}

/// The shape a type has given the shapes of its fields: a primitive's own,
/// and for a struct its declared struct type when some field has a runtime
/// value, and none otherwise.
pub open spec fn shape_rule(types: Seq<PlankType>, shapes: Seq<Option<Option<SonaShape>>>, t: int) -> Option<
    SonaShape,
> {
    match types[t] {
        PlankType::Primitive(p) => primitive_shape(p),
        PlankType::Struct(fields) => if exists|i: int|
            0 <= i < fields@.len() && (#[trigger] shapes[fields@[i] as int]) matches Some(Some(_)) {
            Some(SonaShape::Struct(t as usize))
        } else {
            None
        },
    }
}

/// A declared Sonatina struct type: the Plank type it stands for, its name
/// and the types of its fields.
#[derive(Debug, Clone)]
pub struct StructDecl {
    pub type_id: usize,
    pub name: String,
    pub fields: Vec<SonaShape>,
}

/// The shapes that a table holds for the types below `n`, by type id:
/// `None` where the type is not worked out yet.
pub open spec fn shape_seq(m: Map<usize, Option<SonaShape>>, n: nat) -> Seq<Option<Option<SonaShape>>> {
    Seq::new(n, |u: int| if m.contains_key(u as usize) { Some(m[u as usize]) } else { None })
}

/// The shapes worked out so far, by type id, and the struct types declared
/// for them, in declaration order.
#[derive(Debug, Clone)]
pub struct ShapeTable {
    pub shapes: HashMap<usize, Option<SonaShape>>,
    pub structs: Vec<StructDecl>,
}

/// The name of the struct type declared for type `t`.
pub open spec fn struct_name(t: nat) -> Seq<char> {
    "struct_"@ + decimal(t)
}

/// Type `t` has a declaration in `structs`.
pub open spec fn declared(structs: Seq<StructDecl>, t: int) -> bool {
    exists|j: int| 0 <= j < structs.len() && (#[trigger] structs[j]).type_id == t
}

/// Type `t` has a declaration among the first `k` of `structs`.
pub open spec fn declared_before(structs: Seq<StructDecl>, t: int, k: int) -> bool {
    exists|j: int| 0 <= j < k && (#[trigger] structs[j]).type_id == t
}

/// Each worked-out type has its fields worked out and the shape the rule
/// gives.
pub open spec fn shapes_ok(types: Seq<PlankType>, shapes: Seq<Option<Option<SonaShape>>>) -> bool {
    &&& shapes.len() == types.len()
    &&& forall|t: int|
        0 <= t < types.len() && (#[trigger] shapes[t]) is Some ==> {
            &&& forall|i: int|
                0 <= i < fields_of(types[t]).len() ==> shapes[#[trigger] fields_of(types[t])[i] as int] is Some
            &&& shapes[t] == Some(shape_rule(types, shapes, t))
        }
}

/// Declaration `j` is that of a worked-out struct type: it names the type,
/// lists the types of its fields, and comes after the declarations of the
/// struct types among them.
pub open spec fn decl_at_ok(
    types: Seq<PlankType>,
    shapes: Seq<Option<Option<SonaShape>>>,
    structs: Seq<StructDecl>,
    j: int,
) -> bool {
    let d = structs[j];
    &&& 0 <= d.type_id < types.len()
    &&& shapes[d.type_id as int] == Some(Some(SonaShape::Struct(d.type_id)))
    &&& d.name@ == struct_name(d.type_id as nat)
    &&& d.fields@.len() == fields_of(types[d.type_id as int]).len()
    &&& forall|i: int|
        0 <= i < d.fields@.len() ==> d.fields@[i] == field_type(
            shapes[#[trigger] fields_of(types[d.type_id as int])[i] as int].unwrap(),
        )
    &&& forall|i: int|
        0 <= i < d.fields@.len() ==> (#[trigger] d.fields@[i] matches SonaShape::Struct(f)
            ==> declared_before(structs, f as int, j))
}

/// Every declaration is as `decl_at_ok` states.
pub open spec fn decls_ok(types: Seq<PlankType>, shapes: Seq<Option<Option<SonaShape>>>, structs: Seq<StructDecl>) -> bool {
    forall|j: int| 0 <= j < structs.len() ==> #[trigger] decl_at_ok(types, shapes, structs, j)
}

/// No type is declared twice.
pub open spec fn decls_unique(structs: Seq<StructDecl>) -> bool {
    forall|j1: int, j2: int|
        0 <= j1 < j2 < structs.len() ==> (#[trigger] structs[j1]).type_id != (#[trigger] structs[j2]).type_id
}

/// Every worked-out struct shape has its declaration.
pub open spec fn structs_declared(types: Seq<PlankType>, shapes: Seq<Option<Option<SonaShape>>>, structs: Seq<StructDecl>) -> bool {
    forall|t: int|
        0 <= t < types.len() && (#[trigger] shapes[t]) == Some(Some(SonaShape::Struct(t as usize))) ==> declared(structs, t)
}

/// The table is consistent: the shapes follow the rule, the declarations
/// are those of worked-out struct types in an order that declares a field's
/// struct type first, no type is declared twice, and every worked-out struct
/// shape is declared.
pub open spec fn table_ok(types: Seq<PlankType>, shapes: Seq<Option<Option<SonaShape>>>, structs: Seq<StructDecl>) -> bool {
    &&& shapes_ok(types, shapes)
    &&& decls_ok(types, shapes, structs)
    &&& decls_unique(structs)
    &&& structs_declared(types, shapes, structs)
}

/// Type `b` is a field of type `a`.
pub open spec fn field_step(types: Seq<PlankType>, a: usize, b: usize) -> bool {
    exists|j: int| 0 <= j < fields_of(types[a as int]).len() && #[trigger] fields_of(types[a as int])[j] == b
}

/// Each type of `path` is a field of the one before.
pub open spec fn field_chain(types: Seq<PlankType>, path: Seq<usize>) -> bool {
    forall|i: int| 0 <= i < path.len() - 1 ==> #[trigger] field_step(types, path[i], path[i + 1])
}

/// No type of the closure of `roots` exists only at compile time.
pub open spec fn closure_runtime_only(types: Seq<PlankType>, roots: Set<int>) -> bool {
    forall|u: int| 0 <= u < types.len() && in_closure(types, roots, u) ==> !is_comptime(#[trigger] types[u])
}

/// Type `u` is one of `roots` or is reached from one of them by taking
/// fields.
pub open spec fn in_closure(types: Seq<PlankType>, roots: Set<int>, u: int) -> bool {
    exists|path: Seq<usize>|
        path.len() > 0 && roots.contains(path[0] as int) && field_chain(types, path) && path.last() == u
}

/// Only types of the closure of `roots` are worked out.
pub open spec fn shapes_within(types: Seq<PlankType>, roots: Set<int>, shapes: Seq<Option<Option<SonaShape>>>) -> bool {
    forall|u: int| 0 <= u < shapes.len() && (#[trigger] shapes[u]) is Some ==> in_closure(types, roots, u)
}

proof fn lemma_closure_field(types: Seq<PlankType>, roots: Set<int>, t: int, j: int)
    requires
        0 <= t < types.len(),
        in_closure(types, roots, t),
        0 <= j < fields_of(types[t]).len(),
    ensures
        in_closure(types, roots, fields_of(types[t])[j] as int),
{
    let path = choose|path: Seq<usize>|
        path.len() > 0 && roots.contains(path[0] as int) && field_chain(types, path) && path.last() == t;
    let f = fields_of(types[t])[j];
    let p2 = path.push(f);
    assert forall|i: int| 0 <= i < p2.len() - 1 implies #[trigger] field_step(types, p2[i], p2[i + 1]) by {
        if i < path.len() - 1 {
            assert(p2[i] == path[i] && p2[i + 1] == path[i + 1]);
            assert(field_step(types, path[i], path[i + 1]));
        } else {
            assert(p2[i] == path.last() && p2[i + 1] == f);
            assert(fields_of(types[p2[i] as int])[j] == p2[i + 1]);
        }
    }
    assert(p2[0] == path[0]);
    assert(p2.len() > 0 && roots.contains(p2[0] as int) && field_chain(types, p2) && p2.last() == f as int);
}

proof fn lemma_root_in_closure(types: Seq<PlankType>, roots: Set<int>, t: int)
    requires
        roots.contains(t),
        0 <= t <= usize::MAX,
    ensures
        in_closure(types, roots, t),
{
    let path = seq![t as usize];
    assert(field_chain(types, path));
    assert(path.last() == t);
    assert(path.len() > 0 && roots.contains(path[0] as int) && field_chain(types, path) && path.last() == t);
}

/// The entries worked out in `old_shapes` keep their shapes in `shapes`, and
/// the declarations of `old_structs` stay first, in their order.
pub open spec fn table_extends(
    old_shapes: Seq<Option<Option<SonaShape>>>,
    old_structs: Seq<StructDecl>,
    shapes: Seq<Option<Option<SonaShape>>>,
    structs: Seq<StructDecl>,
) -> bool {
    &&& shapes.len() == old_shapes.len()
    &&& forall|u: int| 0 <= u < old_shapes.len() && (#[trigger] old_shapes[u]) is Some ==> shapes[u] == old_shapes[u]
    &&& old_structs.len() <= structs.len()
    &&& forall|j: int| 0 <= j < old_structs.len() ==> structs[j] == old_structs[j]
}

fn struct_name_exec(t: usize) -> (name: String)
    ensures
        name@ == struct_name(t as nat),
{
    let mut name = String::from_str("struct_");
    push_decimal(&mut name, t as u64);
    name
}

/// The declaration of struct type `t` with the given field types.
pub open spec fn decl_ok(types: Seq<PlankType>, shapes: Seq<Option<Option<SonaShape>>>, t: int, d: StructDecl) -> bool {
    &&& d.type_id == t
    &&& d.name@ == struct_name(t as nat)
    &&& d.fields@.len() == fields_of(types[t]).len()
    &&& forall|i: int|
        0 <= i < d.fields@.len() ==> d.fields@[i] == field_type(
            shapes[#[trigger] fields_of(types[t])[i] as int].unwrap(),
        )
}

proof fn lemma_rule_depends_on_fields(
    types: Seq<PlankType>,
    shapes: Seq<Option<Option<SonaShape>>>,
    shapes2: Seq<Option<Option<SonaShape>>>,
    u: int,
)
    requires
        0 <= u < types.len(),
        forall|i: int|
            0 <= i < fields_of(types[u]).len() ==> shapes2[#[trigger] fields_of(types[u])[i] as int]
                == shapes[fields_of(types[u])[i] as int],
    ensures
        shape_rule(types, shapes2, u) == shape_rule(types, shapes, u),
{
    match types[u] {
        PlankType::Struct(fields) => {
            assert(fields_of(types[u]) == fields@);
            if exists|i: int| 0 <= i < fields@.len() && (#[trigger] shapes[fields@[i] as int]) matches Some(Some(_)) {
                let i = choose|i: int| 0 <= i < fields@.len() && (#[trigger] shapes[fields@[i] as int]) matches Some(Some(_));
                assert(shapes2[fields@[i] as int] == shapes[fields@[i] as int]);
            }
            if exists|i: int| 0 <= i < fields@.len() && (#[trigger] shapes2[fields@[i] as int]) matches Some(Some(_)) {
                let i = choose|i: int| 0 <= i < fields@.len() && (#[trigger] shapes2[fields@[i] as int]) matches Some(Some(_));
                assert(shapes2[fields@[i] as int] == shapes[fields@[i] as int]);
            }
        },
        PlankType::Primitive(_) => {},
    }
}

proof fn lemma_shapes_update(
    types: Seq<PlankType>,
    shapes: Seq<Option<Option<SonaShape>>>,
    depth: Seq<nat>,
    t: int,
    r: Option<SonaShape>,
)
    requires
        shapes_ok(types, shapes),
        types_closed(types),
        depth_ok(types, depth),
        0 <= t < types.len(),
        shapes[t] is None,
        forall|i: int| 0 <= i < fields_of(types[t]).len() ==> (#[trigger] shapes[fields_of(types[t])[i] as int]) is Some,
        r == shape_rule(types, shapes, t),
    ensures
        shapes_ok(types, shapes.update(t, Some(r))),
        forall|u: int| 0 <= u < types.len() && (#[trigger] shapes[u]) is Some ==> forall|i: int|
            0 <= i < fields_of(types[u]).len() ==> fields_of(types[u])[i] != t,
{
    let shapes2 = shapes.update(t, Some(r));
    assert forall|u: int| 0 <= u < types.len() && (#[trigger] shapes[u]) is Some implies forall|i: int|
        0 <= i < fields_of(types[u]).len() ==> fields_of(types[u])[i] != t by {
        assert forall|i: int| 0 <= i < fields_of(types[u]).len() implies #[trigger] fields_of(types[u])[i] != t by {
            assert(shapes[fields_of(types[u])[i] as int] is Some);
        }
    }
    assert forall|u: int| 0 <= u < types.len() && (#[trigger] shapes2[u]) is Some implies {
        &&& forall|i: int|
            0 <= i < fields_of(types[u]).len() ==> shapes2[#[trigger] fields_of(types[u])[i] as int] is Some
        &&& shapes2[u] == Some(shape_rule(types, shapes2, u))
    } by {
        assert forall|i: int| 0 <= i < fields_of(types[u]).len() implies shapes2[#[trigger] fields_of(types[u])[i] as int]
            == shapes[fields_of(types[u])[i] as int] by {
            let f = fields_of(types[u])[i];
            if f == t {
                if u == t {
                    assert(depth[f as int] < depth[u]);
                } else {
                    assert(shapes[u] is Some);
                    assert(shapes[f as int] is Some);
                }
            }
        }
        lemma_rule_depends_on_fields(types, shapes, shapes2, u);
    }
}

proof fn lemma_decls_update(
    types: Seq<PlankType>,
    shapes: Seq<Option<Option<SonaShape>>>,
    structs: Seq<StructDecl>,
    t: int,
    r: Option<SonaShape>,
    new_structs: Seq<StructDecl>,
)
    requires
        shapes_ok(types, shapes),
        decls_ok(types, shapes, structs),
        structs_declared(types, shapes, structs),
        types_closed(types),
        0 <= t < types.len(),
        shapes[t] is None,
        forall|i: int| 0 <= i < fields_of(types[t]).len() ==> (#[trigger] shapes[fields_of(types[t])[i] as int]) is Some,
        forall|u: int| 0 <= u < types.len() && (#[trigger] shapes[u]) is Some ==> forall|i: int|
            0 <= i < fields_of(types[u]).len() ==> fields_of(types[u])[i] != t,
        r == shape_rule(types, shapes, t),
        r == Some(SonaShape::Struct(t as usize)) ==> new_structs.len() == structs.len() + 1
            && new_structs.drop_last() == structs && decl_ok(types, shapes, t, new_structs.last()),
        r != Some(SonaShape::Struct(t as usize)) ==> new_structs == structs,
    ensures
        decls_ok(types, shapes.update(t, Some(r)), new_structs),
{
    let shapes2 = shapes.update(t, Some(r));
    assert forall|j: int| 0 <= j < new_structs.len() implies #[trigger] decl_at_ok(types, shapes2, new_structs, j) by {
        let d = new_structs[j];
        if j < structs.len() {
            assert(new_structs[j] == structs[j]);
            assert(decl_at_ok(types, shapes, structs, j));
            let u = d.type_id as int;
            assert(shapes[u] is Some);
            assert(u != t);
            assert forall|i: int| 0 <= i < d.fields@.len() implies d.fields@[i] == field_type(
                shapes2[#[trigger] fields_of(types[u])[i] as int].unwrap(),
            ) by {
                assert(fields_of(types[u])[i] != t);
            }
            assert forall|i: int| 0 <= i < d.fields@.len() implies (#[trigger] d.fields@[i] matches SonaShape::Struct(f)
                ==> declared_before(new_structs, f as int, j)) by {
                if let SonaShape::Struct(f) = d.fields@[i] {
                    assert(declared_before(structs, f as int, j));
                    let k = choose|k: int| 0 <= k < j && (#[trigger] structs[k]).type_id == f;
                    assert(new_structs[k] == structs[k]);
                }
            }
        } else {
            assert(d == new_structs.last());
            assert(d.type_id == t);
            assert forall|i: int| 0 <= i < d.fields@.len() implies d.fields@[i] == field_type(
                shapes2[#[trigger] fields_of(types[t])[i] as int].unwrap(),
            ) by {
                let x = fields_of(types[t])[i];
                assert(shapes[x as int] is Some);
                if x == t {
                    assert(shapes[t] is Some);
                }
            }
            assert forall|i: int| 0 <= i < d.fields@.len() implies (#[trigger] d.fields@[i] matches SonaShape::Struct(f)
                ==> declared_before(new_structs, f as int, j)) by {
                let x = fields_of(types[t])[i];
                assert(shapes[x as int] is Some);
                if let SonaShape::Struct(f) = d.fields@[i] {
                    assert(shapes[x as int] == Some(shape_rule(types, shapes, x as int)));
                    assert(f == x);
                    assert(declared(structs, f as int));
                    let k = choose|k: int| 0 <= k < structs.len() && (#[trigger] structs[k]).type_id == f;
                    assert(new_structs[k] == structs[k]);
                }
            }
        }
    }
}

/// Working out a type whose fields are all worked out, by the rule, and
/// declaring it where its shape is a struct type, keeps the table
/// consistent.
proof fn lemma_table_update(
    types: Seq<PlankType>,
    shapes: Seq<Option<Option<SonaShape>>>,
    structs: Seq<StructDecl>,
    depth: Seq<nat>,
    t: int,
    r: Option<SonaShape>,
    new_structs: Seq<StructDecl>,
)
    requires
        table_ok(types, shapes, structs),
        types_closed(types),
        depth_ok(types, depth),
        0 <= t < types.len(),
        shapes[t] is None,
        forall|i: int| 0 <= i < fields_of(types[t]).len() ==> (#[trigger] shapes[fields_of(types[t])[i] as int]) is Some,
        r == shape_rule(types, shapes, t),
        r == Some(SonaShape::Struct(t as usize)) ==> new_structs.len() == structs.len() + 1
            && new_structs.drop_last() == structs && decl_ok(types, shapes, t, new_structs.last()),
        r != Some(SonaShape::Struct(t as usize)) ==> new_structs == structs,
    ensures
        table_ok(types, shapes.update(t, Some(r)), new_structs),
{
    let shapes2 = shapes.update(t, Some(r));
    lemma_shapes_update(types, shapes, depth, t, r);
    lemma_decls_update(types, shapes, structs, t, r, new_structs);
    assert forall|j1: int, j2: int| 0 <= j1 < j2 < new_structs.len() implies (#[trigger] new_structs[j1]).type_id
        != (#[trigger] new_structs[j2]).type_id by {
        if j2 >= structs.len() {
            assert(new_structs[j1] == structs[j1]);
            assert(decl_at_ok(types, shapes, structs, j1));
        } else {
            assert(new_structs[j1] == structs[j1] && new_structs[j2] == structs[j2]);
        }
    }
    assert forall|u: int| 0 <= u < types.len() && (#[trigger] shapes2[u]) == Some(Some(SonaShape::Struct(u as usize)))
        implies declared(new_structs, u) by {
        if u == t {
            assert(new_structs[structs.len() as int].type_id == t);
        } else {
            assert(declared(structs, u));
            let k = choose|k: int| 0 <= k < structs.len() && (#[trigger] structs[k]).type_id == u;
            assert(new_structs[k] == structs[k]);
        }
    }
}

proof fn lemma_closure_prepend(types: Seq<PlankType>, t: int, j: int, u: int)
    requires
        0 <= t < types.len(),
        t <= usize::MAX,
        0 <= j < fields_of(types[t]).len(),
        in_closure(types, set![fields_of(types[t])[j] as int], u),
    ensures
        in_closure(types, set![t], u),
{
    let f = fields_of(types[t])[j];
    let path = choose|path: Seq<usize>|
        path.len() > 0 && set![f as int].contains(path[0] as int) && field_chain(types, path) && path.last() == u;
    let p2 = seq![t as usize] + path;
    assert forall|i: int| 0 <= i < p2.len() - 1 implies #[trigger] field_step(types, p2[i], p2[i + 1]) by {
        if i == 0 {
            assert(p2[0] == t as usize && p2[1] == path[0]);
            assert(path[0] == f);
            assert(fields_of(types[t])[j] == p2[1]);
        } else {
            let k = i - 1;
            assert(p2[i] == path[k] && p2[i + 1] == path[k + 1]);
            assert(field_step(types, path[k], path[k + 1]));
        }
    }
    assert(p2.last() == path.last());
    assert(p2.len() > 0 && set![t].contains(p2[0] as int) && field_chain(types, p2) && p2.last() == u);
}

/// Where a consistent table grows into another consistent one, and every
/// type newly worked out is reached from `roots`, so is every type newly
/// declared.
proof fn lemma_new_decls_in_closure(
    types: Seq<PlankType>,
    old_shapes: Seq<Option<Option<SonaShape>>>,
    old_structs: Seq<StructDecl>,
    shapes: Seq<Option<Option<SonaShape>>>,
    structs: Seq<StructDecl>,
    roots: Set<int>,
)
    requires
        table_ok(types, old_shapes, old_structs),
        table_ok(types, shapes, structs),
        table_extends(old_shapes, old_structs, shapes, structs),
        forall|u: int|
            0 <= u < types.len() && (#[trigger] shapes[u]) is Some && old_shapes[u] is None
                ==> in_closure(types, roots, u),
    ensures
        forall|j: int|
            old_structs.len() <= j < structs.len() ==> in_closure(types, roots, (#[trigger] structs[j]).type_id as int),
{
    assert forall|j: int| old_structs.len() <= j < structs.len() implies in_closure(
        types,
        roots,
        (#[trigger] structs[j]).type_id as int,
    ) by {
        assert(decl_at_ok(types, shapes, structs, j));
        let u = structs[j].type_id as int;
        if old_shapes[u] is Some {
            assert(shapes[u] == old_shapes[u]);
            assert(declared(old_structs, u));
            let k = choose|k: int| 0 <= k < old_structs.len() && (#[trigger] old_structs[k]).type_id == u;
            assert(structs[k] == old_structs[k]);
            assert(structs[k].type_id != structs[j].type_id);
        }
    }
}

/// The runtime shape worked out for a primitive type: no runtime value for
/// `void` and `never`, a one-bit value for `bool`, and a 256-bit word for
/// `u256` and for a memory pointer alike.
pub proof fn lemma_primitive_shapes(types: Seq<PlankType>, shapes: Seq<Option<Option<SonaShape>>>, t: int)
    requires
        shapes_ok(types, shapes),
        0 <= t < types.len(),
        shapes[t] is Some,
    ensures
        types[t] == PlankType::Primitive(PrimitiveType::Void) ==> shapes[t] == Some(None::<SonaShape>),
        types[t] == PlankType::Primitive(PrimitiveType::Never) ==> shapes[t] == Some(None::<SonaShape>),
        types[t] == PlankType::Primitive(PrimitiveType::Bool) ==> shapes[t] == Some(Some(SonaShape::I1)),
        types[t] == PlankType::Primitive(PrimitiveType::U256) ==> shapes[t] == Some(Some(SonaShape::I256)),
        types[t] == PlankType::Primitive(PrimitiveType::MemoryPointer) ==> shapes[t] == Some(
            Some(SonaShape::I256),
        ),
{
    assert(shapes[t] == Some(shape_rule(types, shapes, t)));
}

/// Works out the runtime shape of type `t`, first those of its fields, and
/// declares the struct types that need it, each once, after those of its
/// fields. Entries are only added, never changed. A type already worked out
/// comes back from the table, which stays as it was, so a second call for
/// the same type changes nothing; otherwise the new entries and declarations
/// are for `t` and the types reached from it through fields, and a type with
/// no runtime shape declares nothing.
pub fn declare_runtime_shape(
    table: &mut ShapeTable,
    types: &[PlankType],
    t: usize,
    Ghost(depth): Ghost<Seq<nat>>,
    Ghost(roots): Ghost<Set<int>>,
) -> (shape: Option<SonaShape>)
    requires
        table_ok(types@, shape_seq(old(table).shapes@, types@.len()), old(table).structs@),
        shapes_within(types@, roots, shape_seq(old(table).shapes@, types@.len())),
        in_closure(types@, roots, t as int),
        types_closed(types@),
        depth_ok(types@, depth),
        closure_runtime_only(types@, roots),
        t < types@.len(),
    ensures
        table_ok(types@, shape_seq(final(table).shapes@, types@.len()), final(table).structs@),
        shapes_within(types@, roots, shape_seq(final(table).shapes@, types@.len())),
        table_extends(shape_seq(old(table).shapes@, types@.len()), old(table).structs@, shape_seq(final(table).shapes@, types@.len()), final(table).structs@),
        shape_seq(final(table).shapes@, types@.len())[t as int] == Some(shape),
        forall|u: int|
            0 <= u < types@.len() && (#[trigger] shape_seq(final(table).shapes@, types@.len())[u]) is Some && shape_seq(old(table).shapes@, types@.len())[u] is None
                ==> depth[u] <= depth[t as int],
        shape_seq(old(table).shapes@, types@.len())[t as int] is Some ==> shape_seq(final(table).shapes@, types@.len()) == shape_seq(old(table).shapes@, types@.len())
            && final(table).structs@ == old(table).structs@,
        forall|u: int|
            0 <= u < types@.len() && (#[trigger] shape_seq(final(table).shapes@, types@.len())[u]) is Some && shape_seq(old(table).shapes@, types@.len())[u] is None
                ==> in_closure(types@, set![t as int], u),
        forall|j: int|
            old(table).structs@.len() <= j < final(table).structs@.len() ==> in_closure(
                types@,
                set![t as int],
                (#[trigger] final(table).structs@[j]).type_id as int,
            ),
        shape is None ==> final(table).structs@ == old(table).structs@,
    decreases depth[t as int],
{
    match table.shapes.get(&t) {
        Some(shape) => {
            return *shape;
        },
        None => {},
    }
    let ghost old_shapes = shape_seq(table.shapes@, types@.len());
    let ghost old_structs = table.structs@;
    let ghost types_s = types@;
    let ghost mut structs_b = table.structs@;
    let shape: Option<SonaShape> = match &types[t] {
        PlankType::Primitive(p) => match p {
            PrimitiveType::Void | PrimitiveType::Never => None,
            PrimitiveType::Bool => Some(SonaShape::I1),
            PrimitiveType::U256 | PrimitiveType::MemoryPointer => Some(SonaShape::I256),
            PrimitiveType::Function | PrimitiveType::Type => {
                proof {
                    assert(is_comptime(types_s[t as int]));
                    assert(false);
                }
                None
            },
        },
        PlankType::Struct(fields) => {
            let ghost start_shapes = shape_seq(table.shapes@, types@.len());
            let ghost start_structs = table.structs@;
            let mut field_types: Vec<SonaShape> = Vec::new();
            let mut any_runtime = false;
            let mut i: usize = 0;
            while i < fields.len()
                invariant
                    types_s == types@,
                    types_s[t as int] == PlankType::Struct(*fields),
                    table_ok(types_s, shape_seq(table.shapes@, types@.len()), table.structs@),
                    shapes_within(types_s, roots, shape_seq(table.shapes@, types@.len())),
                    in_closure(types_s, roots, t as int),
                    table_extends(start_shapes, start_structs, shape_seq(table.shapes@, types@.len()), table.structs@),
                    types_closed(types_s),
                    depth_ok(types_s, depth),
                    closure_runtime_only(types_s, roots),
                    t < types_s.len(),
                    start_shapes[t as int] is None,
                    shape_seq(table.shapes@, types@.len())[t as int] is None,
                    i <= fields@.len(),
                    field_types@.len() == i,
                    forall|u: int|
                        0 <= u < types_s.len() && (#[trigger] shape_seq(table.shapes@, types@.len())[u]) is Some && start_shapes[u] is None
                            ==> depth[u] < depth[t as int],
                    forall|k: int| 0 <= k < i ==> (#[trigger] shape_seq(table.shapes@, types@.len())[fields@[k] as int]) is Some,
                    forall|k: int|
                        0 <= k < i ==> field_types@[k] == field_type(
                            #[trigger] shape_seq(table.shapes@, types@.len())[fields@[k] as int].unwrap(),
                        ),
                    any_runtime <==> exists|k: int|
                        0 <= k < i && (#[trigger] shape_seq(table.shapes@, types@.len())[fields@[k] as int]) matches Some(Some(_)),
                    forall|u: int|
                        0 <= u < types_s.len() && (#[trigger] shape_seq(table.shapes@, types@.len())[u]) is Some && start_shapes[u] is None
                            ==> in_closure(types_s, set![t as int], u),
                    !any_runtime ==> table.structs@ == start_structs,
                decreases fields@.len() - i,
            {
                let f = fields[i];
                proof {
                    assert(fields_of(types_s[t as int])[i as int] == f);
                    assert(depth[f as int] < depth[t as int]);
                    assert(f < types_s.len());
                    lemma_closure_field(types_s, roots, t as int, i as int);
                }
                let ghost before_shapes = shape_seq(table.shapes@, types@.len());
                let fs = declare_runtime_shape(table, types, f, Ghost(depth), Ghost(roots));
                proof {
                    assert forall|k: int| 0 <= k < i implies #[trigger] shape_seq(table.shapes@, types@.len())[fields@[k] as int]
                        == before_shapes[fields@[k] as int] by {}
                    assert forall|u: int|
                        0 <= u < types_s.len() && (#[trigger] shape_seq(table.shapes@, types@.len())[u]) is Some && start_shapes[u] is None
                            implies in_closure(types_s, set![t as int], u) by {
                        if before_shapes[u] is None {
                            lemma_closure_prepend(types_s, t as int, i as int, u);
                        }
                    }
                }
                field_types.push(
                    match fs {
                        Some(shape) => shape,
                        None => SonaShape::Unit,
                    },
                );
                if fs.is_some() {
                    any_runtime = true;
                }
                i = i + 1;
            }
            proof {
                assert(fields@ == fields_of(types_s[t as int]));
                assert(forall|k: int| 0 <= k < fields@.len() ==> (#[trigger] shape_seq(table.shapes@, types@.len())[fields@[k] as int]) is Some);
            }
            proof {
                structs_b = table.structs@;
            }
            if any_runtime {
                let decl = StructDecl { type_id: t, name: struct_name_exec(t), fields: field_types };
                proof {
                    assert(decl_ok(types_s, shape_seq(table.shapes@, types@.len()), t as int, decl));
                }
                table.structs.push(decl);
                proof {
                    assert(table.structs@.drop_last() == structs_b);
                }
                Some(SonaShape::Struct(t))
            } else {
                None
            }
        },
    };
    proof {
        assert(shape == shape_rule(types_s, shape_seq(table.shapes@, types@.len()), t as int));
        lemma_table_update(types_s, shape_seq(table.shapes@, types@.len()), structs_b, depth, t as int, shape, table.structs@);
    }
    let ghost before_set = shape_seq(table.shapes@, types@.len());
    table.shapes.insert(t, shape);
    proof {
        assert(shape_seq(table.shapes@, types@.len()) =~= before_set.update(t as int, Some(shape)));
        lemma_root_in_closure(types_s, set![t as int], t as int);
        assert forall|u: int|
            0 <= u < types_s.len() && (#[trigger] shape_seq(table.shapes@, types@.len())[u]) is Some && old_shapes[u] is None implies in_closure(
            types_s,
            set![t as int],
            u,
        ) by {
            if u != t as int {
                assert(before_set[u] is Some);
            }
        }
        lemma_new_decls_in_closure(types_s, old_shapes, old_structs, shape_seq(table.shapes@, types@.len()), table.structs@, set![t as int]);
        assert forall|u: int| 0 <= u < shape_seq(table.shapes@, types@.len()).len() && (#[trigger] shape_seq(table.shapes@, types@.len())[u]) is Some implies in_closure(
            types_s,
            roots,
            u,
        ) by {
            if u != t {
                assert(before_set[u] is Some);
            }
        }
    }
    shape
}

/// Whether a function is visible outside the module.
#[derive(Debug, Clone, Copy, PartialEq, Eq, Structural)]
pub enum Linkage {
    Public,
    Private,
}

/// The declaration of a Sonatina function: its name, linkage, argument
/// types and return types.
#[derive(Debug, Clone)]
pub struct FunctionDecl {
    pub name: String,
    pub linkage: Linkage,
    pub args: Vec<SonaShape>,
    pub returns: Vec<SonaShape>,
}

/// The module that lowering builds, in the order it is built: the struct
/// types, the functions (one per MIR function, in order), and the contract
/// object, whose init section enters at `init` and, where there is a runtime
/// entry point, embeds the runtime section, which enters at `run`.
#[derive(Debug, Clone)]
pub struct ModulePlan {
    pub shapes: HashMap<usize, Option<SonaShape>>,
    pub structs: Vec<StructDecl>,
    pub functions: Vec<FunctionDecl>,
    pub init: usize,
    pub run: Option<usize>,
    pub embed_runtime: bool,
}

/// The name of MIR function `f`: `init` and `run` for the two entry points,
/// and `fn_` followed by its index otherwise.
pub open spec fn function_name(f: nat, init: nat, run: Option<usize>) -> Seq<char> {
    if f == init {
        "init"@
    } else if run == Some(f as usize) {
        "run"@
    } else {
        "fn_"@ + decimal(f)
    }
}

/// The entry points are public, every other function private.
pub open spec fn function_linkage(f: nat, init: nat, run: Option<usize>) -> Linkage {
    if f == init || run == Some(f as usize) {
        Linkage::Public
    } else {
        Linkage::Private
    }
}

/// The argument types of a function: the shapes of its first `n`
/// parameters' types, leaving out those without a runtime value.
pub open spec fn arg_shapes(
    shapes: Seq<Option<Option<SonaShape>>>,
    locals: Seq<usize>,
    params: Seq<usize>,
    n: nat,
) -> Seq<SonaShape>
    decreases n,
{
    if n == 0 {
        Seq::empty()
    } else {
        let rest = arg_shapes(shapes, locals, params, (n - 1) as nat);
        match shapes[locals[params[n - 1] as int] as int] {
            Some(Some(s)) => rest.push(s),
            _ => rest,
        }
    }
}

/// The return types of a function: the shape of its return type, or none.
pub open spec fn return_shapes(shapes: Seq<Option<Option<SonaShape>>>, return_type: usize) -> Seq<SonaShape> {
    match shapes[return_type as int] {
        Some(Some(s)) => seq![s],
        _ => Seq::empty(),
    }
}

/// The functions' local, parameter and return types are types of the table,
/// the parameters are locals, and the entry points are functions.
pub open spec fn mir_indices_ok(mir: MirModel) -> bool {
    &&& mir.init < mir.fns@.len()
    &&& mir.run matches Some(r) ==> r < mir.fns@.len()
    &&& forall|f: int| 0 <= f < mir.fns@.len() ==> {
        let func = #[trigger] mir.fns@[f];
        &&& func.return_type < mir.types@.len()
        &&& forall|k: int| 0 <= k < func.locals@.len() ==> #[trigger] func.locals@[k] < mir.types@.len()
        &&& forall|k: int| 0 <= k < func.params@.len() ==> #[trigger] func.params@[k] < func.locals@.len()
    }
}

/// Type `u` is a local or the return type of some function.
pub open spec fn is_fn_type(mir: MirModel, u: int) -> bool {
    exists|f: int|
        0 <= f < mir.fns@.len() && (mir.fns@[f].return_type == u || exists|k: int|
            0 <= k < mir.fns@[f].locals@.len() && #[trigger] mir.fns@[f].locals@[k] == u)
}

/// The local and return types of all functions.
pub open spec fn fn_types(mir: MirModel) -> Set<int> {
    Set::new(|u: int| is_fn_type(mir, u))
}

proof fn lemma_chain_prefix(types: Seq<PlankType>, path: Seq<usize>)
    requires
        path.len() > 1,
        field_chain(types, path),
    ensures
        field_chain(types, path.drop_last()),
{
    let prefix = path.drop_last();
    assert forall|i: int| 0 <= i < prefix.len() - 1 implies #[trigger] field_step(types, prefix[i], prefix[i + 1]) by {
        assert(prefix[i] == path[i] && prefix[i + 1] == path[i + 1]);
        assert(field_step(types, path[i], path[i + 1]));
    }
}

/// Along a chain of fields that starts at a worked-out type, every type is
/// worked out, since the table works out the fields of each type it holds.
proof fn lemma_chain_worked_out(types: Seq<PlankType>, shapes: Seq<Option<Option<SonaShape>>>, path: Seq<usize>)
    requires
        shapes_ok(types, shapes),
        types_closed(types),
        path.len() > 0,
        path[0] < types.len(),
        shapes[path[0] as int] is Some,
        field_chain(types, path),
    ensures
        path.last() < types.len(),
        shapes[path.last() as int] is Some,
    decreases path.len(),
{
    if path.len() > 1 {
        let prefix = path.drop_last();
        lemma_chain_prefix(types, path);
        assert(prefix[0] == path[0]);
        lemma_chain_worked_out(types, shapes, prefix);
        let i = path.len() - 2;
        let p = path[i];
        assert(prefix.last() == p);
        assert(field_step(types, path[i], path[i + 1]));
        let j = choose|j: int|
            0 <= j < fields_of(types[path[i] as int]).len() && #[trigger] fields_of(types[path[i] as int])[j]
                == path[i + 1];
        assert(fields_of(types[p as int])[j] < types.len());
        assert(shapes[fields_of(types[p as int])[j] as int] is Some);
        assert(path.last() == path[i + 1]);
    }
}

/// Every function's local and return types are worked out.
pub open spec fn fn_types_known(mir: MirModel, shapes: Seq<Option<Option<SonaShape>>>, n: int) -> bool {
    forall|f: int| 0 <= f < n ==> {
        let func = #[trigger] mir.fns@[f];
        &&& shapes[func.return_type as int] is Some
        &&& forall|k: int| 0 <= k < func.locals@.len() ==> shapes[#[trigger] func.locals@[k] as int] is Some
    }
}

proof fn lemma_known_kept(
    mir: MirModel,
    old_shapes: Seq<Option<Option<SonaShape>>>,
    old_structs: Seq<StructDecl>,
    shapes: Seq<Option<Option<SonaShape>>>,
    structs: Seq<StructDecl>,
    n: int,
)
    requires
        mir_indices_ok(mir),
        n <= mir.fns@.len(),
        old_shapes.len() == mir.types@.len(),
        fn_types_known(mir, old_shapes, n),
        table_extends(old_shapes, old_structs, shapes, structs),
    ensures
        fn_types_known(mir, shapes, n),
{
    assert forall|f: int| 0 <= f < n implies {
        let func = #[trigger] mir.fns@[f];
        &&& shapes[func.return_type as int] is Some
        &&& forall|k: int| 0 <= k < func.locals@.len() ==> shapes[#[trigger] func.locals@[k] as int] is Some
    } by {
        let func = mir.fns@[f];
        assert(old_shapes[func.return_type as int] is Some);
        assert forall|k: int| 0 <= k < func.locals@.len() implies shapes[#[trigger] func.locals@[k] as int] is Some by {
            assert(old_shapes[func.locals@[k] as int] is Some);
        }
    }
}

proof fn lemma_closure_worked_out(mir: MirModel, shapes: Seq<Option<Option<SonaShape>>>, u: int)
    requires
        shapes_ok(mir.types@, shapes),
        types_closed(mir.types@),
        mir_indices_ok(mir),
        fn_types_known(mir, shapes, mir.fns@.len() as int),
        in_closure(mir.types@, fn_types(mir), u),
    ensures
        shapes[u] is Some,
{
    let types = mir.types@;
    let path = choose|path: Seq<usize>|
        path.len() > 0 && fn_types(mir).contains(path[0] as int) && field_chain(types, path) && path.last() == u;
    let r = path[0] as int;
    assert(is_fn_type(mir, r));
    let f = choose|f: int|
        0 <= f < mir.fns@.len() && (mir.fns@[f].return_type == r || exists|k: int|
            0 <= k < mir.fns@[f].locals@.len() && #[trigger] mir.fns@[f].locals@[k] == r);
    let func = mir.fns@[f];
    assert(func == mir.fns@[f]);
    if func.return_type != r {
        let k = choose|k: int| 0 <= k < func.locals@.len() && #[trigger] func.locals@[k] == r;
        assert(func.locals@[k] < types.len());
        assert(shapes[func.locals@[k] as int] is Some);
    }
    lemma_chain_worked_out(types, shapes, path);
}

fn function_name_exec(f: usize, init: usize, run: Option<usize>) -> (name: String)
    ensures
        name@ == function_name(f as nat, init as nat, run),
{
    if f == init {
        String::from_str("init")
    } else if run == Some(f) {
        String::from_str("run")
    } else {
        let mut name = String::from_str("fn_");
        push_decimal(&mut name, f as u64);
        name
    }
}

/// The declaration of MIR function `f`: its name, its linkage, and the
/// runtime shapes of its parameters and of its return type, where they
/// have one.
fn plan_function(shapes: &HashMap<usize, Option<SonaShape>>, mir: &MirModel, f: usize) -> (d: FunctionDecl)
    requires
        mir_indices_ok(*mir),
        f < mir.fns@.len(),
    ensures
        ({
            let func = mir.fns@[f as int];
            let fs = shape_seq(shapes@, mir.types@.len());
            &&& d.name@ == function_name(f as nat, mir.init as nat, mir.run)
            &&& d.linkage == function_linkage(f as nat, mir.init as nat, mir.run)
            &&& d.args@ == arg_shapes(fs, func.locals@, func.params@, func.params@.len())
            &&& d.returns@ == return_shapes(fs, func.return_type)
        }),
{
    let ghost fs = shape_seq(shapes@, mir.types@.len());
    let func = &mir.fns[f];
    assert(func.return_type < mir.types@.len());
    let mut args: Vec<SonaShape> = Vec::new();
    let mut p: usize = 0;
    while p < func.params.len()
        invariant
            fs == shape_seq(shapes@, mir.types@.len()),
            mir_indices_ok(*mir),
            f < mir.fns@.len(),
            *func == mir.fns@[f as int],
            p <= func.params@.len(),
            args@ == arg_shapes(fs, func.locals@, func.params@, p as nat),
        decreases func.params@.len() - p,
    {
        let local = func.params[p];
        let ty = func.locals[local];
        let got = shapes.get(&ty);
        proof {
            assert(fs[ty as int] == (if shapes@.contains_key(ty) {
                Some(shapes@[ty])
            } else {
                None
            }));
        }
        match got {
            Some(Some(s)) => args.push(*s),
            _ => {},
        }
        p = p + 1;
    }
    let mut results: Vec<SonaShape> = Vec::new();
    let got = shapes.get(&func.return_type);
    proof {
        assert(fs[func.return_type as int] == (if shapes@.contains_key(func.return_type) {
            Some(shapes@[func.return_type])
        } else {
            None
        }));
    }
    match got {
        Some(Some(s)) => results.push(*s),
        _ => {},
    }
    assert(results@ =~= return_shapes(fs, func.return_type));
    let linkage = if f == mir.init || mir.run == Some(f) {
        Linkage::Public
    } else {
        Linkage::Private
    };
    FunctionDecl { name: function_name_exec(f, mir.init, mir.run), linkage, args, returns: results }
}

/// Plans the Sonatina module for a MIR program: first the runtime shape of
/// every local and return type of every function (declaring struct types as
/// needed), then each function's signature, then the contract object.
pub fn plan_module(mir: &MirModel) -> (plan: ModulePlan)
    requires
        types_closed(mir.types@),
        mir_indices_ok(*mir),
        exists|depth: Seq<nat>| depth_ok(mir.types@, depth),
        closure_runtime_only(mir.types@, fn_types(*mir)),
    ensures
        table_ok(mir.types@, shape_seq(plan.shapes@, mir.types@.len()), plan.structs@),
        fn_types_known(*mir, shape_seq(plan.shapes@, mir.types@.len()), mir.fns@.len() as int),
        forall|u: int|
            0 <= u < mir.types@.len() ==> ((#[trigger] shape_seq(plan.shapes@, mir.types@.len())[u]) is Some <==> in_closure(
                mir.types@,
                fn_types(*mir),
                u,
            )),
        plan.functions@.len() == mir.fns@.len(),
        forall|f: int| 0 <= f < mir.fns@.len() ==> {
            let d = #[trigger] plan.functions@[f];
            let func = mir.fns@[f];
            &&& d.name@ == function_name(f as nat, mir.init as nat, mir.run)
            &&& d.linkage == function_linkage(f as nat, mir.init as nat, mir.run)
            &&& d.args@ == arg_shapes(shape_seq(plan.shapes@, mir.types@.len()), func.locals@, func.params@, func.params@.len())
            &&& d.returns@ == return_shapes(shape_seq(plan.shapes@, mir.types@.len()), func.return_type)
        },
        plan.init == mir.init,
        plan.run == mir.run,
        plan.embed_runtime == mir.run is Some,
{
    let ghost depth = choose|depth: Seq<nat>| depth_ok(mir.types@, depth);
    let types = mir.types.as_slice();
    let ghost roots = fn_types(*mir);
    let mut table = ShapeTable { shapes: HashMap::new(), structs: Vec::new() };
    assert(shape_seq(table.shapes@, types@.len()) =~= Seq::new(types@.len(), |u: int| None));
    assert(table_ok(types@, shape_seq(table.shapes@, types@.len()), table.structs@));
    assert(shapes_within(types@, roots, shape_seq(table.shapes@, types@.len())));
    let mut f: usize = 0;
    while f < mir.fns.len()
        invariant
            types@ == mir.types@,
            types_closed(types@),
            mir_indices_ok(*mir),
            depth_ok(types@, depth),
            closure_runtime_only(types@, fn_types(*mir)),
            table_ok(types@, shape_seq(table.shapes@, types@.len()), table.structs@),
            roots == fn_types(*mir),
            shapes_within(types@, roots, shape_seq(table.shapes@, types@.len())),
            f <= mir.fns@.len(),
            fn_types_known(*mir, shape_seq(table.shapes@, types@.len()), f as int),
        decreases mir.fns@.len() - f,
    {
        let func = &mir.fns[f];
        assert(func.return_type < types@.len());
        let mut k: usize = 0;
        while k < func.locals.len()
            invariant
                types@ == mir.types@,
                types_closed(types@),
                mir_indices_ok(*mir),
                depth_ok(types@, depth),
                closure_runtime_only(types@, fn_types(*mir)),
                table_ok(types@, shape_seq(table.shapes@, types@.len()), table.structs@),
                roots == fn_types(*mir),
                shapes_within(types@, roots, shape_seq(table.shapes@, types@.len())),
                f < mir.fns@.len(),
                *func == mir.fns@[f as int],
                k <= func.locals@.len(),
                fn_types_known(*mir, shape_seq(table.shapes@, types@.len()), f as int),
                forall|j: int| 0 <= j < k ==> shape_seq(table.shapes@, types@.len())[#[trigger] func.locals@[j] as int] is Some,
            decreases func.locals@.len() - k,
        {
            let ghost s0 = shape_seq(table.shapes@, types@.len());
            let ghost d0 = table.structs@;
            let ty = func.locals[k];
            proof {
                assert(is_fn_type(*mir, ty as int));
                lemma_root_in_closure(types@, roots, ty as int);
            }
            declare_runtime_shape(&mut table, types, ty, Ghost(depth), Ghost(roots));
            proof {
                lemma_known_kept(*mir, s0, d0, shape_seq(table.shapes@, types@.len()), table.structs@, f as int);
                assert forall|j: int| 0 <= j < k + 1 implies shape_seq(table.shapes@, types@.len())[#[trigger] func.locals@[j] as int] is Some by {
                    if j < k {
                        assert(s0[func.locals@[j] as int] is Some);
                    }
                }
            }
            k = k + 1;
        }
        let ghost s0 = shape_seq(table.shapes@, types@.len());
        let ghost d0 = table.structs@;
        proof {
            assert(is_fn_type(*mir, func.return_type as int));
            lemma_root_in_closure(types@, roots, func.return_type as int);
        }
        declare_runtime_shape(&mut table, types, func.return_type, Ghost(depth), Ghost(roots));
        proof {
            lemma_known_kept(*mir, s0, d0, shape_seq(table.shapes@, types@.len()), table.structs@, f as int);
            assert forall|j: int| 0 <= j < func.locals@.len() implies shape_seq(table.shapes@, types@.len())[#[trigger] func.locals@[j] as int] is Some by {
                assert(s0[func.locals@[j] as int] is Some);
            }
            assert(fn_types_known(*mir, shape_seq(table.shapes@, types@.len()), f + 1));
        }
        f = f + 1;
    }
    proof {
        assert forall|u: int| 0 <= u < mir.types@.len() implies ((#[trigger] shape_seq(table.shapes@, types@.len())[u]) is Some
            <==> in_closure(mir.types@, fn_types(*mir), u)) by {
            if in_closure(mir.types@, fn_types(*mir), u) {
                lemma_closure_worked_out(*mir, shape_seq(table.shapes@, types@.len()), u);
            }
        }
    }
    let ghost fs = shape_seq(table.shapes@, types@.len());
    let mut functions: Vec<FunctionDecl> = Vec::new();
    let mut f: usize = 0;
    while f < mir.fns.len()
        invariant
            fs == shape_seq(table.shapes@, mir.types@.len()),
            mir_indices_ok(*mir),
            f <= mir.fns@.len(),
            functions@.len() == f,
            forall|g: int| 0 <= g < f ==> {
                let d = #[trigger] functions@[g];
                let func = mir.fns@[g];
                &&& d.name@ == function_name(g as nat, mir.init as nat, mir.run)
                &&& d.linkage == function_linkage(g as nat, mir.init as nat, mir.run)
                &&& d.args@ == arg_shapes(fs, func.locals@, func.params@, func.params@.len())
                &&& d.returns@ == return_shapes(fs, func.return_type)
            },
        decreases mir.fns@.len() - f,
    {
        let d = plan_function(&table.shapes, mir, f);
        functions.push(d);
        f = f + 1;
    }
    ModulePlan {
        shapes: table.shapes,
        structs: table.structs,
        functions,
        init: mir.init,
        run: mir.run,
        embed_runtime: mir.run.is_some(),
    }
}

} // verus!
