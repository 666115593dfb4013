//! The stated laws of the library: what normalization does to primitive
//! declarations, how self-referential and shared struct definitions are
//! deduplicated and kept from expanding forever, that normalization is a
//! function of the schema source alone, and what a walk of a fully inline
//! schema tree emits.

use vstd::prelude::*;
use crate::normalize::{
    float_node, int_node, norm_fields_spec, norm_other_spec, norm_spec, normalized_schema,
    num_bits, prefix4, ref_node, struct_canonical, valid_float_bits, valid_int_bits, SchemaError,
};
use crate::schema::{undefined_node, DataType, DefV, TypeSchemaV, TypeV};
use crate::serialize::{build_step, is_container, rdf_type_uri, BuilderV};
use crate::text::{all_digits, dec_str, dec_val, digit_char, digit_val, is_digit, starts_with};
use crate::walker::{push_children, walker_expand};

verus! {

/// The declaration string of an integer primitive: the sign prefix and
/// the decimal bit width.
pub open spec fn int_decl(signed: bool, bits: nat) -> Seq<char> {
    seq![if signed { 'i' } else { 'u' }] + dec_str(bits)
}

/// The declaration string of a floating-point primitive.
pub open spec fn float_decl(bits: nat) -> Seq<char> {
    seq!['f'] + dec_str(bits)
}

/// Every character of a decimal rendering is a digit, and the rendering
/// is never empty.
proof fn lemma_dec_str_digits(n: nat)
    ensures
        all_digits(dec_str(n)),
        dec_str(n).len() >= 1,
    decreases n,
{
    if n < 10 {
    } else {
        lemma_dec_str_digits(n / 10);
        assert forall|i: int| 0 <= i < dec_str(n).len() implies is_digit(dec_str(n)[i]) by {
            if i < dec_str(n / 10).len() {
                assert(dec_str(n)[i] == dec_str(n / 10)[i]);
            } else {
                assert(dec_str(n)[i] == digit_char(n % 10));
            }
        }
    }
}

/// Appending a digit multiplies the value by ten and adds the digit.
proof fn lemma_dec_val_push(s: Seq<char>, c: char)
    ensures
        dec_val(s.push(c)) == dec_val(s) * 10 + digit_val(c),
{
    assert(s.push(c).drop_last() =~= s);
}

/// Reading a decimal rendering back gives the rendered number.
proof fn lemma_dec_str_val(n: nat)
    ensures
        dec_val(dec_str(n)) == n,
    decreases n,
{
    if n < 10 {
        let s = dec_str(n);
        assert(s.drop_last() =~= Seq::<char>::empty());
        assert(dec_val(s.drop_last()) == 0);
        assert(digit_val(digit_char(n)) == n);
    } else {
        lemma_dec_str_val(n / 10);
        lemma_dec_val_push(dec_str(n / 10), digit_char(n % 10));
        assert(digit_val(digit_char(n % 10)) == n % 10);
    }
}

/// A string whose first character is none of `H`, `O`, `R` has none of
/// the four reserved parametric prefixes.
proof fn lemma_not_prefix4(decl: Seq<char>)
    requires
        decl.len() > 0,
        decl[0] != 'H',
        decl[0] != 'O',
        decl[0] != 'R',
    ensures
        !prefix4(decl),
{
    reveal_strlit("HashSet<");
    reveal_strlit("HashMap<");
    reveal_strlit("Option<");
    reveal_strlit("Result<");
    proof_prefix_first_char(decl, "HashSet<"@, 'H');
    proof_prefix_first_char(decl, "HashMap<"@, 'H');
    proof_prefix_first_char(decl, "Option<"@, 'O');
    proof_prefix_first_char(decl, "Result<"@, 'R');
}

/// If a string starts with a prefix, their first characters agree.
proof fn proof_prefix_first_char(s: Seq<char>, p: Seq<char>, c: char)
    requires
        p.len() > 0,
    ensures
        starts_with(s, p) && p[0] == c ==> s[0] == c,
{
    if starts_with(s, p) {
        assert(s.subrange(0, p.len() as int)[0] == s[0]);
    }
}

/// A primitive declaration parses back to its width under its own prefix
/// and to nothing under any other prefix; and it is distinct from the
/// word-like declarations and from every definition-table lookup key that
/// starts differently.
proof fn lemma_num_decl_shape(prefix: char, bits: nat)
    requires
        prefix == 'u' || prefix == 'i' || prefix == 'f',
    ensures
        num_bits(seq![prefix] + dec_str(bits), prefix) == Option::<nat>::Some(bits),
        forall|other: char|
            other != prefix ==> num_bits(seq![prefix] + dec_str(bits), other) == Option::<
                nat,
            >::None,
        (seq![prefix] + dec_str(bits)) != "bool"@,
        (seq![prefix] + dec_str(bits)) != "string"@,
        !prefix4(seq![prefix] + dec_str(bits)),
{
    let decl = seq![prefix] + dec_str(bits);
    lemma_dec_str_digits(bits);
    lemma_dec_str_val(bits);
    assert(decl[0] == prefix);
    assert(decl.subrange(1, decl.len() as int) =~= dec_str(bits));
    assert(num_bits(decl, prefix) == Option::<nat>::Some(bits));
    assert(decl != "bool"@) by {
        reveal_strlit("bool");
        assert("bool"@[0] == 'b');
    }
    assert(decl != "string"@) by {
        reveal_strlit("string");
        assert("string"@[0] == 's');
    }
    lemma_not_prefix4(decl);
}

/// Normalizing an integer primitive declaration `u<bits>` or `i<bits>`
/// that the definition table does not override yields an `Int` leaf with
/// the declared signedness and byte length when the width is one of
/// 8, 16, 32, 64, 128 — and fails with `InvalidNumericWidth` for every
/// other width.  The term table is never touched.
pub proof fn lemma_primitive_int_normalization(
    defs: Map<Seq<char>, DefV>,
    name: Option<Seq<char>>,
    signed: bool,
    bits: nat,
    terms: Map<Seq<char>, TypeV>,
    root: bool,
    fuel: nat,
)
    requires
        fuel >= 1,
        !defs.dom().contains(int_decl(signed, bits)),
    ensures
        valid_int_bits(bits) ==> norm_spec(defs, name, int_decl(signed, bits), terms, root, fuel)
            == Result::<(TypeV, Map<Seq<char>, TypeV>), SchemaError>::Ok(
            (int_node(name, signed, bits), terms),
        ),
        !valid_int_bits(bits) ==> norm_spec(defs, name, int_decl(signed, bits), terms, root, fuel)
            == Result::<(TypeV, Map<Seq<char>, TypeV>), SchemaError>::Err(
            SchemaError::InvalidNumericWidth,
        ),
{
    let prefix = if signed { 'i' } else { 'u' };
    lemma_num_decl_shape(prefix, bits);
    let decl = int_decl(signed, bits);
    assert(decl == seq![prefix] + dec_str(bits));
    assert(num_bits(decl, prefix) == Option::<nat>::Some(bits));
    assert(num_bits(decl, if signed { 'u' } else { 'i' }) is None);
    assert(num_bits(decl, 'f') is None);
    if valid_int_bits(bits) {
        assert(norm_other_spec(defs, name, decl, terms, fuel) == Result::<
            (TypeV, Map<Seq<char>, TypeV>),
            SchemaError,
        >::Ok((int_node(name, signed, bits), terms)));
    } else {
        assert(norm_other_spec(defs, name, decl, terms, fuel) == Result::<
            (TypeV, Map<Seq<char>, TypeV>),
            SchemaError,
        >::Err(SchemaError::InvalidNumericWidth));
    }
}

/// Normalizing a floating-point primitive declaration `f<bits>` that the
/// definition table does not override yields a `Float` leaf for widths
/// 32 and 64 and fails with `InvalidNumericWidth` for every other width.
pub proof fn lemma_primitive_float_normalization(
    defs: Map<Seq<char>, DefV>,
    name: Option<Seq<char>>,
    bits: nat,
    terms: Map<Seq<char>, TypeV>,
    root: bool,
    fuel: nat,
)
    requires
        fuel >= 1,
        !defs.dom().contains(float_decl(bits)),
    ensures
        valid_float_bits(bits) ==> norm_spec(defs, name, float_decl(bits), terms, root, fuel)
            == Result::<(TypeV, Map<Seq<char>, TypeV>), SchemaError>::Ok(
            (float_node(name, bits), terms),
        ),
        !valid_float_bits(bits) ==> norm_spec(defs, name, float_decl(bits), terms, root, fuel)
            == Result::<(TypeV, Map<Seq<char>, TypeV>), SchemaError>::Err(
            SchemaError::InvalidNumericWidth,
        ),
{
    lemma_num_decl_shape('f', bits);
    let decl = float_decl(bits);
    assert(decl == seq!['f'] + dec_str(bits));
    assert(num_bits(decl, 'u') is None);
    assert(num_bits(decl, 'i') is None);
    assert(num_bits(decl, 'f') == Option::<nat>::Some(bits));
    if valid_float_bits(bits) {
        assert(norm_other_spec(defs, name, decl, terms, fuel) == Result::<
            (TypeV, Map<Seq<char>, TypeV>),
            SchemaError,
        >::Ok((float_node(name, bits), terms)));
    } else {
        assert(norm_other_spec(defs, name, decl, terms, fuel) == Result::<
            (TypeV, Map<Seq<char>, TypeV>),
            SchemaError,
        >::Err(SchemaError::InvalidNumericWidth));
    }
}

/// Normalizing a schema whose root struct holds a field of its own
/// declared type terminates with success, the root holds one reference
/// node for the field, and the term table ends with exactly one canonical
/// entry for the declaration, whose single child is again a reference —
/// never an expansion.
pub proof fn lemma_self_referential_struct(
    defs: Map<Seq<char>, DefV>,
    decl: Seq<char>,
    fname: Seq<char>,
    fuel: nat,
)
    requires
        fuel >= 3,
        !prefix4(decl),
        defs.dom().contains(decl),
        defs[decl] == (DefV::StructNamed { fields: seq![(fname, decl)] }),
    ensures
        ({
            let r = norm_spec(defs, Option::Some(decl), decl, Map::empty(), true, fuel);
            &&& r is Ok
            &&& r->Ok_0.1.dom() =~= set![decl]
            &&& r->Ok_0.1[decl] == struct_canonical(
                decl,
                seq![ref_node(DataType::Struct, Option::Some(fname), decl)],
            )
        }),
{
    let t0 = Map::<Seq<char>, TypeV>::empty();
    let t1 = t0.insert(decl, undefined_node());
    let fields = seq![(fname, decl)];
    let pairs = crate::normalize::named_pairs(fields);
    assert(pairs.len() == 1);
    assert(pairs[0] == (Option::Some(fname), decl));
    assert(pairs.drop_first() =~= Seq::<(Option<Seq<char>>, Seq<char>)>::empty());
    let empty_fields = Seq::<(Option<Seq<char>>, Seq<char>)>::empty();

    let inner_ref = ref_node(DataType::Struct, Option::Some(fname), decl);
    let f2 = (fuel - 2) as nat;
    let f1 = (fuel - 1) as nat;

    // Innermost occurrence: the reservation is already in the table, so
    // only a reference node comes back.
    assert(t1.dom().contains(decl));
    assert(norm_spec(defs, Option::Some(fname), decl, t1, false, f2) == Result::<
        (TypeV, Map<Seq<char>, TypeV>),
        SchemaError,
    >::Ok((inner_ref, t1)));
    assert(norm_fields_spec(defs, empty_fields, t1, f2) == Result::<
        (Seq<TypeV>, Map<Seq<char>, TypeV>),
        SchemaError,
    >::Ok((Seq::empty(), t1)));
    assert(seq![inner_ref] + Seq::<TypeV>::empty() =~= seq![inner_ref]);
    assert(norm_fields_spec(defs, pairs, t1, f2) == Result::<
        (Seq<TypeV>, Map<Seq<char>, TypeV>),
        SchemaError,
    >::Ok((seq![inner_ref], t1)));

    // First non-root occurrence: reserve, expand once, store the
    // canonical node.
    let canonical = struct_canonical(decl, seq![inner_ref]);
    let t2 = t1.insert(decl, canonical);
    assert(!t0.dom().contains(decl));
    assert((f1 - 1) as nat == f2);
    assert(norm_spec(defs, Option::Some(fname), decl, t0, false, f1) == Result::<
        (TypeV, Map<Seq<char>, TypeV>),
        SchemaError,
    >::Ok((inner_ref, t2)));
    assert(norm_fields_spec(defs, empty_fields, t2, f1) == Result::<
        (Seq<TypeV>, Map<Seq<char>, TypeV>),
        SchemaError,
    >::Ok((Seq::empty(), t2)));
    assert(norm_fields_spec(defs, pairs, t0, f1) == Result::<
        (Seq<TypeV>, Map<Seq<char>, TypeV>),
        SchemaError,
    >::Ok((seq![inner_ref], t2)));

    // The root expansion itself.
    assert((fuel - 1) as nat == f1);
    let r = norm_spec(defs, Option::Some(decl), decl, t0, true, fuel);
    assert(r is Ok);
    assert(r->Ok_0.1 == t2);
    assert(t2.dom() =~= set![decl]);
}

/// Normalizing a schema whose root struct reaches its own declared type
/// through a growable sequence also terminates with success and leaves
/// exactly one canonical entry for the declaration: the sequence child is
/// a reference node, never an expansion.
pub proof fn lemma_self_referential_through_sequence(
    defs: Map<Seq<char>, DefV>,
    decl: Seq<char>,
    vdecl: Seq<char>,
    fname: Seq<char>,
    fuel: nat,
)
    requires
        fuel >= 5,
        !prefix4(decl),
        !prefix4(vdecl),
        defs.dom().contains(decl),
        defs.dom().contains(vdecl),
        defs[decl] == (DefV::StructNamed { fields: seq![(fname, vdecl)] }),
        defs[vdecl] == (DefV::Sequence { elements: decl }),
    ensures
        ({
            let r = norm_spec(defs, Option::Some(decl), decl, Map::empty(), true, fuel);
            &&& r is Ok
            &&& r->Ok_0.1.dom() =~= set![decl]
            &&& r->Ok_0.1[decl] == struct_canonical(
                decl,
                seq![
                    crate::normalize::container_node(
                        DataType::Vec,
                        Option::Some(fname),
                        Option::None,
                        seq![ref_node(DataType::Struct, Option::None, decl)],
                    ),
                ],
            )
        }),
{
    let t0 = Map::<Seq<char>, TypeV>::empty();
    let t1 = t0.insert(decl, undefined_node());
    let fields = seq![(fname, vdecl)];
    let pairs = crate::normalize::named_pairs(fields);
    assert(pairs.len() == 1);
    assert(pairs[0] == (Option::Some(fname), vdecl));
    assert(pairs.drop_first() =~= Seq::<(Option<Seq<char>>, Seq<char>)>::empty());
    let empty_fields = Seq::<(Option<Seq<char>>, Seq<char>)>::empty();

    let ref_in = ref_node(DataType::Struct, Option::None, decl);
    let vec_node = crate::normalize::container_node(
        DataType::Vec,
        Option::Some(fname),
        Option::None,
        seq![ref_in],
    );
    let canonical = struct_canonical(decl, seq![vec_node]);
    let t2 = t1.insert(decl, canonical);
    let f1 = (fuel - 1) as nat;
    let f2 = (fuel - 2) as nat;
    let f3 = (fuel - 3) as nat;
    let f4 = (fuel - 4) as nat;
    assert((f1 - 1) as nat == f2);
    assert((f2 - 1) as nat == f3);
    assert((f3 - 1) as nat == f4);

    // Inside the reservation: the recursive occurrence is a reference.
    assert(t1.dom().contains(decl));
    assert(norm_spec(defs, Option::None, decl, t1, false, f4) == Result::<
        (TypeV, Map<Seq<char>, TypeV>),
        SchemaError,
    >::Ok((ref_in, t1)));
    assert(norm_spec(defs, Option::Some(fname), vdecl, t1, false, f3) == Result::<
        (TypeV, Map<Seq<char>, TypeV>),
        SchemaError,
    >::Ok((vec_node, t1)));
    assert(norm_fields_spec(defs, empty_fields, t1, f3) == Result::<
        (Seq<TypeV>, Map<Seq<char>, TypeV>),
        SchemaError,
    >::Ok((Seq::empty(), t1)));
    assert(seq![vec_node] + Seq::<TypeV>::empty() =~= seq![vec_node]);
    assert(norm_fields_spec(defs, pairs, t1, f3) == Result::<
        (Seq<TypeV>, Map<Seq<char>, TypeV>),
        SchemaError,
    >::Ok((seq![vec_node], t1)));

    // The one expansion of the struct, stored canonically.
    assert(!t0.dom().contains(decl));
    assert(norm_spec(defs, Option::None, decl, t0, false, f2) == Result::<
        (TypeV, Map<Seq<char>, TypeV>),
        SchemaError,
    >::Ok((ref_in, t2)));
    assert(norm_spec(defs, Option::Some(fname), vdecl, t0, false, f1) == Result::<
        (TypeV, Map<Seq<char>, TypeV>),
        SchemaError,
    >::Ok((vec_node, t2)));
    assert(norm_fields_spec(defs, empty_fields, t2, f1) == Result::<
        (Seq<TypeV>, Map<Seq<char>, TypeV>),
        SchemaError,
    >::Ok((Seq::empty(), t2)));
    assert(norm_fields_spec(defs, pairs, t0, f1) == Result::<
        (Seq<TypeV>, Map<Seq<char>, TypeV>),
        SchemaError,
    >::Ok((seq![vec_node], t2)));

    // The root expansion itself.
    let r = norm_spec(defs, Option::Some(decl), decl, t0, true, fuel);
    assert(r is Ok);
    assert(r->Ok_0.1 == t2);
    assert(t2.dom() =~= set![decl]);
}

/// Normalizing a schema whose root struct references the same child
/// struct from two different sibling fields expands the child exactly
/// once: both fields come back as reference nodes carrying the same term
/// key, and the term table ends with exactly one canonical entry for the
/// child, holding its single expansion.
pub proof fn lemma_shared_sibling_references(
    defs: Map<Seq<char>, DefV>,
    parent: Seq<char>,
    child: Seq<char>,
    n1: Seq<char>,
    n2: Seq<char>,
    fuel: nat,
)
    requires
        fuel >= 3,
        parent != child,
        !prefix4(parent),
        !prefix4(child),
        defs.dom().contains(parent),
        defs.dom().contains(child),
        defs[parent] == (DefV::StructNamed { fields: seq![(n1, child), (n2, child)] }),
        defs[child] == (DefV::StructNamed { fields: Seq::empty() }),
    ensures
        ({
            let r = norm_spec(defs, Option::Some(parent), parent, Map::empty(), true, fuel);
            &&& r is Ok
            &&& r->Ok_0.0.fields == Option::Some(
                seq![
                    ref_node(DataType::Struct, Option::Some(n1), child),
                    ref_node(DataType::Struct, Option::Some(n2), child),
                ],
            )
            &&& r->Ok_0.1.dom() =~= set![child]
            &&& r->Ok_0.1[child] == struct_canonical(child, Seq::empty())
        }),
{
    let t0 = Map::<Seq<char>, TypeV>::empty();
    let t1 = t0.insert(child, undefined_node());
    let canonical = struct_canonical(child, Seq::empty());
    let t2 = t1.insert(child, canonical);
    let parent_fields = seq![(n1, child), (n2, child)];
    let pairs = crate::normalize::named_pairs(parent_fields);
    assert(pairs.len() == 2);
    assert(pairs[0] == (Option::Some(n1), child));
    assert(pairs[1] == (Option::Some(n2), child));
    let empty_pairs = crate::normalize::named_pairs(Seq::empty());
    assert(empty_pairs =~= Seq::<(Option<Seq<char>>, Seq<char>)>::empty());
    let tail = pairs.drop_first();
    assert(tail =~= seq![(Option::Some(n2), child)]);
    assert(tail[0] == (Option::Some(n2), child));
    assert(tail.drop_first() =~= Seq::<(Option<Seq<char>>, Seq<char>)>::empty());
    let empty_fields = Seq::<(Option<Seq<char>>, Seq<char>)>::empty();

    let ref1 = ref_node(DataType::Struct, Option::Some(n1), child);
    let ref2 = ref_node(DataType::Struct, Option::Some(n2), child);
    let f2 = (fuel - 2) as nat;
    let f1 = (fuel - 1) as nat;
    assert((f1 - 1) as nat == f2);

    // First sibling: the child is expanded (into an empty list) and
    // stored canonically.
    assert(!t0.dom().contains(child));
    assert(norm_fields_spec(defs, empty_fields, t1, f2) == Result::<
        (Seq<TypeV>, Map<Seq<char>, TypeV>),
        SchemaError,
    >::Ok((Seq::empty(), t1)));
    assert(norm_spec(defs, Option::Some(n1), child, t0, false, f1) == Result::<
        (TypeV, Map<Seq<char>, TypeV>),
        SchemaError,
    >::Ok((ref1, t2)));

    // Second sibling: the entry is already there, so only a reference
    // node comes back and the table stays as it is.
    assert(t2.dom().contains(child));
    assert(norm_spec(defs, Option::Some(n2), child, t2, false, f1) == Result::<
        (TypeV, Map<Seq<char>, TypeV>),
        SchemaError,
    >::Ok((ref2, t2)));

    assert(norm_fields_spec(defs, empty_fields, t2, f1) == Result::<
        (Seq<TypeV>, Map<Seq<char>, TypeV>),
        SchemaError,
    >::Ok((Seq::empty(), t2)));
    assert(seq![ref2] + Seq::<TypeV>::empty() =~= seq![ref2]);
    assert(norm_fields_spec(defs, tail, t2, f1) == Result::<
        (Seq<TypeV>, Map<Seq<char>, TypeV>),
        SchemaError,
    >::Ok((seq![ref2], t2)));
    assert(seq![ref1] + seq![ref2] =~= seq![ref1, ref2]);
    assert(norm_fields_spec(defs, pairs, t0, f1) == Result::<
        (Seq<TypeV>, Map<Seq<char>, TypeV>),
        SchemaError,
    >::Ok((seq![ref1, ref2], t2)));

    let r = norm_spec(defs, Option::Some(parent), parent, t0, true, fuel);
    assert(r is Ok);
    assert(t2.dom() =~= set![child]);
}

/// Normalizing a zero-field struct as the schema root yields a `Struct`
/// node whose children list is present and empty, with its term key set
/// and the term table untouched.
pub proof fn lemma_zero_field_struct(
    defs: Map<Seq<char>, DefV>,
    decl: Seq<char>,
    fuel: nat,
)
    requires
        fuel >= 2,
        !prefix4(decl),
        defs.dom().contains(decl),
        defs[decl] == (DefV::StructNamed { fields: Seq::empty() }),
    ensures
        norm_spec(defs, Option::Some(decl), decl, Map::empty(), true, fuel) == Result::<
            (TypeV, Map<Seq<char>, TypeV>),
            SchemaError,
        >::Ok(
            (
                TypeV {
                    datatype: DataType::Struct,
                    name: Option::Some(decl),
                    term: Option::Some(decl),
                    signed: Option::None,
                    length: Option::None,
                    fields: Option::Some(Seq::empty()),
                },
                Map::empty(),
            ),
        ),
{
    let empty_pairs = crate::normalize::named_pairs(Seq::empty());
    assert(empty_pairs =~= Seq::<(Option<Seq<char>>, Seq<char>)>::empty());
    assert(norm_fields_spec(defs, empty_pairs, Map::empty(), (fuel - 1) as nat) == Result::<
        (Seq<TypeV>, Map<Seq<char>, TypeV>),
        SchemaError,
    >::Ok((Seq::empty(), Map::empty())));
}

/// Normalization is a function of the schema source's declarations
/// alone: two normalizations of the same source give structurally equal
/// schemas.
pub proof fn lemma_normalization_idempotent(
    defs: Map<Seq<char>, DefV>,
    decl: Seq<char>,
    r1: TypeSchemaV,
    r2: TypeSchemaV,
)
    requires
        normalized_schema(defs, decl) == Result::<TypeSchemaV, SchemaError>::Ok(r1),
        normalized_schema(defs, decl) == Result::<TypeSchemaV, SchemaError>::Ok(r2),
    ensures
        r1 == r2,
{
}

/// A container node on top of the schema stack with no enclosing
/// identity emits exactly one statement: its class assertion, never a
/// literal.  In particular a zero-field struct emits only its class
/// statement.
pub proof fn lemma_container_emits_class_only(v: BuilderV, data: Option<Seq<char>>, tk: Seq<char>)
    requires
        v.stack.len() > 0,
        is_container(v.stack.last().0.datatype),
        v.stack.last().0.datatype is Struct ==> v.stack.last().0.term is Some,
        v.uri.len() == 0,
    ensures
        ({
            let r = build_step(v, data, tk);
            &&& r is Ok
            &&& r->Ok_0.graph.len() == v.graph.len() + 1
            &&& r->Ok_0.graph.last().predicate == rdf_type_uri()
            &&& r->Ok_0.graph.last().object is Iri
        }),
{
}

/// A tree is fully inline when every node carries its children directly:
/// no node defers to the term table, and no `Undefined` sentinel hides
/// children it would not walk.
pub open spec fn inline_tree(t: TypeV) -> bool
    decreases t, 0int,
{
    match t.fields {
        Option::Some(cs) => !(t.datatype is Undefined) && inline_children(cs, 0),
        Option::None => !((t.datatype is Struct || t.datatype is Enum) && t.term is Some),
    }
}

/// The children from position `i` on are all fully inline trees.
pub open spec fn inline_children(cs: Seq<TypeV>, i: int) -> bool
    decreases cs, cs.len() - i,
{
    if i < 0 || i >= cs.len() {
        true
    } else {
        inline_tree(cs[i]) && inline_children(cs, i + 1)
    }
}

/// The manual enumeration of a tree: the node itself, then its children's
/// enumerations left to right.  Every node of the tree stands in it
/// exactly once.
pub open spec fn preorder(t: TypeV) -> Seq<TypeV>
    decreases t, 0int,
{
    seq![t] + match t.fields {
        Option::Some(cs) => preorder_children(cs, 0),
        Option::None => Seq::empty(),
    }
}

/// The enumerations of the children from position `i` on, concatenated.
pub open spec fn preorder_children(cs: Seq<TypeV>, i: int) -> Seq<TypeV>
    decreases cs, cs.len() - i,
{
    if i < 0 || i >= cs.len() {
        Seq::empty()
    } else {
        preorder(cs[i]) + preorder_children(cs, i + 1)
    }
}

/// The walker state as a whole after a number of pulls: the nodes pulled
/// in order, and the stack and visited-term guard left behind.  A pull on
/// an empty stack changes nothing.
pub open spec fn walk_run(
    terms: Map<Seq<char>, TypeV>,
    stack: Seq<(Option<TypeV>, TypeV)>,
    seen: Set<Seq<char>>,
    steps: nat,
) -> (Seq<TypeV>, Seq<(Option<TypeV>, TypeV)>, Set<Seq<char>>)
    decreases steps,
{
    if steps == 0 || stack.len() == 0 {
        (Seq::empty(), stack, seen)
    } else {
        let top = stack.last();
        let expanded = walker_expand(terms, stack.drop_last(), seen, top.1);
        let rest = walk_run(terms, expanded.0, expanded.1, (steps - 1) as nat);
        (seq![top.1] + rest.0, rest.1, rest.2)
    }
}

/// Pulling `k1 + k2` times is pulling `k1` times and then `k2` times
/// from where that left off.
proof fn lemma_walk_run_split(
    terms: Map<Seq<char>, TypeV>,
    stack: Seq<(Option<TypeV>, TypeV)>,
    seen: Set<Seq<char>>,
    k1: nat,
    k2: nat,
)
    ensures
        ({
            let a = walk_run(terms, stack, seen, k1);
            let b = walk_run(terms, a.1, a.2, k2);
            walk_run(terms, stack, seen, (k1 + k2) as nat) == (a.0 + b.0, b.1, b.2)
        }),
    decreases k1,
{
    let a = walk_run(terms, stack, seen, k1);
    let b = walk_run(terms, a.1, a.2, k2);
    if k1 == 0 {
        assert(Seq::<TypeV>::empty() + b.0 =~= b.0);
    } else if stack.len() == 0 {
        assert(a == (Seq::<TypeV>::empty(), stack, seen));
        assert(Seq::<TypeV>::empty() + b.0 =~= b.0);
        assert(b == (Seq::<TypeV>::empty(), stack, seen));
        assert(walk_run(terms, stack, seen, (k1 + k2) as nat) == (
            Seq::<TypeV>::empty(),
            stack,
            seen,
        ));
    } else {
        let top = stack.last();
        let expanded = walker_expand(terms, stack.drop_last(), seen, top.1);
        lemma_walk_run_split(terms, expanded.0, expanded.1, (k1 - 1) as nat, k2);
        let a1 = walk_run(terms, expanded.0, expanded.1, (k1 - 1) as nat);
        assert(seq![top.1] + (a1.0 + b.0) =~= (seq![top.1] + a1.0) + b.0);
    }
}

/// The frames that the children from position `i` on occupy on the
/// stack: reversed, so the `i`-th child is on top, each with `node` as
/// parent.
pub open spec fn rev_frames(node: TypeV, cs: Seq<TypeV>, i: int) -> Seq<(Option<TypeV>, TypeV)>
    recommends
        0 <= i <= cs.len(),
{
    Seq::new((cs.len() - i) as nat, |k: int| (Option::Some(node), cs[cs.len() - 1 - k]))
}

/// Pulling a fully inline tree off the stack emits exactly its pre-order
/// enumeration and restores the stack and guard beneath it.
pub proof fn lemma_walk_preorder(
    terms: Map<Seq<char>, TypeV>,
    stack: Seq<(Option<TypeV>, TypeV)>,
    seen: Set<Seq<char>>,
    p: Option<TypeV>,
    t: TypeV,
)
    requires
        inline_tree(t),
    ensures
        walk_run(terms, stack.push((p, t)), seen, preorder(t).len()) == (preorder(t), stack, seen),
    decreases t, 0int,
{
    let pushed = stack.push((p, t));
    reveal_with_fuel(inline_tree, 2);
    assert(pushed.last() == (p, t));
    assert(pushed.drop_last() =~= stack);
    match t.fields {
        Option::None => {
            assert(preorder(t) =~= seq![t]);
            assert(!((t.datatype is Struct || t.datatype is Enum) && t.term is Some));
            assert(walker_expand(terms, stack, seen, t) == (stack, seen));
            assert(walk_run(terms, stack, seen, 0nat) == (Seq::<TypeV>::empty(), stack, seen));
            assert(walk_run(terms, pushed, seen, 1) == (
                seq![t] + Seq::<TypeV>::empty(),
                stack,
                seen,
            ));
            assert(seq![t] + Seq::<TypeV>::empty() =~= seq![t]);
        },
        Option::Some(cs) => {
            assert(rev_frames(t, cs, 0) =~= Seq::new(
                cs.len(),
                |k: int| (Option::Some(t), cs[cs.len() - 1 - k]),
            ));
            assert(!(t.datatype is Undefined));
            assert(push_children(stack, t, cs) =~= stack + rev_frames(t, cs, 0));
            assert(walker_expand(terms, stack, seen, t).1 == seen);
            assert(walker_expand(terms, stack, seen, t).0 == push_children(stack, t, cs));
            assert(walker_expand(terms, stack, seen, t) == (stack + rev_frames(t, cs, 0), seen));
            assert(inline_children(cs, 0));
            lemma_walk_children(terms, stack, seen, t, cs, 0);
            assert(preorder(t).len() == 1 + preorder_children(cs, 0).len());
            let rest = walk_run(
                terms,
                stack + rev_frames(t, cs, 0),
                seen,
                preorder_children(cs, 0).len(),
            );
            assert(walk_run(terms, pushed, seen, preorder(t).len()) == (
                seq![t] + rest.0,
                rest.1,
                rest.2,
            ));
            assert(seq![t] + preorder_children(cs, 0) =~= preorder(t));
        },
    }
}

/// Pulling the reversed child frames off the stack emits the children's
/// pre-order enumerations, left to right.
proof fn lemma_walk_children(
    terms: Map<Seq<char>, TypeV>,
    stack: Seq<(Option<TypeV>, TypeV)>,
    seen: Set<Seq<char>>,
    node: TypeV,
    cs: Seq<TypeV>,
    i: int,
)
    requires
        0 <= i <= cs.len(),
        inline_children(cs, i),
    ensures
        walk_run(terms, stack + rev_frames(node, cs, i), seen, preorder_children(cs, i).len()) == (
            preorder_children(cs, i),
            stack,
            seen,
        ),
    decreases cs, cs.len() - i + 1,
{
    if i == cs.len() {
        assert(stack + rev_frames(node, cs, i) =~= stack);
        assert(preorder_children(cs, i) =~= Seq::<TypeV>::empty());
    } else {
        let s1 = stack + rev_frames(node, cs, i + 1);
        assert(stack + rev_frames(node, cs, i) =~= s1.push((Option::Some(node), cs[i])));
        lemma_walk_preorder(terms, s1, seen, Option::Some(node), cs[i]);
        lemma_walk_children(terms, stack, seen, node, cs, i + 1);
        lemma_walk_run_split(
            terms,
            s1.push((Option::Some(node), cs[i])),
            seen,
            preorder(cs[i]).len(),
            preorder_children(cs, i + 1).len(),
        );
        assert(preorder_children(cs, i) == preorder(cs[i]) + preorder_children(cs, i + 1));
    }
}

/// Walking a fully inline schema tree from a fresh stack visits every
/// node of the tree exactly once — the emitted nodes are exactly the
/// tree's pre-order enumeration, whose length is the manual count of the
/// reachable nodes — and any further pulls change nothing: the stack is
/// spent and the visited-term guard untouched.
pub proof fn lemma_walk_visits_each_node_once(
    terms: Map<Seq<char>, TypeV>,
    seen0: Set<Seq<char>>,
    root: TypeV,
    extra: nat,
)
    requires
        inline_tree(root),
    ensures
        ({
            let r = walk_run(
                terms,
                seq![(Option::None, root)],
                seen0,
                (preorder(root).len() + extra) as nat,
            );
            &&& r.0 == preorder(root)
            &&& r.1.len() == 0
            &&& r.2 == seen0
        }),
{
    let start = seq![(Option::None::<TypeV>, root)];
    assert(start =~= Seq::<(Option<TypeV>, TypeV)>::empty().push((Option::None, root)));
    lemma_walk_preorder(terms, Seq::empty(), seen0, Option::None, root);
    lemma_walk_run_split(terms, start, seen0, preorder(root).len(), extra);
    let a = walk_run(terms, start, seen0, preorder(root).len());
    assert(a.1.len() == 0);
    assert(walk_run(terms, a.1, a.2, extra) == (Seq::<TypeV>::empty(), a.1, a.2));
    assert(a.0 + Seq::<TypeV>::empty() =~= a.0);
}

} // verus!
