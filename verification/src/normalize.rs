//! The schema normalizer: turns a flat declaration table into a normalized
//! type tree plus a term table, deduplicating shared struct and enum
//! definitions and breaking cycles by reference instead of inline
//! expansion.  The whole algorithm is stated as a specification function
//! (`norm_spec`) that the executable normalizer implements exactly.

use vstd::prelude::*;
use borsh::schema::BorshSchemaContainer;
use crate::schema::{
    container_decl, container_defs, decls_view, fields_view, lookup_def, pairs_view,
    root_declaration, undefined_node, DataType, Def, DefV, TermMap, Type, TypeSchema, TypeSchemaV,
    TypeV,
};
use crate::text::{
    all_digits, dec_val, digit_val, is_digit, starts_with, str_eq_str, str_starts_with,
};

verus! {

/// The errors of normalization.  A declaration that names a numeric width
/// outside the supported set fails with `InvalidNumericWidth`; a
/// parametric declaration whose underlying definition does not match what
/// its name implies — or a declaration table whose parametric definitions
/// chain into a cycle — fails with `SchemaInconsistency`.
#[derive(Debug, Clone, Copy, PartialEq, Eq, Structural)]
pub enum SchemaError {
    InvalidNumericWidth,
    SchemaInconsistency,
}

/// Nesting depth allowed while normalizing.  Struct and enum expansion is
/// guarded by the term table, so the depth of any well-founded schema is
/// bounded by the number of its declarations; only a cyclic chain of
/// parametric definitions runs the depth out, and that is reported as
/// `SchemaError::SchemaInconsistency`.
pub const NORM_FUEL: u64 = 512;

/// The declarations that are resolved by their name alone, never by a
/// definition looked up under the whole declaration string.
pub open spec fn prefix4(decl: Seq<char>) -> bool {
    ||| starts_with(decl, "HashSet<"@)
    ||| starts_with(decl, "HashMap<"@)
    ||| starts_with(decl, "Option<"@)
    ||| starts_with(decl, "Result<"@)
}

/// Whether `decl` is the parametric form `prefix` followed by anything and
/// a closing angle bracket.
pub open spec fn param_match(decl: Seq<char>, prefix: Seq<char>) -> bool {
    starts_with(decl, prefix) && decl.len() > prefix.len() && decl.last() == '>'
}

/// The numeric width named by a primitive declaration `<prefix><digits>`,
/// if the declaration has that shape.
pub open spec fn num_bits(decl: Seq<char>, prefix: char) -> Option<nat> {
    if decl.len() >= 2 && decl[0] == prefix && all_digits(decl.subrange(1, decl.len() as int)) {
        Option::Some(dec_val(decl.subrange(1, decl.len() as int)))
    } else {
        Option::None
    }
}

/// The integer widths the schema model supports.
pub open spec fn valid_int_bits(b: nat) -> bool {
    b == 8 || b == 16 || b == 32 || b == 64 || b == 128
}

/// The floating-point widths the schema model supports.
pub open spec fn valid_float_bits(b: nat) -> bool {
    b == 32 || b == 64
}

/// A leaf node without numeric attributes.
pub open spec fn leaf_node(dt: DataType, name: Option<Seq<char>>) -> TypeV {
    TypeV {
        datatype: dt,
        name,
        term: Option::None,
        signed: Option::None,
        length: Option::None,
        fields: Option::None,
    }
}

/// An integer leaf of the given signedness and bit width.
pub open spec fn int_node(name: Option<Seq<char>>, signed: bool, bits: nat) -> TypeV {
    TypeV {
        datatype: DataType::Int,
        name,
        term: Option::None,
        signed: Option::Some(signed),
        length: Option::Some((bits / 8) as u32),
        fields: Option::None,
    }
}

/// A floating-point leaf of the given bit width.
pub open spec fn float_node(name: Option<Seq<char>>, bits: nat) -> TypeV {
    TypeV {
        datatype: DataType::Float,
        name,
        term: Option::None,
        signed: Option::None,
        length: Option::Some((bits / 8) as u32),
        fields: Option::None,
    }
}

/// A reference node: it carries only the term key of its canonical
/// definition, never inline children.
pub open spec fn ref_node(dt: DataType, name: Option<Seq<char>>, term: Seq<char>) -> TypeV {
    TypeV {
        datatype: dt,
        name,
        term: Option::Some(term),
        signed: Option::None,
        length: Option::None,
        fields: Option::None,
    }
}

/// A container node holding its children inline.
pub open spec fn container_node(
    dt: DataType,
    name: Option<Seq<char>>,
    length: Option<u32>,
    children: Seq<TypeV>,
) -> TypeV {
    TypeV {
        datatype: dt,
        name,
        term: Option::None,
        signed: Option::None,
        length,
        fields: Option::Some(children),
    }
}

/// The canonical expansion of a named struct, stored in the term table.
pub open spec fn struct_canonical(decl: Seq<char>, children: Seq<TypeV>) -> TypeV {
    TypeV {
        datatype: DataType::Struct,
        name: Option::None,
        term: Option::Some(decl),
        signed: Option::None,
        length: Option::None,
        fields: Option::Some(children),
    }
}

/// The canonical expansion of an enum, stored in the term table.
pub open spec fn enum_canonical(decl: Seq<char>, arity: u32, children: Seq<TypeV>) -> TypeV {
    TypeV {
        datatype: DataType::Enum,
        name: Option::None,
        term: Option::Some(decl),
        signed: Option::None,
        length: Option::Some(arity),
        fields: Option::Some(children),
    }
}

/// Named fields as (name, declaration) pairs for field-list normalization.
pub open spec fn named_pairs(fs: Seq<(Seq<char>, Seq<char>)>) -> Seq<(Option<Seq<char>>, Seq<char>)> {
    Seq::new(fs.len(), |i: int| (Option::Some(fs[i].0), fs[i].1))
}

/// Positional fields as (name, declaration) pairs: no names.
pub open spec fn unnamed_pairs(ds: Seq<Seq<char>>) -> Seq<(Option<Seq<char>>, Seq<char>)> {
    Seq::new(ds.len(), |i: int| (Option::None, ds[i]))
}

/// Normalization of one declaration.
///
/// Mirrors the executable normalizer exactly: the flat table is consulted
/// first (except for the four prefixed parametric forms), primitives are
/// matched next, and the parametric forms after them; anything else is the
/// `Undefined` sentinel.  Named structs and enums are expanded once into
/// the term table and referenced afterwards; the table entry is reserved
/// before the fields are expanded, so a self-referential definition meets
/// its own reservation and stops.  `fuel` bounds the nesting depth; it
/// runs out only on a cyclic chain of parametric definitions.
pub open spec fn norm_spec(
    defs: Map<Seq<char>, DefV>,
    name: Option<Seq<char>>,
    decl: Seq<char>,
    terms: Map<Seq<char>, TypeV>,
    root: bool,
    fuel: nat,
) -> Result<(TypeV, Map<Seq<char>, TypeV>), SchemaError>
    decreases fuel, 1nat,
{
    if fuel == 0 {
        Result::Err(SchemaError::SchemaInconsistency)
    } else if !prefix4(decl) && defs.dom().contains(decl) && !(defs[decl] is Tuple) {
        match defs[decl] {
            DefV::StructNamed { fields } => {
                if root {
                    match norm_fields_spec(defs, named_pairs(fields), terms, (fuel - 1) as nat) {
                        Result::Ok((fs, t2)) => Result::Ok(
                            (
                                TypeV {
                                    datatype: DataType::Struct,
                                    name,
                                    term: Option::Some(decl),
                                    signed: Option::None,
                                    length: Option::None,
                                    fields: Option::Some(fs),
                                },
                                t2,
                            ),
                        ),
                        Result::Err(e) => Result::Err(e),
                    }
                } else if terms.dom().contains(decl) {
                    Result::Ok((ref_node(DataType::Struct, name, decl), terms))
                } else {
                    let reserved = terms.insert(decl, undefined_node());
                    match norm_fields_spec(defs, named_pairs(fields), reserved, (fuel - 1) as nat) {
                        Result::Ok((fs, t2)) => Result::Ok(
                            (
                                ref_node(DataType::Struct, name, decl),
                                t2.insert(decl, struct_canonical(decl, fs)),
                            ),
                        ),
                        Result::Err(e) => Result::Err(e),
                    }
                }
            },
            DefV::StructUnnamed { fields } => {
                match norm_fields_spec(defs, unnamed_pairs(fields), terms, (fuel - 1) as nat) {
                    Result::Ok((fs, t2)) => Result::Ok(
                        (
                            container_node(
                                DataType::Variant,
                                name,
                                Option::Some(#[verifier::truncate] (fields.len() as u32)),
                                fs,
                            ),
                            t2,
                        ),
                    ),
                    Result::Err(e) => Result::Err(e),
                }
            },
            DefV::StructEmpty => Result::Ok((leaf_node(DataType::Variant, name), terms)),
            DefV::Array { length, elements } => {
                match norm_spec(defs, Option::None, elements, terms, false, (fuel - 1) as nat) {
                    Result::Ok((c, t2)) => Result::Ok(
                        (
                            container_node(DataType::Array, name, Option::Some(length), seq![c]),
                            t2,
                        ),
                    ),
                    Result::Err(e) => Result::Err(e),
                }
            },
            DefV::Sequence { elements } => {
                match norm_spec(defs, Option::None, elements, terms, false, (fuel - 1) as nat) {
                    Result::Ok((c, t2)) => Result::Ok(
                        (container_node(DataType::Vec, name, Option::None, seq![c]), t2),
                    ),
                    Result::Err(e) => Result::Err(e),
                }
            },
            DefV::Enum { variants } => {
                if terms.dom().contains(decl) {
                    Result::Ok((ref_node(DataType::Enum, name, decl), terms))
                } else {
                    let reserved = terms.insert(decl, undefined_node());
                    match norm_fields_spec(defs, named_pairs(variants), reserved, (fuel - 1) as nat) {
                        Result::Ok((fs, t2)) => Result::Ok(
                            (
                                ref_node(DataType::Enum, name, decl),
                                t2.insert(
                                    decl,
                                    enum_canonical(decl, #[verifier::truncate] (variants.len() as u32), fs),
                                ),
                            ),
                        ),
                        Result::Err(e) => Result::Err(e),
                    }
                }
            },
            DefV::Tuple { .. } => Result::Err(SchemaError::SchemaInconsistency),
        }
    } else {
        norm_other_spec(defs, name, decl, terms, fuel)
    }
}

/// The fall-through of `norm_spec`: primitives, the parametric forms, and
/// the `Undefined` sentinel.  Split out only to keep each definition
/// readable; `fuel` is positive here.
pub open spec fn norm_other_spec(
    defs: Map<Seq<char>, DefV>,
    name: Option<Seq<char>>,
    decl: Seq<char>,
    terms: Map<Seq<char>, TypeV>,
    fuel: nat,
) -> Result<(TypeV, Map<Seq<char>, TypeV>), SchemaError>
    decreases fuel, 0nat,
{
    if fuel == 0 {
        Result::Err(SchemaError::SchemaInconsistency)
    } else if decl == "bool"@ {
        Result::Ok((leaf_node(DataType::Bool, name), terms))
    } else if decl == "string"@ {
        Result::Ok((leaf_node(DataType::String, name), terms))
    } else if num_bits(decl, 'u') is Some {
        let b = num_bits(decl, 'u')->Some_0;
        if valid_int_bits(b) {
            Result::Ok((int_node(name, false, b), terms))
        } else {
            Result::Err(SchemaError::InvalidNumericWidth)
        }
    } else if num_bits(decl, 'i') is Some {
        let b = num_bits(decl, 'i')->Some_0;
        if valid_int_bits(b) {
            Result::Ok((int_node(name, true, b), terms))
        } else {
            Result::Err(SchemaError::InvalidNumericWidth)
        }
    } else if num_bits(decl, 'f') is Some {
        let b = num_bits(decl, 'f')->Some_0;
        if valid_float_bits(b) {
            Result::Ok((float_node(name, b), terms))
        } else {
            Result::Err(SchemaError::InvalidNumericWidth)
        }
    } else if param_match(decl, "Tuple<"@) {
        if !defs.dom().contains(decl) {
            Result::Err(SchemaError::SchemaInconsistency)
        } else {
            match defs[decl] {
                DefV::Tuple { elements } => {
                    match norm_fields_spec(defs, unnamed_pairs(elements), terms, (fuel - 1) as nat) {
                        Result::Ok((fs, t2)) => Result::Ok(
                            (
                                container_node(
                                    DataType::Tuple,
                                    name,
                                    Option::Some(#[verifier::truncate] (elements.len() as u32)),
                                    fs,
                                ),
                                t2,
                            ),
                        ),
                        Result::Err(e) => Result::Err(e),
                    }
                },
                _ => Result::Err(SchemaError::SchemaInconsistency),
            }
        }
    } else if param_match(decl, "Array<"@) {
        if !defs.dom().contains(decl) {
            Result::Err(SchemaError::SchemaInconsistency)
        } else {
            match defs[decl] {
                DefV::Array { length, elements } => {
                    match norm_spec(defs, Option::None, elements, terms, false, (fuel - 1) as nat) {
                        Result::Ok((c, t2)) => Result::Ok(
                            (
                                container_node(DataType::Array, name, Option::Some(length), seq![c]),
                                t2,
                            ),
                        ),
                        Result::Err(e) => Result::Err(e),
                    }
                },
                _ => Result::Err(SchemaError::SchemaInconsistency),
            }
        }
    } else if param_match(decl, "Vec<"@) {
        if !defs.dom().contains(decl) {
            Result::Err(SchemaError::SchemaInconsistency)
        } else {
            match defs[decl] {
                DefV::Sequence { elements } => {
                    match norm_spec(defs, Option::None, elements, terms, false, (fuel - 1) as nat) {
                        Result::Ok((c, t2)) => Result::Ok(
                            (container_node(DataType::Vec, name, Option::None, seq![c]), t2),
                        ),
                        Result::Err(e) => Result::Err(e),
                    }
                },
                _ => Result::Err(SchemaError::SchemaInconsistency),
            }
        }
    } else if param_match(decl, "Option<"@) {
        if !defs.dom().contains(decl) {
            Result::Err(SchemaError::SchemaInconsistency)
        } else {
            match defs[decl] {
                DefV::Enum { variants } => {
                    if variants.len() < 2 {
                        Result::Err(SchemaError::SchemaInconsistency)
                    } else {
                        match norm_spec(
                            defs,
                            Option::None,
                            variants[1].1,
                            terms,
                            false,
                            (fuel - 1) as nat,
                        ) {
                            Result::Ok((c, t2)) => Result::Ok(
                                (container_node(DataType::Option, name, Option::None, seq![c]), t2),
                            ),
                            Result::Err(e) => Result::Err(e),
                        }
                    }
                },
                _ => Result::Err(SchemaError::SchemaInconsistency),
            }
        }
    } else if param_match(decl, "Result<"@) {
        if !defs.dom().contains(decl) {
            Result::Err(SchemaError::SchemaInconsistency)
        } else {
            match defs[decl] {
                DefV::Enum { variants } => {
                    if variants.len() < 2 {
                        Result::Err(SchemaError::SchemaInconsistency)
                    } else {
                        match norm_spec(
                            defs,
                            Option::None,
                            variants[0].1,
                            terms,
                            false,
                            (fuel - 1) as nat,
                        ) {
                            Result::Ok((ok_c, t1)) => {
                                match norm_spec(
                                    defs,
                                    Option::None,
                                    variants[1].1,
                                    t1,
                                    false,
                                    (fuel - 1) as nat,
                                ) {
                                    Result::Ok((err_c, t2)) => Result::Ok(
                                        (
                                            container_node(
                                                DataType::Result,
                                                name,
                                                Option::None,
                                                seq![ok_c, err_c],
                                            ),
                                            t2,
                                        ),
                                    ),
                                    Result::Err(e) => Result::Err(e),
                                }
                            },
                            Result::Err(e) => Result::Err(e),
                        }
                    }
                },
                _ => Result::Err(SchemaError::SchemaInconsistency),
            }
        }
    } else if param_match(decl, "HashSet<"@) {
        if !defs.dom().contains(decl) {
            Result::Err(SchemaError::SchemaInconsistency)
        } else {
            match defs[decl] {
                DefV::Sequence { elements } => {
                    match norm_spec(defs, Option::None, elements, terms, false, (fuel - 1) as nat) {
                        Result::Ok((c, t2)) => Result::Ok(
                            (container_node(DataType::HashSet, name, Option::None, seq![c]), t2),
                        ),
                        Result::Err(e) => Result::Err(e),
                    }
                },
                _ => Result::Err(SchemaError::SchemaInconsistency),
            }
        }
    } else if param_match(decl, "HashMap<"@) {
        if !defs.dom().contains(decl) {
            Result::Err(SchemaError::SchemaInconsistency)
        } else {
            match defs[decl] {
                DefV::Sequence { elements } => {
                    match norm_spec(defs, Option::None, elements, terms, false, (fuel - 1) as nat) {
                        Result::Ok((c, t2)) => Result::Ok(
                            (container_node(DataType::HashMap, name, Option::None, seq![c]), t2),
                        ),
                        Result::Err(e) => Result::Err(e),
                    }
                },
                _ => Result::Err(SchemaError::SchemaInconsistency),
            }
        }
    } else {
        Result::Ok((undefined_node(), terms))
    }
}

/// Normalization of a list of (name, declaration) fields, left to right,
/// threading the term table through.
pub open spec fn norm_fields_spec(
    defs: Map<Seq<char>, DefV>,
    fields: Seq<(Option<Seq<char>>, Seq<char>)>,
    terms: Map<Seq<char>, TypeV>,
    fuel: nat,
) -> Result<(Seq<TypeV>, Map<Seq<char>, TypeV>), SchemaError>
    decreases fuel, fields.len() + 2,
{
    if fields.len() == 0 {
        Result::Ok((Seq::empty(), terms))
    } else {
        match norm_spec(defs, fields[0].0, fields[0].1, terms, false, fuel) {
            Result::Ok((t, t1)) => {
                match norm_fields_spec(defs, fields.drop_first(), t1, fuel) {
                    Result::Ok((rest, t2)) => Result::Ok((seq![t] + rest, t2)),
                    Result::Err(e) => Result::Err(e),
                }
            },
            Result::Err(e) => Result::Err(e),
        }
    }
}

/// Normalization of a whole schema source: the root declaration expanded
/// inline over an initially empty term table.
pub open spec fn normalized_schema(defs: Map<Seq<char>, DefV>, decl: Seq<char>) -> Result<
    TypeSchemaV,
    SchemaError,
> {
    match norm_spec(defs, Option::Some(decl), decl, Map::empty(), true, NORM_FUEL as nat) {
        Result::Ok((t, m)) => Result::Ok(TypeSchemaV { schema: t, terms: m }),
        Result::Err(e) => Result::Err(e),
    }
}

/// Model of an optional borrowed field name.
pub open spec fn opt_name_view(n: Option<&String>) -> Option<Seq<char>> {
    match n {
        Option::None => Option::None,
        Option::Some(s) => Option::Some(s@),
    }
}

/// Model of an optional owned field name.
pub open spec fn opt_string_view(n: Option<String>) -> Option<Seq<char>> {
    match n {
        Option::None => Option::None,
        Option::Some(s) => Option::Some(s@),
    }
}

/// Appending a digit multiplies the value by ten and adds the digit.
proof fn lemma_dec_val_push(s: Seq<char>, c: char)
    ensures
        dec_val(s.push(c)) == dec_val(s) * 10 + digit_val(c),
{
    assert(s.push(c).drop_last() =~= s);
}

/// Outcome of probing a declaration for the primitive shape
/// `<prefix><digits>`: no such shape, a supported bit width, or an
/// unsupported one.
enum NumProbe {
    NoMatch,
    Valid(u32),
    Invalid,
}

/// Probe `s` for the shape `<prefix><digits>` and classify the width.
fn probe_num(s: &str, prefix: char) -> (r: NumProbe)
    ensures
        match num_bits(s@, prefix) {
            Option::None => r == NumProbe::NoMatch,
            Option::Some(b) => r == if valid_int_bits(b) {
                NumProbe::Valid(b as u32)
            } else {
                NumProbe::Invalid
            },
        },
{
    let n = s.unicode_len();
    if n < 2 {
        return NumProbe::NoMatch;
    }
    if s.get_char(0) != prefix {
        return NumProbe::NoMatch;
    }
    let ghost digits = s@.subrange(1, s@.len() as int);
    let mut acc: u64 = 0;
    let mut i: usize = 1;
    while i < n
        invariant
            n == s@.len(),
            2 <= n,
            1 <= i <= n,
            forall|j: int| 1 <= j < i ==> is_digit(s@[j]),
            ({
                let pre = s@.subrange(1, i as int);
                (dec_val(pre) <= 128 && acc == dec_val(pre)) || (dec_val(pre) > 128 && acc
                    == 129)
            }),
        decreases n - i,
    {
        let c = s.get_char(i);
        if c < '0' || c > '9' {
            proof {
                assert(!is_digit(s@[i as int]));
                assert(s@.subrange(1, s@.len() as int)[i as int - 1] == s@[i as int]);
                assert(!all_digits(s@.subrange(1, s@.len() as int)));
            }
            return NumProbe::NoMatch;
        }
        let d: u64 = (c as u32 - 48) as u64;
        proof {
            lemma_dec_val_push(s@.subrange(1, i as int), c);
            assert(s@.subrange(1, i as int).push(c) =~= s@.subrange(1, i + 1 as int));
        }
        acc = if acc * 10 + d > 128 {
            129
        } else {
            acc * 10 + d
        };
        i = i + 1;
    }
    proof {
        assert(s@.subrange(1, i as int) =~= digits);
        assert(all_digits(digits));
        assert(num_bits(s@, prefix) == Option::Some(dec_val(digits)));
    }
    if acc == 8 || acc == 16 || acc == 32 || acc == 64 || acc == 128 {
        NumProbe::Valid(acc as u32)
    } else {
        NumProbe::Invalid
    }
}

/// Whether `s` has the parametric form `prefix`…`>`.
fn param_match_exec(s: &str, p: &str) -> (r: bool)
    ensures
        r == param_match(s@, p@),
{
    if !str_starts_with(s, p) {
        return false;
    }
    let n = s.unicode_len();
    let pl = p.unicode_len();
    if n <= pl {
        return false;
    }
    s.get_char(n - 1) == '>'
}

/// A one-element child list.
fn single_child(c: Type) -> (v: Vec<Type>)
    ensures
        fields_view(v) == seq![c@],
{
    let mut v: Vec<Type> = Vec::new();
    v.push(c);
    proof {
        assert(fields_view(v) =~= seq![c@]);
    }
    v
}

/// Expand a list of named fields (or enum variants) left to right,
/// threading the term table through `result`.
#[verifier::loop_isolation(false)]
fn expand_named(
    container: &BorshSchemaContainer,
    fields: &Vec<(String, String)>,
    result: &mut TypeSchema,
    fuel: u64,
) -> (r: Result<Vec<Type>, SchemaError>)
    requires
        old(result).terms.wf(),
    ensures
        final(result).terms.wf(),
        final(result).schema == old(result).schema,
        ({
            let sr = norm_fields_spec(
                container_defs(*container),
                named_pairs(pairs_view(fields@)),
                old(result).terms@,
                fuel as nat,
            );
            match r {
                Result::Ok(v) => sr matches Result::Ok(p) && p.0 == fields_view(v) && p.1 == final(result).terms@,
                Result::Err(e) => sr == Result::<
                    (Seq<TypeV>, Map<Seq<char>, TypeV>),
                    SchemaError,
                >::Err(e),
            }
        }),
    decreases fuel, 2int,
{
    let ghost defs = container_defs(*container);
    let ghost all = named_pairs(pairs_view(fields@));
    let ghost terms0 = result.terms@;
    let mut out: Vec<Type> = Vec::new();
    let mut i: usize = 0;
    proof {
        assert(all.subrange(0, all.len() as int) =~= all);
        assert(fields_view(out) =~= Seq::<TypeV>::empty());
    }
    while i < fields.len()
        invariant
            result.terms.wf(),
            result.schema == old(result).schema,
            i <= fields@.len(),
            out@.len() == i as nat,
            ({
                let sr_rest = norm_fields_spec(
                    defs,
                    all.subrange(i as int, all.len() as int),
                    result.terms@,
                    fuel as nat,
                );
                let sr_all = norm_fields_spec(defs, all, terms0, fuel as nat);
                match sr_rest {
                    Result::Ok(p) => sr_all matches Result::Ok(q) && q.0 == fields_view(out)
                        + p.0 && q.1 == p.1,
                    Result::Err(e) => sr_all == Result::<
                        (Seq<TypeV>, Map<Seq<char>, TypeV>),
                        SchemaError,
                    >::Err(e),
                }
            }),
        decreases fields@.len() - i,
    {
        let fname = &fields[i].0;
        let fdecl = &fields[i].1;
        let ghost rest_before = all.subrange(i as int, all.len() as int);
        proof {
            assert(rest_before[0] == (Option::Some(fields@[i as int].0@), fields@[i as int].1@));
            assert(rest_before.drop_first() =~= all.subrange(i + 1, all.len() as int));
        }
        let ghost out_pre = out;
        match get_type_fueled(container, Option::Some(fname), fdecl, result, false, fuel) {
            Result::Ok(t) => {
                out.push(t);
                proof {
                    assert(fields_view(out) =~= fields_view(out_pre).push(t@));
                }
            },
            Result::Err(e) => {
                return Result::Err(e);
            },
        }
        i = i + 1;
    }
    proof {
        assert(all.subrange(i as int, all.len() as int) =~= Seq::<
            (Option<Seq<char>>, Seq<char>),
        >::empty());
        assert(fields_view(out) + Seq::<TypeV>::empty() =~= fields_view(out));
    }
    Result::Ok(out)
}

/// Expand a list of positional fields left to right, threading the term
/// table through `result`.
#[verifier::loop_isolation(false)]
fn expand_unnamed(
    container: &BorshSchemaContainer,
    decls: &Vec<String>,
    result: &mut TypeSchema,
    fuel: u64,
) -> (r: Result<Vec<Type>, SchemaError>)
    requires
        old(result).terms.wf(),
    ensures
        final(result).terms.wf(),
        final(result).schema == old(result).schema,
        ({
            let sr = norm_fields_spec(
                container_defs(*container),
                unnamed_pairs(decls_view(decls@)),
                old(result).terms@,
                fuel as nat,
            );
            match r {
                Result::Ok(v) => sr matches Result::Ok(p) && p.0 == fields_view(v) && p.1 == final(result).terms@,
                Result::Err(e) => sr == Result::<
                    (Seq<TypeV>, Map<Seq<char>, TypeV>),
                    SchemaError,
                >::Err(e),
            }
        }),
    decreases fuel, 2int,
{
    let ghost defs = container_defs(*container);
    let ghost all = unnamed_pairs(decls_view(decls@));
    let ghost terms0 = result.terms@;
    let mut out: Vec<Type> = Vec::new();
    let mut i: usize = 0;
    proof {
        assert(all.subrange(0, all.len() as int) =~= all);
        assert(fields_view(out) =~= Seq::<TypeV>::empty());
    }
    while i < decls.len()
        invariant
            result.terms.wf(),
            result.schema == old(result).schema,
            i <= decls@.len(),
            out@.len() == i as nat,
            ({
                let sr_rest = norm_fields_spec(
                    defs,
                    all.subrange(i as int, all.len() as int),
                    result.terms@,
                    fuel as nat,
                );
                let sr_all = norm_fields_spec(defs, all, terms0, fuel as nat);
                match sr_rest {
                    Result::Ok(p) => sr_all matches Result::Ok(q) && q.0 == fields_view(out)
                        + p.0 && q.1 == p.1,
                    Result::Err(e) => sr_all == Result::<
                        (Seq<TypeV>, Map<Seq<char>, TypeV>),
                        SchemaError,
                    >::Err(e),
                }
            }),
        decreases decls@.len() - i,
    {
        let fdecl = &decls[i];
        let ghost rest_before = all.subrange(i as int, all.len() as int);
        proof {
            assert(rest_before[0] == (Option::None::<Seq<char>>, decls@[i as int]@));
            assert(rest_before.drop_first() =~= all.subrange(i + 1, all.len() as int));
        }
        let ghost out_pre = out;
        match get_type_fueled(container, Option::None, fdecl, result, false, fuel) {
            Result::Ok(t) => {
                out.push(t);
                proof {
                    assert(fields_view(out) =~= fields_view(out_pre).push(t@));
                }
            },
            Result::Err(e) => {
                return Result::Err(e);
            },
        }
        i = i + 1;
    }
    proof {
        assert(all.subrange(i as int, all.len() as int) =~= Seq::<
            (Option<Seq<char>>, Seq<char>),
        >::empty());
        assert(fields_view(out) + Seq::<TypeV>::empty() =~= fields_view(out));
    }
    Result::Ok(out)
}

/// The executable normalizer, carrying its remaining nesting depth.
#[verifier::loop_isolation(false)]
fn get_type_fueled(
    container: &BorshSchemaContainer,
    field_name: Option<&String>,
    declaration: &String,
    result: &mut TypeSchema,
    root: bool,
    fuel: u64,
) -> (r: Result<Type, SchemaError>)
    requires
        old(result).terms.wf(),
    ensures
        final(result).terms.wf(),
        final(result).schema == old(result).schema,
        ({
            let sr = norm_spec(
                container_defs(*container),
                opt_name_view(field_name),
                declaration@,
                old(result).terms@,
                root,
                fuel as nat,
            );
            match r {
                Result::Ok(t) => sr matches Result::Ok(p) && p.0 == t@ && p.1 == final(result).terms@,
                Result::Err(e) => sr == Result::<
                    (TypeV, Map<Seq<char>, TypeV>),
                    SchemaError,
                >::Err(e),
            }
        }),
    decreases fuel, 1int,
{
    let ghost defs = container_defs(*container);
    let ghost terms0 = result.terms@;
    if fuel == 0 {
        return Result::Err(SchemaError::SchemaInconsistency);
    }
    let name: Option<String> = match field_name {
        Option::None => Option::None,
        Option::Some(s) => Option::Some(s.clone()),
    };
    proof {
        assert(opt_string_view(name) == opt_name_view(field_name));
    }
    let is_p4 = str_starts_with(declaration.as_str(), "HashSet<") || str_starts_with(
        declaration.as_str(),
        "HashMap<",
    ) || str_starts_with(declaration.as_str(), "Option<") || str_starts_with(
        declaration.as_str(),
        "Result<",
    );
    let found = lookup_def(container, declaration);
    if !is_p4 {
        match &found {
            Option::Some(Def::StructNamed(fields)) => {
                if root {
                    let fs = match expand_named(container, fields, result, fuel - 1) {
                        Result::Ok(v) => v,
                        Result::Err(e) => {
                            return Result::Err(e);
                        },
                    };
                    return Result::Ok(
                        Type {
                            datatype: DataType::Struct,
                            name,
                            term: Option::Some(declaration.clone()),
                            signed: Option::None,
                            length: Option::None,
                            fields: Option::Some(fs),
                        },
                    );
                } else if result.terms.contains_key(declaration) {
                    return Result::Ok(
                        Type {
                            datatype: DataType::Struct,
                            name,
                            term: Option::Some(declaration.clone()),
                            signed: Option::None,
                            length: Option::None,
                            fields: Option::None,
                        },
                    );
                } else {
                    result.terms.insert(declaration.clone(), Type::default());
                    let fs = match expand_named(container, fields, result, fuel - 1) {
                        Result::Ok(v) => v,
                        Result::Err(e) => {
                            return Result::Err(e);
                        },
                    };
                    let canonical = Type {
                        datatype: DataType::Struct,
                        name: Option::None,
                        term: Option::Some(declaration.clone()),
                        signed: Option::None,
                        length: Option::None,
                        fields: Option::Some(fs),
                    };
                    result.terms.insert(declaration.clone(), canonical);
                    return Result::Ok(
                        Type {
                            datatype: DataType::Struct,
                            name,
                            term: Option::Some(declaration.clone()),
                            signed: Option::None,
                            length: Option::None,
                            fields: Option::None,
                        },
                    );
                }
            },
            Option::Some(Def::StructUnnamed(ds)) => {
                let fs = match expand_unnamed(container, ds, result, fuel - 1) {
                    Result::Ok(v) => v,
                    Result::Err(e) => {
                        return Result::Err(e);
                    },
                };
                let arity: u32 = #[verifier::truncate] (ds.len() as u32);
                return Result::Ok(
                    Type {
                        datatype: DataType::Variant,
                        name,
                        term: Option::None,
                        signed: Option::None,
                        length: Option::Some(arity),
                        fields: Option::Some(fs),
                    },
                );
            },
            Option::Some(Def::StructEmpty) => {
                return Result::Ok(
                    Type {
                        datatype: DataType::Variant,
                        name,
                        term: Option::None,
                        signed: Option::None,
                        length: Option::None,
                        fields: Option::None,
                    },
                );
            },
            Option::Some(Def::Array { length, elements }) => {
                let c = match get_type_fueled(
                    container,
                    Option::None,
                    elements,
                    result,
                    false,
                    fuel - 1,
                ) {
                    Result::Ok(t) => t,
                    Result::Err(e) => {
                        return Result::Err(e);
                    },
                };
                return Result::Ok(
                    Type {
                        datatype: DataType::Array,
                        name,
                        term: Option::None,
                        signed: Option::None,
                        length: Option::Some(*length),
                        fields: Option::Some(single_child(c)),
                    },
                );
            },
            Option::Some(Def::Sequence { elements }) => {
                let c = match get_type_fueled(
                    container,
                    Option::None,
                    elements,
                    result,
                    false,
                    fuel - 1,
                ) {
                    Result::Ok(t) => t,
                    Result::Err(e) => {
                        return Result::Err(e);
                    },
                };
                return Result::Ok(
                    Type {
                        datatype: DataType::Vec,
                        name,
                        term: Option::None,
                        signed: Option::None,
                        length: Option::None,
                        fields: Option::Some(single_child(c)),
                    },
                );
            },
            Option::Some(Def::Enum { variants }) => {
                if result.terms.contains_key(declaration) {
                    return Result::Ok(
                        Type {
                            datatype: DataType::Enum,
                            name,
                            term: Option::Some(declaration.clone()),
                            signed: Option::None,
                            length: Option::None,
                            fields: Option::None,
                        },
                    );
                } else {
                    result.terms.insert(declaration.clone(), Type::default());
                    let fs = match expand_named(container, variants, result, fuel - 1) {
                        Result::Ok(v) => v,
                        Result::Err(e) => {
                            return Result::Err(e);
                        },
                    };
                    let arity: u32 = #[verifier::truncate] (variants.len() as u32);
                    let canonical = Type {
                        datatype: DataType::Enum,
                        name: Option::None,
                        term: Option::Some(declaration.clone()),
                        signed: Option::None,
                        length: Option::Some(arity),
                        fields: Option::Some(fs),
                    };
                    result.terms.insert(declaration.clone(), canonical);
                    return Result::Ok(
                        Type {
                            datatype: DataType::Enum,
                            name,
                            term: Option::Some(declaration.clone()),
                            signed: Option::None,
                            length: Option::None,
                            fields: Option::None,
                        },
                    );
                }
            },
            Option::Some(Def::Tuple { .. }) => {},
            Option::None => {},
        }
    }
    get_type_other(container, &found, name, declaration, result, fuel)
}

/// The fall-through of the executable normalizer: primitives, parametric
/// forms, and the `Undefined` sentinel.
#[verifier::loop_isolation(false)]
fn get_type_other(
    container: &BorshSchemaContainer,
    found: &Option<Def>,
    name: Option<String>,
    declaration: &String,
    result: &mut TypeSchema,
    fuel: u64,
) -> (r: Result<Type, SchemaError>)
    requires
        old(result).terms.wf(),
        fuel >= 1,
        match found {
            Option::None => !container_defs(*container).dom().contains(declaration@),
            Option::Some(d) => container_defs(*container).dom().contains(declaration@) && d@
                == container_defs(*container)[declaration@],
        },
    ensures
        final(result).terms.wf(),
        final(result).schema == old(result).schema,
        ({
            let sr = norm_other_spec(
                container_defs(*container),
                opt_string_view(name),
                declaration@,
                old(result).terms@,
                fuel as nat,
            );
            match r {
                Result::Ok(t) => sr matches Result::Ok(p) && p.0 == t@ && p.1 == final(result).terms@,
                Result::Err(e) => sr == Result::<
                    (TypeV, Map<Seq<char>, TypeV>),
                    SchemaError,
                >::Err(e),
            }
        }),
    decreases fuel, 0int,
{
    let ghost defs = container_defs(*container);
    if str_eq_str(declaration.as_str(), "bool") {
        return Result::Ok(
            Type {
                datatype: DataType::Bool,
                name,
                term: Option::None,
                signed: Option::None,
                length: Option::None,
                fields: Option::None,
            },
        );
    }
    if str_eq_str(declaration.as_str(), "string") {
        return Result::Ok(
            Type {
                datatype: DataType::String,
                name,
                term: Option::None,
                signed: Option::None,
                length: Option::None,
                fields: Option::None,
            },
        );
    }
    match probe_num(declaration.as_str(), 'u') {
        NumProbe::Valid(bits) => {
            return Result::Ok(
                Type {
                    datatype: DataType::Int,
                    name,
                    term: Option::None,
                    signed: Option::Some(false),
                    length: Option::Some(bits / 8),
                    fields: Option::None,
                },
            );
        },
        NumProbe::Invalid => {
            return Result::Err(SchemaError::InvalidNumericWidth);
        },
        NumProbe::NoMatch => {},
    }
    match probe_num(declaration.as_str(), 'i') {
        NumProbe::Valid(bits) => {
            return Result::Ok(
                Type {
                    datatype: DataType::Int,
                    name,
                    term: Option::None,
                    signed: Option::Some(true),
                    length: Option::Some(bits / 8),
                    fields: Option::None,
                },
            );
        },
        NumProbe::Invalid => {
            return Result::Err(SchemaError::InvalidNumericWidth);
        },
        NumProbe::NoMatch => {},
    }
    match probe_num(declaration.as_str(), 'f') {
        NumProbe::Valid(bits) => {
            if bits == 32 || bits == 64 {
                return Result::Ok(
                    Type {
                        datatype: DataType::Float,
                        name,
                        term: Option::None,
                        signed: Option::None,
                        length: Option::Some(bits / 8),
                        fields: Option::None,
                    },
                );
            } else {
                return Result::Err(SchemaError::InvalidNumericWidth);
            }
        },
        NumProbe::Invalid => {
            return Result::Err(SchemaError::InvalidNumericWidth);
        },
        NumProbe::NoMatch => {},
    }
    if param_match_exec(declaration.as_str(), "Tuple<") {
        match found {
            Option::Some(Def::Tuple { elements }) => {
                let fs = match expand_unnamed(container, elements, result, fuel - 1) {
                    Result::Ok(v) => v,
                    Result::Err(e) => {
                        return Result::Err(e);
                    },
                };
                let arity: u32 = #[verifier::truncate] (elements.len() as u32);
                return Result::Ok(
                    Type {
                        datatype: DataType::Tuple,
                        name,
                        term: Option::None,
                        signed: Option::None,
                        length: Option::Some(arity),
                        fields: Option::Some(fs),
                    },
                );
            },
            _ => {
                return Result::Err(SchemaError::SchemaInconsistency);
            },
        }
    }
    if param_match_exec(declaration.as_str(), "Array<") {
        match found {
            Option::Some(Def::Array { length, elements }) => {
                let c = match get_type_fueled(
                    container,
                    Option::None,
                    elements,
                    result,
                    false,
                    fuel - 1,
                ) {
                    Result::Ok(t) => t,
                    Result::Err(e) => {
                        return Result::Err(e);
                    },
                };
                return Result::Ok(
                    Type {
                        datatype: DataType::Array,
                        name,
                        term: Option::None,
                        signed: Option::None,
                        length: Option::Some(*length),
                        fields: Option::Some(single_child(c)),
                    },
                );
            },
            _ => {
                return Result::Err(SchemaError::SchemaInconsistency);
            },
        }
    }
    if param_match_exec(declaration.as_str(), "Vec<") {
        match found {
            Option::Some(Def::Sequence { elements }) => {
                let c = match get_type_fueled(
                    container,
                    Option::None,
                    elements,
                    result,
                    false,
                    fuel - 1,
                ) {
                    Result::Ok(t) => t,
                    Result::Err(e) => {
                        return Result::Err(e);
                    },
                };
                return Result::Ok(
                    Type {
                        datatype: DataType::Vec,
                        name,
                        term: Option::None,
                        signed: Option::None,
                        length: Option::None,
                        fields: Option::Some(single_child(c)),
                    },
                );
            },
            _ => {
                return Result::Err(SchemaError::SchemaInconsistency);
            },
        }
    }
    if param_match_exec(declaration.as_str(), "Option<") {
        match found {
            Option::Some(Def::Enum { variants }) => {
                if variants.len() < 2 {
                    return Result::Err(SchemaError::SchemaInconsistency);
                }
                let c = match get_type_fueled(
                    container,
                    Option::None,
                    &variants[1].1,
                    result,
                    false,
                    fuel - 1,
                ) {
                    Result::Ok(t) => t,
                    Result::Err(e) => {
                        return Result::Err(e);
                    },
                };
                return Result::Ok(
                    Type {
                        datatype: DataType::Option,
                        name,
                        term: Option::None,
                        signed: Option::None,
                        length: Option::None,
                        fields: Option::Some(single_child(c)),
                    },
                );
            },
            _ => {
                return Result::Err(SchemaError::SchemaInconsistency);
            },
        }
    }
    if param_match_exec(declaration.as_str(), "Result<") {
        match found {
            Option::Some(Def::Enum { variants }) => {
                if variants.len() < 2 {
                    return Result::Err(SchemaError::SchemaInconsistency);
                }
                let ok_c = match get_type_fueled(
                    container,
                    Option::None,
                    &variants[0].1,
                    result,
                    false,
                    fuel - 1,
                ) {
                    Result::Ok(t) => t,
                    Result::Err(e) => {
                        return Result::Err(e);
                    },
                };
                let err_c = match get_type_fueled(
                    container,
                    Option::None,
                    &variants[1].1,
                    result,
                    false,
                    fuel - 1,
                ) {
                    Result::Ok(t) => t,
                    Result::Err(e) => {
                        return Result::Err(e);
                    },
                };
                let mut fs: Vec<Type> = Vec::new();
                fs.push(ok_c);
                fs.push(err_c);
                proof {
                    assert(fields_view(fs) =~= seq![fs@[0]@, fs@[1]@]);
                }
                return Result::Ok(
                    Type {
                        datatype: DataType::Result,
                        name,
                        term: Option::None,
                        signed: Option::None,
                        length: Option::None,
                        fields: Option::Some(fs),
                    },
                );
            },
            _ => {
                return Result::Err(SchemaError::SchemaInconsistency);
            },
        }
    }
    if param_match_exec(declaration.as_str(), "HashSet<") {
        match found {
            Option::Some(Def::Sequence { elements }) => {
                let c = match get_type_fueled(
                    container,
                    Option::None,
                    elements,
                    result,
                    false,
                    fuel - 1,
                ) {
                    Result::Ok(t) => t,
                    Result::Err(e) => {
                        return Result::Err(e);
                    },
                };
                return Result::Ok(
                    Type {
                        datatype: DataType::HashSet,
                        name,
                        term: Option::None,
                        signed: Option::None,
                        length: Option::None,
                        fields: Option::Some(single_child(c)),
                    },
                );
            },
            _ => {
                return Result::Err(SchemaError::SchemaInconsistency);
            },
        }
    }
    if param_match_exec(declaration.as_str(), "HashMap<") {
        match found {
            Option::Some(Def::Sequence { elements }) => {
                let c = match get_type_fueled(
                    container,
                    Option::None,
                    elements,
                    result,
                    false,
                    fuel - 1,
                ) {
                    Result::Ok(t) => t,
                    Result::Err(e) => {
                        return Result::Err(e);
                    },
                };
                return Result::Ok(
                    Type {
                        datatype: DataType::HashMap,
                        name,
                        term: Option::None,
                        signed: Option::None,
                        length: Option::None,
                        fields: Option::Some(single_child(c)),
                    },
                );
            },
            _ => {
                return Result::Err(SchemaError::SchemaInconsistency);
            },
        }
    }
    Result::Ok(Type::default())
}

/// Normalize one declaration against the flat schema source, adding the
/// canonical expansions of the named structs and enums it reaches to the
/// term table of `result`.  The returned node and the updated table are
/// exactly what `norm_spec` gives for the same inputs.
pub fn get_type(
    container: &BorshSchemaContainer,
    field_name: Option<&String>,
    declaration: &String,
    result: &mut TypeSchema,
    root: bool,
) -> (r: Result<Type, SchemaError>)
    requires
        old(result).terms.wf(),
    ensures
        final(result).terms.wf(),
        final(result).schema == old(result).schema,
        ({
            let sr = norm_spec(
                container_defs(*container),
                opt_name_view(field_name),
                declaration@,
                old(result).terms@,
                root,
                NORM_FUEL as nat,
            );
            match r {
                Result::Ok(t) => sr matches Result::Ok(p) && p.0 == t@ && p.1 == final(result).terms@,
                Result::Err(e) => sr == Result::<
                    (TypeV, Map<Seq<char>, TypeV>),
                    SchemaError,
                >::Err(e),
            }
        }),
{
    get_type_fueled(container, field_name, declaration, result, root, NORM_FUEL)
}

/// Normalize a whole schema source into a root node plus its term table.
/// The result is a function of the source's declarations alone, so
/// normalizing the same source twice gives structurally equal schemas.
pub fn get_schema(container: &BorshSchemaContainer) -> (r: Result<TypeSchema, SchemaError>)
    ensures
        ({
            let sr = normalized_schema(container_defs(*container), container_decl(*container));
            match r {
                Result::Ok(s) => sr matches Result::Ok(sv) && s@ == sv && s.terms.wf(),
                Result::Err(e) => sr == Result::<TypeSchemaV, SchemaError>::Err(e),
            }
        }),
{
    let decl = root_declaration(container);
    let mut tsch = TypeSchema { schema: Type::default(), terms: TermMap::new() };
    match get_type(container, Option::Some(&decl), &decl, &mut tsch, true) {
        Result::Ok(t) => {
            tsch.schema = t;
            Result::Ok(tsch)
        },
        Result::Err(e) => Result::Err(e),
    }
}

} // verus!
