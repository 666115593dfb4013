//! The normalized type-tree model: node kinds, nodes, the term table that
//! deduplicates shared definitions and breaks cycles, and the schema that
//! pairs a root node with its table.

use vstd::prelude::*;
use crate::text::str_eq_str;
use borsh::schema::BorshSchemaContainer;
use borsh::schema::Definition;
use borsh::schema::Fields;

verus! {

/// The kind of a normalized schema node.
#[derive(Debug, Clone, Copy, PartialEq)]
pub enum DataType {
    Bool,
    Int,
    Float,
    String,
    Enum,
    Variant,
    Tuple,
    Struct,
    Array,
    Vec,
    Option,
    Result,
    HashSet,
    HashMap,
    Undefined,
}

/// One normalized schema node.
///
/// A `Struct` or `Enum` node carries either its fields inline (`fields` is
/// set, the canonical expansion) or only a `term` key into the term table
/// (the reference form that stops unbounded expansion of recursive and
/// shared definitions).  `signed` and `length` are populated for numeric
/// kinds, and `length` also records arity for `Variant`, `Tuple`, `Enum`
/// and element count for `Array`.
#[derive(Debug, PartialEq)]
pub struct Type {
    pub datatype: DataType,
    pub name: Option<String>,
    pub term: Option<String>,
    pub signed: Option<bool>,
    pub length: Option<u32>,
    pub fields: Option<Vec<Type>>,
}

/// Mathematical model of a `Type` node.
#[verifier::ext_equal]
pub struct TypeV {
    pub datatype: DataType,
    pub name: Option<Seq<char>>,
    pub term: Option<Seq<char>>,
    pub signed: Option<bool>,
    pub length: Option<u32>,
    pub fields: Option<Seq<TypeV>>,
}

impl View for Type {
    type V = TypeV;

    open spec fn view(&self) -> TypeV
        decreases *self,
    {
        TypeV {
            datatype: self.datatype,
            name: match self.name {
                Option::None => Option::None,
                Option::Some(s) => Option::Some(s@),
            },
            term: match self.term {
                Option::None => Option::None,
                Option::Some(s) => Option::Some(s@),
            },
            signed: self.signed,
            length: self.length,
            fields: match self.fields {
                Option::None => Option::None,
                Option::Some(v) => Option::Some(fields_view(v)),
            },
        }
    }
}

/// Model of a list of child nodes.
pub open spec fn fields_view(v: Vec<Type>) -> Seq<TypeV>
    decreases v,
{
    Seq::new(v@.len(), |i: int| if 0 <= i < v@.len() {
        v@[i]@
    } else {
        arbitrary()
    })
}

impl Clone for Type {
    /// A deep copy whose model is identical to the original's.
    fn clone(&self) -> (r: Self)
        ensures
            r@ == self@,
    {
        clone_type(self)
    }
}

/// Recursive deep copy of a node; the copy has the same model.
#[verifier::loop_isolation(false)]
fn clone_type(t: &Type) -> (r: Type)
    ensures
        r@ == t@,
    decreases *t,
{
    let name: Option<String> = match &t.name {
        Option::None => Option::None,
        Option::Some(s) => Option::Some(s.clone()),
    };
    let term: Option<String> = match &t.term {
        Option::None => Option::None,
        Option::Some(s) => Option::Some(s.clone()),
    };
    let fields: Option<Vec<Type>> = match &t.fields {
        Option::None => Option::None,
        Option::Some(v) => {
            let mut out: Vec<Type> = Vec::new();
            let mut i: usize = 0;
            while i < v.len()
                invariant
                    i <= v.len(),
                    out@.len() == i as nat,
                    forall|j: int| 0 <= j < i ==> out@[j]@ == v@[j]@,
                decreases v.len() - i,
            {
                proof {
                    assert(decreases_to!(*t => *v));
                    assert(decreases_to!(*v => v@[i as int]));
                }
                out.push(clone_type(&v[i]));
                i = i + 1;
            }
            proof {
                assert(fields_view(out) =~= fields_view(*v));
            }
            Option::Some(out)
        },
    };
    let r = Type {
        datatype: t.datatype,
        name,
        term,
        signed: t.signed,
        length: t.length,
        fields,
    };
    r
}

impl Default for Type {
    /// The sentinel node: an `Undefined` leaf with every attribute absent.
    fn default() -> (t: Type)
        ensures
            t@ == undefined_node(),
    {
        Type {
            datatype: DataType::Undefined,
            name: Option::None,
            term: Option::None,
            signed: Option::None,
            length: Option::None,
            fields: Option::None,
        }
    }
}

/// Model of the `Undefined` sentinel produced for unrecognized declarations.
pub open spec fn undefined_node() -> TypeV {
    TypeV {
        datatype: DataType::Undefined,
        name: Option::None,
        term: Option::None,
        signed: Option::None,
        length: Option::None,
        fields: Option::None,
    }
}

/// The structural definition of one declaration of the flat schema source,
/// mirrored as plain values: named or positional struct fields, a fixed
/// array, a growable sequence, an enum's variants, or a tuple.
#[derive(Debug, Clone, PartialEq)]
pub enum Def {
    StructNamed(Vec<(String, String)>),
    StructUnnamed(Vec<String>),
    StructEmpty,
    Array { length: u32, elements: String },
    Sequence { elements: String },
    Enum { variants: Vec<(String, String)> },
    Tuple { elements: Vec<String> },
}

/// Mathematical model of a structural definition.
#[verifier::ext_equal]
pub enum DefV {
    StructNamed { fields: Seq<(Seq<char>, Seq<char>)> },
    StructUnnamed { fields: Seq<Seq<char>> },
    StructEmpty,
    Array { length: u32, elements: Seq<char> },
    Sequence { elements: Seq<char> },
    Enum { variants: Seq<(Seq<char>, Seq<char>)> },
    Tuple { elements: Seq<Seq<char>> },
}

/// Model of a list of (name, declaration) pairs.
pub open spec fn pairs_view(v: Seq<(String, String)>) -> Seq<(Seq<char>, Seq<char>)> {
    Seq::new(v.len(), |i: int| (v[i].0@, v[i].1@))
}

/// Model of a list of declarations.
pub open spec fn decls_view(v: Seq<String>) -> Seq<Seq<char>> {
    Seq::new(v.len(), |i: int| v[i]@)
}

impl View for Def {
    type V = DefV;

    open spec fn view(&self) -> DefV {
        match self {
            Def::StructNamed(v) => DefV::StructNamed { fields: pairs_view(v@) },
            Def::StructUnnamed(v) => DefV::StructUnnamed { fields: decls_view(v@) },
            Def::StructEmpty => DefV::StructEmpty,
            Def::Array { length, elements } => DefV::Array {
                length: *length,
                elements: elements@,
            },
            Def::Sequence { elements } => DefV::Sequence { elements: elements@ },
            Def::Enum { variants } => DefV::Enum { variants: pairs_view(variants@) },
            Def::Tuple { elements } => DefV::Tuple { elements: decls_view(elements@) },
        }
    }
}

#[verifier::external_type_specification]
#[verifier::external_body]
pub struct ExBorshSchemaContainer(BorshSchemaContainer);

/// The definitions held by a flat schema source, keyed by declaration.
pub uninterp spec fn container_defs(c: BorshSchemaContainer) -> Map<Seq<char>, DefV>;

/// The root declaration of a flat schema source.
pub uninterp spec fn container_decl(c: BorshSchemaContainer) -> Seq<char>;

/// Relies on `HashMap::get` on the public `definitions` field of
/// `borsh::schema::BorshSchemaContainer`: the definition stored under the
/// given declaration, or nothing when the declaration has none.  The borsh
/// `Definition` and its nested `Fields` are carried over variant for
/// variant into `Def`.
#[verifier::external_body]
pub(crate) fn lookup_def(c: &BorshSchemaContainer, declaration: &String) -> (r: Option<Def>)
    ensures
        match r {
            Option::None => !container_defs(*c).dom().contains(declaration@),
            Option::Some(d) => container_defs(*c).dom().contains(declaration@) && d@
                == container_defs(*c)[declaration@],
        },
{
    let d = c.definitions.get(declaration)?;
    Some(match d {
        Definition::Struct { fields: Fields::NamedFields(v) } => Def::StructNamed(v.clone()),
        Definition::Struct { fields: Fields::UnnamedFields(v) } => Def::StructUnnamed(v.clone()),
        Definition::Struct { fields: Fields::Empty } => Def::StructEmpty,
        Definition::Array { length, elements } => Def::Array { length: *length, elements: elements.clone() },
        Definition::Sequence { elements } => Def::Sequence { elements: elements.clone() },
        Definition::Enum { variants } => Def::Enum { variants: variants.clone() },
        Definition::Tuple { elements } => Def::Tuple { elements: elements.clone() },
    })
}

/// Relies on the public `declaration` field of
/// `borsh::schema::BorshSchemaContainer`: the root declaration of the source.
#[verifier::external_body]
pub(crate) fn root_declaration(c: &BorshSchemaContainer) -> (r: String)
    ensures
        r@ == container_decl(*c),
{
    c.declaration.clone()
}

/// The table of canonical nodes for shared and recursive definitions,
/// keyed by declaration.  Keys are unique; the table is modelled as a map.
#[derive(Debug, PartialEq)]
pub struct TermMap {
    entries: Vec<(String, Type)>,
}

/// Model of a list of table entries: later entries win, though entries
/// with unique keys never overlap.
pub open spec fn entries_map(es: Seq<(String, Type)>) -> Map<Seq<char>, TypeV>
    decreases es.len(),
{
    if es.len() == 0 {
        Map::empty()
    } else {
        entries_map(es.drop_last()).insert(es.last().0@, es.last().1@)
    }
}

impl View for TermMap {
    type V = Map<Seq<char>, TypeV>;

    closed spec fn view(&self) -> Map<Seq<char>, TypeV> {
        entries_map(self.entries@)
    }
}

/// A key occurs in the domain of the entry model exactly when some entry
/// carries it.
proof fn lemma_entries_map_dom(es: Seq<(String, Type)>, k: Seq<char>)
    ensures
        entries_map(es).dom().contains(k) <==> exists|i: int|
            0 <= i < es.len() && es[i].0@ == k,
    decreases es.len(),
{
    if es.len() > 0 {
        lemma_entries_map_dom(es.drop_last(), k);
        if es.last().0@ == k {
            assert(es[es.len() - 1].0@ == k);
        } else if entries_map(es).dom().contains(k) {
            let i = choose|i: int| 0 <= i < es.drop_last().len() && es.drop_last()[i].0@ == k;
            assert(es[i].0@ == k);
        } else {
            assert(forall|i: int|
                0 <= i < es.len() - 1 && es[i].0@ == k ==> es.drop_last()[i].0@ == k);
        }
    }
}

/// Whether the keys of the entries are pairwise distinct.
pub open spec fn entries_unique(es: Seq<(String, Type)>) -> bool {
    forall|i: int, j: int| 0 <= i < j < es.len() ==> es[i].0@ != es[j].0@
}

impl TermMap {
    /// Keys are pairwise distinct.  Constructors establish this and every
    /// method preserves it.
    pub closed spec fn wf(&self) -> bool {
        entries_unique(self.entries@)
    }

    /// The number of entries.
    pub closed spec fn spec_len(&self) -> nat {
        self.entries@.len()
    }

    /// An empty table.
    pub fn new() -> (r: TermMap)
        ensures
            r@ == Map::<Seq<char>, TypeV>::empty(),
            r.wf(),
            r.spec_len() == 0,
    {
        TermMap { entries: Vec::new() }
    }

    /// The number of entries, which equals the number of distinct keys.
    pub fn len(&self) -> (n: usize)
        ensures
            n == self.spec_len(),
    {
        self.entries.len()
    }

    /// Look a declaration up, returning the canonical node stored under it.
    pub fn get<'s>(&'s self, k: &String) -> (r: Option<&'s Type>)
        requires
            self.wf(),
        ensures
            match r {
                Option::None => !self@.dom().contains(k@),
                Option::Some(t) => self@.dom().contains(k@) && t@ == self@[k@],
            },
    {
        let mut i: usize = 0;
        while i < self.entries.len()
            invariant
                self.wf(),
                i <= self.entries@.len(),
                forall|j: int| 0 <= j < i ==> self.entries@[j].0@ != k@,
            decreases self.entries@.len() - i,
        {
            if str_eq_str(self.entries[i].0.as_str(), k.as_str()) {
                proof {
                    lemma_entries_value(self.entries@, i as int);
                }
                return Option::Some(&self.entries[i].1);
            }
            i = i + 1;
        }
        proof {
            lemma_entries_map_dom(self.entries@, k@);
        }
        Option::None
    }

    /// Whether the table holds an entry for the declaration.
    pub fn contains_key(&self, k: &String) -> (r: bool)
        requires
            self.wf(),
        ensures
            r == self@.dom().contains(k@),
    {
        match self.get(k) {
            Option::Some(_) => true,
            Option::None => false,
        }
    }

    /// The entries of the table: each key with its canonical node.  Keys
    /// are pairwise distinct, so the length equals the number of
    /// declarations the table holds.
    pub fn to_entries(&self) -> (r: Vec<(String, Type)>)
        requires
            self.wf(),
        ensures
            r@.len() == self.spec_len(),
            forall|i: int|
                0 <= i < r@.len() ==> self@.dom().contains(#[trigger] r@[i].0@)
                    && self@[r@[i].0@] == r@[i].1@,
    {
        let mut out: Vec<(String, Type)> = Vec::new();
        let mut i: usize = 0;
        while i < self.entries.len()
            invariant
                self.wf(),
                i <= self.entries@.len(),
                out@.len() == i as nat,
                forall|j: int|
                    0 <= j < i ==> #[trigger] out@[j].0@ == self.entries@[j].0@ && out@[j].1@
                        == self.entries@[j].1@,
            decreases self.entries@.len() - i,
        {
            let k = self.entries[i].0.clone();
            let v = self.entries[i].1.clone();
            out.push((k, v));
            i = i + 1;
        }
        proof {
            assert forall|i2: int|
                0 <= i2 < out@.len() implies self@.dom().contains(#[trigger] out@[i2].0@)
                && self@[out@[i2].0@] == out@[i2].1@ by {
                lemma_entries_value(self.entries@, i2);
            }
        }
        out
    }

    /// Store a canonical node under a declaration, replacing any entry the
    /// declaration already had.
    pub fn insert(&mut self, k: String, v: Type)
        requires
            old(self).wf(),
        ensures
            final(self)@ == old(self)@.insert(k@, v@),
            final(self).wf(),
            final(self).spec_len() == if old(self)@.dom().contains(k@) {
                old(self).spec_len()
            } else {
                old(self).spec_len() + 1
            },
    {
        let ghost es0 = self.entries@;
        let mut i: usize = 0;
        while i < self.entries.len()
            invariant
                es0 == old(self).entries@,
                entries_unique(es0),
                self.entries@ == es0,
                i <= es0.len(),
                forall|j: int| 0 <= j < i ==> es0[j].0@ != k@,
            decreases es0.len() - i,
        {
            if str_eq_str(self.entries[i].0.as_str(), k.as_str()) {
                self.entries[i] = (k, v);
                proof {
                    lemma_entries_map_dom(es0, es0[i as int].0@);
                    lemma_entries_update(es0, i as int, self.entries@[i as int]);
                    assert forall|a: int, b: int|
                        0 <= a < b < self.entries@.len() implies self.entries@[a].0@
                        != self.entries@[b].0@ by {
                        assert(es0[a].0@ != es0[b].0@);
                    }
                }
                return;
            }
            i = i + 1;
        }
        proof {
            lemma_entries_map_dom(self.entries@, k@);
        }
        self.entries.push((k, v));
        proof {
            assert(self.entries@.drop_last() =~= es0);
            assert(entries_unique(self.entries@));
        }
    }
}

/// With pairwise distinct keys, the value stored under the key of entry
/// `i` is the value of entry `i`.
proof fn lemma_entries_value(es: Seq<(String, Type)>, i: int)
    requires
        entries_unique(es),
        0 <= i < es.len(),
    ensures
        entries_map(es).dom().contains(es[i].0@),
        entries_map(es)[es[i].0@] == es[i].1@,
    decreases es.len(),
{
    if i == es.len() - 1 {
    } else {
        lemma_entries_value(es.drop_last(), i);
    }
}

/// Replacing entry `i` in place, keeping its key, updates the model at
/// that key alone.
proof fn lemma_entries_update(es: Seq<(String, Type)>, i: int, e: (String, Type))
    requires
        entries_unique(es),
        0 <= i < es.len(),
        e.0@ == es[i].0@,
    ensures
        entries_map(es.update(i, e)) == entries_map(es).insert(e.0@, e.1@),
    decreases es.len(),
{
    let es2 = es.update(i, e);
    if i == es.len() - 1 {
        assert(es2.drop_last() =~= es.drop_last());
        assert(entries_map(es2) =~= entries_map(es).insert(e.0@, e.1@));
    } else {
        assert(es2.drop_last() =~= es.drop_last().update(i, e));
        lemma_entries_update(es.drop_last(), i, e);
        assert(es2.last() == es.last());
        assert(es.last().0@ != e.0@);
        assert(entries_map(es2) =~= entries_map(es).insert(e.0@, e.1@));
    }
}

/// A normalized schema: the root node paired with the term table that its
/// reference nodes point into.
#[derive(Debug, PartialEq)]
pub struct TypeSchema {
    pub schema: Type,
    pub terms: TermMap,
}

/// Mathematical model of a normalized schema.
#[verifier::ext_equal]
pub struct TypeSchemaV {
    pub schema: TypeV,
    pub terms: Map<Seq<char>, TypeV>,
}

impl View for TypeSchema {
    type V = TypeSchemaV;

    open spec fn view(&self) -> TypeSchemaV {
        TypeSchemaV { schema: self.schema@, terms: self.terms@ }
    }
}

} // verus!
