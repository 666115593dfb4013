//! The builder: a value/schema dual traversal.  An external visit plan
//! drives `stack_push(index)` / `build(text)` / `stack_pop()` calls per
//! field; the builder keeps a schema stack, a path stack and an identity
//! stack in lockstep and appends statements about every visited sub-value
//! to its output graph.

use vstd::prelude::*;
use crate::schema::{fields_view, DataType, Type, TypeSchema, TypeSchemaV, TypeV};
use crate::text::{dec_str, join_path, usize_to_string, join_path_exec};

verus! {

/// The errors of a traversal.  They mean the external visit plan and the
/// normalized schema no longer agree: an operation that needs a current
/// frame or an enclosing identity found none (`EmptyStack`), a push went
/// past the children of the current node (`IndexOutOfRange`), a leaf was
/// emitted without its rendered text (`MissingLiteral`), or a struct node
/// lacked the term key its addresses are derived from (`MissingTerm`).
#[derive(Debug, Clone, Copy, PartialEq, Eq, Structural)]
pub enum BuildError {
    EmptyStack,
    IndexOutOfRange,
    MissingLiteral,
    MissingTerm,
}

/// How instance identities get their unique token: a freshly drawn random
/// token per container, or a deterministic counter for reproducible runs.
#[derive(Debug, Clone, Copy, PartialEq, Eq, Structural)]
pub enum TokenMode {
    Random,
    Counter,
}

/// The object of a statement: another node's identity, or a literal text.
#[derive(Debug, Clone, PartialEq)]
pub enum StatementObject {
    Iri(String),
    Literal(String),
}

/// One emitted (subject, predicate, object) statement.
#[derive(Debug, Clone, PartialEq)]
pub struct Statement {
    pub subject: String,
    pub predicate: String,
    pub object: StatementObject,
}

/// Model of a statement object.
#[verifier::ext_equal]
pub enum StatementObjectV {
    Iri(Seq<char>),
    Literal(Seq<char>),
}

/// Model of a statement.
#[verifier::ext_equal]
pub struct StatementV {
    pub subject: Seq<char>,
    pub predicate: Seq<char>,
    pub object: StatementObjectV,
}

impl View for StatementObject {
    type V = StatementObjectV;

    open spec fn view(&self) -> StatementObjectV {
        match self {
            StatementObject::Iri(s) => StatementObjectV::Iri(s@),
            StatementObject::Literal(s) => StatementObjectV::Literal(s@),
        }
    }
}

impl View for Statement {
    type V = StatementV;

    open spec fn view(&self) -> StatementV {
        StatementV { subject: self.subject@, predicate: self.predicate@, object: self.object@ }
    }
}

/// Model of the output graph.
pub open spec fn graph_view(g: Seq<Statement>) -> Seq<StatementV> {
    Seq::new(g.len(), |i: int| g[i]@)
}

/// The base of every synthesized address.
pub open spec fn base_uri() -> Seq<char> {
    "https://data.atellix.net"@
}

/// The deterministic class address of the current path.
pub open spec fn path_uri(path: Seq<Seq<char>>) -> Seq<char> {
    base_uri() + seq!['/'] + join_path(path)
}

/// A per-instance identity: the path address plus a unique token.
pub open spec fn hash_uri(path: Seq<Seq<char>>, token: Seq<char>) -> Seq<char> {
    path_uri(path) + seq!['#'] + token
}

/// The predicate that asserts a node's class.
pub open spec fn rdf_type_uri() -> Seq<char> {
    "http://www.w3.org/1999/02/22-rdf-syntax-ns#type"@
}

/// The class object for schema-level property nodes.
pub open spec fn rdf_property_uri() -> Seq<char> {
    "http://www.w3.org/1999/02/22-rdf-syntax-ns#Property"@
}

/// The class object for schema-level class nodes.
pub open spec fn rdfs_class_uri() -> Seq<char> {
    "http://www.w3.org/2000/01/rdf-schema#Class"@
}

/// The node kinds that open an identity of their own.
pub open spec fn is_container(dt: DataType) -> bool {
    dt is Struct || dt is Tuple || dt is Vec
}

/// The class label of a container node: structs are labelled by their
/// term key, tuples and sequences by fixed labels.
pub open spec fn class_label(node: TypeV) -> Seq<char>
    recommends
        is_container(node.datatype),
        node.datatype is Struct ==> node.term is Some,
{
    match node.datatype {
        DataType::Struct => "type/struct#"@ + node.term->Some_0,
        DataType::Tuple => "type/tuple"@,
        _ => "type/vec"@,
    }
}

/// The full class address of a container node.
pub open spec fn class_uri(node: TypeV) -> Seq<char> {
    base_uri() + seq!['/'] + class_label(node)
}

/// The next counter value; the counter saturates rather than wraps.
pub open spec fn token_bump(c: u64) -> u64 {
    if c < u64::MAX {
        (c + 1) as u64
    } else {
        c
    }
}

/// Mathematical model of a builder.
#[verifier::ext_equal]
pub struct BuilderV {
    pub schema: TypeSchemaV,
    pub stack: Seq<(TypeV, nat)>,
    pub path: Seq<Seq<char>>,
    pub uri: Seq<Seq<char>>,
    pub root: bool,
    pub graph: Seq<StatementV>,
    pub token_mode: TokenMode,
    pub token_counter: u64,
}

/// The path segment of a node being entered: the term key for the root
/// struct, else the field name, else the decimal positional index.
pub open spec fn path_element_spec(node: TypeV, index: nat, root: bool) -> Result<
    Seq<char>,
    BuildError,
> {
    if node.datatype is Struct && root {
        match node.term {
            Option::Some(t) => Result::Ok(t),
            Option::None => Result::Err(BuildError::MissingTerm),
        }
    } else {
        match node.name {
            Option::Some(n) => Result::Ok(n),
            Option::None => Result::Ok(dec_str(index)),
        }
    }
}

/// One `push`: the very first call initializes the schema stack to the
/// root and ignores the index; later calls index into the children of the
/// top node, resolving a bare term reference through the term table first.
/// The path stack grows by the entered node's segment.
/// The children the current top node offers to a push: its own inline
/// fields, or those of its canonical definition in the term table.
pub open spec fn push_resolved(v: BuilderV) -> Result<Seq<TypeV>, BuildError>
    recommends
        v.stack.len() > 0,
{
    let top = v.stack.last().0;
    if top.fields is None && top.term is Some {
        if v.schema.terms.dom().contains(top.term->Some_0) {
            match v.schema.terms[top.term->Some_0].fields {
                Option::Some(fs) => Result::Ok(fs),
                Option::None => Result::Err(BuildError::MissingTerm),
            }
        } else {
            Result::Err(BuildError::MissingTerm)
        }
    } else {
        match top.fields {
            Option::Some(fs) => Result::Ok(fs),
            Option::None => Result::Err(BuildError::IndexOutOfRange),
        }
    }
}

pub open spec fn push_step(v: BuilderV, index: nat) -> Result<BuilderV, BuildError> {
    if v.root {
        match path_element_spec(v.schema.schema, 0, true) {
            Result::Ok(pe) => Result::Ok(
                BuilderV {
                    root: false,
                    stack: v.stack.push((v.schema.schema, 0)),
                    path: v.path.push(pe),
                    ..v
                },
            ),
            Result::Err(e) => Result::Err(e),
        }
    } else if v.stack.len() == 0 {
        Result::Err(BuildError::EmptyStack)
    } else {
        let top = v.stack.last().0;
        match push_resolved(v) {
            Result::Err(e) => Result::Err(e),
            Result::Ok(fs) => {
                if index >= fs.len() {
                    Result::Err(BuildError::IndexOutOfRange)
                } else {
                    let field = fs[index as int];
                    match path_element_spec(field, index, false) {
                        Result::Ok(pe) => Result::Ok(
                            BuilderV {
                                stack: v.stack.push((field, index)),
                                path: v.path.push(pe),
                                ..v
                            },
                        ),
                        Result::Err(e) => Result::Err(e),
                    }
                }
            },
        }
    }
}

/// One `pop`: the schema and path stacks shrink by one entry, and leaving
/// a container also closes its identity.
pub open spec fn pop_step(v: BuilderV) -> Result<BuilderV, BuildError> {
    if v.stack.len() == 0 {
        Result::Err(BuildError::EmptyStack)
    } else {
        let node = v.stack.last().0;
        let v2 = BuilderV {
            stack: v.stack.drop_last(),
            path: if v.path.len() > 0 {
                v.path.drop_last()
            } else {
                v.path
            },
            ..v
        };
        if is_container(node.datatype) {
            Result::Ok(
                BuilderV {
                    uri: if v.uri.len() > 0 {
                        v.uri.drop_last()
                    } else {
                        v.uri
                    },
                    ..v2
                },
            )
        } else {
            Result::Ok(v2)
        }
    }
}

/// One `build`: a container node opens a fresh instance identity, asserts
/// its class, and links it from its parent identity when one exists; a
/// leaf node emits a literal statement against the current identity and
/// must come with its rendered text.  `rand_token` stands for whatever a
/// random token source produced; in counter mode the token is the decimal
/// counter value and the counter advances.
pub open spec fn build_step(v: BuilderV, data: Option<Seq<char>>, rand_token: Seq<char>) -> Result<
    BuilderV,
    BuildError,
> {
    if v.stack.len() == 0 {
        Result::Err(BuildError::EmptyStack)
    } else {
        let node = v.stack.last().0;
        if is_container(node.datatype) {
            if node.datatype is Struct && node.term is None {
                Result::Err(BuildError::MissingTerm)
            } else {
                let token = if v.token_mode is Counter {
                    dec_str(v.token_counter as nat)
                } else {
                    rand_token
                };
                let counter2 = if v.token_mode is Counter {
                    token_bump(v.token_counter)
                } else {
                    v.token_counter
                };
                let inst = hash_uri(v.path, token);
                let class_stmt = StatementV {
                    subject: inst,
                    predicate: rdf_type_uri(),
                    object: StatementObjectV::Iri(class_uri(node)),
                };
                let graph2 = if v.uri.len() > 0 {
                    v.graph.push(class_stmt).push(
                        StatementV {
                            subject: v.uri.last(),
                            predicate: path_uri(v.path),
                            object: StatementObjectV::Iri(inst),
                        },
                    )
                } else {
                    v.graph.push(class_stmt)
                };
                Result::Ok(
                    BuilderV { uri: v.uri.push(inst), graph: graph2, token_counter: counter2, ..v },
                )
            }
        } else {
            match data {
                Option::None => Result::Err(BuildError::MissingLiteral),
                Option::Some(text) => {
                    if v.uri.len() == 0 {
                        Result::Err(BuildError::EmptyStack)
                    } else {
                        Result::Ok(
                            BuilderV {
                                graph: v.graph.push(
                                    StatementV {
                                        subject: v.uri.last(),
                                        predicate: path_uri(v.path),
                                        object: StatementObjectV::Literal(text),
                                    },
                                ),
                                ..v
                            },
                        )
                    }
                },
            }
        }
    }
}

/// Model of an optional literal text.
pub open spec fn opt_str_view(data: Option<&str>) -> Option<Seq<char>> {
    match data {
        Option::None => Option::None,
        Option::Some(s) => Option::Some(s@),
    }
}

/// The operations a builder exposes to an externally generated visit
/// plan: descend into a field, emit the current node, ascend, test for
/// the start of a traversal, and read the current address.  `inv` is the
/// well-formedness every operation preserves.
pub trait Build {
    spec fn inv(&self) -> bool;

    fn build(&mut self, data: Option<&str>) -> (r: Result<(), BuildError>)
        requires
            old(self).inv(),
        ensures
            final(self).inv(),
    ;

    fn path_element(&mut self, node: &Type, index: usize, root: bool) -> (r: Result<
        String,
        BuildError,
    >)
        requires
            old(self).inv(),
        ensures
            final(self).inv(),
    ;

    fn stack_push(&mut self, index: usize) -> (r: Result<(), BuildError>)
        requires
            old(self).inv(),
        ensures
            final(self).inv(),
    ;

    fn stack_pop(&mut self) -> (r: Result<(), BuildError>)
        requires
            old(self).inv(),
        ensures
            final(self).inv(),
    ;

    fn is_root(&self) -> bool;

    fn get_uri(&mut self, instance: bool) -> (r: String)
        requires
            old(self).inv(),
        ensures
            final(self).inv(),
    ;
}

/// The traversal engine: borrows a normalized schema for one traversal
/// and keeps the schema stack, path stack and identity stack in lockstep
/// while an external visit plan drives it.
pub struct Builder<'a> {
    schema: &'a TypeSchema,
    stack: Vec<(&'a Type, usize)>,
    path: Vec<String>,
    uri: Vec<String>,
    root: bool,
    pub graph: Vec<Statement>,
    token_mode: TokenMode,
    token_counter: u64,
}

impl<'a> View for Builder<'a> {
    type V = BuilderV;

    closed spec fn view(&self) -> BuilderV {
        BuilderV {
            schema: self.schema@,
            stack: Seq::new(self.stack@.len(), |i: int| (self.stack@[i].0@, self.stack@[i].1 as nat)),
            path: Seq::new(self.path@.len(), |i: int| self.path@[i]@),
            uri: Seq::new(self.uri@.len(), |i: int| self.uri@[i]@),
            root: self.root,
            graph: graph_view(self.graph@),
            token_mode: self.token_mode,
            token_counter: self.token_counter,
        }
    }
}

impl<'a> Builder<'a> {
    /// The term table behind the borrowed schema is well formed.
    pub closed spec fn wf(&self) -> bool {
        self.schema.terms.wf()
    }

    /// Start a traversal: empty stacks, root not yet entered, no output.
    pub fn new(schema: &'a TypeSchema, token_mode: TokenMode) -> (b: Builder<'a>)
        requires
            schema.terms.wf(),
        ensures
            b.wf(),
            b@ == (BuilderV {
                schema: schema@,
                stack: Seq::empty(),
                path: Seq::empty(),
                uri: Seq::empty(),
                root: true,
                graph: Seq::empty(),
                token_mode,
                token_counter: 0,
            }),
    {
        let b = Builder {
            schema,
            stack: Vec::new(),
            path: Vec::new(),
            uri: Vec::new(),
            root: true,
            graph: Vec::new(),
            token_mode,
            token_counter: 0,
        };
        proof {
            assert(b@ =~= (BuilderV {
                schema: schema@,
                stack: Seq::empty(),
                path: Seq::empty(),
                uri: Seq::empty(),
                root: true,
                graph: Seq::empty(),
                token_mode,
                token_counter: 0,
            }));
        }
        b
    }

    /// True only before the first `push` of the traversal.
    pub fn is_root(&self) -> (r: bool)
        ensures
            r == self@.root,
    {
        self.root
    }

    /// The path segment for entering `node` at position `index`.
    pub fn path_element(&mut self, node: &Type, index: usize, root: bool) -> (r: Result<
        String,
        BuildError,
    >)
        ensures
            *final(self) == *old(self),
            match r {
                Result::Ok(s) => path_element_spec(node@, index as nat, root) == Result::<
                    Seq<char>,
                    BuildError,
                >::Ok(s@),
                Result::Err(e) => path_element_spec(node@, index as nat, root) == Result::<
                    Seq<char>,
                    BuildError,
                >::Err(e),
            },
    {
        let is_struct = match node.datatype {
            DataType::Struct => true,
            _ => false,
        };
        if is_struct && root {
            match &node.term {
                Option::Some(t) => Result::Ok(t.clone()),
                Option::None => Result::Err(BuildError::MissingTerm),
            }
        } else {
            match &node.name {
                Option::Some(n) => Result::Ok(n.clone()),
                Option::None => Result::Ok(usize_to_string(index)),
            }
        }
    }

    /// The deterministic path address (`instance` true), or a fresh
    /// instance identity: the path address plus a unique token.
    pub fn get_uri(&mut self, instance: bool) -> (r: String)
        ensures
            final(self)@ == (BuilderV { token_counter: final(self)@.token_counter, ..old(self)@ }),
            instance ==> final(self)@ == old(self)@ && r@ == path_uri(old(self)@.path),
            !instance && old(self)@.token_mode is Counter ==> r@ == hash_uri(
                old(self)@.path,
                dec_str(old(self)@.token_counter as nat),
            ) && final(self)@.token_counter == token_bump(old(self)@.token_counter),
            !instance && old(self)@.token_mode is Random ==> final(self)@ == old(self)@ && (
            exists|tk: Seq<char>| tk.len() == 36 && r@ == hash_uri(old(self)@.path, tk)),
            final(self).wf() == old(self).wf(),
    {
        proof {
            reveal_strlit("/");
            reveal_strlit("#");
        }
        let mut s = String::from_str("https://data.atellix.net");
        s.append("/");
        let joined = join_path_exec(&self.path);
        s.append(joined.as_str());
        proof {
            assert(Seq::new(self.path@.len(), |i: int| self.path@[i]@) =~= crate::text::segments_view(
                self.path@,
            ));
            assert(s@ =~= path_uri(self@.path));
        }
        if instance {
            return s;
        }
        let token: String = match self.token_mode {
            TokenMode::Counter => {
                let t = crate::text::u64_to_string(self.token_counter);
                self.token_counter = if self.token_counter < u64::MAX {
                    self.token_counter + 1
                } else {
                    self.token_counter
                };
                t
            },
            TokenMode::Random => random_token(),
        };
        s.append("#");
        s.append(token.as_str());
        proof {
            assert(s@ =~= hash_uri(old(self)@.path, token@));
            assert(self@ =~= (BuilderV {
                token_counter: self@.token_counter,
                ..old(self)@
            }));
        }
        s
    }

    /// Descend into the field at `index` of the top schema node, or enter
    /// the schema root on the first call.
    pub fn stack_push(&mut self, index: usize) -> (r: Result<(), BuildError>)
        requires
            old(self).wf(),
        ensures
            final(self).wf(),
            match r {
                Result::Ok(u) => push_step(old(self)@, index as nat) == Result::<
                    BuilderV,
                    BuildError,
                >::Ok(final(self)@),
                Result::Err(e) => final(self)@ == old(self)@ && push_step(old(self)@, index as nat)
                    == Result::<BuilderV, BuildError>::Err(e),
            },
    {
        if self.root {
            let schema_root: &'a Type = &self.schema.schema;
            let pe = match self.path_element(schema_root, 0, true) {
                Result::Ok(s) => s,
                Result::Err(e) => {
                    return Result::Err(e);
                },
            };
            self.root = false;
            self.stack.push((schema_root, 0));
            self.path.push(pe);
            proof {
                let bv = BuilderV {
                    root: false,
                    stack: old(self)@.stack.push((old(self)@.schema.schema, 0)),
                    path: old(self)@.path.push(
                        path_element_spec(old(self)@.schema.schema, 0, true)->Ok_0,
                    ),
                    ..old(self)@
                };
                assert(self@ =~= bv);
                assert(self@ == bv);
            }
            return Result::Ok(());
        }
        if self.stack.len() == 0 {
            return Result::Err(BuildError::EmptyStack);
        }
        let top: &'a Type = self.stack[self.stack.len() - 1].0;
        let fields: &'a Vec<Type> = match &top.fields {
            Option::Some(fs) => fs,
            Option::None => {
                match &top.term {
                    Option::Some(k) => {
                        let schema: &'a TypeSchema = self.schema;
                        match schema.terms.get(k) {
                            Option::Some(node) => {
                                match &node.fields {
                                    Option::Some(fs) => fs,
                                    Option::None => {
                                        return Result::Err(BuildError::MissingTerm);
                                    },
                                }
                            },
                            Option::None => {
                                return Result::Err(BuildError::MissingTerm);
                            },
                        }
                    },
                    Option::None => {
                        return Result::Err(BuildError::IndexOutOfRange);
                    },
                }
            },
        };
        proof {
            assert(old(self)@.stack.last().0 == top@);
            assert(push_resolved(old(self)@) == Result::<Seq<TypeV>, BuildError>::Ok(
                fields_view(*fields),
            ));
            assert(fields_view(*fields).len() == fields@.len());
        }
        if index >= fields.len() {
            return Result::Err(BuildError::IndexOutOfRange);
        }
        let field: &'a Type = &fields[index];
        proof {
            assert(field@ == fields_view(*fields)[index as int]);
        }
        let pe = match self.path_element(field, index, false) {
            Result::Ok(s) => s,
            Result::Err(e) => {
                return Result::Err(e);
            },
        };
        self.stack.push((field, index));
        self.path.push(pe);
        proof {
            assert(self@ =~= (BuilderV {
                stack: old(self)@.stack.push((field@, index as nat)),
                path: old(self)@.path.push(path_element_spec(field@, index as nat, false)->Ok_0),
                ..old(self)@
            }));
        }
        Result::Ok(())
    }

    /// Ascend: drop the top schema and path entries, and close the top
    /// identity when the node being left was a container.
    pub fn stack_pop(&mut self) -> (r: Result<(), BuildError>)
        requires
            old(self).wf(),
        ensures
            final(self).wf(),
            match r {
                Result::Ok(u) => pop_step(old(self)@) == Result::<BuilderV, BuildError>::Ok(
                    final(self)@,
                ),
                Result::Err(e) => final(self)@ == old(self)@ && pop_step(old(self)@) == Result::<
                    BuilderV,
                    BuildError,
                >::Err(e),
            },
    {
        let node = match self.stack.pop() {
            Option::Some(pair) => pair.0,
            Option::None => {
                return Result::Err(BuildError::EmptyStack);
            },
        };
        let popped_path = self.path.pop();
        let container = match node.datatype {
            DataType::Struct => true,
            DataType::Tuple => true,
            DataType::Vec => true,
            _ => false,
        };
        if container {
            let popped_uri = self.uri.pop();
            proof {
                assert(self@ =~= pop_step(old(self)@)->Ok_0);
            }
        } else {
            proof {
                assert(self@ =~= pop_step(old(self)@)->Ok_0);
            }
        }
        Result::Ok(())
    }

    /// Emit output for the node on top of the schema stack.
    pub fn build(&mut self, data: Option<&str>) -> (r: Result<(), BuildError>)
        requires
            old(self).wf(),
        ensures
            final(self).wf(),
            match r {
                Result::Ok(u) => exists|tk: Seq<char>|
                    build_step(old(self)@, opt_str_view(data), tk) == Result::<
                        BuilderV,
                        BuildError,
                    >::Ok(final(self)@),
                Result::Err(e) => final(self)@ == old(self)@ && exists|tk: Seq<char>|
                    build_step(old(self)@, opt_str_view(data), tk) == Result::<
                        BuilderV,
                        BuildError,
                    >::Err(e),
            },
    {
        proof {
            reveal_strlit("/");
            reveal_strlit("#");
        }
        if self.stack.len() == 0 {
            proof {
                let tk = Seq::<char>::empty();
                assert(build_step(old(self)@, opt_str_view(data), tk) == Result::<
                    BuilderV,
                    BuildError,
                >::Err(BuildError::EmptyStack));
            }
            return Result::Err(BuildError::EmptyStack);
        }
        let node: &'a Type = self.stack[self.stack.len() - 1].0;
        let is_struct = match node.datatype {
            DataType::Struct => true,
            _ => false,
        };
        let is_tuple = match node.datatype {
            DataType::Tuple => true,
            _ => false,
        };
        let is_vec = match node.datatype {
            DataType::Vec => true,
            _ => false,
        };
        if is_struct || is_tuple || is_vec {
            let label: String;
            if is_struct {
                match &node.term {
                    Option::Some(t) => {
                        let mut l = String::from_str("type/struct#");
                        l.append(t.as_str());
                        proof {
                            assert(l@ =~= class_label(node@));
                        }
                        label = l;
                    },
                    Option::None => {
                        proof {
                            let tk = Seq::<char>::empty();
                            assert(build_step(old(self)@, opt_str_view(data), tk) == Result::<
                                BuilderV,
                                BuildError,
                            >::Err(BuildError::MissingTerm));
                        }
                        return Result::Err(BuildError::MissingTerm);
                    },
                }
            } else if is_tuple {
                label = String::from_str("type/tuple");
            } else {
                label = String::from_str("type/vec");
            }
            proof {
                assert(label@ == class_label(node@));
            }
            let mut class = String::from_str("https://data.atellix.net");
            class.append("/");
            class.append(label.as_str());
            proof {
                assert(class@ =~= class_uri(node@));
            }
            let ghost counter0 = self.token_counter;
            let inst = self.get_uri(false);
            proof {
                if old(self)@.token_mode is Counter {
                    assert(inst@ == hash_uri(old(self)@.path, dec_str(counter0 as nat)));
                }
                assert(exists|tk: Seq<char>| inst@ == hash_uri(old(self)@.path, tk));
            }
            let ghost tk_used: Seq<char> = choose|tk: Seq<char>|
                inst@ == hash_uri(old(self)@.path, tk);
            let prop = self.get_uri(true);
            if self.uri.len() > 0 {
                let parent = self.uri[self.uri.len() - 1].clone();
                self.uri.push(inst.clone());
                self.graph.push(
                    Statement {
                        subject: inst.clone(),
                        predicate: rdf_type_string(),
                        object: StatementObject::Iri(class),
                    },
                );
                self.graph.push(
                    Statement {
                        subject: parent,
                        predicate: prop,
                        object: StatementObject::Iri(inst),
                    },
                );
                proof {
                    let bs = build_step(old(self)@, opt_str_view(data), tk_used);
                    assert(bs is Ok);
                    assert(bs->Ok_0 =~~= self@);
                }
                return Result::Ok(());
            } else {
                self.uri.push(inst.clone());
                self.graph.push(
                    Statement {
                        subject: inst,
                        predicate: rdf_type_string(),
                        object: StatementObject::Iri(class),
                    },
                );
                proof {
                    let bs = build_step(old(self)@, opt_str_view(data), tk_used);
                    assert(bs is Ok);
                    assert(bs->Ok_0 =~~= self@);
                }
                return Result::Ok(());
            }
        } else {
            let text: &str = match data {
                Option::Some(t) => t,
                Option::None => {
                    proof {
                        let tk = Seq::<char>::empty();
                        assert(build_step(old(self)@, opt_str_view(data), tk) == Result::<
                            BuilderV,
                            BuildError,
                        >::Err(BuildError::MissingLiteral));
                    }
                    return Result::Err(BuildError::MissingLiteral);
                },
            };
            if self.uri.len() == 0 {
                proof {
                    let tk = Seq::<char>::empty();
                    assert(build_step(old(self)@, opt_str_view(data), tk) == Result::<
                        BuilderV,
                        BuildError,
                    >::Err(BuildError::EmptyStack));
                }
                return Result::Err(BuildError::EmptyStack);
            }
            let prop = self.get_uri(true);
            let subject = self.uri[self.uri.len() - 1].clone();
            self.graph.push(
                Statement {
                    subject,
                    predicate: prop,
                    object: StatementObject::Literal(String::from_str(text)),
                },
            );
            proof {
                let tk = Seq::<char>::empty();
                let bs = build_step(old(self)@, opt_str_view(data), tk);
                assert(bs is Ok);
                assert(bs->Ok_0 =~~= self@);
            }
            return Result::Ok(());
        }
    }
}

impl<'a> Build for Builder<'a> {
    open spec fn inv(&self) -> bool {
        self.wf()
    }

    fn build(&mut self, data: Option<&str>) -> (r: Result<(), BuildError>) {
        Builder::build(self, data)
    }

    fn path_element(&mut self, node: &Type, index: usize, root: bool) -> (r: Result<
        String,
        BuildError,
    >) {
        Builder::path_element(self, node, index, root)
    }

    fn stack_push(&mut self, index: usize) -> (r: Result<(), BuildError>) {
        Builder::stack_push(self, index)
    }

    fn stack_pop(&mut self) -> (r: Result<(), BuildError>) {
        Builder::stack_pop(self)
    }

    fn is_root(&self) -> bool {
        Builder::is_root(self)
    }

    fn get_uri(&mut self, instance: bool) -> (r: String) {
        Builder::get_uri(self, instance)
    }
}

/// The statements describing one schema node by itself: its term key (or
/// its field name, when it has no term) bound in the example namespace,
/// classed as a schema class for structs and as a property for anything
/// else.  A node with neither term nor name describes nothing.
pub open spec fn rdf_instance_spec(node: TypeV) -> Seq<StatementV> {
    let binding = if node.term is Some {
        Option::Some(node.term->Some_0)
    } else if node.name is Some {
        Option::Some(node.name->Some_0)
    } else {
        Option::None
    };
    match binding {
        Option::None => Seq::empty(),
        Option::Some(b) => seq![
            StatementV {
                subject: "http://example.org/"@ + b,
                predicate: rdf_type_uri(),
                object: StatementObjectV::Iri(
                    if node.datatype is Struct {
                        rdfs_class_uri()
                    } else {
                        rdf_property_uri()
                    },
                ),
            },
        ],
    }
}

/// Describe one schema node as statements of its own: a class assertion
/// in the example namespace, keyed by the node's term or name.
pub fn build_rdf_instance(root: &Type) -> (r: Vec<Statement>)
    ensures
        graph_view(r@) == rdf_instance_spec(root@),
{
    let binding: &String = match &root.term {
        Option::Some(t) => t,
        Option::None => {
            match &root.name {
                Option::Some(n) => n,
                Option::None => {
                    let out: Vec<Statement> = Vec::new();
                    proof {
                        assert(graph_view(out@) =~= rdf_instance_spec(root@));
                    }
                    return out;
                },
            }
        },
    };
    let mut subject = String::from_str("http://example.org/");
    subject.append(binding.as_str());
    let is_struct = match root.datatype {
        DataType::Struct => true,
        _ => false,
    };
    let object: String = if is_struct {
        String::from_str("http://www.w3.org/2000/01/rdf-schema#Class")
    } else {
        String::from_str("http://www.w3.org/1999/02/22-rdf-syntax-ns#Property")
    };
    let mut out: Vec<Statement> = Vec::new();
    out.push(
        Statement {
            subject,
            predicate: rdf_type_string(),
            object: StatementObject::Iri(object),
        },
    );
    proof {
        assert(graph_view(out@) =~= rdf_instance_spec(root@));
    }
    out
}

/// The rdf:type predicate as a string.
fn rdf_type_string() -> (r: String)
    ensures
        r@ == rdf_type_uri(),
{
    String::from_str("http://www.w3.org/1999/02/22-rdf-syntax-ns#type")
}

/// Relies on `uuid::Uuid::new_v4` and the hyphenated form of its
/// `Display`: a token of 36 characters drawn freshly at random, about
/// which nothing more is assumed.
#[verifier::external_body]
fn random_token() -> (r: String)
    ensures
        r@.len() == 36,
{
    uuid::Uuid::new_v4().to_string()
}

} // verus!
