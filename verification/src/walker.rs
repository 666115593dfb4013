//! A restartable, lazy depth-first walker over a normalized schema: each
//! pull pops the top of an explicit stack, pushes the popped node's
//! children (reverse order, so traversal is pre-order, left to right), and
//! dereferences term-only nodes through the term table on demand.  A
//! visited-term guard keeps recursive definitions from being expanded
//! twice in one walk.

use vstd::prelude::*;
use crate::schema::{DataType, Type, TypeSchema, TypeV};
use crate::text::str_eq_str;

verus! {

/// The set of term keys named by a list of strings.
pub open spec fn seen_set(s: Seq<String>) -> Set<Seq<char>> {
    Set::new(|k: Seq<char>| exists|i: int| 0 <= i < s.len() && s[i]@ == k)
}

/// Appending a string adds exactly its view to the named set.
proof fn lemma_seen_push(s: Seq<String>, t: String)
    ensures
        seen_set(s.push(t)) =~= seen_set(s).insert(t@),
{
    assert forall|k: Seq<char>| #[trigger] seen_set(s.push(t)).contains(k) implies seen_set(
        s,
    ).insert(t@).contains(k) by {
        let i = choose|i: int| 0 <= i < s.push(t).len() && s.push(t)[i]@ == k;
        if i < s.len() {
            assert(s[i]@ == k);
        } else {
            assert(k == t@);
        }
    };
    assert forall|k: Seq<char>| seen_set(s).insert(t@).contains(k) implies seen_set(
        s.push(t),
    ).contains(k) by {
        if seen_set(s).contains(k) {
            let i = choose|i: int| 0 <= i < s.len() && s[i]@ == k;
            assert(s.push(t)[i]@ == k);
        } else {
            assert(s.push(t)[s.len() as int]@ == k);
        }
    };
}

/// Children of `node` appended to the stack in reverse order, each paired
/// with `node` as its parent, so that the first child ends on top.
pub open spec fn push_children(
    stack: Seq<(Option<TypeV>, TypeV)>,
    node: TypeV,
    children: Seq<TypeV>,
) -> Seq<(Option<TypeV>, TypeV)> {
    stack + Seq::new(
        children.len(),
        |i: int| (Option::Some(node), children[children.len() - 1 - i]),
    )
}

/// What one pull adds to the walker state after popping `node`: inline
/// children are pushed directly; a term-only `Struct` or `Enum` node is
/// dereferenced through the table, guarded by the visited-term set; an
/// `Undefined` node and plain leaves add nothing.
pub open spec fn walker_expand(
    terms: Map<Seq<char>, TypeV>,
    stack: Seq<(Option<TypeV>, TypeV)>,
    seen: Set<Seq<char>>,
    node: TypeV,
) -> (Seq<(Option<TypeV>, TypeV)>, Set<Seq<char>>) {
    match node.datatype {
        DataType::Undefined => (stack, seen),
        DataType::Struct | DataType::Enum => {
            if node.fields is Some {
                (push_children(stack, node, node.fields->Some_0), seen)
            } else {
                match node.term {
                    Option::Some(term) => {
                        if seen.contains(term) {
                            (stack, seen)
                        } else {
                            let seen2 = seen.insert(term);
                            if terms.dom().contains(term) {
                                let rnode = terms[term];
                                if rnode.fields is Some {
                                    (push_children(stack, rnode, rnode.fields->Some_0), seen2)
                                } else {
                                    (stack, seen2)
                                }
                            } else {
                                (stack, seen2)
                            }
                        }
                    },
                    Option::None => (stack, seen),
                }
            }
        },
        _ => {
            if node.fields is Some {
                (push_children(stack, node, node.fields->Some_0), seen)
            } else {
                (stack, seen)
            }
        },
    }
}

/// A lazy pre-order walk over a normalized schema.  Each walk owns its
/// stack and visited-term set; the schema itself is only borrowed and
/// never changed, so walks are restartable and independent.
pub struct TypeIterator<'a> {
    schema: &'a TypeSchema,
    stack: Vec<(Option<&'a Type>, &'a Type)>,
    seen: Vec<String>,
}

impl<'a> TypeIterator<'a> {
    /// The schema the walk reads.
    pub closed spec fn schema_spec(&self) -> TypeSchema {
        *self.schema
    }

    /// Model of the walk stack, top last.
    pub closed spec fn stack_view(&self) -> Seq<(Option<TypeV>, TypeV)> {
        Seq::new(
            self.stack@.len(),
            |i: int|
                (
                    match self.stack@[i].0 {
                        Option::None => Option::None,
                        Option::Some(p) => Option::Some(p@),
                    },
                    self.stack@[i].1@,
                ),
        )
    }

    /// Model of the visited-term guard.
    pub closed spec fn seen_view(&self) -> Set<Seq<char>> {
        seen_set(self.seen@)
    }

    /// The walk is over a well-formed term table.
    pub closed spec fn wf(&self) -> bool {
        self.schema.terms.wf()
    }

    /// Start a walk: the stack holds the root alone, no term visited yet.
    pub fn new(schema: &'a TypeSchema) -> (it: TypeIterator<'a>)
        requires
            schema.terms.wf(),
        ensures
            it.wf(),
            it.schema_spec() == *schema,
            it.stack_view() == seq![(Option::None::<TypeV>, schema.schema@)],
            it.seen_view() == Set::<Seq<char>>::empty(),
    {
        let mut stack: Vec<(Option<&'a Type>, &'a Type)> = Vec::new();
        stack.push((Option::None, &schema.schema));
        let it = TypeIterator { schema, stack, seen: Vec::new() };
        proof {
            assert(it.stack_view() =~= seq![(Option::None::<TypeV>, schema.schema@)]);
            assert(it.seen_view() =~= Set::<Seq<char>>::empty());
        }
        it
    }

    /// Whether `term` was already visited in this walk.
    fn seen_contains(&self, term: &String) -> (r: bool)
        ensures
            r == self.seen_view().contains(term@),
    {
        let mut i: usize = 0;
        while i < self.seen.len()
            invariant
                i <= self.seen@.len(),
                forall|j: int| 0 <= j < i ==> self.seen@[j]@ != term@,
            decreases self.seen@.len() - i,
        {
            if str_eq_str(self.seen[i].as_str(), term.as_str()) {
                return true;
            }
            i = i + 1;
        }
        false
    }

    /// Pull the next (parent, node) pair of the pre-order walk, expanding
    /// the popped node's children onto the stack as `walker_expand` says.
    pub fn next(&mut self) -> (r: Option<(Option<&'a Type>, &'a Type)>)
        requires
            old(self).wf(),
        ensures
            final(self).wf(),
            final(self).schema_spec() == old(self).schema_spec(),
            match r {
                Option::None => {
                    &&& old(self).stack_view().len() == 0
                    &&& final(self).stack_view() == old(self).stack_view()
                    &&& final(self).seen_view() == old(self).seen_view()
                },
                Option::Some(pair) => {
                    &&& old(self).stack_view().len() > 0
                    &&& ({
                        let top = old(self).stack_view().last();
                        let popped = old(self).stack_view().drop_last();
                        let expanded = walker_expand(
                            old(self).schema_spec().terms@,
                            popped,
                            old(self).seen_view(),
                            top.1,
                        );
                        &&& (
                            match pair.0 {
                                Option::None => Option::None,
                                Option::Some(p) => Option::Some(p@),
                            },
                            pair.1@,
                        ) == top
                        &&& final(self).stack_view() == expanded.0
                        &&& final(self).seen_view() == expanded.1
                    })
                },
            },
    {
        let popped = match self.stack.pop() {
            Option::None => {
                return Option::None;
            },
            Option::Some(pair) => pair,
        };
        proof {
            assert(old(self).stack_view().drop_last() =~= self.stack_view());
        }
        let node: &'a Type = popped.1;
        let lookup = match node.datatype {
            DataType::Undefined => {
                proof {
                    assert(self.seen_view() =~= old(self).seen_view());
                }
                return Option::Some(popped);
            },
            DataType::Struct => true,
            DataType::Enum => true,
            _ => false,
        };
        match &node.fields {
            Option::Some(children) => {
                self.push_child_nodes(node, children);
                return Option::Some(popped);
            },
            Option::None => {},
        }
        if !lookup {
            proof {
                assert(self.seen_view() =~= old(self).seen_view());
            }
            return Option::Some(popped);
        }
        let term = match &node.term {
            Option::Some(t) => t,
            Option::None => {
                proof {
                    assert(self.seen_view() =~= old(self).seen_view());
                }
                return Option::Some(popped);
            },
        };
        if self.seen_contains(term) {
            proof {
                assert(self.seen_view() =~= old(self).seen_view());
            }
            return Option::Some(popped);
        }
        let ghost seen_pre_seq = self.seen@;
        let ghost seen_pre = self.seen_view();
        self.seen.push(term.clone());
        proof {
            lemma_seen_push(seen_pre_seq, self.seen@.last());
            assert(self.seen@ == seen_pre_seq.push(self.seen@.last()));
            assert(self.seen_view() =~= seen_pre.insert(term@));
        }
        let schema: &'a TypeSchema = self.schema;
        let rnode: &'a Type = match schema.terms.get(term) {
            Option::Some(t) => t,
            Option::None => {
                return Option::Some(popped);
            },
        };
        match &rnode.fields {
            Option::Some(children) => {
                self.push_child_nodes(rnode, children);
            },
            Option::None => {},
        }
        Option::Some(popped)
    }

    /// Push `children` in reverse order, each with `node` as parent.
    #[verifier::loop_isolation(false)]
    fn push_child_nodes(&mut self, node: &'a Type, children: &'a Vec<Type>)
        ensures
            final(self).wf() == old(self).wf(),
            final(self).schema_spec() == old(self).schema_spec(),
            final(self).seen_view() == old(self).seen_view(),
            final(self).stack_view() == push_children(
                old(self).stack_view(),
                node@,
                crate::schema::fields_view(*children),
            ),
    {
        let ghost stack0 = self.stack_view();
        let ghost cs = crate::schema::fields_view(*children);
        let n = children.len();
        let mut k: usize = 0;
        while k < n
            invariant
                n == children@.len(),
                k <= n,
                self.schema == old(self).schema,
                self.seen@ == old(self).seen@,
                self.stack_view() =~= stack0 + Seq::new(
                    k as nat,
                    |i: int| (Option::Some(node@), cs[cs.len() - 1 - i]),
                ),
            decreases n - k,
        {
            let child: &'a Type = &children[n - 1 - k];
            proof {
                assert(child@ == cs[cs.len() - 1 - k as int]);
            }
            let ghost sv_pre = self.stack_view();
            self.stack.push((Option::Some(node), child));
            proof {
                assert(self.stack_view() =~= sv_pre.push(
                    (Option::Some(node@), cs[cs.len() - 1 - k as int]),
                ));
                assert(self.stack_view() =~= stack0 + Seq::new(
                    (k + 1) as nat,
                    |i: int| (Option::Some(node@), cs[cs.len() - 1 - i]),
                ));
            }
            k = k + 1;
        }
        proof {
            assert(self.stack_view() =~= push_children(stack0, node@, cs));
        }
    }

}

} // verus!
