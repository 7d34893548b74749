//! Declaration semantics: how a case's component list is assembled from its
//! own declarations and a pool of common parameters shared across cases.
//!
//! A declaration may take a common parameter verbatim (range and default
//! instancer), take only its range while the case's setup procedure runs an
//! instancer of its own, or declare the range in full. Which instancer runs
//! is the business of the case's setup procedure; the range resolution
//! decided here is what the sweep measures over.

use vstd::prelude::*;
use crate::model::{components_wf, Component, ParameterId};

verus! {

/// How one component of a case is declared.
#[derive(Clone, Copy, PartialEq, Eq, Structural, Debug)]
pub enum ComponentDecl {
    /// Inherit both the range and the default instancer of this common
    /// parameter.
    Common(ParameterId),
    /// Inherit only the range of this common parameter; the case's setup
    /// procedure supplies its own instancer.
    CommonRange(ParameterId),
    /// Declare the range in full, overriding any common definition.
    Own(Component),
}

impl ComponentDecl {
    /// The parameter this declaration concerns.
    pub open spec fn id_spec(self) -> ParameterId {
        match self {
            ComponentDecl::Common(id) => id,
            ComponentDecl::CommonRange(id) => id,
            ComponentDecl::Own(c) => c.id,
        }
    }
}

/// Well-formed declaration list of one case: no parameter declared twice,
/// and every range declared in full is well formed.
pub open spec fn decls_wf(ds: Seq<ComponentDecl>) -> bool {
    &&& forall|i: int, j: int|
        0 <= i < j < ds.len() ==> (#[trigger] ds[i]).id_spec() != (#[trigger] ds[j]).id_spec()
    &&& forall|i: int|
        0 <= i < ds.len() ==> ((#[trigger] ds[i]) matches ComponentDecl::Own(c) ==> c.wf())
}

/// The pool of common parameters that cases may draw on.
pub struct CommonPool {
    components: Vec<Component>,
}

impl CommonPool {
    /// The pooled components, in declaration order.
    pub closed spec fn components_spec(&self) -> Seq<Component> {
        self.components@
    }

    /// The pool itself is a well-formed component list.
    pub open spec fn wf(&self) -> bool {
        components_wf(self.components_spec())
    }

    /// Whether the pool declares the parameter `id`.
    pub closed spec fn contains_id(&self, id: ParameterId) -> bool {
        exists|i: int|
            0 <= i < self.components@.len() && (#[trigger] self.components@[i]).id == id
    }

    /// The position of the parameter `id` in the pool.
    pub closed spec fn index_of(&self, id: ParameterId) -> int {
        choose|i: int| 0 <= i < self.components@.len() && (#[trigger] self.components@[i]).id == id
    }

    /// The common component declared under `id`.
    pub closed spec fn component_for(&self, id: ParameterId) -> Component {
        self.components@[self.index_of(id)]
    }

    proof fn lemma_index_of(&self, id: ParameterId, i: int)
        requires
            self.wf(),
            0 <= i < self.components@.len(),
            self.components@[i].id == id,
        ensures
            self.contains_id(id),
            self.index_of(id) == i,
    {
        assert(self.contains_id(id));
        let j = self.index_of(id);
        if j < i {
            assert(self.components@[j].id != self.components@[i].id);
        } else if j > i {
            assert(self.components@[i].id != self.components@[j].id);
        }
    }

    /// Declares the pool. Each pooled component is afterwards found under
    /// its identifier.
    pub fn new(components: Vec<Component>) -> (r: CommonPool)
        requires
            components_wf(components@),
        ensures
            r.wf(),
            r.components_spec() == components@,
            forall|i: int|
                0 <= i < components@.len() ==> r.contains_id((#[trigger] components@[i]).id)
                    && r.component_for(components@[i].id) == components@[i],
    {
        let r = CommonPool { components };
        proof {
            assert forall|i: int| 0 <= i < r.components@.len() implies r.contains_id(
                (#[trigger] r.components@[i]).id,
            ) && r.component_for(r.components@[i].id) == r.components@[i] by {
                r.lemma_index_of(r.components@[i].id, i);
            }
        }
        r
    }

    /// Looks the parameter `id` up in the pool; pure.
    pub fn lookup(&self, id: ParameterId) -> (r: Option<Component>)
        requires
            self.wf(),
        ensures
            match r {
                Some(c) => self.contains_id(id) && c == self.component_for(id) && c.id == id
                    && c.wf(),
                None => !self.contains_id(id),
            },
    {
        let n = self.components.len();
        let mut i: usize = 0;
        while i < n
            invariant
                i <= n,
                n == self.components@.len(),
                self.wf(),
                forall|j: int| 0 <= j < i ==> (#[trigger] self.components@[j]).id != id,
            decreases n - i,
        {
            let c = self.components[i];
            if c.id == id {
                proof {
                    self.lemma_index_of(id, i as int);
                }
                return Some(c);
            }
            i += 1;
        }
        None
    }
}

/// What one declaration resolves to against a pool: its component, or
/// nothing when it names a common parameter the pool does not declare.
pub open spec fn resolved_decl(pool: &CommonPool, d: ComponentDecl) -> Option<Component> {
    match d {
        ComponentDecl::Own(c) => Some(c),
        _ => if pool.contains_id(d.id_spec()) {
            Some(pool.component_for(d.id_spec()))
        } else {
            None
        },
    }
}

/// A declaration resolves identically against any two pools that agree on
/// the one parameter it references: common parameters a case does not
/// reference play no part in its sweep.
pub proof fn lemma_resolution_reads_only_referenced(
    p1: &CommonPool,
    p2: &CommonPool,
    d: ComponentDecl,
)
    requires
        p1.contains_id(d.id_spec()) == p2.contains_id(d.id_spec()),
        p1.contains_id(d.id_spec()) ==> p1.component_for(d.id_spec()) == p2.component_for(
            d.id_spec(),
        ),
    ensures
        resolved_decl(p1, d) == resolved_decl(p2, d),
{
}

/// Resolves a case's declarations against the common pool, in declaration
/// order: an own declaration stands as written, an inheriting one takes the
/// pool's range. Succeeds exactly when every inherited parameter is pooled;
/// otherwise it fails with the identifier of the first declaration that
/// does not resolve — every declaration before it does.
#[verifier::loop_isolation(false)]
pub fn resolve(pool: &CommonPool, decls: &Vec<ComponentDecl>) -> (r: Result<
    Vec<Component>,
    ParameterId,
>)
    requires
        pool.wf(),
        decls_wf(decls@),
    ensures
        (r matches Ok(cs)) <==> (forall|i: int|
            0 <= i < decls@.len() ==> resolved_decl(pool, #[trigger] decls@[i]) is Some),
        r matches Ok(cs) ==> {
            &&& cs@.len() == decls@.len()
            &&& forall|i: int|
                0 <= i < decls@.len() ==> Some(#[trigger] cs@[i]) == resolved_decl(
                    pool,
                    decls@[i],
                ) && cs@[i].id == decls@[i].id_spec()
            &&& components_wf(cs@)
        },
        r matches Err(id) ==> (exists|i: int|
            {
                &&& 0 <= i < decls@.len()
                &&& (#[trigger] decls@[i]).id_spec() == id
                &&& resolved_decl(pool, decls@[i]) is None
                &&& forall|j: int|
                    0 <= j < i ==> resolved_decl(pool, #[trigger] decls@[j]) is Some
            }),
    {
    let n = decls.len();
    let mut cs: Vec<Component> = Vec::new();
    let mut i: usize = 0;
    while i < n
        invariant
            i <= n,
            cs@.len() == i as int,
            forall|j: int|
                0 <= j < i ==> Some(#[trigger] cs@[j]) == resolved_decl(pool, decls@[j])
                    && cs@[j].id == decls@[j].id_spec() && cs@[j].wf(),
        decreases n - i,
    {
        let d = decls[i];
        let c = match d {
            ComponentDecl::Own(c) => c,
            ComponentDecl::Common(id) => {
                match pool.lookup(id) {
                    Some(c) => c,
                    None => {
                        proof {
                            assert forall|j: int| 0 <= j < i as int implies resolved_decl(
                                pool,
                                #[trigger] decls@[j],
                            ) is Some by {
                                assert(Some(cs@[j]) == resolved_decl(pool, decls@[j]));
                            }
                            assert(resolved_decl(pool, decls@[i as int]) is None);
                        }
                        return Err(id);
                    },
                }
            },
            ComponentDecl::CommonRange(id) => {
                match pool.lookup(id) {
                    Some(c) => c,
                    None => {
                        proof {
                            assert forall|j: int| 0 <= j < i as int implies resolved_decl(
                                pool,
                                #[trigger] decls@[j],
                            ) is Some by {
                                assert(Some(cs@[j]) == resolved_decl(pool, decls@[j]));
                            }
                            assert(resolved_decl(pool, decls@[i as int]) is None);
                        }
                        return Err(id);
                    },
                }
            },
        };
        cs.push(c);
        i += 1;
    }
    proof {
        assert forall|p: int, q: int| 0 <= p < q < cs@.len() implies cs@[p].id != cs@[q].id by {
            assert(cs@[p].id == decls@[p].id_spec());
            assert(cs@[q].id == decls@[q].id_spec());
        }
        assert forall|j: int|
            0 <= j < decls@.len() implies resolved_decl(pool, #[trigger] decls@[j]) is Some by {
            assert(Some(cs@[j]) == resolved_decl(pool, decls@[j]));
        }
    }
    Ok(cs)
}

} // verus!
