//! The class hierarchy: at most one parent edge per class, walked from a class
//! towards its root.

use vstd::prelude::*;
use vstd::hash_map::StringHashMap;
use crate::error::{ContextError, ContextErrorView};
use crate::names::{TyName, TyNameView};

verus! {

/// Whether the walk that starts at `class` and follows parent edges stops after
/// exactly `steps` edges, at a class without a parent.
pub open spec fn walk_ends(parents: Map<Seq<char>, TyNameView>, class: Seq<char>, steps: nat) -> bool
    decreases steps,
{
    if parents.contains_key(class) {
        steps > 0 && walk_ends(parents, parents[class].rust_ty, (steps - 1) as nat)
    } else {
        steps == 0
    }
}

/// Whether the walk from `class` reaches a class without a parent.
pub open spec fn rooted(parents: Map<Seq<char>, TyNameView>, class: Seq<char>) -> bool {
    exists|steps: nat| walk_ends(parents, class, steps)
}

/// Whether every walk reaches a class without a parent: no class is its own
/// ancestor.
pub open spec fn acyclic(parents: Map<Seq<char>, TyNameView>) -> bool {
    forall|class: Seq<char>| #[trigger] rooted(parents, class)
}

/// The number of bases of a rooted class.
pub open spec fn depth(parents: Map<Seq<char>, TyNameView>, class: Seq<char>) -> nat {
    choose|steps: nat| walk_ends(parents, class, steps)
}

/// The first `steps` bases of `class`, nearest first, or all of them if there are
/// fewer.
pub open spec fn bases_within(parents: Map<Seq<char>, TyNameView>, class: Seq<char>, steps: nat) -> Seq<
    TyNameView,
>
    decreases steps,
{
    if steps == 0 || !parents.contains_key(class) {
        Seq::empty()
    } else {
        seq![parents[class]] + bases_within(parents, parents[class].rust_ty, (steps - 1) as nat)
    }
}

/// All bases of a rooted class, without the class itself, nearest first.
pub open spec fn all_bases(parents: Map<Seq<char>, TyNameView>, class: Seq<char>) -> Seq<TyNameView> {
    bases_within(parents, class, depth(parents, class))
}

/// What a list of class names stands for in contracts.
pub open spec fn name_views(names: Seq<TyName>) -> Seq<TyNameView> {
    names.map_values(|name: TyName| name@)
}

/// A walk has one length only.
pub proof fn lemma_walk_length_unique(
    parents: Map<Seq<char>, TyNameView>,
    class: Seq<char>,
    a: nat,
    b: nat,
)
    requires
        walk_ends(parents, class, a),
        walk_ends(parents, class, b),
    ensures
        a == b,
    decreases a,
{
    if parents.contains_key(class) {
        lemma_walk_length_unique(parents, parents[class].rust_ty, (a - 1) as nat, (b - 1) as nat);
    }
}

/// A class without a parent is rooted and has no bases.
pub proof fn lemma_bases_of_root(parents: Map<Seq<char>, TyNameView>, class: Seq<char>)
    requires
        !parents.contains_key(class),
    ensures
        rooted(parents, class),
        depth(parents, class) == 0,
        all_bases(parents, class) == Seq::<TyNameView>::empty(),
{
    assert(walk_ends(parents, class, 0));
}

/// A class with a parent is rooted exactly if the parent is, and its bases are
/// then the parent followed by the parent's bases.
pub proof fn lemma_bases_of_derived(parents: Map<Seq<char>, TyNameView>, class: Seq<char>)
    requires
        parents.contains_key(class),
    ensures
        rooted(parents, class) == rooted(parents, parents[class].rust_ty),
        rooted(parents, class) ==> depth(parents, class) == depth(parents, parents[class].rust_ty) + 1,
        rooted(parents, class) ==> all_bases(parents, class) == seq![parents[class]] + all_bases(
            parents,
            parents[class].rust_ty,
        ),
{
    let up = parents[class].rust_ty;
    if rooted(parents, class) {
        let n = depth(parents, class);
        lemma_walk_length_unique(parents, up, (n - 1) as nat, depth(parents, up));
    }
    if rooted(parents, up) {
        let m = depth(parents, up);
        assert(walk_ends(parents, class, m + 1));
    }
}

/// A class whose parent has no parent has that one base.
pub proof fn lemma_bases_of_child_of_root(parents: Map<Seq<char>, TyNameView>, class: Seq<char>)
    requires
        parents.contains_key(class),
        !parents.contains_key(parents[class].rust_ty),
    ensures
        rooted(parents, class),
        all_bases(parents, class) == seq![parents[class]],
{
    lemma_bases_of_root(parents, parents[class].rust_ty);
    lemma_bases_of_derived(parents, class);
}

/// A walk that is shorter than the one from `class` does not pass `class`: it
/// is the same walk where `class` has no edge.
proof fn lemma_walk_avoids(
    parents: Map<Seq<char>, TyNameView>,
    class: Seq<char>,
    longer: nat,
    from: Seq<char>,
    steps: nat,
)
    requires
        walk_ends(parents, class, longer),
        walk_ends(parents, from, steps),
        steps < longer,
    ensures
        walk_ends(parents.remove(class), from, steps),
    decreases steps,
{
    if from == class {
        lemma_walk_length_unique(parents, class, longer, steps);
    } else if parents.contains_key(from) {
        lemma_walk_avoids(parents, class, longer, parents[from].rust_ty, (steps - 1) as nat);
    }
}

/// A walk is no longer than there are edges: it passes no class twice.
pub proof fn lemma_walk_bounded(parents: Map<Seq<char>, TyNameView>, class: Seq<char>, steps: nat)
    requires
        parents.dom().finite(),
        walk_ends(parents, class, steps),
    ensures
        steps <= parents.dom().len(),
    decreases steps,
{
    if steps > 0 {
        let fewer = parents.remove(class);
        lemma_walk_avoids(parents, class, steps, parents[class].rust_ty, (steps - 1) as nat);
        lemma_walk_bounded(fewer, parents[class].rust_ty, (steps - 1) as nat);
    }
}

/// A rooted class has no more bases than there are edges.
pub proof fn lemma_depth_bounded(parents: Map<Seq<char>, TyNameView>, class: Seq<char>)
    requires
        parents.dom().finite(),
        rooted(parents, class),
    ensures
        depth(parents, class) <= parents.dom().len(),
{
    lemma_walk_bounded(parents, class, depth(parents, class));
}

/// The class hierarchy, by normalized names: each derived class with its base.
pub struct InheritanceTree {
    derived_to_base: StringHashMap<TyName>,
}

impl View for InheritanceTree {
    type V = Map<Seq<char>, TyNameView>;

    /// The parent edges: the identity of each derived class, with its base.
    closed spec fn view(&self) -> Map<Seq<char>, TyNameView> {
        self.derived_to_base@.map_values(|base: TyName| base@)
    }
}

impl InheritanceTree {
    /// The edges are finitely many.
    #[verifier::type_invariant]
    spec fn well_formed(&self) -> bool {
        self.derived_to_base@.dom().finite()
    }

    /// A hierarchy without edges.
    pub fn new() -> (tree: InheritanceTree)
        ensures
            tree@ == Map::<Seq<char>, TyNameView>::empty(),
    {
        InheritanceTree { derived_to_base: StringHashMap::new() }
    }

    /// Records that `derived_name` inherits `base_name`. A class has one base: a
    /// second edge for the same class is refused and changes nothing.
    pub fn insert(&mut self, derived_name: TyName, base_name: TyName) -> (outcome: Result<
        (),
        ContextError,
    >)
        ensures
            match outcome {
                Ok(_) => !old(self)@.contains_key(derived_name@.rust_ty) && final(self)@ == old(
                    self,
                )@.insert(derived_name@.rust_ty, base_name@),
                Err(error) => old(self)@.contains_key(derived_name@.rust_ty) && final(self)@ == old(
                    self,
                )@ && error@ == ContextErrorView::DuplicateInheritance(derived_name@),
            },
    {
        if self.derived_to_base.contains_key(derived_name.rust_ty.as_str()) {
            return Err(ContextError::DuplicateInheritance(derived_name));
        }
        proof {
            use_type_invariant(&*self);
        }
        // The edges are taken out, added to, and put back.
        let mut edges: StringHashMap<TyName> = StringHashMap::new();
        std::mem::swap(&mut self.derived_to_base, &mut edges);
        edges.insert(derived_name.rust_ty, base_name);
        std::mem::swap(&mut self.derived_to_base, &mut edges);
        Ok(())
    }

    /// All bases of `derived_name`, without the class itself, from the nearest to
    /// the furthest. The walk has to end: the class must be rooted.
    pub fn collect_all_bases(&self, derived_name: &TyName) -> (bases: Vec<TyName>)
        requires
            rooted(self@, derived_name@.rust_ty),
        ensures
            name_views(bases@) == all_bases(self@, derived_name@.rust_ty),
    {
        let mut result: Vec<TyName> = Vec::new();
        let mut current: &TyName = derived_name;
        loop
            invariant
                rooted(self@, current@.rust_ty),
                all_bases(self@, derived_name@.rust_ty) == name_views(result@) + all_bases(
                    self@,
                    current@.rust_ty,
                ),
            decreases depth(self@, current@.rust_ty),
        {
            match self.derived_to_base.get(current.rust_ty.as_str()) {
                None => {
                    return result;
                },
                Some(base) => {
                    proof {
                        lemma_bases_of_derived(self@, current@.rust_ty);
                    }
                    result.push(base.clone());
                    current = base;
                },
            }
        }
    }

    /// Whether the bases of `class_name` end: whether the class is rooted. The
    /// walk that finds out ends in either case.
    pub fn is_rooted(&self, class_name: &TyName) -> (found: bool)
        ensures
            found == rooted(self@, class_name@.rust_ty),
    {
        proof {
            use_type_invariant(self);
            assert(self@.dom() =~= self.derived_to_base@.dom());
        }
        // A walk that ends passes no class twice: it has no more steps than
        // there are edges.
        let limit = self.derived_to_base.len();
        let ghost start = class_name@.rust_ty;
        let mut walked: usize = 0;
        let mut current: &TyName = class_name;
        loop
            invariant
                start == class_name@.rust_ty,
                walked <= limit == self@.dom().len(),
                self@.dom().finite(),
                forall|steps: nat| #[trigger]
                    walk_ends(self@, start, steps) <==> steps >= walked && walk_ends(
                        self@,
                        current@.rust_ty,
                        (steps - walked) as nat,
                    ),
            decreases limit - walked,
        {
            let ghost here = current@.rust_ty;
            match self.derived_to_base.get(current.rust_ty.as_str()) {
                None => {
                    assert(walk_ends(self@, start, walked as nat));
                    return true;
                },
                Some(base) => {
                    if walked == limit {
                        proof {
                            if rooted(self@, start) {
                                lemma_depth_bounded(self@, start);
                                assert(walk_ends(self@, start, depth(self@, start)));
                            }
                        }
                        return false;
                    }
                    walked += 1;
                    current = base;
                    assert forall|steps: nat| #[trigger]
                        walk_ends(self@, start, steps) <==> steps >= walked && walk_ends(
                            self@,
                            current@.rust_ty,
                            (steps - walked) as nat,
                        ) by {
                        if steps >= walked - 1 {
                            assert(walk_ends(self@, here, (steps - (walked - 1)) as nat) == (steps
                                >= walked && walk_ends(
                                self@,
                                current@.rust_ty,
                                (steps - walked) as nat,
                            )));
                        }
                    }
                },
            }
        }
    }

    /// All bases of `derived_name` as `collect_all_bases` gives them, where the
    /// class is rooted; nothing where its bases lead back into themselves.
    pub fn try_collect_all_bases(&self, derived_name: &TyName) -> (bases: Option<Vec<TyName>>)
        ensures
            bases is Some <==> rooted(self@, derived_name@.rust_ty),
            bases matches Some(found) ==> name_views(found@) == all_bases(
                self@,
                derived_name@.rust_ty,
            ),
    {
        if self.is_rooted(derived_name) {
            Some(self.collect_all_bases(derived_name))
        } else {
            None
        }
    }
}

impl Default for InheritanceTree {
    fn default() -> (tree: InheritanceTree)
        ensures
            tree@ == Map::<Seq<char>, TyNameView>::empty(),
    {
        InheritanceTree::new()
    }
}

} // verus!
