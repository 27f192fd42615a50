//! The notification enum of a class: declared by the class itself where it has
//! notification constants of its own, shared with the nearest base that declares
//! one where it has none.

use vstd::prelude::*;
use vstd::string::StringExecFns;
use crate::inheritance::{all_bases, depth, lemma_bases_of_derived, rooted};
use crate::names::{TyName, TyNameView};

verus! {

/// The notification enum that stands for a class.
#[derive(Debug)]
pub struct NotificationEnum {
    /// Name of the enum.
    pub name: String,
    /// Whether the enum is declared by the class itself, rather than by a base.
    pub declared_by_own_class: bool,
}

/// What a `NotificationEnum` stands for in contracts.
pub struct NotificationEnumView {
    pub name: Seq<char>,
    pub declared_by_own_class: bool,
}

impl View for NotificationEnum {
    type V = NotificationEnumView;

    open spec fn view(&self) -> NotificationEnumView {
        NotificationEnumView { name: self.name@, declared_by_own_class: self.declared_by_own_class }
    }
}

impl Clone for NotificationEnum {
    fn clone(&self) -> (copy: Self)
        ensures
            copy@ == self@,
    {
        NotificationEnum { name: self.name.clone(), declared_by_own_class: self.declared_by_own_class }
    }
}

/// The name of the enum that the class `class` declares: the normalized class
/// name followed by `Notification`.
pub open spec fn own_enum_name(class: Seq<char>) -> Seq<char> {
    class + "Notification"@
}

/// The enum of a class that declares it.
pub open spec fn declared_enum(class: Seq<char>) -> NotificationEnumView {
    NotificationEnumView { name: own_enum_name(class), declared_by_own_class: true }
}

/// The enum of a class that shares the one that `owner` declares.
pub open spec fn inherited_enum(owner: Seq<char>) -> NotificationEnumView {
    NotificationEnumView { name: own_enum_name(owner), declared_by_own_class: false }
}

/// The first of `bases` that declares notification constants.
pub open spec fn nearest_declaring(bases: Seq<TyNameView>, declaring: Set<Seq<char>>) -> Option<
    TyNameView,
>
    decreases bases.len(),
{
    if bases.len() == 0 {
        None
    } else if declaring.contains(bases[0].rust_ty) {
        Some(bases[0])
    } else {
        nearest_declaring(bases.drop_first(), declaring)
    }
}

/// The enum that stands for `class`, where `declaring` are the classes with
/// notification constants of their own: its own enum if it is one of them,
/// otherwise that of its nearest base that is. A class with neither has none.
pub open spec fn resolve(
    parents: Map<Seq<char>, TyNameView>,
    declaring: Set<Seq<char>>,
    class: Seq<char>,
) -> Option<NotificationEnumView> {
    if declaring.contains(class) {
        Some(declared_enum(class))
    } else {
        match nearest_declaring(all_bases(parents, class), declaring) {
            Some(owner) => Some(inherited_enum(owner.rust_ty)),
            None => None,
        }
    }
}

impl NotificationEnum {
    /// The enum that `class_name` declares for itself.
    pub(crate) fn for_own_class(class_name: &TyName) -> (own: NotificationEnum)
        ensures
            own@ == declared_enum(class_name@.rust_ty),
    {
        NotificationEnum {
            name: class_name.rust_ty.clone().concat("Notification"),
            declared_by_own_class: true,
        }
    }

    /// The enum `other`, as a class sees it that shares it.
    pub(crate) fn for_other_class(other: NotificationEnum) -> (shared: NotificationEnum)
        ensures
            shared@.name == other@.name,
            !shared@.declared_by_own_class,
    {
        NotificationEnum { name: other.name, declared_by_own_class: false }
    }

    /// The name of the enum if the class declares it, nothing if the class shares
    /// the enum of a base.
    pub fn try_to_own_name(&self) -> (name: Option<String>)
        ensures
            match name {
                Some(name) => self@.declared_by_own_class && name@ == self@.name,
                None => !self@.declared_by_own_class,
            },
    {
        if self.declared_by_own_class {
            Some(self.name.clone())
        } else {
            None
        }
    }
}

/// What `nearest_declaring` finds declares, and nothing before it does.
pub proof fn lemma_nearest_declaring(bases: Seq<TyNameView>, declaring: Set<Seq<char>>)
    ensures
        match nearest_declaring(bases, declaring) {
            Some(owner) => exists|at: int|
                0 <= at < bases.len() && bases[at] == owner && declaring.contains(owner.rust_ty)
                    && forall|before: int|
                    0 <= before < at ==> !declaring.contains(#[trigger] bases[before].rust_ty),
            None => forall|at: int|
                0 <= at < bases.len() ==> !declaring.contains(#[trigger] bases[at].rust_ty),
        },
    decreases bases.len(),
{
    if bases.len() > 0 && !declaring.contains(bases[0].rust_ty) {
        let rest = bases.drop_first();
        lemma_nearest_declaring(rest, declaring);
        match nearest_declaring(rest, declaring) {
            Some(owner) => {
                let at = choose|at: int|
                    0 <= at < rest.len() && rest[at] == owner && declaring.contains(owner.rust_ty)
                        && forall|before: int|
                        0 <= before < at ==> !declaring.contains(#[trigger] rest[before].rust_ty);
                assert forall|before: int| 0 <= before < at + 1 implies !declaring.contains(
                    #[trigger] bases[before].rust_ty,
                ) by {
                    if before > 0 {
                        assert(bases[before] == rest[before - 1]);
                    }
                }
            },
            None => {
                assert forall|at: int| 0 <= at < bases.len() implies !declaring.contains(
                    #[trigger] bases[at].rust_ty,
                ) by {
                    if at > 0 {
                        assert(bases[at] == rest[at - 1]);
                    }
                }
            },
        }
    }
}

/// Bases that declare nothing can be passed over: the search goes on behind them.
pub proof fn lemma_nearest_declaring_skips(bases: Seq<TyNameView>, declaring: Set<Seq<char>>, passed: int)
    requires
        0 <= passed <= bases.len(),
        forall|before: int| 0 <= before < passed ==> !declaring.contains(#[trigger] bases[before].rust_ty),
    ensures
        nearest_declaring(bases, declaring) == nearest_declaring(bases.skip(passed), declaring),
    decreases passed,
{
    if passed == 0 {
        assert(bases.skip(0) == bases);
    } else {
        let rest = bases.drop_first();
        assert forall|before: int| 0 <= before < passed - 1 implies !declaring.contains(
            #[trigger] rest[before].rust_ty,
        ) by {
            assert(rest[before] == bases[before + 1]);
        }
        lemma_nearest_declaring_skips(rest, declaring, passed - 1);
        assert(rest.skip(passed - 1) == bases.skip(passed));
    }
}

/// The bases of a base are the bases behind it: what lies above a class in the
/// hierarchy is the same from wherever below it is reached.
pub proof fn lemma_bases_of_base(parents: Map<Seq<char>, TyNameView>, class: Seq<char>, at: int)
    requires
        rooted(parents, class),
        0 <= at < all_bases(parents, class).len(),
    ensures
        all_bases(parents, class).len() == depth(parents, class),
        rooted(parents, all_bases(parents, class)[at].rust_ty),
        all_bases(parents, all_bases(parents, class)[at].rust_ty) == all_bases(parents, class).skip(
            at + 1,
        ),
        at == 0 ==> parents.contains_key(class) && all_bases(parents, class)[0] == parents[class],
        at > 0 ==> parents.contains_key(all_bases(parents, class)[at - 1].rust_ty)
            && all_bases(parents, class)[at] == parents[all_bases(parents, class)[at - 1].rust_ty],
    decreases at,
{
    lemma_bases_length(parents, class);
    if parents.contains_key(class) {
        lemma_bases_of_derived(parents, class);
        if at > 0 {
            // Behind the parent, the bases are those of the parent.
            lemma_bases_of_base(parents, parents[class].rust_ty, at - 1);
        }
    }
}

/// A rooted class has as many bases as its walk has steps.
pub proof fn lemma_bases_length(parents: Map<Seq<char>, TyNameView>, class: Seq<char>)
    requires
        rooted(parents, class),
    ensures
        all_bases(parents, class).len() == depth(parents, class),
    decreases depth(parents, class),
{
    if parents.contains_key(class) {
        lemma_bases_of_derived(parents, class);
        lemma_bases_length(parents, parents[class].rust_ty);
    }
}

/// A class that declares nothing, below bases that declare nothing, has the enum
/// name of the base behind them, and has an enum at all exactly if that base has.
pub proof fn lemma_resolve_through(
    parents: Map<Seq<char>, TyNameView>,
    declaring: Set<Seq<char>>,
    class: Seq<char>,
    at: int,
)
    requires
        rooted(parents, class),
        0 <= at < all_bases(parents, class).len(),
        !declaring.contains(class),
        forall|before: int|
            0 <= before < at ==> !declaring.contains(#[trigger] all_bases(parents, class)[before].rust_ty),
    ensures
        resolve(parents, declaring, class) is Some <==> resolve(
            parents,
            declaring,
            all_bases(parents, class)[at].rust_ty,
        ) is Some,
        resolve(parents, declaring, class) matches Some(shared) ==> !shared.declared_by_own_class
            && shared.name == resolve(
            parents,
            declaring,
            all_bases(parents, class)[at].rust_ty,
        )->Some_0.name,
{
    let bases = all_bases(parents, class);
    lemma_bases_of_base(parents, class, at);
    lemma_nearest_declaring_skips(bases, declaring, at);
    assert(bases.skip(at).drop_first() == bases.skip(at + 1));
}

} // verus!
