//! The model in contracts: what it holds, what holds of it, and what follows for
//! the notification enums of its classes.

use vstd::prelude::*;
use crate::api::ClassView;
use crate::inheritance::{acyclic, all_bases};
use crate::names::{GodotTyView, TyNameView};
use crate::notification::{
    NotificationEnumView, lemma_nearest_declaring, lemma_resolve_through, nearest_declaring,
    own_enum_name, resolve,
};
use crate::type_cache::RustTy;

verus! {

/// What a `Context` stands for in contracts. Classes are named by their
/// normalized names throughout.
pub struct ContextView {
    /// The classes of the model, each with its record.
    pub classes: Map<Seq<char>, ClassView>,
    pub builtin_types: Set<Seq<char>>,
    pub native_structures: Set<Seq<char>>,
    pub singletons: Set<Seq<char>>,
    /// The base of each class that has one.
    pub parents: Map<Seq<char>, TyNameView>,
    /// The notifications of each class that declares some itself, in the order
    /// of their declaration.
    pub notifications: Map<Seq<char>, Seq<(Seq<char>, i32)>>,
    /// The notification enum of each class.
    pub enum_names: Map<Seq<char>, NotificationEnumView>,
    /// The resolved types found so far.
    pub rust_types: Map<GodotTyView, RustTy>,
}

impl ContextView {
    /// What holds of every model: no class is its own ancestor; only classes of
    /// the model have a base or notifications, and those that have notifications
    /// have one at least; every class has exactly one notification enum, and
    /// that enum is its own where it declares notifications and that of the
    /// nearest base that does where it declares none.
    pub open spec fn well_formed(self) -> bool {
        &&& acyclic(self.parents)
        &&& self.parents.dom().subset_of(self.classes.dom())
        &&& self.notifications.dom().subset_of(self.classes.dom())
        &&& forall|class: Seq<char>| #[trigger]
            self.notifications.contains_key(class) ==> self.notifications[class].len() > 0
        &&& self.enum_names.dom() == self.classes.dom()
        &&& forall|class: Seq<char>| #[trigger]
            self.classes.contains_key(class) ==> resolve(
                self.parents,
                self.notifications.dom(),
                class,
            ) == Some(self.enum_names[class])
    }
}

/// A class that declares notifications owns its enum, and the enum is named
/// after the class.
pub proof fn lemma_declaring_class_owns_its_enum(model: ContextView, class: Seq<char>)
    requires
        model.well_formed(),
        model.notifications.contains_key(class),
    ensures
        model.enum_names.contains_key(class),
        model.enum_names[class].declared_by_own_class,
        model.enum_names[class].name == own_enum_name(class),
{
}

/// A class that declares no notifications does not own its enum: it has a base
/// that declares some, and its enum has the name of the enum of the nearest
/// such base.
pub proof fn lemma_other_class_shares_the_nearest_enum(model: ContextView, class: Seq<char>)
    requires
        model.well_formed(),
        model.classes.contains_key(class),
        !model.notifications.contains_key(class),
    ensures
        !model.enum_names[class].declared_by_own_class,
        nearest_declaring(all_bases(model.parents, class), model.notifications.dom()) is Some,
        ({
            let owner = nearest_declaring(
                all_bases(model.parents, class),
                model.notifications.dom(),
            )->Some_0;
            &&& model.notifications.contains_key(owner.rust_ty)
            &&& model.enum_names.contains_key(owner.rust_ty)
            &&& model.enum_names[class].name == model.enum_names[owner.rust_ty].name
        }),
{
    lemma_nearest_declaring(all_bases(model.parents, class), model.notifications.dom());
}

/// Where neither a class nor any of its bases up to some base declares
/// notifications, the class and that base have enums of one name. The base
/// itself may declare or not.
pub proof fn lemma_chain_shares_one_enum_name(model: ContextView, class: Seq<char>, at: int)
    requires
        model.well_formed(),
        model.classes.contains_key(class),
        0 <= at < all_bases(model.parents, class).len(),
        !model.notifications.contains_key(class),
        forall|before: int|
            0 <= before < at ==> !model.notifications.contains_key(
                #[trigger] all_bases(model.parents, class)[before].rust_ty,
            ),
    ensures
        model.enum_names.contains_key(all_bases(model.parents, class)[at].rust_ty),
        model.enum_names[class].name == model.enum_names[all_bases(
            model.parents,
            class,
        )[at].rust_ty].name,
{
    // The base has an enum, so it declares notifications or has a base itself:
    // either way it is a class of the model.
    lemma_resolve_through(model.parents, model.notifications.dom(), class, at);
}

/// An enum has one owner: two classes that own enums of one name are one class.
pub proof fn lemma_enum_has_one_owner(model: ContextView, first: Seq<char>, second: Seq<char>)
    requires
        model.well_formed(),
        model.classes.contains_key(first),
        model.classes.contains_key(second),
        model.enum_names[first].declared_by_own_class,
        model.enum_names[second].declared_by_own_class,
        model.enum_names[first].name == model.enum_names[second].name,
    ensures
        first == second,
{
    let suffix = "Notification"@;
    assert(first.len() == second.len()) by {
        assert((first + suffix).len() == (second + suffix).len());
    }
    assert forall|at: int| 0 <= at < first.len() implies first[at] == second[at] by {
        assert((first + suffix)[at] == first[at]);
    }
}

/// The enums follow from the classes, their bases and which of them declare
/// notifications: two models that agree in these agree in the enum of every
/// class, however each was arrived at.
pub proof fn lemma_enums_are_determined(first: ContextView, second: ContextView)
    requires
        first.well_formed(),
        second.well_formed(),
        first.classes.dom() == second.classes.dom(),
        first.parents == second.parents,
        first.notifications.dom() == second.notifications.dom(),
    ensures
        first.enum_names == second.enum_names,
{
    assert(first.enum_names =~= second.enum_names);
}

} // verus!
