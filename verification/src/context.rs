//! The model of the engine's interface, built once from a snapshot and then
//! only asked.

use vstd::prelude::*;
use vstd::hash_map::StringHashMap;
use vstd::hash_set::StringHashSet;
use vstd::string::StringExecFns;
use crate::api::{
    Class, ClassView, ExtensionApi, class_views, constant_views, notifications_among, string_views,
};
use crate::error::{ContextError, ContextErrorView};
use crate::inheritance::{InheritanceTree, all_bases, name_views, rooted};
use crate::model::ContextView;
use crate::snapshot::{
    Defect, build_outcome, declared_notifications, defect_at, first_defect, known_classes,
    lemma_declared_notifications, lemma_first_defect, lemma_known_classes,
    lemma_model_well_formed, lemma_parent_edges, lemma_some_defect, parent_edges, shared_enums,
};
use crate::names::{GodotTy, GodotTyView, TyName, TyNameView};
use crate::notification::{
    NotificationEnum, NotificationEnumView, declared_enum, lemma_bases_of_base,
    lemma_nearest_declaring, lemma_resolve_through, resolve,
};
use crate::type_cache::{RustTy, TypeCache};

verus! {

/// What a list of notifications stands for in contracts.
pub open spec fn notification_views(notifications: Seq<(String, i32)>) -> Seq<(Seq<char>, i32)> {
    notifications.map_values(|notification: (String, i32)| (notification.0@, notification.1))
}

/// Whether a class of this name can be exported for its own sake: resources and
/// nodes can.
pub open spec fn exportable_root(godot_ty: Seq<char>) -> bool {
    godot_ty == "Resource"@ || godot_ty == "Node"@
}

/// Whether `class` is, or inherits, a class that can be exported for its own
/// sake.
pub open spec fn exportable(parents: Map<Seq<char>, TyNameView>, class: TyNameView) -> bool {
    exportable_root(class.godot_ty) || exists|at: int|
        0 <= at < all_bases(parents, class.rust_ty).len() && exportable_root(
            (#[trigger] all_bases(parents, class.rust_ty)[at]).godot_ty,
        )
}

/// What the records of the classes stand for in contracts.
spec fn record_views(records: Map<Seq<char>, &Class>) -> Map<Seq<char>, ClassView> {
    records.map_values(|class: &Class| class@)
}

/// What the lists of notifications stand for in contracts.
spec fn list_views(lists: Map<Seq<char>, Vec<(String, i32)>>) -> Map<Seq<char>, Seq<(Seq<char>, i32)>> {
    lists.map_values(|notifications: Vec<(String, i32)>| notification_views(notifications@))
}

/// What the notification enums stand for in contracts.
spec fn enum_views(enums: Map<Seq<char>, NotificationEnum>) -> Map<Seq<char>, NotificationEnumView> {
    enums.map_values(|shared: NotificationEnum| shared@)
}

/// The part of the model that is fixed once it is built.
struct ClassModel<'a> {
    engine_classes: StringHashMap<&'a Class>,
    builtin_types: StringHashSet,
    native_structures_types: StringHashSet,
    singletons: StringHashSet,
    inheritance_tree: InheritanceTree,
    notifications_by_class: StringHashMap<Vec<(String, i32)>>,
    notification_enum_names_by_class: StringHashMap<NotificationEnum>,
}

impl<'a> ClassModel<'a> {
    spec fn with_types(&self, rust_types: Map<GodotTyView, RustTy>) -> ContextView {
        ContextView {
            classes: record_views(self.engine_classes@),
            builtin_types: self.builtin_types@,
            native_structures: self.native_structures_types@,
            singletons: self.singletons@,
            parents: self.inheritance_tree@,
            notifications: list_views(self.notifications_by_class@),
            enum_names: enum_views(self.notification_enum_names_by_class@),
            rust_types,
        }
    }

    #[verifier::type_invariant]
    spec fn well_formed(&self) -> bool {
        self.with_types(Map::empty()).well_formed()
    }
}

/// The model of the engine's interface.
pub struct Context<'a> {
    model: ClassModel<'a>,
    cached_rust_types: TypeCache,
}

impl<'a> View for Context<'a> {
    type V = ContextView;

    closed spec fn view(&self) -> ContextView {
        self.model.with_types(self.cached_rust_types@)
    }
}

impl<'a> Context<'a> {
    /// Builds the model of a snapshot. A snapshot that is inconsistent has no
    /// model: the first inconsistency is reported, with the class at which it was
    /// found.
    pub fn build_from_api(api: &'a ExtensionApi) -> (built: Result<Context<'a>, ContextError>)
        ensures
            match built {
                Ok(ctx) => build_outcome(api@) == Ok::<ContextView, ContextErrorView>(ctx@)
                    && ctx@.well_formed(),
                Err(error) => build_outcome(api@) == Err::<ContextView, ContextErrorView>(error@),
            },
    {
        let singletons = name_set(&api.singletons);
        let mut builtin_types = name_set(&api.builtin_classes);
        // Not among the builtin classes of the snapshot.
        builtin_types.insert(String::from_str("Variant"));
        let native_structures_types = name_set(&api.native_structures);

        // Classes that declare notifications get their enum here.
        let Ingested {
            engine_classes,
            inheritance_tree,
            notifications_by_class,
            mut notification_enum_names_by_class,
        } = ingest(&api.classes)?;
        check_rooted(&api.classes, &inheritance_tree)?;
        // The others share the enum of the nearest base that has one. Every class
        // that declares notifications is entered by now.
        share_enums(&api.classes, &inheritance_tree, &mut notification_enum_names_by_class)?;
        proof {
            lemma_model_well_formed(api@);
        }
        let model = ClassModel {
            engine_classes,
            builtin_types,
            native_structures_types,
            singletons,
            inheritance_tree,
            notifications_by_class,
            notification_enum_names_by_class,
        };
        Ok(Context { model, cached_rust_types: TypeCache::new() })
    }

    /// The record of a class of the model.
    pub fn get_engine_class(&self, class_name: &TyName) -> (found: Result<&'a Class, ContextError>)
        ensures
            self@.well_formed(),
            match found {
                Ok(class) => self@.classes.contains_key(class_name@.rust_ty) && class@
                    == self@.classes[class_name@.rust_ty],
                Err(error) => !self@.classes.contains_key(class_name@.rust_ty) && error@
                    == ContextErrorView::UnknownClass(class_name@),
            },
    {
        proof {
            use_type_invariant(&self.model);
        }
        match self.model.engine_classes.get(class_name.rust_ty.as_str()) {
            Some(class) => Ok(*class),
            None => Err(ContextError::UnknownClass(class_name.clone())),
        }
    }

    /// Whether `ty_name` is a builtin type.
    pub fn is_builtin(&self, ty_name: &str) -> (found: bool)
        ensures
            found == self@.builtin_types.contains(ty_name@),
    {
        self.model.builtin_types.contains(ty_name)
    }

    /// Whether `ty_name` is a native structure.
    pub fn is_native_structure(&self, ty_name: &str) -> (found: bool)
        ensures
            found == self@.native_structures.contains(ty_name@),
    {
        self.model.native_structures_types.contains(ty_name)
    }

    /// Whether `class_name` is a singleton.
    pub fn is_singleton(&self, class_name: &str) -> (found: bool)
        ensures
            found == self@.singletons.contains(class_name@),
    {
        self.model.singletons.contains(class_name)
    }

    /// Whether `class_name` is a resource or a node, or inherits one.
    pub fn is_exportable(&self, class_name: &TyName) -> (found: bool)
        ensures
            self@.well_formed(),
            found == exportable(self@.parents, class_name@),
    {
        proof {
            use_type_invariant(&self.model);
        }
        let resource = String::from_str("Resource");
        let node = String::from_str("Node");
        if class_name.godot_ty == resource || class_name.godot_ty == node {
            return true;
        }
        let bases = self.model.inheritance_tree.collect_all_bases(class_name);
        let mut at: usize = 0;
        while at < bases.len()
            invariant
                at <= bases.len(),
                resource@ == "Resource"@,
                node@ == "Node"@,
                self@.well_formed(),
                name_views(bases@) == all_bases(self@.parents, class_name@.rust_ty),
                forall|before: int|
                    0 <= before < at ==> !exportable_root(
                        (#[trigger] all_bases(self@.parents, class_name@.rust_ty)[before]).godot_ty,
                    ),
            decreases bases.len() - at,
        {
            assert(name_views(bases@)[at as int] == bases@[at as int]@);
            if bases[at].godot_ty == resource || bases[at].godot_ty == node {
                return true;
            }
            at += 1;
        }
        false
    }

    /// The class hierarchy.
    pub fn inheritance_tree(&self) -> (tree: &InheritanceTree)
        ensures
            self@.well_formed(),
            tree@ == self@.parents,
    {
        proof {
            use_type_invariant(&self.model);
        }
        &self.model.inheritance_tree
    }

    /// The resolved type of `ty`, where it has been found already.
    pub fn find_rust_type(&self, ty: &GodotTy) -> (found: Option<&RustTy>)
        ensures
            match found {
                Some(resolved) => self@.rust_types.contains_key(ty@) && *resolved == self@.rust_types[ty@],
                None => !self@.rust_types.contains_key(ty@),
            },
    {
        self.cached_rust_types.get(ty)
    }

    /// The notifications that `class_name` declares itself, in the order of their
    /// declaration; nothing for a class that declares none, whatever it inherits.
    pub fn notification_constants(&self, class_name: &TyName) -> (found: Option<&Vec<(String, i32)>>)
        ensures
            self@.well_formed(),
            match found {
                Some(notifications) => self@.notifications.contains_key(class_name@.rust_ty)
                    && notification_views(notifications@) == self@.notifications[class_name@.rust_ty],
                None => !self@.notifications.contains_key(class_name@.rust_ty),
            },
    {
        proof {
            use_type_invariant(&self.model);
        }
        self.model.notifications_by_class.get(class_name.rust_ty.as_str())
    }

    /// The notification enum of a class of the model.
    pub fn notification_enum_name(&self, class_name: &TyName) -> (found: Result<
        NotificationEnum,
        ContextError,
    >)
        ensures
            self@.well_formed(),
            match found {
                Ok(shared) => self@.enum_names.contains_key(class_name@.rust_ty) && shared@
                    == self@.enum_names[class_name@.rust_ty],
                Err(error) => !self@.enum_names.contains_key(class_name@.rust_ty) && error@
                    == ContextErrorView::UnknownClass(class_name@),
            },
    {
        proof {
            use_type_invariant(&self.model);
        }
        match self.model.notification_enum_names_by_class.get(class_name.rust_ty.as_str()) {
            Some(shared) => Ok(shared.clone()),
            None => Err(ContextError::UnknownClass(class_name.clone())),
        }
    }

    /// Enters `resolved` as the type of `godot_ty`. A type is resolved once: a
    /// second entry for it is refused, and the first one stays.
    pub fn insert_rust_type(&mut self, godot_ty: GodotTy, resolved: RustTy) -> (outcome: Result<
        (),
        ContextError,
    >)
        ensures
            match outcome {
                Ok(_) => !old(self)@.rust_types.contains_key(godot_ty@) && final(self)@ == (ContextView {
                    rust_types: old(self)@.rust_types.insert(godot_ty@, resolved),
                    ..old(self)@
                }),
                Err(error) => old(self)@.rust_types.contains_key(godot_ty@) && final(self)@ == old(
                    self,
                )@ && error@ == ContextErrorView::CacheOverwrite(godot_ty@),
            },
    {
        match self.cached_rust_types.insert(godot_ty, resolved) {
            Ok(_) => Ok(()),
            Err(refused) => Err(ContextError::CacheOverwrite(refused)),
        }
    }
}

/// The enum of each class that declares notifications itself.
spec fn declared_enums(declaring: Set<Seq<char>>) -> Map<Seq<char>, NotificationEnumView> {
    Map::new(|class: Seq<char>| declaring.contains(class), |class: Seq<char>| declared_enum(class))
}

/// Whether every enum entered so far is the one that its class resolves to, and
/// every class that declares notifications has its enum entered.
spec fn resolved_so_far(
    enums: Map<Seq<char>, NotificationEnum>,
    parents: Map<Seq<char>, TyNameView>,
    declaring: Set<Seq<char>>,
    known: Set<Seq<char>>,
) -> bool {
    &&& forall|class: Seq<char>| #[trigger]
        enums.contains_key(class) ==> known.contains(class) && resolve(parents, declaring, class)
            == Some(enums[class]@)
    &&& forall|class: Seq<char>| declaring.contains(class) ==> #[trigger] enums.contains_key(class)
}

/// Whether `error` reports the first record of `classes` that shows `defect`.
spec fn reports_first(error: ContextError, classes: Seq<ClassView>, defect: Defect) -> bool {
    &&& first_defect(classes, defect) matches Some(at)
    &&& error@ == match defect {
        Defect::DuplicateBase => ContextErrorView::DuplicateInheritance(classes[at].name),
        Defect::Cycle => ContextErrorView::CyclicInheritance(classes[at].name),
        Defect::NoNotifications => ContextErrorView::NoResolvedAncestor(classes[at].name),
    }
}

/// What the first pass over the classes leaves: the records, the hierarchy, and
/// the notifications and enums of the classes that declare notifications.
struct Ingested<'a> {
    engine_classes: StringHashMap<&'a Class>,
    inheritance_tree: InheritanceTree,
    notifications_by_class: StringHashMap<Vec<(String, i32)>>,
    notification_enum_names_by_class: StringHashMap<NotificationEnum>,
}

impl<'a> Ingested<'a> {
    /// Whether this is what the first pass leaves of `classes`.
    spec fn holds(&self, classes: Seq<ClassView>) -> bool {
        &&& record_views(self.engine_classes@) == known_classes(classes)
        &&& self.inheritance_tree@ == parent_edges(classes)
        &&& list_views(self.notifications_by_class@) == declared_notifications(classes)
        &&& enum_views(self.notification_enum_names_by_class@) == declared_enums(
            declared_notifications(classes).dom(),
        )
    }
}

/// The first pass: enters each class that is not excluded with its record, its
/// base and, where it declares notifications, these and the enum it declares.
fn ingest<'a>(classes: &'a Vec<Class>) -> (ingested: Result<Ingested<'a>, ContextError>)
    ensures
        match ingested {
            Ok(state) => state.holds(class_views(classes@)) && first_defect(
                class_views(classes@),
                Defect::DuplicateBase,
            ) is None,
            Err(error) => reports_first(error, class_views(classes@), Defect::DuplicateBase),
        },
{
    let ghost all = class_views(classes@);
    let mut state = Ingested {
        engine_classes: StringHashMap::new(),
        inheritance_tree: InheritanceTree::new(),
        notifications_by_class: StringHashMap::new(),
        notification_enum_names_by_class: StringHashMap::new(),
    };
    proof {
        assert(record_views(state.engine_classes@) =~= known_classes(all.take(0)));
        assert(list_views(state.notifications_by_class@) =~= declared_notifications(all.take(0)));
        assert(enum_views(state.notification_enum_names_by_class@) =~= declared_enums(
            declared_notifications(all.take(0)).dom(),
        ));
    }
    let mut at: usize = 0;
    while at < classes.len()
        invariant
            at <= classes.len(),
            all == class_views(classes@),
            state.holds(all.take(at as int)),
            forall|before: int| 0 <= before < at ==> !defect_at(all, Defect::DuplicateBase, before),
        decreases classes.len() - at,
    {
        let class = &classes[at];
        let ghost so_far = all.take(at + 1);
        assert(so_far.drop_last() =~= all.take(at as int));
        if !class.excluded {
            state.engine_classes.insert(class.name.rust_ty.clone(), class);
            assert(record_views(state.engine_classes@) =~= known_classes(so_far));
            match &class.inherits {
                Some(base) => {
                    match state.inheritance_tree.insert(class.name.clone(), base.clone()) {
                        Ok(_) => {},
                        Err(error) => {
                            proof {
                                lemma_first_defect(all, Defect::DuplicateBase, at as int);
                            }
                            return Err(error);
                        },
                    }
                },
                None => {},
            }
            let own = own_notifications(class);
            let ghost enums_before = enum_views(state.notification_enum_names_by_class@);
            if own.len() > 0 {
                state.notifications_by_class.insert(class.name.rust_ty.clone(), own);
                state.notification_enum_names_by_class.insert(
                    class.name.rust_ty.clone(),
                    NotificationEnum::for_own_class(&class.name),
                );
                assert(enum_views(state.notification_enum_names_by_class@) =~= enums_before.insert(
                    class@.id(),
                    declared_enum(class@.id()),
                ));
            }
            proof {
                assert(list_views(state.notifications_by_class@) =~= declared_notifications(so_far));
                assert(enum_views(state.notification_enum_names_by_class@) =~= declared_enums(
                    declared_notifications(so_far).dom(),
                ));
            }
        }
        at += 1;
    }
    assert(all.take(classes.len() as int) =~= all);
    Ok(state)
}

/// Makes sure that the bases of every class end: that no class inherits itself.
fn check_rooted(classes: &Vec<Class>, tree: &InheritanceTree) -> (checked: Result<(), ContextError>)
    requires
        tree@ == parent_edges(class_views(classes@)),
    ensures
        match checked {
            Ok(_) => first_defect(class_views(classes@), Defect::Cycle) is None,
            Err(error) => reports_first(error, class_views(classes@), Defect::Cycle),
        },
{
    let ghost all = class_views(classes@);
    let mut at: usize = 0;
    while at < classes.len()
        invariant
            at <= classes.len(),
            all == class_views(classes@),
            tree@ == parent_edges(all),
            forall|before: int| 0 <= before < at ==> !defect_at(all, Defect::Cycle, before),
        decreases classes.len() - at,
    {
        let class = &classes[at];
        if !class.excluded && !tree.is_rooted(&class.name) {
            proof {
                lemma_first_defect(all, Defect::Cycle, at as int);
            }
            return Err(ContextError::CyclicInheritance(class.name.clone()));
        }
        at += 1;
    }
    Ok(())
}

/// The first of `bases` that has its enum entered: its position, and the enum.
fn nearest_resolved(enums: &StringHashMap<NotificationEnum>, bases: &Vec<TyName>) -> (nearest: Option<
    (usize, NotificationEnum),
>)
    ensures
        match nearest {
            Some((at, found)) => at < bases.len() && enums@.contains_key(bases@[at as int].rust_ty@)
                && found@ == enums@[bases@[at as int].rust_ty@]@ && forall|before: int|
                0 <= before < at ==> !enums@.contains_key((#[trigger] bases@[before]).rust_ty@),
            None => forall|before: int|
                0 <= before < bases.len() ==> !enums@.contains_key(
                    (#[trigger] bases@[before]).rust_ty@,
                ),
        },
{
    let mut at: usize = 0;
    while at < bases.len()
        invariant
            at <= bases.len(),
            forall|before: int|
                0 <= before < at ==> !enums@.contains_key((#[trigger] bases@[before]).rust_ty@),
        decreases bases.len() - at,
    {
        match enums.get(bases[at].rust_ty.as_str()) {
            Some(found) => {
                return Some((at, found.clone()));
            },
            None => {},
        }
        at += 1;
    }
    None
}

/// Gives `class_name`, which has no enum yet, the enum of its nearest base that
/// has one, and the same enum to every base in between. Reports whether there
/// was such a base; where there was none, nothing is entered.
fn inherit_enum(
    tree: &InheritanceTree,
    enums: &mut StringHashMap<NotificationEnum>,
    class_name: &TyName,
    Ghost(declaring): Ghost<Set<Seq<char>>>,
    Ghost(known): Ghost<Set<Seq<char>>>,
) -> (shared: bool)
    requires
        rooted(tree@, class_name@.rust_ty),
        tree@.dom().subset_of(known),
        known.contains(class_name@.rust_ty),
        !old(enums)@.contains_key(class_name@.rust_ty),
        resolved_so_far(old(enums)@, tree@, declaring, known),
    ensures
        resolved_so_far(final(enums)@, tree@, declaring, known),
        old(enums)@.dom().subset_of(final(enums)@.dom()),
        shared == resolve(tree@, declaring, class_name@.rust_ty) is Some,
        shared ==> final(enums)@.contains_key(class_name@.rust_ty),
        !shared ==> final(enums)@ == old(enums)@,
{
    let ghost class = class_name@.rust_ty;
    let ghost initially = enums@;
    let ghost above = all_bases(tree@, class);
    let bases = tree.collect_all_bases(class_name);
    let (nearest_index, nearest_enum_name) = match nearest_resolved(enums, &bases) {
        Some(nearest) => nearest,
        None => {
            proof {
                // No base has an enum, so none declares notifications.
                assert forall|at: int| 0 <= at < above.len() implies !declaring.contains(
                    #[trigger] above[at].rust_ty,
                ) by {
                    assert(above[at] == bases@[at]@);
                }
                lemma_nearest_declaring(above, declaring);
            }
            return false;
        },
    };
    proof {
        assert forall|before: int| 0 <= before < nearest_index implies !declaring.contains(
            #[trigger] above[before].rust_ty,
        ) by {
            assert(above[before] == bases@[before]@);
        }
        assert(above[nearest_index as int] == bases@[nearest_index as int]@);
        lemma_resolve_through(tree@, declaring, class, nearest_index as int);
    }
    // The bases below the one that has an enum share it.
    let mut at: usize = nearest_index;
    while at > 0
        invariant
            at <= nearest_index < bases.len(),
            above == all_bases(tree@, class),
            name_views(bases@) == above,
            rooted(tree@, class),
            tree@.dom().subset_of(known),
            resolved_so_far(enums@, tree@, declaring, known),
            initially.dom().subset_of(enums@.dom()),
            resolve(tree@, declaring, above[nearest_index as int].rust_ty) == Some(
                nearest_enum_name@,
            ),
            forall|before: int|
                0 <= before < nearest_index ==> !declaring.contains(#[trigger] above[before].rust_ty),
        decreases at,
    {
        at -= 1;
        let base_name = &bases[at];
        let enum_name = NotificationEnum::for_other_class(nearest_enum_name.clone());
        proof {
            // Seen from this base, the one that has an enum lies `nearest_index -
            // at - 1` bases up, behind bases that declare nothing.
            let base = above[at as int].rust_ty;
            let beyond = all_bases(tree@, base);
            assert(above[at as int] == base_name@);
            lemma_bases_of_base(tree@, class, at as int);
            lemma_bases_of_base(tree@, class, at + 1);
            assert forall|before: int| 0 <= before < nearest_index - at - 1 implies !declaring.contains(
                #[trigger] beyond[before].rust_ty,
            ) by {
                assert(beyond[before] == above[at + 1 + before]);
            }
            assert(beyond[nearest_index - at - 1] == above[nearest_index as int]);
            lemma_resolve_through(tree@, declaring, base, nearest_index - at - 1);
        }
        enums.insert(base_name.rust_ty.clone(), enum_name);
    }
    enums.insert(class_name.rust_ty.clone(), NotificationEnum::for_other_class(nearest_enum_name));
    true
}

/// The second pass: gives every class that declares no notifications the enum
/// of its nearest base that has one.
fn share_enums(
    classes: &Vec<Class>,
    tree: &InheritanceTree,
    enums: &mut StringHashMap<NotificationEnum>,
) -> (shared: Result<(), ContextError>)
    requires
        tree@ == parent_edges(class_views(classes@)),
        enum_views(old(enums)@) == declared_enums(
            declared_notifications(class_views(classes@)).dom(),
        ),
        first_defect(class_views(classes@), Defect::Cycle) is None,
    ensures
        match shared {
            Ok(_) => enum_views(final(enums)@) == shared_enums(class_views(classes@)) && first_defect(
                class_views(classes@),
                Defect::NoNotifications,
            ) is None,
            Err(error) => reports_first(error, class_views(classes@), Defect::NoNotifications),
        },
{
    let ghost all = class_views(classes@);
    let ghost declaring = declared_notifications(all).dom();
    let ghost known = known_classes(all).dom();
    proof {
        lemma_parent_edges(all);
        lemma_declared_notifications(all);
        assert forall|class: Seq<char>| #[trigger] enums@.contains_key(class) implies known.contains(
            class,
        ) && resolve(tree@, declaring, class) == Some(enums@[class]@) by {
            assert(enum_views(enums@).contains_key(class));
            assert(enum_views(enums@)[class] == enums@[class]@);
        }
        assert forall|class: Seq<char>| declaring.contains(class) implies #[trigger] enums@.contains_key(
            class,
        ) by {
            assert(enum_views(enums@).contains_key(class));
        }
    }
    let mut at: usize = 0;
    while at < classes.len()
        invariant
            at <= classes.len(),
            all == class_views(classes@),
            declaring == declared_notifications(all).dom(),
            known == known_classes(all).dom(),
            tree@ == parent_edges(all),
            tree@.dom().subset_of(known),
            first_defect(all, Defect::Cycle) is None,
            resolved_so_far(enums@, tree@, declaring, known),
            forall|before: int|
                0 <= before < at && !(#[trigger] all[before]).excluded ==> enums@.contains_key(
                    all[before].id(),
                ),
        decreases classes.len() - at,
    {
        let class = &classes[at];
        assert(all[at as int] == class@);
        if !class.excluded && !enums.contains_key(class.name.rust_ty.as_str()) {
            proof {
                lemma_known_classes(all, class@.id());
                if !rooted(tree@, class@.id()) {
                    lemma_some_defect(all, Defect::Cycle, at as int);
                }
            }
            if !inherit_enum(tree, enums, &class.name, Ghost(declaring), Ghost(known)) {
                proof {
                    lemma_first_defect(all, Defect::NoNotifications, at as int);
                }
                return Err(ContextError::NoResolvedAncestor(class.name.clone()));
            }
        }
        at += 1;
    }
    proof {
        assert forall|class: Seq<char>| known.contains(class) implies enums@.contains_key(class) by {
            lemma_known_classes(all, class);
        }
        assert(enum_views(enums@) =~= shared_enums(all));
    }
    Ok(())
}

/// The set of the names in `names`.
fn name_set(names: &Vec<String>) -> (set: StringHashSet)
    ensures
        set@ == string_views(names@).to_set(),
{
    let mut set = StringHashSet::new();
    let mut at: usize = 0;
    while at < names.len()
        invariant
            at <= names.len(),
            forall|name: Seq<char>|
                set@.contains(name) <==> exists|before: int|
                    0 <= before < at && #[trigger] string_views(names@)[before] == name,
        decreases names.len() - at,
    {
        let ghost earlier = set@;
        set.insert(names[at].clone());
        proof {
            assert(string_views(names@)[at as int] == names@[at as int]@);
            assert forall|name: Seq<char>|
                set@.contains(name) <==> exists|before: int|
                    0 <= before < at + 1 && #[trigger] string_views(names@)[before] == name by {
                if earlier.contains(name) {
                    let before = choose|before: int|
                        0 <= before < at && #[trigger] string_views(names@)[before] == name;
                    assert(string_views(names@)[before] == name);
                }
            }
        }
        at += 1;
    }
    assert(set@ =~= string_views(names@).to_set());
    set
}

/// The notifications that `class` declares itself, in the order of their
/// declaration.
fn own_notifications(class: &Class) -> (own: Vec<(String, i32)>)
    ensures
        notification_views(own@) == class@.notifications(),
{
    let mut own: Vec<(String, i32)> = Vec::new();
    match &class.constants {
        None => {},
        Some(constants) => {
            let ghost all = constant_views(constants@);
            let mut at: usize = 0;
            while at < constants.len()
                invariant
                    at <= constants.len(),
                    all == constant_views(constants@),
                    notification_views(own@) == notifications_among(all.take(at as int)),
                decreases constants.len() - at,
            {
                let constant = &constants[at];
                assert(all.take(at + 1).drop_last() =~= all.take(at as int));
                match &constant.notification {
                    Some(identifier) => {
                        own.push((identifier.clone(), constant.value));
                    },
                    None => {},
                }
                at += 1;
            }
            assert(all.take(constants.len() as int) =~= all);
        },
    }
    own
}

} // verus!
