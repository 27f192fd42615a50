//! What a snapshot means: the model that it stands for, and when it stands for
//! none.

use vstd::prelude::*;
use crate::api::{ClassView, ExtensionApi, ExtensionApiView};
use crate::error::ContextErrorView;
use crate::inheritance::{all_bases, lemma_bases_of_root, rooted};
use crate::model::ContextView;
use crate::names::TyNameView;
use crate::notification::{NotificationEnumView, resolve};

verus! {

/// The classes that enter the model, by identity. Where two records have one
/// identity, the later one stands.
pub open spec fn known_classes(classes: Seq<ClassView>) -> Map<Seq<char>, ClassView>
    decreases classes.len(),
{
    if classes.len() == 0 {
        Map::empty()
    } else {
        let earlier = known_classes(classes.drop_last());
        let class = classes.last();
        if class.excluded {
            earlier
        } else {
            earlier.insert(class.id(), class)
        }
    }
}

/// The base of each class that enters the model with one.
pub open spec fn parent_edges(classes: Seq<ClassView>) -> Map<Seq<char>, TyNameView>
    decreases classes.len(),
{
    if classes.len() == 0 {
        Map::empty()
    } else {
        let earlier = parent_edges(classes.drop_last());
        let class = classes.last();
        if class.has_base() {
            earlier.insert(class.id(), class.inherits->Some_0)
        } else {
            earlier
        }
    }
}

/// The notifications of each class that enters the model with some of its own.
/// Where two such records have one identity, the later one stands.
pub open spec fn declared_notifications(classes: Seq<ClassView>) -> Map<Seq<char>, Seq<(Seq<char>, i32)>>
    decreases classes.len(),
{
    if classes.len() == 0 {
        Map::empty()
    } else {
        let earlier = declared_notifications(classes.drop_last());
        let class = classes.last();
        if class.declares() {
            earlier.insert(class.id(), class.notifications())
        } else {
            earlier
        }
    }
}

/// The notification enum of a class of the snapshot, where it has one.
pub open spec fn enum_of(classes: Seq<ClassView>, class: Seq<char>) -> Option<NotificationEnumView> {
    resolve(parent_edges(classes), declared_notifications(classes).dom(), class)
}

/// What makes a snapshot inconsistent.
pub enum Defect {
    /// A class is given a base though an earlier record of it has one.
    DuplicateBase,
    /// The bases of a class lead back into themselves.
    Cycle,
    /// Neither a class nor any of its bases declares notifications.
    NoNotifications,
}

/// Whether the record at `at` shows `defect`.
pub open spec fn defect_at(classes: Seq<ClassView>, defect: Defect, at: int) -> bool {
    match defect {
        Defect::DuplicateBase => classes[at].has_base() && parent_edges(classes.take(at)).contains_key(
            classes[at].id(),
        ),
        Defect::Cycle => !classes[at].excluded && !rooted(parent_edges(classes), classes[at].id()),
        Defect::NoNotifications => !classes[at].excluded && enum_of(classes, classes[at].id()) is None,
    }
}

/// Whether the record at `at` is the first to show `defect`.
pub open spec fn first_defect_at(classes: Seq<ClassView>, defect: Defect, at: int) -> bool {
    &&& 0 <= at < classes.len()
    &&& defect_at(classes, defect, at)
    &&& forall|before: int| 0 <= before < at ==> !defect_at(classes, defect, before)
}

/// The first record that shows `defect`, where one does.
pub open spec fn first_defect(classes: Seq<ClassView>, defect: Defect) -> Option<int> {
    if exists|at: int| first_defect_at(classes, defect, at) {
        Some(choose|at: int| first_defect_at(classes, defect, at))
    } else {
        None
    }
}

/// The notification enum of each class of the model of a consistent snapshot.
pub open spec fn shared_enums(classes: Seq<ClassView>) -> Map<Seq<char>, NotificationEnumView> {
    Map::new(
        |class: Seq<char>| known_classes(classes).contains_key(class),
        |class: Seq<char>| enum_of(classes, class)->Some_0,
    )
}

/// The model of a consistent snapshot, with no resolved type yet.
pub open spec fn model_of(api: ExtensionApiView) -> ContextView {
    ContextView {
        classes: known_classes(api.classes),
        builtin_types: api.builtin_classes.to_set().insert("Variant"@),
        native_structures: api.native_structures.to_set(),
        singletons: api.singletons.to_set(),
        parents: parent_edges(api.classes),
        notifications: declared_notifications(api.classes),
        enum_names: shared_enums(api.classes),
        rust_types: Map::empty(),
    }
}

/// What building the model of a snapshot gives. A snapshot in which a class has
/// two bases is refused, at the first record that gives a second one; else one
/// with a cycle, at the first class whose bases never end; else one in which
/// some class is left without notifications, at the first such class.
pub open spec fn build_outcome(api: ExtensionApiView) -> Result<ContextView, ContextErrorView> {
    if let Some(at) = first_defect(api.classes, Defect::DuplicateBase) {
        Err(ContextErrorView::DuplicateInheritance(api.classes[at].name))
    } else if let Some(at) = first_defect(api.classes, Defect::Cycle) {
        Err(ContextErrorView::CyclicInheritance(api.classes[at].name))
    } else if let Some(at) = first_defect(api.classes, Defect::NoNotifications) {
        Err(ContextErrorView::NoResolvedAncestor(api.classes[at].name))
    } else {
        Ok(model_of(api))
    }
}

/// There is one first record with a defect at most.
pub proof fn lemma_first_defect(classes: Seq<ClassView>, defect: Defect, at: int)
    requires
        first_defect_at(classes, defect, at),
    ensures
        first_defect(classes, defect) == Some(at),
{
    // Neither of two first records comes before the other.
    let chosen = choose|at: int| first_defect_at(classes, defect, at);
    assert(!(chosen < at) && !(at < chosen));
}

/// The classes of the model are those of the records that are not excluded.
pub proof fn lemma_known_classes(classes: Seq<ClassView>, class: Seq<char>)
    ensures
        known_classes(classes).contains_key(class) <==> exists|at: int|
            0 <= at < classes.len() && !(#[trigger] classes[at]).excluded && classes[at].id() == class,
    decreases classes.len(),
{
    if classes.len() > 0 {
        let earlier = classes.drop_last();
        lemma_known_classes(earlier, class);
        if known_classes(earlier).contains_key(class) {
            let at = choose|at: int|
                0 <= at < earlier.len() && !(#[trigger] earlier[at]).excluded && earlier[at].id() == class;
            assert(classes[at] == earlier[at]);
        }
        if exists|at: int|
            0 <= at < classes.len() && !(#[trigger] classes[at]).excluded && classes[at].id() == class {
            let at = choose|at: int|
                0 <= at < classes.len() && !(#[trigger] classes[at]).excluded && classes[at].id() == class;
            if at < classes.len() - 1 {
                assert(classes[at] == earlier[at]);
            }
        }
    }
}

/// Only classes of the model have a base in it.
pub proof fn lemma_parent_edges(classes: Seq<ClassView>)
    ensures
        parent_edges(classes).dom().subset_of(known_classes(classes).dom()),
    decreases classes.len(),
{
    if classes.len() > 0 {
        lemma_parent_edges(classes.drop_last());
    }
}

/// Only classes of the model declare notifications in it, and each of them
/// declares one at least.
pub proof fn lemma_declared_notifications(classes: Seq<ClassView>)
    ensures
        declared_notifications(classes).dom().subset_of(known_classes(classes).dom()),
        forall|class: Seq<char>| #[trigger]
            declared_notifications(classes).contains_key(class) ==> declared_notifications(
                classes,
            )[class].len() > 0,
    decreases classes.len(),
{
    if classes.len() > 0 {
        lemma_declared_notifications(classes.drop_last());
    }
}

/// The model of a snapshot without defect is well formed.
pub proof fn lemma_model_well_formed(api: ExtensionApiView)
    requires
        build_outcome(api) is Ok,
    ensures
        model_of(api).well_formed(),
{
    let classes = api.classes;
    let model = model_of(api);
    lemma_parent_edges(classes);
    lemma_declared_notifications(classes);
    assert forall|class: Seq<char>| #[trigger] rooted(model.parents, class) by {
        if model.parents.contains_key(class) {
            lemma_known_classes(classes, class);
            let at = choose|at: int|
                0 <= at < classes.len() && !(#[trigger] classes[at]).excluded && classes[at].id() == class;
            if !rooted(model.parents, class) {
                lemma_some_defect(classes, Defect::Cycle, at);
            }
        } else {
            lemma_bases_of_root(model.parents, class);
        }
    }
    assert(model.enum_names.dom() =~= model.classes.dom());
    assert forall|class: Seq<char>| #[trigger] model.classes.contains_key(class) implies resolve(
        model.parents,
        model.notifications.dom(),
        class,
    ) == Some(model.enum_names[class]) by {
        lemma_known_classes(classes, class);
        let at = choose|at: int|
            0 <= at < classes.len() && !(#[trigger] classes[at]).excluded && classes[at].id() == class;
        if enum_of(classes, class) is None {
            lemma_some_defect(classes, Defect::NoNotifications, at);
        }
    }
}

/// A defect that some record shows has a first record.
pub proof fn lemma_some_defect(classes: Seq<ClassView>, defect: Defect, at: int)
    requires
        0 <= at < classes.len(),
        defect_at(classes, defect, at),
    ensures
        first_defect(classes, defect) is Some,
    decreases at,
{
    if exists|before: int| 0 <= before < at && defect_at(classes, defect, before) {
        let before = choose|before: int| 0 <= before < at && defect_at(classes, defect, before);
        lemma_some_defect(classes, defect, before);
    } else {
        assert(first_defect_at(classes, defect, at));
    }
}

/// Whether no two records that enter the model have one identity.
pub open spec fn identities_distinct(classes: Seq<ClassView>) -> bool {
    forall|first: int, second: int|
        #![trigger classes[first], classes[second]]
        0 <= first < second < classes.len() && !classes[first].excluded && !classes[second].excluded
            ==> classes[first].id() != classes[second].id()
}

/// The classes with a base are those of the records that enter the model with
/// one.
pub proof fn lemma_classes_with_base(classes: Seq<ClassView>, class: Seq<char>)
    ensures
        parent_edges(classes).contains_key(class) <==> exists|at: int|
            0 <= at < classes.len() && (#[trigger] classes[at]).has_base() && classes[at].id() == class,
    decreases classes.len(),
{
    if classes.len() > 0 {
        let earlier = classes.drop_last();
        lemma_classes_with_base(earlier, class);
        if parent_edges(earlier).contains_key(class) {
            let at = choose|at: int|
                0 <= at < earlier.len() && (#[trigger] earlier[at]).has_base() && earlier[at].id() == class;
            assert(classes[at] == earlier[at]);
        }
        if exists|at: int|
            0 <= at < classes.len() && (#[trigger] classes[at]).has_base() && classes[at].id() == class {
            let at = choose|at: int|
                0 <= at < classes.len() && (#[trigger] classes[at]).has_base() && classes[at].id() == class;
            if at < classes.len() - 1 {
                assert(classes[at] == earlier[at]);
            }
        }
    }
}

/// The classes with notifications are those of the records that enter the
/// model with some.
pub proof fn lemma_classes_with_notifications(classes: Seq<ClassView>, class: Seq<char>)
    ensures
        declared_notifications(classes).contains_key(class) <==> exists|at: int|
            0 <= at < classes.len() && (#[trigger] classes[at]).declares() && classes[at].id() == class,
    decreases classes.len(),
{
    if classes.len() > 0 {
        let earlier = classes.drop_last();
        lemma_classes_with_notifications(earlier, class);
        if declared_notifications(earlier).contains_key(class) {
            let at = choose|at: int|
                0 <= at < earlier.len() && (#[trigger] earlier[at]).declares() && earlier[at].id() == class;
            assert(classes[at] == earlier[at]);
        }
        if exists|at: int|
            0 <= at < classes.len() && (#[trigger] classes[at]).declares() && classes[at].id() == class {
            let at = choose|at: int|
                0 <= at < classes.len() && (#[trigger] classes[at]).declares() && classes[at].id() == class;
            if at < classes.len() - 1 {
                assert(classes[at] == earlier[at]);
            }
        }
    }
}

/// Where identities are distinct, every record that enters the model stands in
/// it: with its base where it has one, and with its notifications where it
/// declares some.
pub proof fn lemma_record_stands(classes: Seq<ClassView>, at: int)
    requires
        identities_distinct(classes),
        0 <= at < classes.len(),
        !classes[at].excluded,
    ensures
        known_classes(classes)[classes[at].id()] == classes[at],
        classes[at].has_base() ==> parent_edges(classes)[classes[at].id()]
            == classes[at].inherits->Some_0,
        classes[at].declares() ==> declared_notifications(classes)[classes[at].id()]
            == classes[at].notifications(),
    decreases classes.len(),
{
    let earlier = classes.drop_last();
    if at < classes.len() - 1 {
        assert(earlier[at] == classes[at]);
        assert forall|first: int, second: int|
            #![trigger earlier[first], earlier[second]]
            0 <= first < second < earlier.len() && !earlier[first].excluded
                && !earlier[second].excluded implies earlier[first].id() != earlier[second].id() by {
            assert(earlier[first] == classes[first] && earlier[second] == classes[second]);
        }
        lemma_record_stands(earlier, at);
        assert(classes[at].excluded || classes.last().excluded || classes[at].id()
            != classes[classes.len() - 1].id());
    }
}

/// Where identities are distinct, no class is given a second base.
pub proof fn lemma_distinct_identities_have_one_base(classes: Seq<ClassView>)
    requires
        identities_distinct(classes),
    ensures
        first_defect(classes, Defect::DuplicateBase) is None,
{
    assert forall|at: int| 0 <= at < classes.len() implies !defect_at(
        classes,
        Defect::DuplicateBase,
        at,
    ) by {
        let earlier = classes.take(at);
        if classes[at].has_base() && parent_edges(earlier).contains_key(classes[at].id()) {
            lemma_classes_with_base(earlier, classes[at].id());
            let before = choose|before: int|
                0 <= before < earlier.len() && (#[trigger] earlier[before]).has_base()
                    && earlier[before].id() == classes[at].id();
            assert(earlier[before] == classes[before]);
            assert(classes[before].id() != classes[at].id());
        }
    }
}

/// Where identities are distinct, the order of the records does not matter: two
/// snapshots that hold the same records and the same names have the same model,
/// or have none either.
pub proof fn lemma_order_does_not_matter(first: ExtensionApiView, second: ExtensionApiView)
    requires
        identities_distinct(first.classes),
        identities_distinct(second.classes),
        forall|class: ClassView| first.classes.contains(class) <==> second.classes.contains(class),
        first.builtin_classes.to_set() == second.builtin_classes.to_set(),
        first.native_structures.to_set() == second.native_structures.to_set(),
        first.singletons.to_set() == second.singletons.to_set(),
    ensures
        build_outcome(first) is Ok <==> build_outcome(second) is Ok,
        build_outcome(first) is Ok ==> build_outcome(first) == build_outcome(second),
{
    lemma_same_records_same_maps(first.classes, second.classes);
    lemma_same_records_same_maps(second.classes, first.classes);
    assert(known_classes(first.classes) =~= known_classes(second.classes));
    assert(parent_edges(first.classes) =~= parent_edges(second.classes));
    assert(declared_notifications(first.classes) =~= declared_notifications(second.classes));
    assert(shared_enums(first.classes) =~= shared_enums(second.classes));
    lemma_distinct_identities_have_one_base(first.classes);
    lemma_distinct_identities_have_one_base(second.classes);
    lemma_same_classes_same_defects(first.classes, second.classes, Defect::Cycle);
    lemma_same_classes_same_defects(second.classes, first.classes, Defect::Cycle);
    lemma_same_classes_same_defects(first.classes, second.classes, Defect::NoNotifications);
    lemma_same_classes_same_defects(second.classes, first.classes, Defect::NoNotifications);
}

/// Where identities are distinct, what the records of one snapshot enter in the
/// model, those of another that holds the same records enter too.
proof fn lemma_same_records_same_maps(first: Seq<ClassView>, second: Seq<ClassView>)
    requires
        identities_distinct(first),
        identities_distinct(second),
        forall|class: ClassView| first.contains(class) <==> second.contains(class),
    ensures
        forall|class: Seq<char>| #[trigger]
            known_classes(first).contains_key(class) ==> known_classes(second).contains_key(class)
                && known_classes(second)[class] == known_classes(first)[class],
        forall|class: Seq<char>| #[trigger]
            parent_edges(first).contains_key(class) ==> parent_edges(second).contains_key(class)
                && parent_edges(second)[class] == parent_edges(first)[class],
        forall|class: Seq<char>| #[trigger]
            declared_notifications(first).contains_key(class) ==> declared_notifications(
                second,
            ).contains_key(class) && declared_notifications(second)[class] == declared_notifications(
                first,
            )[class],
{
    assert forall|class: Seq<char>| #[trigger]
        known_classes(first).contains_key(class) implies known_classes(second).contains_key(class)
        && known_classes(second)[class] == known_classes(first)[class] by {
        lemma_known_classes(first, class);
        let at = choose|at: int|
            0 <= at < first.len() && !(#[trigger] first[at]).excluded && first[at].id() == class;
        assert(first.contains(first[at]));
        let there = choose|there: int| 0 <= there < second.len() && second[there] == first[at];
        lemma_known_classes(second, class);
        lemma_record_stands(first, at);
        lemma_record_stands(second, there);
    }
    assert forall|class: Seq<char>| #[trigger]
        parent_edges(first).contains_key(class) implies parent_edges(second).contains_key(class)
        && parent_edges(second)[class] == parent_edges(first)[class] by {
        lemma_classes_with_base(first, class);
        let at = choose|at: int|
            0 <= at < first.len() && (#[trigger] first[at]).has_base() && first[at].id() == class;
        assert(first.contains(first[at]));
        let there = choose|there: int| 0 <= there < second.len() && second[there] == first[at];
        lemma_classes_with_base(second, class);
        lemma_record_stands(first, at);
        lemma_record_stands(second, there);
    }
    assert forall|class: Seq<char>| #[trigger]
        declared_notifications(first).contains_key(class) implies declared_notifications(
            second,
        ).contains_key(class) && declared_notifications(second)[class] == declared_notifications(
            first,
        )[class] by {
        lemma_classes_with_notifications(first, class);
        let at = choose|at: int|
            0 <= at < first.len() && (#[trigger] first[at]).declares() && first[at].id() == class;
        assert(first.contains(first[at]));
        let there = choose|there: int| 0 <= there < second.len() && second[there] == first[at];
        lemma_classes_with_notifications(second, class);
        lemma_record_stands(first, at);
        lemma_record_stands(second, there);
    }
}

/// A cycle, or a class without notifications, in one snapshot is one in every
/// snapshot with the same classes, bases and notifications.
proof fn lemma_same_classes_same_defects(first: Seq<ClassView>, second: Seq<ClassView>, defect: Defect)
    requires
        defect != Defect::DuplicateBase,
        known_classes(first) == known_classes(second),
        parent_edges(first) == parent_edges(second),
        declared_notifications(first) == declared_notifications(second),
    ensures
        first_defect(first, defect) is Some ==> first_defect(second, defect) is Some,
{
    if first_defect(first, defect) is Some {
        let at = first_defect(first, defect)->Some_0;
        assert(first_defect_at(first, defect, at));
        let class = first[at].id();
        lemma_known_classes(first, class);
        lemma_known_classes(second, class);
        let there = choose|there: int|
            0 <= there < second.len() && !(#[trigger] second[there]).excluded && second[there].id()
                == class;
        assert(defect_at(second, defect, there));
        lemma_some_defect(second, defect, there);
    }
}

/// Building is a function of what the snapshot holds: snapshots that hold the
/// same classes, names and constants have the same model, or are refused alike,
/// and their classes have the same bases.
pub proof fn lemma_build_is_determined(first: ExtensionApi, second: ExtensionApi)
    requires
        first@ == second@,
    ensures
        build_outcome(first@) == build_outcome(second@),
        forall|class: Seq<char>|
            all_bases(parent_edges(first@.classes), class) == all_bases(
                parent_edges(second@.classes),
                class,
            ),
{
}

} // verus!
