//! The snapshot of the engine's interface that the model is built from.

use vstd::prelude::*;
use crate::names::{TyName, TyNameView};

verus! {

/// An integer constant of a class.
#[derive(Debug)]
pub struct ClassConstant {
    pub name: String,
    pub value: i32,
    /// The identifier under which the constant stands among the notifications of
    /// its class, where the constant is a notification; nothing where it is not.
    pub notification: Option<String>,
}

/// What a `ClassConstant` stands for in contracts.
pub struct ClassConstantView {
    pub name: Seq<char>,
    pub value: i32,
    pub notification: Option<Seq<char>>,
}

impl View for ClassConstant {
    type V = ClassConstantView;

    open spec fn view(&self) -> ClassConstantView {
        ClassConstantView {
            name: self.name@,
            value: self.value,
            notification: match self.notification {
                Some(identifier) => Some(identifier@),
                None => None,
            },
        }
    }
}

/// A class of the engine.
#[derive(Debug)]
pub struct Class {
    pub name: TyName,
    /// The base of the class, where it has one.
    pub inherits: Option<TyName>,
    pub constants: Option<Vec<ClassConstant>>,
    /// Whether the class is left out of the model altogether.
    pub excluded: bool,
}

/// What a `Class` stands for in contracts.
pub struct ClassView {
    pub name: TyNameView,
    pub inherits: Option<TyNameView>,
    pub constants: Option<Seq<ClassConstantView>>,
    pub excluded: bool,
}

/// What a list of constants stands for in contracts.
pub open spec fn constant_views(constants: Seq<ClassConstant>) -> Seq<ClassConstantView> {
    constants.map_values(|constant: ClassConstant| constant@)
}

impl View for Class {
    type V = ClassView;

    open spec fn view(&self) -> ClassView {
        ClassView {
            name: self.name@,
            inherits: match self.inherits {
                Some(base) => Some(base@),
                None => None,
            },
            constants: match self.constants {
                Some(constants) => Some(constant_views(constants@)),
                None => None,
            },
            excluded: self.excluded,
        }
    }
}

/// The notifications among `constants`, in the order of the constants: each with
/// its identifier and its value.
pub open spec fn notifications_among(constants: Seq<ClassConstantView>) -> Seq<(Seq<char>, i32)>
    decreases constants.len(),
{
    if constants.len() == 0 {
        Seq::empty()
    } else {
        let earlier = notifications_among(constants.drop_last());
        match constants.last().notification {
            Some(identifier) => earlier.push((identifier, constants.last().value)),
            None => earlier,
        }
    }
}

impl ClassView {
    /// The identity of the class.
    pub open spec fn id(self) -> Seq<char> {
        self.name.rust_ty
    }

    /// The notifications that the class itself declares, in their order.
    pub open spec fn notifications(self) -> Seq<(Seq<char>, i32)> {
        match self.constants {
            Some(constants) => notifications_among(constants),
            None => Seq::empty(),
        }
    }

    /// Whether the class enters the model with a base.
    pub open spec fn has_base(self) -> bool {
        !self.excluded && self.inherits is Some
    }

    /// Whether the class enters the model with notifications of its own.
    pub open spec fn declares(self) -> bool {
        !self.excluded && self.notifications().len() > 0
    }
}

/// The engine's interface: its classes, in the order in which they are
/// declared, and the names of its builtin types, native structures and
/// singletons.
#[derive(Debug)]
pub struct ExtensionApi {
    pub classes: Vec<Class>,
    pub builtin_classes: Vec<String>,
    pub native_structures: Vec<String>,
    pub singletons: Vec<String>,
}

/// What an `ExtensionApi` stands for in contracts.
pub struct ExtensionApiView {
    pub classes: Seq<ClassView>,
    pub builtin_classes: Seq<Seq<char>>,
    pub native_structures: Seq<Seq<char>>,
    pub singletons: Seq<Seq<char>>,
}

/// What a list of classes stands for in contracts.
pub open spec fn class_views(classes: Seq<Class>) -> Seq<ClassView> {
    classes.map_values(|class: Class| class@)
}

/// What a list of names stands for in contracts.
pub open spec fn string_views(names: Seq<String>) -> Seq<Seq<char>> {
    names.map_values(|name: String| name@)
}

impl View for ExtensionApi {
    type V = ExtensionApiView;

    open spec fn view(&self) -> ExtensionApiView {
        ExtensionApiView {
            classes: class_views(self.classes@),
            builtin_classes: string_views(self.builtin_classes@),
            native_structures: string_views(self.native_structures@),
            singletons: string_views(self.singletons@),
        }
    }
}

} // verus!
