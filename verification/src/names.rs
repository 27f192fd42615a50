//! Class identities.

use vstd::prelude::*;

verus! {

/// A class, under the name the host engine gives it and under the normalized
/// name it carries in generated code. The normalized name is its identity.
#[derive(Debug)]
pub struct TyName {
    pub godot_ty: String,
    pub rust_ty: String,
}

/// What a `TyName` stands for in contracts.
pub struct TyNameView {
    pub godot_ty: Seq<char>,
    pub rust_ty: Seq<char>,
}

impl View for TyName {
    type V = TyNameView;

    open spec fn view(&self) -> TyNameView {
        TyNameView { godot_ty: self.godot_ty@, rust_ty: self.rust_ty@ }
    }
}

impl Clone for TyName {
    fn clone(&self) -> (copy: Self)
        ensures
            copy@ == self@,
    {
        TyName { godot_ty: self.godot_ty.clone(), rust_ty: self.rust_ty.clone() }
    }
}

impl PartialEq for TyName {
    /// Two names are the same class exactly if their normalized names agree.
    fn eq(&self, other: &TyName) -> (same: bool) {
        self.rust_ty == other.rust_ty
    }
}

impl Eq for TyName {

}

impl vstd::std_specs::cmp::PartialEqSpecImpl for TyName {
    open spec fn obeys_eq_spec() -> bool {
        true
    }

    open spec fn eq_spec(&self, other: &TyName) -> bool {
        self.rust_ty@ == other.rust_ty@
    }
}

impl TyName {
    /// Pairs an engine name with its normalized form.
    pub fn new(godot_ty: &str, rust_ty: &str) -> (name: TyName)
        ensures
            name@.godot_ty == godot_ty@,
            name@.rust_ty == rust_ty@,
    {
        TyName { godot_ty: godot_ty.to_owned(), rust_ty: rust_ty.to_owned() }
    }
}

/// A type as the engine's interface describes it: its name and, where the engine
/// gives one, the refinement that tells apart uses of one name (the width of an
/// integer, say).
#[derive(Debug)]
pub struct GodotTy {
    pub ty: String,
    pub meta: Option<String>,
}

/// What a `GodotTy` stands for in contracts.
pub struct GodotTyView {
    pub ty: Seq<char>,
    pub meta: Option<Seq<char>>,
}

impl View for GodotTy {
    type V = GodotTyView;

    open spec fn view(&self) -> GodotTyView {
        GodotTyView {
            ty: self.ty@,
            meta: match self.meta {
                Some(meta) => Some(meta@),
                None => None,
            },
        }
    }
}

impl Clone for GodotTy {
    fn clone(&self) -> (copy: Self)
        ensures
            copy@ == self@,
    {
        let meta = match &self.meta {
            Some(meta) => Some(meta.clone()),
            None => None,
        };
        GodotTy { ty: self.ty.clone(), meta }
    }
}

impl PartialEq for GodotTy {
    fn eq(&self, other: &GodotTy) -> (same: bool) {
        let same_meta = match &self.meta {
            Some(mine) => match &other.meta {
                Some(theirs) => *mine == *theirs,
                None => false,
            },
            None => other.meta.is_none(),
        };
        self.ty == other.ty && same_meta
    }
}

impl Eq for GodotTy {

}

impl vstd::std_specs::cmp::PartialEqSpecImpl for GodotTy {
    open spec fn obeys_eq_spec() -> bool {
        true
    }

    open spec fn eq_spec(&self, other: &GodotTy) -> bool {
        self@ == other@
    }
}

} // verus!
