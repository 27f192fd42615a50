//! The ways in which a snapshot, or a query on its model, can be inconsistent.

use vstd::prelude::*;
use crate::names::{GodotTy, GodotTyView, TyName, TyNameView};

verus! {

/// An inconsistency in the snapshot or in a query. None of them can be recovered
/// from: each names the class or type at which it was found.
#[derive(Debug)]
pub enum ContextError {
    /// A class was given a base a second time.
    DuplicateInheritance(TyName),
    /// The bases of a class lead back into themselves.
    CyclicInheritance(TyName),
    /// Neither a class nor any of its bases declares notification constants.
    NoResolvedAncestor(TyName),
    /// A class that the snapshot does not hold was asked for.
    UnknownClass(TyName),
    /// A type was resolved a second time.
    CacheOverwrite(GodotTy),
}

/// What a `ContextError` stands for in contracts.
pub enum ContextErrorView {
    DuplicateInheritance(TyNameView),
    CyclicInheritance(TyNameView),
    NoResolvedAncestor(TyNameView),
    UnknownClass(TyNameView),
    CacheOverwrite(GodotTyView),
}

impl View for ContextError {
    type V = ContextErrorView;

    open spec fn view(&self) -> ContextErrorView {
        match self {
            ContextError::DuplicateInheritance(class) => ContextErrorView::DuplicateInheritance(class@),
            ContextError::CyclicInheritance(class) => ContextErrorView::CyclicInheritance(class@),
            ContextError::NoResolvedAncestor(class) => ContextErrorView::NoResolvedAncestor(class@),
            ContextError::UnknownClass(class) => ContextErrorView::UnknownClass(class@),
            ContextError::CacheOverwrite(ty) => ContextErrorView::CacheOverwrite(ty@),
        }
    }
}

} // verus!
