//! The cache of resolved types: what a type of the engine's interface is in
//! generated code, kept from the first time it is worked out.

use vstd::prelude::*;
use vstd::hash_map::StringHashMap;
use proc_macro2::TokenStream;
use crate::names::{GodotTy, GodotTyView};

verus! {

/// `proc_macro2::TokenStream`, a sequence of Rust tokens. Nothing is known of
/// what a value holds; the cache only stores such values and hands them out.
#[verifier::external_type_specification]
#[verifier::external_body]
pub struct ExTokenStream(TokenStream);

/// A type of generated code: the tokens that name it.
#[derive(Debug)]
pub struct RustTy {
    pub tokens: TokenStream,
}

/// A resolved type, with the type of the engine's interface that it belongs to.
struct CacheEntry {
    key: GodotTy,
    resolved: RustTy,
}

/// The position of the first of `entries` that belongs to `key`.
spec fn first_match(entries: Seq<CacheEntry>, key: GodotTyView) -> Option<int>
    decreases entries.len(),
{
    if entries.len() == 0 {
        None
    } else {
        match first_match(entries.drop_last(), key) {
            Some(at) => Some(at),
            None => if entries.last().key@ == key {
                Some(entries.len() - 1)
            } else {
                None
            },
        }
    }
}

/// `first_match` finds the first entry of the key, and nothing only where the
/// key has no entry.
proof fn lemma_first_match(entries: Seq<CacheEntry>, key: GodotTyView)
    ensures
        match first_match(entries, key) {
            Some(at) => 0 <= at < entries.len() && entries[at].key@ == key && forall|before: int|
                0 <= before < at ==> (#[trigger] entries[before]).key@ != key,
            None => forall|at: int| 0 <= at < entries.len() ==> (#[trigger] entries[at]).key@ != key,
        },
    decreases entries.len(),
{
    if entries.len() > 0 {
        let earlier = entries.drop_last();
        lemma_first_match(earlier, key);
        match first_match(earlier, key) {
            Some(at) => {
                assert forall|before: int| 0 <= before < at implies (#[trigger] entries[before]).key@
                    != key by {
                    assert(entries[before] == earlier[before]);
                }
            },
            None => {
                assert forall|at: int| 0 <= at < entries.len() - 1 implies (#[trigger] entries[at]).key@
                    != key by {
                    assert(entries[at] == earlier[at]);
                }
            },
        }
    }
}

/// The resolved types found so far. An entry, once made, is never replaced.
pub struct TypeCache {
    /// For each type name that has entries, the number of the bucket that holds
    /// them.
    bucket_of: StringHashMap<usize>,
    /// The buckets. An entry is looked for only in the bucket of its type name.
    buckets: Vec<Vec<CacheEntry>>,
}

impl TypeCache {
    /// The entries among which `key` is looked for.
    spec fn bucket(&self, key: GodotTyView) -> Seq<CacheEntry> {
        if self.bucket_of@.contains_key(key.ty) && self.bucket_of@[key.ty] < self.buckets@.len() {
            self.buckets@[self.bucket_of@[key.ty] as int]@
        } else {
            Seq::empty()
        }
    }
}

impl View for TypeCache {
    type V = Map<GodotTyView, RustTy>;

    /// The resolved type of each type that has one.
    closed spec fn view(&self) -> Map<GodotTyView, RustTy> {
        Map::new(
            |key: GodotTyView| first_match(self.bucket(key), key) is Some,
            |key: GodotTyView| self.bucket(key)[first_match(self.bucket(key), key)->Some_0].resolved,
        )
    }
}

impl TypeCache {
    /// A cache without entries.
    pub fn new() -> (cache: TypeCache)
        ensures
            cache@ == Map::<GodotTyView, RustTy>::empty(),
    {
        TypeCache { bucket_of: StringHashMap::new(), buckets: Vec::new() }
    }

    /// The resolved type of `ty`, where the cache holds one.
    pub fn get(&self, ty: &GodotTy) -> (found: Option<&RustTy>)
        ensures
            match found {
                Some(resolved) => self@.contains_key(ty@) && *resolved == self@[ty@],
                None => !self@.contains_key(ty@),
            },
    {
        let number = match self.bucket_of.get(ty.ty.as_str()) {
            Some(number) => *number,
            None => {
                return None;
            },
        };
        if number >= self.buckets.len() {
            return None;
        }
        let entries = &self.buckets[number];
        proof {
            lemma_first_match(entries@, ty@);
        }
        let mut at: usize = 0;
        while at < entries.len()
            invariant
                at <= entries.len(),
                entries@ == self.bucket(ty@),
                forall|before: int| 0 <= before < at ==> (#[trigger] entries@[before]).key@ != ty@,
            decreases entries.len() - at,
        {
            if entries[at].key == *ty {
                proof {
                    lemma_first_match(entries@, ty@);
                }
                return Some(&entries[at].resolved);
            }
            at += 1;
        }
        None
    }

    /// Enters `resolved` as the type of `ty`. A type that has an entry keeps it:
    /// the cache then stays as it is, and `ty` is handed back.
    pub fn insert(&mut self, ty: GodotTy, resolved: RustTy) -> (entered: Result<(), GodotTy>)
        ensures
            match entered {
                Ok(_) => !old(self)@.contains_key(ty@) && final(self)@ == old(self)@.insert(
                    ty@,
                    resolved,
                ),
                Err(refused) => old(self)@.contains_key(ty@) && final(self)@ == old(self)@ && refused
                    == ty,
            },
    {
        if self.get(&ty).is_some() {
            return Err(ty);
        }
        let ghost key = ty@;
        let ghost before = *self;
        let known = match self.bucket_of.get(ty.ty.as_str()) {
            Some(number) => if *number < self.buckets.len() {
                Some(*number)
            } else {
                None
            },
            None => None,
        };
        match known {
            Some(number) => {
                self.buckets[number].push(CacheEntry { key: ty, resolved });
            },
            None => {
                let number = self.buckets.len();
                self.bucket_of.insert(ty.ty.clone(), number);
                let mut entries: Vec<CacheEntry> = Vec::new();
                entries.push(CacheEntry { key: ty, resolved });
                self.buckets.push(entries);
            },
        }
        proof {
            assert forall|other: GodotTyView| #[trigger]
                self@.contains_key(other) == before@.insert(key, resolved).contains_key(other) && (
                self@.contains_key(other) ==> self@[other] == before@.insert(key, resolved)[other]) by {
                let then = before.bucket(other);
                let now = self.bucket(other);
                lemma_first_match(then, other);
                if now != then {
                    assert(now.drop_last() == then);
                }
            }
        }
        Ok(())
    }
}

impl Default for TypeCache {
    fn default() -> (cache: TypeCache)
        ensures
            cache@ == Map::<GodotTyView, RustTy>::empty(),
    {
        TypeCache::new()
    }
}

} // verus!
