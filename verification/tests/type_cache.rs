use godot_codegen::names::GodotTy;
use godot_codegen::type_cache::{RustTy, TypeCache};
use proc_macro2::TokenStream;

fn godot(ty: &str, meta: Option<&str>) -> GodotTy {
    GodotTy { ty: ty.to_string(), meta: meta.map(|meta| meta.to_string()) }
}

fn rust(tokens: &str) -> RustTy {
    RustTy { tokens: tokens.parse::<TokenStream>().expect("valid tokens") }
}

fn text(found: Option<&RustTy>) -> Option<String> {
    found.map(|resolved| resolved.tokens.to_string())
}

#[test]
fn empty_cache_finds_nothing() {
    let cache = TypeCache::new();
    assert!(cache.get(&godot("int", None)).is_none());
    let cache = TypeCache::default();
    assert!(cache.get(&godot("int", Some("int32"))).is_none());
}

#[test]
fn entry_is_found_again() {
    let mut cache = TypeCache::new();
    assert!(cache.insert(godot("Vector2", None), rust("Vector2")).is_ok());
    assert_eq!(text(cache.get(&godot("Vector2", None))), Some("Vector2".to_string()));
    assert!(cache.get(&godot("Vector3", None)).is_none());
}

#[test]
fn meta_tells_entries_of_one_name_apart() {
    let mut cache = TypeCache::new();
    assert!(cache.insert(godot("int", None), rust("i64")).is_ok());
    assert!(cache.insert(godot("int", Some("int32")), rust("i32")).is_ok());
    assert!(cache.insert(godot("int", Some("uint8")), rust("u8")).is_ok());
    assert!(cache.insert(godot("float", Some("int32")), rust("f32")).is_ok());
    assert_eq!(text(cache.get(&godot("int", None))), Some("i64".to_string()));
    assert_eq!(text(cache.get(&godot("int", Some("int32")))), Some("i32".to_string()));
    assert_eq!(text(cache.get(&godot("int", Some("uint8")))), Some("u8".to_string()));
    assert_eq!(text(cache.get(&godot("float", Some("int32")))), Some("f32".to_string()));
    assert!(cache.get(&godot("int", Some("int64"))).is_none());
    assert!(cache.get(&godot("float", None)).is_none());
}

#[test]
fn second_entry_is_refused_and_handed_back() {
    let mut cache = TypeCache::new();
    assert!(cache.insert(godot("int", Some("int32")), rust("i32")).is_ok());
    let refused = cache.insert(godot("int", Some("int32")), rust("i64"));
    assert_eq!(refused, Err(godot("int", Some("int32"))));
    assert_eq!(text(cache.get(&godot("int", Some("int32")))), Some("i32".to_string()));
}

#[test]
fn descriptors_compare_by_name_and_meta() {
    assert_eq!(godot("int", Some("int32")), godot("int", Some("int32")));
    assert_ne!(godot("int", Some("int32")), godot("int", Some("int64")));
    assert_ne!(godot("int", Some("int32")), godot("int", None));
    assert_ne!(godot("int", None), godot("float", None));
    assert_eq!(godot("int", None).clone(), godot("int", None));
}
