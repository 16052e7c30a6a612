use extrem::asset_path::{normalize_path, AssetPathError};
use extrem::assets::{AssetError, AssetId, AssetKey, AssetState, Assets, Handle};

#[test]
fn asset_handles_are_typed_and_deduplicated_by_path() {
    let mut assets = Assets::<String>::new();
    let first = assets
        .load_with("textures\\hero.txt", |path: &str| Ok::<_, ()>(path.to_owned()))
        .expect("load");
    let second = assets
        .load_with("textures/hero.txt", |path: &str| Ok::<_, ()>(path.to_owned()))
        .expect("cached load");

    assert_eq!(first.id(), second.id());
    assert_eq!(assets.len(), 1);
    assert_eq!(assets.get(first), Some(&"textures/hero.txt".to_owned()));
    assert_eq!(AssetId::from_path("A\\B"), AssetId::from_path("a/b"));
}

#[test]
fn remove_drops_value_and_frees_the_path() {
    let mut assets = Assets::<String>::new();
    let handle = assets
        .insert("meshes/hero.bin", "mesh".to_owned())
        .expect("insert");
    assert_eq!(assets.remove(handle), Some("mesh".to_owned()));
    assert!(assets.is_empty());
    let again = assets
        .insert("meshes/hero.bin", "mesh-2".to_owned())
        .expect("reinsert");
    assert_eq!(assets.get(again), Some(&"mesh-2".to_owned()));
}

#[test]
fn normalization_resolves_only_in_root_parent_components() {
    assert_eq!(
        normalize_path("textures\\../textures/HERO.PNG"),
        Ok("textures/hero.png".to_owned())
    );
    assert_eq!(normalize_path("a/./b//c"), Ok("a/b/c".to_owned()));
}

#[test]
fn unsafe_paths_fail_closed() {
    assert_eq!(
        normalize_path("../secret.txt"),
        Err(AssetPathError::ParentTraversal)
    );
    assert_eq!(
        normalize_path("../../secret.txt"),
        Err(AssetPathError::ParentTraversal)
    );
    assert_eq!(normalize_path("/etc/passwd"), Err(AssetPathError::Absolute));
    assert_eq!(
        normalize_path("C:\\Game\\secret.txt"),
        Err(AssetPathError::WindowsPrefix)
    );
    assert_eq!(
        normalize_path("\\\\server\\share\\x"),
        Err(AssetPathError::WindowsPrefix)
    );
    assert_eq!(normalize_path("bad\0name"), Err(AssetPathError::NulByte));
}

#[test]
fn invalid_path_never_reaches_loader() {
    let mut assets = Assets::<String>::new();
    let called = std::cell::Cell::new(false);
    let result = assets.load_with("../secret.txt", |_: &str| {
        called.set(true);
        Ok::<_, ()>("secret".to_owned())
    });
    assert!(!called.get());
    assert!(result.is_err());
    assert!(assets.is_empty());
}

#[test]
fn empty_too_long_and_dot_only_paths_are_rejected() {
    assert_eq!(normalize_path(""), Err(AssetPathError::Empty));
    assert_eq!(normalize_path("./."), Err(AssetPathError::Empty));
    assert_eq!(normalize_path("a/.."), Err(AssetPathError::Empty));
    let long = "a".repeat(4097);
    assert_eq!(normalize_path(&long), Err(AssetPathError::TooLong));
    let limit = "a".repeat(4096);
    assert_eq!(normalize_path(&limit), Ok(limit.clone()));
    assert_eq!(AssetPathError::TooLong.message(), "asset path exceeds 4096 bytes");
}

#[test]
fn asset_ids_are_fnv1a_of_the_normalized_key() {
    // FNV-1a 64 of the empty string is its offset basis; of "a" a published value.
    let key = AssetKey::new("A").unwrap();
    assert_eq!(key.as_str(), "a");
    assert_eq!(AssetId::from_key(&key).raw(), 0xaf63dc4c8601ec8c);
    assert_eq!(AssetId::from_path("./A").unwrap(), AssetId::from_key(&key));
    assert_eq!(AssetId::from_path(".."), Err(AssetPathError::ParentTraversal));
}

#[test]
fn loader_errors_are_reported_and_leave_the_registry_unchanged() {
    let mut assets = Assets::<u32>::new();
    let result = assets.load_with("x/y", |_: &str| Err::<u32, &str>("boom"));
    assert_eq!(result, Err(AssetError::Loader("boom")));
    assert!(assets.is_empty());
    let handle: Handle<u32> = Handle::from_id(AssetId::from_path("x/y").unwrap());
    assert_eq!(assets.state(handle), AssetState::Unloaded);
    assert_eq!(assets.path(handle), None);
    let inserted = assets.insert("X/Y", 7).unwrap();
    assert_eq!(inserted.id(), handle.id());
    assert_eq!(assets.state(handle), AssetState::Loaded);
    assert_eq!(assets.path(handle), Some("x/y"));
    if let Some(v) = assets.get_mut(handle) {
        *v = 8;
    }
    assert_eq!(assets.get(handle), Some(&8));
    assert_eq!(
        assets.insert("../x", 1),
        Err(AssetError::InvalidPath(AssetPathError::ParentTraversal))
    );
}
