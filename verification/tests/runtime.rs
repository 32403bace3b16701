use uscanner::runtime_index::{
    index_dir_name, index_file_name, load_asset_index, load_manifest, load_navigation_index,
    load_search_index, load_usage_index, manifest_matches_db, save_asset_index,
    save_navigation_index, save_search_index, AssetRuntimeIndex, DbStamp, RuntimeIndexKind,
    RuntimeIndexManifest,
};

fn stamp(size: u64) -> DbStamp {
    DbStamp { size, mtime_secs: 10 }
}

#[test]
fn what_was_kept_can_be_used_until_the_store_changes() {
    let manifest = save_search_index(None, stamp(1));
    assert!(manifest_matches_db(stamp(1), &manifest));
    assert!(load_search_index(Some(save_search_index(None, stamp(1))), stamp(1)));
    assert!(!load_search_index(Some(save_search_index(None, stamp(1))), stamp(2)));
    assert!(!load_navigation_index(Some(save_search_index(None, stamp(1))), stamp(1)));
    assert!(!load_usage_index(None, stamp(1)));
}

#[test]
fn keeping_an_index_keeps_the_others() {
    let first = save_navigation_index(None, stamp(1));
    let second = save_asset_index(Some(first), stamp(1));
    assert!(second.navigation_version.is_some());
    assert!(load_asset_index(Some(second), stamp(1)));
}

#[test]
fn a_manifest_of_another_schema_is_not_read() {
    let mut manifest: RuntimeIndexManifest = save_search_index(None, stamp(1));
    manifest.schema_version = manifest.schema_version + 1;
    assert!(load_manifest(Some(manifest)).is_none());
}

#[test]
fn indexes_have_files_and_directories_of_their_own() {
    assert_eq!(index_file_name(RuntimeIndexKind::Navigation), "nav.idx");
    assert_eq!(index_file_name(RuntimeIndexKind::Search), "symbol.idx");
    assert_eq!(index_file_name(RuntimeIndexKind::Usage), "usage.idx");
    assert_eq!(index_file_name(RuntimeIndexKind::Asset), "asset.idx");
    assert_eq!(index_dir_name(Some("ucore"), "abc"), "ucore-ba7816bf8f01");
    assert_eq!(index_dir_name(None, ""), "ucore-e3b0c44298fc");
}

#[test]
fn an_index_of_assets_says_how_large_it_is() {
    let mut index = AssetRuntimeIndex::default();
    assert_eq!(index.size_hint(), 0);
    index.references.insert("weaponforgemain", vec!["/game/ui/wbp_weaponforge".to_string()]);
    index.derived.insert("uweaponforgemain", vec!["/game/ui/wbp_weaponforge".to_string()]);
    index.functions.insert("nativeconstruct", vec!["/game/ui/wbp_weaponforge".to_string()]);
    assert_eq!(index.size_hint(), 3);
}
