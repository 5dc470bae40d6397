use ra2_shp::shp::loader::{LoadPlan, Loader};

#[test]
fn cache_key_joins_names() {
    assert_eq!(Loader::cache_key("numislmk", "uniturb"), "numislmk-uniturb");
}

#[test]
fn register_keeps_shp_entries_only() {
    let mut l = Loader::new_empty();
    l.register(Some("shp"), Some("tank"), "dir/tank.shp".to_string());
    l.register(Some("pal"), Some("unittem"), "dir/unittem.pal".to_string());
    l.register(None, Some("readme"), "dir/readme".to_string());
    l.register(Some("shp"), None, "dir/.shp".to_string());
    assert_eq!(l.get_shp_by_prefix("tank"), Some("dir/tank.shp".to_string()));
    assert_eq!(l.get_shp_by_prefix("unittem"), None);
    assert_eq!(l.get_shp_by_prefix("readme"), None);
}

#[test]
fn plan_then_store_then_reuse() {
    let mut l = Loader::new_empty();
    assert!(matches!(l.plan_load("tank", "uniturb"), LoadPlan::NotFound));
    l.register(Some("shp"), Some("tank"), "dir/tank.shp".to_string());
    match l.plan_load("tank", "uniturb") {
        LoadPlan::Read { key, path } => {
            assert_eq!(key, "tank-uniturb");
            assert_eq!(path, "dir/tank.shp");
            l.store(key, Vec::new());
        }
        _ => panic!("expected a read"),
    }
    match l.plan_load("tank", "uniturb") {
        LoadPlan::Cached(key) => assert_eq!(l.cached(&key).map(|v| v.len()), Some(0)),
        _ => panic!("expected the kept frames"),
    }
    assert!(matches!(l.plan_load("tank", "unitsno"), LoadPlan::Read { .. }));
    assert!(l.cached("tank-unitsno").is_none());
}
