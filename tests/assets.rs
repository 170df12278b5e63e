use aether::assets::{plan_asset, present_after, resolve_config, AssetAction, Injector};

#[test]
fn existing_user_file_is_kept() {
    assert!(matches!(plan_asset(true, Some("body {}".to_string())), AssetAction::Keep));
    assert!(matches!(plan_asset(true, None), AssetAction::Keep));
}

#[test]
fn missing_user_file_is_seeded() {
    match plan_asset(false, Some("{\"a\":1}".to_string())) {
        AssetAction::Seed(d) => assert_eq!(d, "{\"a\":1}"),
        _ => panic!("expected a seed"),
    }
    assert!(matches!(plan_asset(false, None), AssetAction::Unavailable));
}

#[test]
fn bootstrap_twice_keeps_edit() {
    let first = plan_asset(false, Some("default".to_string()));
    assert!(present_after(&first, true));
    let second = plan_asset(true, Some("default".to_string()));
    assert!(matches!(second, AssetAction::Keep));
    assert!(present_after(&second, false));
    assert!(!present_after(&first, false));
    assert!(!present_after(&AssetAction::Unavailable, true));
}

#[test]
fn config_falls_back_to_empty_document() {
    assert_eq!(resolve_config(None), "{}");
    assert_eq!(resolve_config(Some("{\"x\":2}".to_string())), "{\"x\":2}");
}

#[test]
fn repeated_ready_signals_inject_same_config() {
    let inj = Injector::new(true, "file:///home/u/.config/aether/style.css".to_string(), "{\"k\":1}".to_string());
    let a = inj.on_surface_ready();
    let b = inj.on_surface_ready();
    assert_eq!(a, b);
    assert_eq!(a.len(), 2);
    assert!(a[0].contains("link.href = 'file:///home/u/.config/aether/style.css'"));
    assert!(a[1].contains("Object.freeze({\"k\":1})"));
    assert!(a[1].contains("new CustomEvent('config'"));
}

#[test]
fn no_style_link_without_override() {
    let inj = Injector::new(false, "file:///x/style.css".to_string(), "{}".to_string());
    let a = inj.on_surface_ready();
    assert_eq!(a.len(), 1);
    assert!(a[0].contains("Object.freeze({})"));
    assert!(!a[0].contains("stylesheet"));
}

#[test]
fn style_uri_quotes_are_escaped() {
    let inj = Injector::new(true, "file:///it's/style.css".to_string(), "{}".to_string());
    let a = inj.on_surface_ready();
    assert!(a[0].contains("link.href = 'file:///it\\'s/style.css'"));
}
