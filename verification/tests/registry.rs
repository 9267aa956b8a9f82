use sem::plugins::create_default_registry;

#[test]
fn test_registry_matches_compound_svelte_typescript_suffix() {
    let registry = create_default_registry();
    let plugin = registry.get_plugin("src/routes/+page.svelte.ts").expect("plugin should exist");

    assert_eq!(plugin.id(), "svelte");
}

#[test]
fn test_registry_matches_compound_svelte_javascript_suffix() {
    let registry = create_default_registry();
    let plugin = registry.get_plugin("src/routes/+layout.svelte.js").expect("plugin should exist");

    assert_eq!(plugin.id(), "svelte");
}

#[test]
fn test_registry_matches_svelte_test_suffix() {
    let registry = create_default_registry();
    let plugin = registry.get_plugin("src/lib/multiplier.svelte.test.js").expect("plugin should exist");

    assert_eq!(plugin.id(), "svelte");
}

#[test]
fn test_registry_prefers_svelte_plugin_for_component_files() {
    let registry = create_default_registry();
    let plugin = registry.get_plugin("src/lib/Component.svelte").expect("plugin should exist");

    assert_eq!(plugin.id(), "svelte");
}
