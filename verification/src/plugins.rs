//! The default set of parser plugins.
use vstd::prelude::*;
use crate::order::texts;
use crate::registry::{ParserPlugin, ParserRegistry};

verus! {

/// The ids and extensions of some plugins, in order.
pub open spec fn plugin_table(plugins: Seq<ParserPlugin>) -> Seq<(Seq<char>, Seq<Seq<char>>)> {
    plugins.map_values(|p: ParserPlugin| (p.id@, texts(p.extensions@)))
}

/// The texts of some string slices.
pub open spec fn str_texts(items: Seq<&str>) -> Seq<Seq<char>> {
    items.map_values(|s: &str| s@)
}

/// The plugins of the default registry, in registration order: this
/// library's own table of parser plugins and their extensions.  The Svelte
/// plugin comes after the code plugin and claims the compound Svelte module
/// and test suffixes.
pub open spec fn default_plugins() -> Seq<(Seq<char>, Seq<Seq<char>>)> {
    seq![
        ("code"@, str_texts(seq![".ts", ".tsx", ".js", ".jsx", ".mjs", ".cjs", ".py", ".go", ".rs", ".java", ".c", ".h", ".cpp", ".cc", ".hpp", ".rb", ".cs", ".php", ".swift", ".kt"])),
        ("svelte"@, str_texts(seq![".svelte", ".svelte.js", ".svelte.ts", ".svelte.test.js", ".svelte.test.ts", ".svelte.spec.js", ".svelte.spec.ts"])),
        ("json"@, str_texts(seq![".json"])),
        ("yaml"@, str_texts(seq![".yaml", ".yml"])),
        ("toml"@, str_texts(seq![".toml"])),
        ("csv"@, str_texts(seq![".csv", ".tsv"])),
        ("markdown"@, str_texts(seq![".md", ".markdown"])),
        ("fallback"@, str_texts(Seq::<&str>::empty())),
    ]
}

/// Owned strings with the texts of `items`.
fn owned_strings(items: &[&str]) -> (v: Vec<String>)
    ensures
        texts(v@) == str_texts(items@),
{
    let mut v: Vec<String> = Vec::new();
    let n = items.len();
    for i in 0..n
        invariant
            n == items@.len(),
            texts(v@) == str_texts(items@.take(i as int)),
    {
        let ghost before = texts(v@);
        v.push(items[i].to_owned());
        assert(texts(v@) =~= before.push(items@[i as int]@));
        assert(str_texts(items@.take(i + 1)) =~= str_texts(items@.take(i as int)).push(items@[i as int]@));
    }
    assert(items@.take(n as int) =~= items@);
    v
}

/// Registers a plugin with the given id and extensions.
fn add_plugin(registry: &mut ParserRegistry, id: &str, extensions: &[&str])
    ensures
        plugin_table(final(registry).plugins_view()) == plugin_table(old(registry).plugins_view()).push((id@, str_texts(extensions@))),
{
    let plugin = ParserPlugin::new(id, owned_strings(extensions));
    registry.register(plugin);
    assert(plugin_table(registry.plugins_view()) =~= plugin_table(old(registry).plugins_view()).push((id@, str_texts(extensions@))));
}

/// The registry with the default plugins.
pub fn create_default_registry() -> (r: ParserRegistry)
    ensures
        plugin_table(r.plugins_view()) == default_plugins(),
{
    let mut r = ParserRegistry::new();
    assert(plugin_table(r.plugins_view()) =~= Seq::empty());
    let code_exts: &[&str] = &[".ts", ".tsx", ".js", ".jsx", ".mjs", ".cjs", ".py", ".go", ".rs", ".java", ".c", ".h", ".cpp", ".cc", ".hpp", ".rb", ".cs", ".php", ".swift", ".kt"];
    assert(code_exts@ =~= seq![".ts", ".tsx", ".js", ".jsx", ".mjs", ".cjs", ".py", ".go", ".rs", ".java", ".c", ".h", ".cpp", ".cc", ".hpp", ".rb", ".cs", ".php", ".swift", ".kt"]);
    add_plugin(&mut r, "code", code_exts);
    let svelte_exts: &[&str] = &[".svelte", ".svelte.js", ".svelte.ts", ".svelte.test.js", ".svelte.test.ts", ".svelte.spec.js", ".svelte.spec.ts"];
    assert(svelte_exts@ =~= seq![".svelte", ".svelte.js", ".svelte.ts", ".svelte.test.js", ".svelte.test.ts", ".svelte.spec.js", ".svelte.spec.ts"]);
    add_plugin(&mut r, "svelte", svelte_exts);
    let json_exts: &[&str] = &[".json"];
    assert(json_exts@ =~= seq![".json"]);
    add_plugin(&mut r, "json", json_exts);
    let yaml_exts: &[&str] = &[".yaml", ".yml"];
    assert(yaml_exts@ =~= seq![".yaml", ".yml"]);
    add_plugin(&mut r, "yaml", yaml_exts);
    let toml_exts: &[&str] = &[".toml"];
    assert(toml_exts@ =~= seq![".toml"]);
    add_plugin(&mut r, "toml", toml_exts);
    let csv_exts: &[&str] = &[".csv", ".tsv"];
    assert(csv_exts@ =~= seq![".csv", ".tsv"]);
    add_plugin(&mut r, "csv", csv_exts);
    let markdown_exts: &[&str] = &[".md", ".markdown"];
    assert(markdown_exts@ =~= seq![".md", ".markdown"]);
    add_plugin(&mut r, "markdown", markdown_exts);
    let fallback_exts: &[&str] = &[];
    assert(fallback_exts@ =~= Seq::<&str>::empty());
    add_plugin(&mut r, "fallback", fallback_exts);
    assert(plugin_table(r.plugins_view()) =~= default_plugins());
    r
}

} // verus!
