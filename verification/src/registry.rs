//! The parser registry: which parser plugin handles a file, by the file's
//! extensions, with a fallback plugin for everything else.
use vstd::prelude::*;
use crate::order::texts;
use crate::text::{
    ascii_lowercase, chars_of, equal_ignoring_ascii_case, equals_str, is_ascii_text, lemma_lowered_ascii,
    lemma_lowered_pieces_concat, lemma_lowered_pieces_ignore_ascii_case, lemma_lowered_without_sigma, lowered_pieces,
    lowered_plain, lowercase_str, lowercase_text, push_char, text_contains,
};

verus! {

/// What the registry knows of a parser plugin: its id and the extensions it handles.
#[derive(Debug)]
pub struct ParserPlugin {
    pub id: String,
    pub extensions: Vec<String>,
}

impl ParserPlugin {
    /// A plugin with the given id and extensions.
    pub fn new(id: &str, extensions: Vec<String>) -> (p: ParserPlugin)
        ensures
            p.id@ == id@,
            p.extensions@ == extensions@,
    {
        ParserPlugin { id: id.to_owned(), extensions }
    }

    /// The id of this plugin.
    pub fn id(&self) -> (r: &str)
        ensures
            r@ == self.id@,
    {
        self.id.as_str()
    }

    /// The extensions this plugin handles.
    pub fn extensions(&self) -> (r: &Vec<String>)
        ensures
            r@ == self.extensions@,
    {
        &self.extensions
    }
}

/// The extension entries that registering `p` as plugin number `idx` adds.
pub open spec fn plugin_entries(p: ParserPlugin, idx: nat) -> Seq<(Seq<char>, nat)> {
    texts(p.extensions@).map_values(|e: Seq<char>| (e, idx))
}

/// The extension entries of the plugins registered in order.
pub open spec fn entries_of(plugins: Seq<ParserPlugin>) -> Seq<(Seq<char>, nat)>
    decreases plugins.len(),
{
    if plugins.len() == 0 {
        Seq::empty()
    } else {
        entries_of(plugins.drop_last()) + plugin_entries(plugins.last(), (plugins.len() - 1) as nat)
    }
}

/// The plugin registered last for `ext`, if any.
pub open spec fn lookup_extension(entries: Seq<(Seq<char>, nat)>, ext: Seq<char>) -> Option<nat>
    decreases entries.len(),
{
    if entries.len() == 0 {
        None
    } else if entries.last().0 == ext {
        Some(entries.last().1)
    } else {
        lookup_extension(entries.drop_last(), ext)
    }
}

/// The position of the first plugin with the given id.
pub open spec fn plugin_index_by_id(plugins: Seq<ParserPlugin>, id: Seq<char>) -> Option<nat>
    decreases plugins.len(),
{
    if plugins.len() == 0 {
        None
    } else {
        match plugin_index_by_id(plugins.drop_last(), id) {
            Some(i) => Some(i),
            None => if plugins.last().id@ == id {
                Some((plugins.len() - 1) as nat)
            } else {
                None
            },
        }
    }
}

/// The plugin for a file with the given extensions (longest first): the one
/// registered last for the first extension that has one, else the plugin with
/// id `fallback`, if any.
pub open spec fn plugin_index_for(plugins: Seq<ParserPlugin>, exts: Seq<Seq<char>>) -> Option<nat>
    decreases exts.len(),
{
    if exts.len() == 0 {
        plugin_index_by_id(plugins, "fallback"@)
    } else {
        match lookup_extension(entries_of(plugins), exts[0]) {
            Some(i) => Some(i),
            None => plugin_index_for(plugins, exts.drop_first()),
        }
    }
}

/// The suffixes of `name` that begin at each `.` among its first `n`
/// characters, in order of position (longest first).
pub open spec fn dot_suffixes_upto(name: Seq<char>, n: int) -> Seq<Seq<char>>
    decreases n,
{
    if n <= 0 {
        Seq::empty()
    } else if name[n - 1] == '.' {
        dot_suffixes_upto(name, n - 1).push(name.subrange(n - 1, name.len() as int))
    } else {
        dot_suffixes_upto(name, n - 1)
    }
}

/// The suffixes of `name` that begin at each of its `.`, longest first.
pub open spec fn dot_suffixes_of(name: Seq<char>) -> Seq<Seq<char>> {
    dot_suffixes_upto(name, name.len() as int)
}

/// The extensions of a file with the given file name: the dot suffixes of the
/// lowercased name; a path without a file name has none.
pub open spec fn extensions_for(file_name: Option<Seq<char>>) -> Seq<Seq<char>> {
    match file_name {
        Some(n) => dot_suffixes_of(lowercase_text(n)),
        None => Seq::empty(),
    }
}

/// Plugins in registration order, and one entry per registered extension.
pub struct ParserRegistry {
    plugins: Vec<ParserPlugin>,
    extension_map: Vec<(String, usize)>,
}

impl ParserRegistry {
    /// The registered plugins, in order.
    pub closed spec fn plugins_view(self) -> Seq<ParserPlugin> {
        self.plugins@
    }

    #[verifier::type_invariant]
    spec fn entries_match_plugins(self) -> bool {
        self.extension_map@.map_values(|e: (String, usize)| (e.0@, e.1 as nat)) == entries_of(self.plugins@)
    }

    /// An empty registry.
    pub fn new() -> (r: Self)
        ensures
            r.plugins_view() == Seq::<ParserPlugin>::empty(),
    {
        let plugins: Vec<ParserPlugin> = Vec::new();
        let extension_map: Vec<(String, usize)> = Vec::new();
        assert(extension_map@.map_values(|e: (String, usize)| (e.0@, e.1 as nat)) =~= entries_of(plugins@));
        ParserRegistry { plugins, extension_map }
    }

    /// Adds a plugin after the others; each of its extensions now leads to it.
    pub fn register(&mut self, plugin: ParserPlugin)
        ensures
            final(self).plugins_view() == old(self).plugins_view().push(plugin),
    {
        let mut current = ParserRegistry::new();
        std::mem::swap(&mut current, self);
        proof {
            use_type_invariant(&current);
        }
        let ParserRegistry { plugins: mut plugins, extension_map: mut entries } = current;
        let idx = plugins.len();
        let ghost old_entries = entries@;
        let n = plugin.extensions.len();
        for i in 0..n
            invariant
                n == plugin.extensions.len(),
                entries@.map_values(|e: (String, usize)| (e.0@, e.1 as nat)) == old_entries.map_values(
                    |e: (String, usize)| (e.0@, e.1 as nat),
                ) + plugin_entries(plugin, idx as nat).take(i as int),
        {
            let ghost prev = entries@.map_values(|e: (String, usize)| (e.0@, e.1 as nat));
            assert(plugin_entries(plugin, idx as nat)[i as int] == (plugin.extensions@[i as int]@, idx as nat));
            assert(plugin_entries(plugin, idx as nat).take(i + 1) =~= plugin_entries(plugin, idx as nat).take(i as int).push((plugin.extensions@[i as int]@, idx as nat)));
            entries.push((plugin.extensions[i].clone(), idx));
            assert(entries@.map_values(|e: (String, usize)| (e.0@, e.1 as nat)) =~= prev.push((plugin.extensions@[i as int]@, idx as nat)));
            assert(entries@.map_values(|e: (String, usize)| (e.0@, e.1 as nat)) =~= old_entries.map_values(
                |e: (String, usize)| (e.0@, e.1 as nat),
            ) + plugin_entries(plugin, idx as nat).take(i + 1));
        }
        assert(plugin_entries(plugin, idx as nat).take(n as int) =~= plugin_entries(plugin, idx as nat));
        let ghost new_plugins = plugins@.push(plugin);
        assert(new_plugins.drop_last() =~= plugins@);
        plugins.push(plugin);
        *self = ParserRegistry { plugins, extension_map: entries };
    }

    /// The plugin with the given id (the first registered, if several).
    pub fn get_plugin_by_id(&self, id: &str) -> (r: Option<&ParserPlugin>)
        ensures
            r matches Some(p) ==> plugin_index_by_id(self.plugins_view(), id@) matches Some(i) && i < self.plugins_view().len() && *p == self.plugins_view()[i as int],
            r is None ==> plugin_index_by_id(self.plugins_view(), id@) is None,
    {
        let n = self.plugins.len();
        let mut i: usize = 0;
        while i < n
            invariant
                n == self.plugins@.len(),
                i <= n,
                plugin_index_by_id(self.plugins@.take(i as int), id@) is None,
            decreases n - i,
        {
            assert(self.plugins@.take(i + 1).drop_last() =~= self.plugins@.take(i as int));
            if equals_str(self.plugins[i].id.as_str(), id) {
                proof {
                    lemma_index_by_id_extends(self.plugins@, id@, i as int);
                }
                return Some(&self.plugins[i]);
            }
            i = i + 1;
        }
        assert(self.plugins@.take(n as int) =~= self.plugins@);
        None
    }
}

/// Once a prefix of the plugins holds the first plugin with an id, longer
/// prefixes give the same answer.
proof fn lemma_index_by_id_extends(plugins: Seq<ParserPlugin>, id: Seq<char>, i: int)
    requires
        0 <= i < plugins.len(),
        plugin_index_by_id(plugins.take(i), id) is None,
        plugins[i].id@ == id,
    ensures
        plugin_index_by_id(plugins, id) == Some(i as nat),
    decreases plugins.len(),
{
    assert(plugins.take(i + 1).drop_last() =~= plugins.take(i));
    lemma_index_by_id_prefix(plugins, id, i + 1);
}

/// A found id stays found, at the same position, when plugins are added after.
proof fn lemma_index_by_id_prefix(plugins: Seq<ParserPlugin>, id: Seq<char>, k: int)
    requires
        0 <= k <= plugins.len(),
        plugin_index_by_id(plugins.take(k), id) is Some,
    ensures
        plugin_index_by_id(plugins, id) == plugin_index_by_id(plugins.take(k), id),
    decreases plugins.len() - k,
{
    if k < plugins.len() {
        assert(plugins.take(k + 1).drop_last() =~= plugins.take(k));
        lemma_index_by_id_prefix(plugins, id, k + 1);
    } else {
        assert(plugins.take(k) =~= plugins);
    }
}

/// The registry's answer for a plugin position: the plugin there, or nothing.
pub open spec fn plugin_at(plugins: Seq<ParserPlugin>, idx: Option<nat>, r: Option<&ParserPlugin>) -> bool {
    match idx {
        Some(i) => r matches Some(p) && i < plugins.len() && *p == plugins[i as int],
        None => r is None,
    }
}

/// Every registered extension leads to one of the registered plugins.
pub proof fn lemma_entries_in_range(plugins: Seq<ParserPlugin>, ext: Seq<char>)
    ensures
        lookup_extension(entries_of(plugins), ext) matches Some(i) ==> i < plugins.len(),
    decreases plugins.len(),
{
    if plugins.len() > 0 {
        lemma_entries_in_range(plugins.drop_last(), ext);
        lemma_lookup_in_append(entries_of(plugins.drop_last()), plugin_entries(plugins.last(), (plugins.len() - 1) as nat), ext);
        lemma_lookup_uniform(texts(plugins.last().extensions@), (plugins.len() - 1) as nat, ext);
    }
}

/// Entries that all lead to `idx` lead to `idx` exactly for their own extensions.
proof fn lemma_lookup_uniform(exts: Seq<Seq<char>>, idx: nat, ext: Seq<char>)
    ensures
        lookup_extension(exts.map_values(|e: Seq<char>| (e, idx)), ext) == if exts.contains(ext) {
            Some(idx)
        } else {
            None
        },
    decreases exts.len(),
{
    if exts.len() > 0 {
        assert(exts.map_values(|e: Seq<char>| (e, idx)).drop_last() =~= exts.drop_last().map_values(|e: Seq<char>| (e, idx)));
        lemma_lookup_uniform(exts.drop_last(), idx, ext);
        if exts.last() == ext {
            assert(exts.contains(ext));
        } else {
            assert(exts.contains(ext) == exts.drop_last().contains(ext)) by {
                if exts.contains(ext) {
                    let i = choose|i: int| 0 <= i < exts.len() && exts[i] == ext;
                    assert(exts.drop_last()[i] == ext);
                }
                if exts.drop_last().contains(ext) {
                    let i = choose|i: int| 0 <= i < exts.drop_last().len() && exts.drop_last()[i] == ext;
                    assert(exts[i] == ext);
                }
            }
        }
    }
}

/// After a plugin is registered, each of its extensions leads to it (the
/// latest registration wins), and every other extension leads where it led before.
pub proof fn lemma_register_extensions(plugins: Seq<ParserPlugin>, plugin: ParserPlugin, ext: Seq<char>)
    ensures
        lookup_extension(entries_of(plugins.push(plugin)), ext) == if texts(plugin.extensions@).contains(ext) {
            Some(plugins.len())
        } else {
            lookup_extension(entries_of(plugins), ext)
        },
{
    assert(plugins.push(plugin).drop_last() =~= plugins);
    lemma_lookup_in_append(entries_of(plugins), plugin_entries(plugin, plugins.len()), ext);
    lemma_lookup_uniform(texts(plugin.extensions@), plugins.len(), ext);
}

/// After a plugin is registered, looking its id up finds it, unless an earlier
/// plugin has the same id; other ids are found where they were before.
pub proof fn lemma_register_id(plugins: Seq<ParserPlugin>, plugin: ParserPlugin, id: Seq<char>)
    ensures
        plugin_index_by_id(plugins.push(plugin), id) == match plugin_index_by_id(plugins, id) {
            Some(i) => Some(i),
            None => if plugin.id@ == id {
                Some(plugins.len())
            } else {
                None
            },
        },
{
    assert(plugins.push(plugin).drop_last() =~= plugins);
}

/// The extensions of a name all start with `.`, are suffixes of the name, and
/// come longest first.
pub proof fn lemma_dot_suffixes_shape(name: Seq<char>)
    ensures
        forall|i: int| #![trigger dot_suffixes_of(name)[i]] 0 <= i < dot_suffixes_of(name).len() ==> {
            let e = dot_suffixes_of(name)[i];
            &&& 0 < e.len() <= name.len()
            &&& e[0] == '.'
            &&& e == name.subrange(name.len() - e.len(), name.len() as int)
        },
        forall|i: int, j: int| 0 <= i < j < dot_suffixes_of(name).len() ==> (#[trigger] dot_suffixes_of(name)[i]).len() > (#[trigger] dot_suffixes_of(name)[j]).len(),
{
    lemma_dot_suffixes_upto_shape(name, name.len() as int);
}

proof fn lemma_dot_suffixes_upto_shape(name: Seq<char>, n: int)
    requires
        0 <= n <= name.len(),
    ensures
        forall|i: int| #![trigger dot_suffixes_upto(name, n)[i]] 0 <= i < dot_suffixes_upto(name, n).len() ==> {
            let e = dot_suffixes_upto(name, n)[i];
            &&& name.len() - n < e.len() <= name.len()
            &&& e[0] == '.'
            &&& e == name.subrange(name.len() - e.len(), name.len() as int)
        },
        forall|i: int, j: int| 0 <= i < j < dot_suffixes_upto(name, n).len() ==> (#[trigger] dot_suffixes_upto(name, n)[i]).len() > (#[trigger] dot_suffixes_upto(name, n)[j]).len(),
    decreases n,
{
    if n > 0 {
        lemma_dot_suffixes_upto_shape(name, n - 1);
        let prev = dot_suffixes_upto(name, n - 1);
        if name[n - 1] == '.' {
            let e = name.subrange(n - 1, name.len() as int);
            let cur = dot_suffixes_upto(name, n);
            assert(cur == prev.push(e));
            assert forall|i: int| #![trigger cur[i]] 0 <= i < cur.len() implies {
                let x = cur[i];
                &&& name.len() - n < x.len() <= name.len()
                &&& x[0] == '.'
                &&& x == name.subrange(name.len() - x.len(), name.len() as int)
            } by {
                if i < prev.len() {
                    assert(cur[i] == prev[i]);
                } else {
                    assert(cur[i] == e);
                    assert(e =~= name.subrange(name.len() - e.len(), name.len() as int));
                }
            }
            assert forall|i: int, j: int| 0 <= i < j < cur.len() implies (#[trigger] cur[i]).len() > (#[trigger] cur[j]).len() by {
                assert(cur[i] == prev[i]);
                if j < prev.len() {
                    assert(cur[j] == prev[j]);
                }
            }
        }
    }
}

/// Looking up in entries followed by more entries: the later entries win.
pub proof fn lemma_lookup_in_append(a: Seq<(Seq<char>, nat)>, b: Seq<(Seq<char>, nat)>, ext: Seq<char>)
    ensures
        lookup_extension(a + b, ext) == match lookup_extension(b, ext) {
            Some(i) => Some(i),
            None => lookup_extension(a, ext),
        },
    decreases b.len(),
{
    if b.len() == 0 {
        assert(a + b =~= a);
    } else {
        assert((a + b).drop_last() =~= a + b.drop_last());
        lemma_lookup_in_append(a, b.drop_last(), ext);
    }
}

/// A file name that reads the same on every platform: not empty, not `.` or
/// `..`, and without `/`, `\` or `:`.
pub open spec fn plain_file_name(s: Seq<char>) -> bool {
    &&& s.len() > 0
    &&& s != seq!['.']
    &&& s != seq!['.', '.']
    &&& !s.contains('/')
    &&& !s.contains('\\')
    &&& !s.contains(':')
}

/// The part of `path` after its last `/` (all of it when it has none).
pub open spec fn last_segment(path: Seq<char>) -> Seq<char>
    decreases path.len(),
{
    if path.len() == 0 || path.last() == '/' {
        Seq::empty()
    } else {
        last_segment(path.drop_last()).push(path.last())
    }
}

/// `path` without its trailing `/` characters and trailing `/.` parts.
pub open spec fn trimmed_path(path: Seq<char>) -> Seq<char>
    decreases path.len(),
{
    if path.len() > 0 && path.last() == '/' {
        trimmed_path(path.drop_last())
    } else if path.len() >= 2 && path.last() == '.' && path[path.len() - 2] == '/' {
        trimmed_path(path.drop_last())
    } else {
        path
    }
}

/// A path that every platform splits at `/` alone: it holds no `\` and no
/// `:`, and does not begin with `//`.
pub open spec fn portable_path(path: Seq<char>) -> bool {
    &&& !path.contains('\\')
    &&& !path.contains(':')
    &&& !(path.len() >= 2 && path[0] == '/' && path[1] == '/')
}

/// The file name of a portable path: its last `/`-separated part that is
/// neither empty nor `.`; none when there is no such part or it is `..`.
pub open spec fn file_name_in(path: Seq<char>) -> Option<Seq<char>> {
    let part = last_segment(trimmed_path(path));
    if part.len() == 0 || part == seq!['.'] || part == seq!['.', '.'] {
        None
    } else {
        Some(part)
    }
}

/// The path is `..` or ends with `/..`.
pub open spec fn ends_in_parent_dir(path: Seq<char>) -> bool {
    ||| path == seq!['.', '.']
    ||| (path.len() >= 3 && path.subrange(path.len() - 3, path.len() as int) == seq!['/', '.', '.'])
}

/// `/` or `\`: a separator of path components on some platform.
pub open spec fn is_path_separator(c: char) -> bool {
    c == '/' || c == '\\'
}

/// The part of `path` after its last `/` or `\` (all of it when it has neither).
pub open spec fn last_part(path: Seq<char>) -> Seq<char>
    decreases path.len(),
{
    if path.len() == 0 || is_path_separator(path.last()) {
        Seq::empty()
    } else {
        last_part(path.drop_last()).push(path.last())
    }
}

/// A path that ends in a file name on every platform: the part after its last
/// `/` or `\` is not empty, `.` or `..` and holds no `:`, and the path does not
/// begin with two separators (the start of a Windows network or verbatim path).
pub open spec fn ends_in_file_name(path: Seq<char>) -> bool {
    let t = last_part(path);
    &&& t.len() > 0
    &&& t != seq!['.']
    &&& t != seq!['.', '.']
    &&& !t.contains(':')
    &&& !(path.len() >= 2 && is_path_separator(path[0]) && is_path_separator(path[1]))
}

/// What holds of the file name found in `path`: a name found is a non-empty
/// piece of the path, without `/` when the path has no `\`; a path without `\`
/// that ends in a `..` part has none; and a portable path has the name
/// `file_name_in` gives.  A path that ends in a file name has one: the part
/// after its last `/` or `\` where `\` separates components (Windows), or the
/// part after its last `/` where it does not (Unix).
pub open spec fn found_file_name(path: Seq<char>, name: Option<String>) -> bool {
    &&& name is Some ==> name->0@.len() > 0 && text_contains(path, name->0@)
    &&& name is Some && !path.contains('\\') ==> !name->0@.contains('/')
    &&& !path.contains('\\') && ends_in_parent_dir(path) ==> name is None
    &&& portable_path(path) ==> (name is Some <==> file_name_in(path) is Some)
    &&& portable_path(path) && name is Some ==> name->0@ == file_name_in(path)->0
    &&& ends_in_file_name(path) ==> name is Some && (name->0@ == last_part(path) || name->0@ == last_segment(path))
}

/// Calls `Path::file_name` on the path, then `OsStr::to_str` on the name it
/// finds.  `Path::file_name` returns the last component of the path when it is
/// a normal one, a slice of the path between separators: `.` components are
/// dropped, and a last component `..`, a root or a prefix gives none.  `/`
/// separates components on every platform except after the Windows verbatim
/// prefix `\\?\`, which needs `\`; `\` and a leading `//` or drive prefix
/// only matter on Windows.  Which name a path that is not portable yields on a
/// given platform is not stated beyond the first three clauses and the last.
#[verifier::external_body]
fn file_name_of(path: &str) -> (r: Option<String>)
    ensures
        found_file_name(path@, r),
{
    std::path::Path::new(path).file_name().and_then(|name| name.to_str()).map(|name| name.to_owned())
}

/// The string made of the characters of `chars` from position `from` on.
fn string_from_suffix(chars: &Vec<char>, from: usize) -> (s: String)
    requires
        from <= chars.len(),
    ensures
        s@ == chars@.subrange(from as int, chars@.len() as int),
{
    let mut s = String::new();
    let n = chars.len();
    let mut i = from;
    while i < n
        invariant
            n == chars.len(),
            from <= i <= n,
            s@ == chars@.subrange(from as int, i as int),
        decreases n - i,
    {
        push_char(&mut s, chars[i]);
        assert(chars@.subrange(from as int, i + 1) =~= chars@.subrange(from as int, i as int).push(chars@[i as int]));
        i = i + 1;
    }
    s
}

/// The suffixes of `name` that begin at each of its `.`, longest first
/// (`a.svelte.ts` gives `.svelte.ts` and `.ts`).
pub fn dot_suffixes(name: &str) -> (exts: Vec<String>)
    ensures
        texts(exts@) == dot_suffixes_of(name@),
{
    let chars = chars_of(name);
    let n = chars.len();
    let mut exts: Vec<String> = Vec::new();
    for i in 0..n
        invariant
            n == chars.len(),
            chars@ == name@,
            texts(exts@) == dot_suffixes_upto(name@, i as int),
    {
        if chars[i] == '.' {
            let suffix = string_from_suffix(&chars, i);
            let ghost before = texts(exts@);
            exts.push(suffix);
            assert(texts(exts@) =~= before.push(name@.subrange(i as int, name@.len() as int)));
        }
    }
    exts
}

/// The extensions of a file with this name: the dot suffixes of the
/// lowercased name, longest first.
pub fn extensions_of_file_name(file_name: &str) -> (exts: Vec<String>)
    ensures
        texts(exts@) == extensions_for(Some(file_name@)),
        is_ascii_text(file_name@) ==> texts(exts@) == dot_suffixes_of(ascii_lowercase(file_name@)),
        !file_name@.contains('Σ') ==> texts(exts@) == dot_suffixes_of(lowered_plain(file_name@)),
{
    let lower = lowercase_str(file_name);
    proof {
        let finals = choose|finals: Seq<bool>| finals.len() == file_name@.len() && lower@ == lowered_pieces(file_name@, finals);
        if is_ascii_text(file_name@) {
            lemma_lowered_ascii(file_name@, finals);
        }
        if !file_name@.contains('Σ') {
            lemma_lowered_without_sigma(file_name@, finals);
        }
    }
    dot_suffixes(lower.as_str())
}

/// What holds of a file name that `Path::file_name` can find in `path`.
pub open spec fn possible_file_name(path: Seq<char>, name: Option<Seq<char>>) -> bool {
    name is Some ==> name->0.len() > 0 && text_contains(path, name->0) && (!path.contains('\\') ==> !name->0.contains('/'))
}

/// The extensions of the file at `file_path`, from its file name.
fn get_extensions(file_path: &str) -> (exts: Vec<String>)
    ensures
        exists|name: Option<Seq<char>>| #[trigger] texts(exts@) == extensions_for(name) && possible_file_name(file_path@, name),
        !file_path@.contains('\\') && ends_in_parent_dir(file_path@) ==> exts@.len() == 0,
        portable_path(file_path@) ==> texts(exts@) == extensions_for(file_name_in(file_path@)),
        portable_path(file_path@) && file_name_in(file_path@) is Some && !file_name_in(file_path@)->0.contains('Σ')
            ==> texts(exts@) == dot_suffixes_of(lowered_plain(file_name_in(file_path@)->0)),
        plain_file_name(file_path@) ==> texts(exts@) == extensions_for(Some(file_path@)),
        ends_in_file_name(file_path@) ==> texts(exts@) == extensions_for(Some(last_part(file_path@))) || texts(exts@)
            == extensions_for(Some(last_segment(file_path@))),
        ends_in_file_name(file_path@) && !file_path@.contains('\\') ==> texts(exts@) == extensions_for(Some(last_part(file_path@))),
        ends_in_file_name(file_path@) && !last_segment(file_path@).contains('Σ') ==> texts(exts@) == dot_suffixes_of(
            lowered_plain(last_part(file_path@)),
        ) || texts(exts@) == dot_suffixes_of(lowered_plain(last_segment(file_path@))),
{
    proof {
        if plain_file_name(file_path@) {
            lemma_plain_name_is_portable(file_path@);
        }
        lemma_last_segment_ends_with_part(file_path@);
        if !file_path@.contains('\\') {
            lemma_last_part_without_backslash(file_path@);
        }
    }
    match file_name_of(file_path) {
        Some(name) => {
            let exts = extensions_of_file_name(name.as_str());
            assert(texts(exts@) == extensions_for(Some(name@)));
            assert(possible_file_name(file_path@, Some(name@)));
            exts
        },
        None => {
            let exts: Vec<String> = Vec::new();
            assert(texts(exts@) =~= extensions_for(None));
            assert(possible_file_name(file_path@, None));
            exts
        },
    }
}

/// A plain file name is a portable path, and its own file name.
pub proof fn lemma_plain_name_is_portable(name: Seq<char>)
    requires
        plain_file_name(name),
    ensures
        portable_path(name),
        file_name_in(name) == Some(name),
{
    lemma_last_segment_without_slash(name);
    assert(name.last() == name[name.len() - 1]);
    assert(name.last() != '/');
    if name.len() >= 2 {
        assert(name[name.len() - 2] != '/');
    }
    assert(trimmed_path(name) == name);
}

/// A text without `/` is its own last part.
proof fn lemma_last_segment_without_slash(s: Seq<char>)
    requires
        !s.contains('/'),
    ensures
        last_segment(s) == s,
    decreases s.len(),
{
    if s.len() > 0 {
        assert(s.last() == s[s.len() - 1]);
        assert(!s.drop_last().contains('/')) by {
            if s.drop_last().contains('/') {
                let i = choose|i: int| 0 <= i < s.drop_last().len() && s.drop_last()[i] == '/';
                assert(s[i] == '/');
            }
        }
        lemma_last_segment_without_slash(s.drop_last());
        assert(s.drop_last().push(s.last()) =~= s);
    }
}

/// The part after the last `/` of a path below a directory is the name after
/// that `/`, whatever the directory holds.
proof fn lemma_last_segment_after_directory(dir: Seq<char>, name: Seq<char>)
    requires
        !name.contains('/'),
    ensures
        last_segment(dir + seq!['/'] + name) == name,
    decreases name.len(),
{
    if name.len() == 0 {
        assert(dir + seq!['/'] + name =~= dir.push('/'));
    } else {
        assert(!name.drop_last().contains('/')) by {
            if name.drop_last().contains('/') {
                let i = choose|i: int| 0 <= i < name.drop_last().len() && name.drop_last()[i] == '/';
                assert(name[i] == '/');
            }
        }
        assert(name.last() == name[name.len() - 1]);
        lemma_last_segment_after_directory(dir, name.drop_last());
        assert((dir + seq!['/'] + name).drop_last() =~= dir + seq!['/'] + name.drop_last());
        assert((dir + seq!['/'] + name).last() == name.last());
        assert(name.drop_last().push(name.last()) =~= name);
    }
}

/// The file name of a plain name below any directory is that name: dots and
/// anything else in the directory do not count.
pub proof fn lemma_file_name_after_directory(dir: Seq<char>, name: Seq<char>)
    requires
        plain_file_name(name),
    ensures
        file_name_in(dir + seq!['/'] + name) == Some(name),
{
    let path = dir + seq!['/'] + name;
    lemma_last_segment_after_directory(dir, name);
    assert(path.last() == name[name.len() - 1]);
    assert(name[name.len() - 1] != '/');
    if name.len() >= 2 {
        assert(path[path.len() - 2] == name[name.len() - 2]);
        assert(name[name.len() - 2] != '/');
    } else {
        assert(name[0] != '.') by {
            if name[0] == '.' {
                assert(name =~= seq!['.']);
            }
        }
    }
    assert(trimmed_path(path) == path);
}

impl ParserRegistry {
    /// The plugin registered last for `ext`.
    fn lookup(&self, ext: &String) -> (r: Option<usize>)
        ensures
            r matches Some(i) ==> lookup_extension(entries_of(self.plugins_view()), ext@) == Some(i as nat) && i < self.plugins_view().len(),
            r is None ==> lookup_extension(entries_of(self.plugins_view()), ext@) is None,
    {
        proof {
            use_type_invariant(self);
            lemma_entries_in_range(self.plugins@, ext@);
        }
        let ghost entries = self.extension_map@.map_values(|e: (String, usize)| (e.0@, e.1 as nat));
        let mut k = self.extension_map.len();
        assert(entries.take(k as int) =~= entries);
        while k > 0
            invariant
                k <= self.extension_map.len(),
                entries == self.extension_map@.map_values(|e: (String, usize)| (e.0@, e.1 as nat)),
                entries == entries_of(self.plugins@),
                lookup_extension(entries, ext@) matches Some(i) ==> i < self.plugins@.len(),
                lookup_extension(entries, ext@) == lookup_extension(entries.take(k as int), ext@),
            decreases k,
        {
            assert(entries.take(k as int).drop_last() =~= entries.take(k - 1));
            assert(entries.take(k as int).last() == entries[k - 1]);
            assert(entries[k - 1] == (self.extension_map@[k - 1].0@, self.extension_map@[k - 1].1 as nat));
            if self.extension_map[k - 1].0 == *ext {
                assert(lookup_extension(entries, ext@) == Some(self.extension_map@[k - 1].1 as nat));
                return Some(self.extension_map[k - 1].1);
            }
            k = k - 1;
        }
        None
    }

    /// The plugin for a file with the given extensions (longest first): the
    /// one registered last for the first extension that has one, else the
    /// plugin with id `fallback`, if any.
    pub fn get_plugin_for_extensions(&self, exts: &Vec<String>) -> (r: Option<&ParserPlugin>)
        ensures
            plugin_at(self.plugins_view(), plugin_index_for(self.plugins_view(), texts(exts@)), r),
    {
        let n = exts.len();
        let ghost all = texts(exts@);
        assert(all.skip(0) =~= all);
        for i in 0..n
            invariant
                n == exts.len(),
                all == texts(exts@),
                plugin_index_for(self.plugins_view(), all) == plugin_index_for(self.plugins_view(), all.skip(i as int)),
        {
            assert(all.skip(i as int)[0] == exts@[i as int]@);
            assert(all.skip(i as int).drop_first() =~= all.skip(i + 1));
            match self.lookup(&exts[i]) {
                Some(idx) => {
                    return Some(&self.plugins[idx]);
                },
                None => {},
            }
        }
        assert(all.skip(n as int) =~= Seq::<Seq<char>>::empty());
        match self.get_plugin_by_id("fallback") {
            Some(p) => Some(p),
            None => None,
        }
    }

    /// The plugin for the file at `file_path`, chosen by the extensions of its
    /// file name (see `get_plugin_for_extensions`).
    pub fn get_plugin(&self, file_path: &str) -> (r: Option<&ParserPlugin>)
        ensures
            exists|name: Option<Seq<char>>| #[trigger] plugin_at(self.plugins_view(), plugin_index_for(self.plugins_view(), extensions_for(name)), r)
                && possible_file_name(file_path@, name),
            !file_path@.contains('\\') && ends_in_parent_dir(file_path@) ==> plugin_at(
                self.plugins_view(),
                plugin_index_for(self.plugins_view(), Seq::empty()),
                r,
            ),
            portable_path(file_path@) ==> plugin_at(
                self.plugins_view(),
                plugin_index_for(self.plugins_view(), extensions_for(file_name_in(file_path@))),
                r,
            ),
            portable_path(file_path@) && file_name_in(file_path@) is Some && !file_name_in(file_path@)->0.contains('Σ') ==> plugin_at(
                self.plugins_view(),
                plugin_index_for(self.plugins_view(), dot_suffixes_of(lowered_plain(file_name_in(file_path@)->0))),
                r,
            ),
            plain_file_name(file_path@) ==> plugin_at(
                self.plugins_view(),
                plugin_index_for(self.plugins_view(), extensions_for(Some(file_path@))),
                r,
            ),
            ends_in_file_name(file_path@) ==> plugin_at(
                self.plugins_view(),
                plugin_index_for(self.plugins_view(), extensions_for(Some(last_part(file_path@)))),
                r,
            ) || plugin_at(
                self.plugins_view(),
                plugin_index_for(self.plugins_view(), extensions_for(Some(last_segment(file_path@)))),
                r,
            ),
            ends_in_file_name(file_path@) && !file_path@.contains('\\') ==> plugin_at(
                self.plugins_view(),
                plugin_index_for(self.plugins_view(), extensions_for(Some(last_part(file_path@)))),
                r,
            ),
            ends_in_file_name(file_path@) && !last_segment(file_path@).contains('Σ') ==> plugin_at(
                self.plugins_view(),
                plugin_index_for(self.plugins_view(), dot_suffixes_of(lowered_plain(last_part(file_path@)))),
                r,
            ) || plugin_at(
                self.plugins_view(),
                plugin_index_for(self.plugins_view(), dot_suffixes_of(lowered_plain(last_segment(file_path@)))),
                r,
            ),
    {
        let exts = get_extensions(file_path);
        let r = self.get_plugin_for_extensions(&exts);
        let ghost name = choose|name: Option<Seq<char>>| #[trigger] texts(exts@) == extensions_for(name) && possible_file_name(file_path@, name);
        assert(plugin_at(self.plugins_view(), plugin_index_for(self.plugins_view(), extensions_for(name)), r));
        proof {
            if !file_path@.contains('\\') && ends_in_parent_dir(file_path@) {
                assert(texts(exts@) =~= Seq::empty());
            }
        }
        r
    }
}

/// The dot suffixes of a name made of a part without `.` and then an
/// extension with a single `.` at its start: that extension alone.
proof fn lemma_dot_suffixes_single(a: Seq<char>, e: Seq<char>, n: int)
    requires
        !a.contains('.'),
        e.len() > 0,
        e[0] == '.',
        forall|i: int| 1 <= i < e.len() ==> e[i] != '.',
        0 <= n <= a.len() + e.len(),
    ensures
        dot_suffixes_upto(a + e, n) == if n <= a.len() {
            Seq::<Seq<char>>::empty()
        } else {
            seq![e]
        },
    decreases n,
{
    if n > 0 {
        lemma_dot_suffixes_single(a, e, n - 1);
        let name = a + e;
        if n - 1 < a.len() {
            assert(name[n - 1] == a[n - 1]);
            assert(a[n - 1] != '.') by {
                if a[n - 1] == '.' {
                    assert(a.contains('.'));
                }
            }
        } else if n - 1 == a.len() {
            assert(name[n - 1] == e[0]);
            assert(name.subrange(n - 1, name.len() as int) =~= e);
            assert(Seq::<Seq<char>>::empty().push(e) =~= seq![e]);
        } else {
            assert(name[n - 1] == e[n - 1 - a.len()]);
        }
    }
}

/// After a plugin is registered, a file named by a stem that lowercases
/// without `.` and then one of the plugin's extensions (a single `.`, at its
/// start, and equal to its own lower case) goes to that plugin, even if an
/// earlier plugin listed that extension too.
pub proof fn lemma_register_then_lookup(plugins: Seq<ParserPlugin>, plugin: ParserPlugin, stem: Seq<char>, ext: Seq<char>)
    requires
        texts(plugin.extensions@).contains(ext),
        ext.len() > 0,
        ext[0] == '.',
        forall|i: int| 1 <= i < ext.len() ==> ext[i] != '.',
        lowered_plain(ext) == ext,
        !lowered_plain(stem).contains('.'),
    ensures
        plugin_index_for(plugins.push(plugin), dot_suffixes_of(lowered_plain(stem + ext))) == Some(plugins.len()),
{
    let fs = Seq::new(stem.len(), |i: int| false);
    let fe = Seq::new(ext.len(), |i: int| false);
    assert(Seq::new((stem + ext).len(), |i: int| false) =~= fs + fe);
    lemma_lowered_pieces_concat(stem, ext, fs, fe);
    let low = lowered_plain(stem);
    assert(lowered_plain(stem + ext) == low + ext);
    lemma_dot_suffixes_single(low, ext, (low.len() + ext.len()) as int);
    assert((low + ext).len() == low.len() + ext.len());
    let exts = dot_suffixes_of(low + ext);
    assert(exts == seq![ext]);
    assert(exts[0] == ext);
    lemma_register_extensions(plugins, plugin, ext);
}

/// Registering a plugin whose id is not `fallback` leaves the plugin chosen
/// for any list of extensions none of which the plugin lists.
pub proof fn lemma_register_keeps_other_lookups(plugins: Seq<ParserPlugin>, plugin: ParserPlugin, exts: Seq<Seq<char>>)
    requires
        forall|i: int| 0 <= i < exts.len() ==> !texts(plugin.extensions@).contains(#[trigger] exts[i]),
        plugin.id@ != "fallback"@,
    ensures
        plugin_index_for(plugins.push(plugin), exts) == plugin_index_for(plugins, exts),
    decreases exts.len(),
{
    if exts.len() == 0 {
        lemma_register_id(plugins, plugin, "fallback"@);
    } else {
        assert(!texts(plugin.extensions@).contains(exts[0]));
        lemma_register_extensions(plugins, plugin, exts[0]);
        assert forall|i: int| 0 <= i < exts.drop_first().len() implies !texts(plugin.extensions@).contains(#[trigger] exts.drop_first()[i]) by {
            assert(exts.drop_first()[i] == exts[i + 1]);
        }
        lemma_register_keeps_other_lookups(plugins, plugin, exts.drop_first());
    }
}

/// Two portable paths whose file names have no `Σ` and are equal up to the
/// case of their ASCII letters go to the same plugin, whatever directories
/// the paths name.
pub proof fn lemma_choice_by_file_name(plugins: Seq<ParserPlugin>, a: Seq<char>, b: Seq<char>)
    requires
        portable_path(a),
        portable_path(b),
        file_name_in(a) is Some,
        file_name_in(b) is Some,
        !file_name_in(a)->0.contains('Σ'),
        !file_name_in(b)->0.contains('Σ'),
        equal_ignoring_ascii_case(file_name_in(a)->0, file_name_in(b)->0),
    ensures
        plugin_index_for(plugins, dot_suffixes_of(lowered_plain(file_name_in(a)->0))) == plugin_index_for(
            plugins,
            dot_suffixes_of(lowered_plain(file_name_in(b)->0)),
        ),
{
    let na = file_name_in(a)->0;
    let nb = file_name_in(b)->0;
    lemma_lowered_pieces_ignore_ascii_case(na, nb, Seq::new(na.len(), |i: int| false));
    assert(Seq::new(na.len(), |i: int| false) =~= Seq::new(nb.len(), |i: int| false));
}

/// The part after the last `/` ends with the part after the last `/` or `\`:
/// it is that part, or something, a `\` and that part.
proof fn lemma_last_segment_ends_with_part(path: Seq<char>) -> (y: Option<Seq<char>>)
    ensures
        y is None ==> last_segment(path) == last_part(path),
        y is Some ==> last_segment(path) == y->0 + seq!['\\'] + last_part(path),
        !last_segment(path).contains('Σ') ==> !last_part(path).contains('Σ'),
    decreases path.len(),
{
    let y = if path.len() == 0 || path.last() == '/' {
        None
    } else if path.last() == '\\' {
        Some(last_segment(path.drop_last()))
    } else {
        let z = lemma_last_segment_ends_with_part(path.drop_last());
        match z {
            Some(w) => {
                assert(last_segment(path) =~= w + seq!['\\'] + last_part(path));
            },
            None => {},
        }
        z
    };
    if path.len() > 0 && path.last() == '\\' {
        assert(last_part(path) =~= Seq::<char>::empty());
        assert(last_segment(path) =~= last_segment(path.drop_last()) + seq!['\\'] + last_part(path));
    }
    match y {
        Some(w) => {
            if last_part(path).contains('Σ') {
                let i = choose|i: int| 0 <= i < last_part(path).len() && last_part(path)[i] == 'Σ';
                assert(last_segment(path)[w.len() + 1 + i] == 'Σ');
            }
        },
        None => {},
    }
    y
}

/// Without `\` the part after the last `/` or `\` is the part after the last `/`.
proof fn lemma_last_part_without_backslash(path: Seq<char>)
    requires
        !path.contains('\\'),
    ensures
        last_part(path) == last_segment(path),
    decreases path.len(),
{
    if path.len() > 0 {
        assert(path.last() == path[path.len() - 1]);
        assert(!path.drop_last().contains('\\')) by {
            if path.drop_last().contains('\\') {
                let i = choose|i: int| 0 <= i < path.drop_last().len() && path.drop_last()[i] == '\\';
                assert(path[i] == '\\');
            }
        }
        lemma_last_part_without_backslash(path.drop_last());
    }
}

/// The last part of a path below a directory, after a `/` or `\`, is the name
/// that follows it, whatever the directory holds.
pub proof fn lemma_last_part_after_directory(dir: Seq<char>, sep: char, name: Seq<char>)
    requires
        is_path_separator(sep),
        forall|i: int| 0 <= i < name.len() ==> !is_path_separator(#[trigger] name[i]),
    ensures
        last_part(dir + seq![sep] + name) == name,
    decreases name.len(),
{
    if name.len() == 0 {
        assert(dir + seq![sep] + name =~= dir.push(sep));
    } else {
        assert forall|i: int| 0 <= i < name.drop_last().len() implies !is_path_separator(#[trigger] name.drop_last()[i]) by {
            assert(name.drop_last()[i] == name[i]);
        }
        assert(!is_path_separator(name[name.len() - 1]));
        lemma_last_part_after_directory(dir, sep, name.drop_last());
        assert((dir + seq![sep] + name).drop_last() =~= dir + seq![sep] + name.drop_last());
        assert((dir + seq![sep] + name).last() == name[name.len() - 1]);
        assert(name.drop_last().push(name[name.len() - 1]) =~= name);
    }
}

/// The dot suffixes of `a + b` begin with those starting in `a` and end with
/// those of `b`.
proof fn lemma_dot_suffixes_append(a: Seq<char>, b: Seq<char>, n: int)
    requires
        0 <= n <= b.len(),
    ensures
        dot_suffixes_upto(a + b, a.len() + n) == dot_suffixes_upto(a + b, a.len() as int) + dot_suffixes_upto(b, n),
    decreases n,
{
    if n == 0 {
        assert(dot_suffixes_upto(a + b, a.len() as int) + dot_suffixes_upto(b, 0) =~= dot_suffixes_upto(a + b, a.len() as int));
    } else {
        lemma_dot_suffixes_append(a, b, n - 1);
        let ab = a + b;
        assert(ab[a.len() + n - 1] == b[n - 1]);
        if b[n - 1] == '.' {
            assert(ab.subrange(a.len() + n - 1, ab.len() as int) =~= b.subrange(n - 1, b.len() as int));
            assert(dot_suffixes_upto(ab, a.len() + n) =~= dot_suffixes_upto(ab, a.len() as int) + dot_suffixes_upto(b, n));
        }
    }
}

/// The plugin looked up for `exts` is the one registered last for some
/// extension of the list that has one, and every extension before it in the
/// list has none.
pub open spec fn picks_first_registered(plugins: Seq<ParserPlugin>, exts: Seq<Seq<char>>) -> bool {
    exists|k: int|
        0 <= k < exts.len() && #[trigger] lookup_extension(entries_of(plugins), exts[k]) is Some && plugin_index_for(plugins, exts)
            == lookup_extension(entries_of(plugins), exts[k]) && forall|m: int| 0 <= m < k ==> lookup_extension(entries_of(plugins), #[trigger] exts[m]) is None
}

/// Looking up a list of extensions in which one is registered gives the plugin
/// of the first registered one: every extension before it is unregistered.
proof fn lemma_index_for_registered(plugins: Seq<ParserPlugin>, exts: Seq<Seq<char>>, e: Seq<char>)
    requires
        exts.contains(e),
        lookup_extension(entries_of(plugins), e) is Some,
    ensures
        picks_first_registered(plugins, exts),
    decreases exts.len(),
{
    if lookup_extension(entries_of(plugins), exts[0]) is Some {
        assert(lookup_extension(entries_of(plugins), exts[0]) is Some);
    } else {
        let j = choose|j: int| 0 <= j < exts.len() && exts[j] == e;
        assert(j > 0);
        assert(exts.drop_first()[j - 1] == e);
        lemma_index_for_registered(plugins, exts.drop_first(), e);
        let rest = exts.drop_first();
        let k = choose|k: int|
            0 <= k < rest.len() && #[trigger] lookup_extension(entries_of(plugins), rest[k]) is Some
                && plugin_index_for(plugins, rest) == lookup_extension(entries_of(plugins), rest[k])
                && forall|m: int| 0 <= m < k ==> lookup_extension(entries_of(plugins), #[trigger] rest[m]) is None;
        assert(exts[k + 1] == exts.drop_first()[k]);
        assert forall|m: int| 0 <= m < k + 1 implies lookup_extension(entries_of(plugins), #[trigger] exts[m]) is None by {
            if m > 0 {
                assert(exts[m] == exts.drop_first()[m - 1]);
            }
        }
    }
}

/// A file whose name ends in a registered extension goes to a plugin
/// registered for one of its extensions, never to the fallback for want of
/// one.  For a path that ends in a file name (the part after its last `/` or
/// `\`, no `Σ` in the part after its last `/`) and an extension `e` of that
/// part that some plugin registered: whichever of its two readings the
/// platform gives the file name, the plugin chosen is the one registered last
/// for the first (longest) of the name's extensions that has one, and that
/// extension exists.
pub proof fn lemma_registered_extension_is_used(plugins: Seq<ParserPlugin>, path: Seq<char>, e: Seq<char>)
    requires
        ends_in_file_name(path),
        !last_segment(path).contains('Σ'),
        dot_suffixes_of(lowered_plain(last_part(path))).contains(e),
        lookup_extension(entries_of(plugins), e) is Some,
    ensures
        picks_first_registered(plugins, dot_suffixes_of(lowered_plain(last_part(path)))),
        picks_first_registered(plugins, dot_suffixes_of(lowered_plain(last_segment(path)))),
{
    let t = last_part(path);
    lemma_index_for_registered(plugins, dot_suffixes_of(lowered_plain(t)), e);
    let y = lemma_last_segment_ends_with_part(path);
    match y {
        Some(w) => {
            let whole = last_segment(path);
            let ft = Seq::new(t.len(), |i: int| false);
            let fw = Seq::new(w.len(), |i: int| false);
            let fs = seq![false];
            assert(Seq::new(whole.len(), |i: int| false) =~= fw + fs + ft);
            lemma_lowered_pieces_concat(w + seq!['\\'], t, fw + fs, ft);
            lemma_lowered_pieces_concat(w, seq!['\\'], fw, fs);
            assert(seq!['\\'].drop_last() =~= Seq::<char>::empty());
            assert(fs.drop_last() =~= Seq::<bool>::empty());
            assert(('\\' as u32) == 92);
            assert(crate::text::ascii_lower('\\') == '\\');
            assert(crate::text::lower_piece('\\', false) =~= seq!['\\']);
            assert(seq!['\\'].last() == '\\');
            assert(fs.last() == false);
            assert(lowered_pieces(Seq::<char>::empty(), Seq::<bool>::empty()) =~= Seq::<char>::empty());
            assert(lowered_pieces(seq!['\\'], fs) == lowered_pieces(seq!['\\'].drop_last(), fs.drop_last()) + crate::text::lower_piece('\\', false));
            assert(lowered_pieces(seq!['\\'], fs) =~= seq!['\\']);
            let a = lowered_plain(w) + seq!['\\'];
            let lt = lowered_plain(t);
            assert(lowered_plain(whole) == a + lt);
            lemma_dot_suffixes_append(a, lt, lt.len() as int);
            assert((a + lt).len() == a.len() + lt.len());
            let all = dot_suffixes_of(a + lt);
            let j = choose|j: int| 0 <= j < dot_suffixes_of(lt).len() && dot_suffixes_of(lt)[j] == e;
            assert(all == dot_suffixes_upto(a + lt, a.len() as int) + dot_suffixes_of(lt));
            assert(all[dot_suffixes_upto(a + lt, a.len() as int).len() + j] == e);
            lemma_index_for_registered(plugins, all, e);
        },
        None => {},
    }
}

/// A file name below any directory (drive letters, `:` and dots included)
/// reads as that file name: the path and the bare name both end in a file
/// name, and it is the same part, so `get_plugin` gives both the plugin for
/// that name when the directory has no `\`.
pub proof fn lemma_directory_does_not_matter(dir: Seq<char>, name: Seq<char>)
    requires
        name.len() > 0,
        name != seq!['.'],
        name != seq!['.', '.'],
        !name.contains(':'),
        forall|i: int| 0 <= i < name.len() ==> !is_path_separator(#[trigger] name[i]),
        dir.len() == 0 || !is_path_separator(dir[0]) || (dir.len() >= 2 && !is_path_separator(dir[1])),
    ensures
        ends_in_file_name(dir + seq!['/'] + name),
        ends_in_file_name(name),
        last_part(dir + seq!['/'] + name) == name,
        last_part(name) == name,
{
    lemma_last_part_after_directory(dir, '/', name);
    lemma_last_part_of_name(name);
    let path = dir + seq!['/'] + name;
    if dir.len() == 0 {
        assert(path[1] == name[0]);
    } else if dir.len() == 1 {
        assert(path[1] == '/');
    } else {
        assert(path[0] == dir[0]);
        assert(path[1] == dir[1]);
    }
}

/// A name without separators is its own last part.
proof fn lemma_last_part_of_name(name: Seq<char>)
    requires
        forall|i: int| 0 <= i < name.len() ==> !is_path_separator(#[trigger] name[i]),
    ensures
        last_part(name) == name,
    decreases name.len(),
{
    if name.len() > 0 {
        assert forall|i: int| 0 <= i < name.drop_last().len() implies !is_path_separator(#[trigger] name.drop_last()[i]) by {
            assert(name.drop_last()[i] == name[i]);
        }
        assert(!is_path_separator(name[name.len() - 1]));
        lemma_last_part_of_name(name.drop_last());
        assert(name.drop_last().push(name.last()) =~= name);
    }
}

} // verus!
