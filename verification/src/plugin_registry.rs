//! The registry of installed plugins: one plugin per id, in the order of
//! their ids, and the lookups the viewer makes on it.
use vstd::prelude::*;
use crate::text::{chars_equal, chars_equal_ignore_case, chars_of, compare_chars, eq_ignore_case, join, lex_lt};

verus! {

/// A file shipped with a plugin: its id, its path under the plugin's root,
/// and its expected SHA-256 in hexadecimal.
#[derive(Debug, Clone)]
pub struct PluginAsset {
    pub id: String,
    pub path: String,
    pub sha256: String,
}

/// An installed plugin as the registry knows it: the fields of its manifest
/// that the viewer reads, and the directory it was found in.
#[derive(Debug, Clone)]
pub struct InstalledPlugin {
    pub id: String,
    pub root: String,
    pub entry: String,
    pub probe: bool,
    pub decode_preview: bool,
    pub canvas_overlay: bool,
    pub supported_extensions: Vec<String>,
    pub assets: Vec<PluginAsset>,
    pub commands: Vec<PluginCommand>,
    pub context_menu: Vec<ContextMenuEntry>,
}

/// The icon of a plugin command: one of the host's own, or an asset the
/// plugin ships.
#[derive(Debug, Clone, PartialEq, Eq)]
pub enum PluginIcon {
    Annotation,
    Select,
    Text,
    Rectangle,
    Ellipse,
    Arrow,
    Undo,
    Redo,
    Export,
    Asset(String),
}

/// The plain value of an icon.
pub enum IconView {
    Annotation,
    Select,
    Text,
    Rectangle,
    Ellipse,
    Arrow,
    Undo,
    Redo,
    Export,
    Asset(Seq<char>),
}

impl View for PluginIcon {
    type V = IconView;

    open spec fn view(&self) -> IconView {
        match self {
            PluginIcon::Annotation => IconView::Annotation,
            PluginIcon::Select => IconView::Select,
            PluginIcon::Text => IconView::Text,
            PluginIcon::Rectangle => IconView::Rectangle,
            PluginIcon::Ellipse => IconView::Ellipse,
            PluginIcon::Arrow => IconView::Arrow,
            PluginIcon::Undo => IconView::Undo,
            PluginIcon::Redo => IconView::Redo,
            PluginIcon::Export => IconView::Export,
            PluginIcon::Asset(id) => IconView::Asset(id@),
        }
    }
}

/// A command a plugin contributes: its id, its label in the interface
/// language, its icon, and whether it needs an open image.
#[derive(Debug, Clone)]
pub struct PluginCommand {
    pub id: String,
    pub label: String,
    pub icon: PluginIcon,
    pub requires_document: bool,
}

/// An entry a plugin adds to the viewer's context menu: the command it
/// runs and where it sorts (by group, then order).
#[derive(Debug, Clone)]
pub struct ContextMenuEntry {
    pub command_id: String,
    pub group: u32,
    pub order: i32,
}

/// The index of the first asset from `i` on with id `id`.
pub open spec fn asset_index(assets: Seq<PluginAsset>, id: Seq<char>, i: int) -> Option<int>
    decreases assets.len() - i,
{
    if i < 0 || i >= assets.len() {
        None
    } else if assets[i].id@ == id {
        Some(i)
    } else {
        asset_index(assets, id, i + 1)
    }
}

/// Where the first asset with id `id` lies: its path under the root.
pub open spec fn spec_asset_path(plugin: InstalledPlugin, id: Seq<char>) -> Option<Seq<char>> {
    match asset_index(plugin.assets@, id, 0) {
        Some(k) => Some(join(plugin.root@, plugin.assets@[k].path@, false)),
        None => None,
    }
}

impl InstalledPlugin {
    /// The plugin's executable (see `resolved_entry_path`).
    pub fn entry_path(&self, windows: bool) -> (result: String)
        ensures
            result@ == crate::plugin_catalog::spec_resolved_entry_path(self.root@, self.entry@, windows),
    {
        crate::plugin_catalog::resolved_entry_path(self.root.as_str(), self.entry.as_str(), windows)
    }

    /// Where the first asset with id `asset_id` lies: its path under the
    /// plugin's root; `None` when the plugin ships no such asset.
    pub fn asset_path(&self, asset_id: &str) -> (result: Option<String>)
        ensures
            crate::preview_cache::opt_string_view(result) == spec_asset_path(*self, asset_id@),
    {
        let key = chars_of(asset_id);
        let mut i: usize = 0;
        while i < self.assets.len()
            invariant
                i <= self.assets.len(),
                key@ == asset_id@,
                asset_index(self.assets@, asset_id@, 0) == asset_index(self.assets@, asset_id@, i as int),
            decreases self.assets.len() - i,
        {
            let candidate = chars_of(self.assets[i].id.as_str());
            if chars_equal(&candidate, &key) {
                let joined = crate::text::join_exec(&chars_of(self.root.as_str()), &chars_of(self.assets[i].path.as_str()), false);
                return Some(crate::text::string_from_chars(&joined));
            }
            i = i + 1;
        }
        None
    }
}

/// The ids of `plugins`, in order.
pub open spec fn plugin_ids(plugins: Seq<InstalledPlugin>) -> Seq<Seq<char>> {
    plugins.map_values(|p: InstalledPlugin| p.id@)
}

/// Every id sorts strictly before every later one.
pub open spec fn ids_ascending(ids: Seq<Seq<char>>) -> bool {
    forall|i: int, j: int| 0 <= i < j < ids.len() ==> lex_lt(#[trigger] ids[i], #[trigger] ids[j])
}

/// `s` without its leading dots.
pub open spec fn strip_leading_dots(s: Seq<char>) -> Seq<char>
    decreases s.len(),
{
    if s.len() > 0 && s[0] == '.' {
        strip_leading_dots(s.drop_first())
    } else {
        s
    }
}

/// The plugin probes and decodes previews, and lists `extension` (leading
/// dots dropped) among its extensions, up to ASCII case.
pub open spec fn decodes_extension(plugin: InstalledPlugin, extension: Seq<char>) -> bool {
    &&& plugin.probe
    &&& plugin.decode_preview
    &&& exists|k: int| 0 <= k < plugin.supported_extensions@.len()
        && eq_ignore_case(#[trigger] plugin.supported_extensions@[k]@, strip_leading_dots(extension))
}

/// `plugins` without those whose id is `id`.
pub open spec fn without_id(plugins: Seq<InstalledPlugin>, id: Seq<char>) -> Seq<InstalledPlugin>
    decreases plugins.len(),
{
    if plugins.len() == 0 {
        plugins
    } else {
        let rest = without_id(plugins.drop_last(), id);
        if plugins.last().id@ == id {
            rest
        } else {
            rest.push(plugins.last())
        }
    }
}

/// After a removal no plugin has the removed id, and every plugin with
/// another id is still there.
pub proof fn lemma_remove_drops_exactly_the_id(plugins: Seq<InstalledPlugin>, id: Seq<char>)
    ensures
        forall|k: int| 0 <= k < without_id(plugins, id).len() ==> #[trigger] without_id(plugins, id)[k].id@ != id,
        forall|i: int| 0 <= i < plugins.len() && plugins[i].id@ != id ==> without_id(plugins, id).contains(
            #[trigger] plugins[i],
        ),
    decreases plugins.len(),
{
    if plugins.len() > 0 {
        let rest = plugins.drop_last();
        lemma_remove_drops_exactly_the_id(rest, id);
        assert forall|i: int| 0 <= i < plugins.len() && plugins[i].id@ != id implies without_id(plugins, id).contains(
            #[trigger] plugins[i],
        ) by {
            if i < plugins.len() - 1 {
                assert(rest[i] == plugins[i]);
                let k = choose|k: int| 0 <= k < without_id(rest, id).len() && without_id(rest, id)[k] == rest[i];
                if plugins.last().id@ != id {
                    assert(without_id(plugins, id)[k] == plugins[i]);
                }
            } else {
                assert(without_id(plugins, id).last() == plugins[i]);
            }
        }
    }
}

/// `s` with its leading dots dropped.
fn strip_leading_dots_exec(s: &Vec<char>) -> (result: Vec<char>)
    ensures
        result@ == strip_leading_dots(s@),
{
    let mut start: usize = 0;
    assert(s@.subrange(0, s@.len() as int) =~= s@);
    while start < s.len() && s[start] == '.'
        invariant
            start <= s.len(),
            strip_leading_dots(s@) == strip_leading_dots(s@.subrange(start as int, s@.len() as int)),
        decreases s.len() - start,
    {
        let ghost tail = s@.subrange(start as int, s@.len() as int);
        assert(tail.drop_first() =~= s@.subrange(start + 1, s@.len() as int));
        start = start + 1;
    }
    let result = crate::text::copy_range(s, start, s.len());
    assert(result@ =~= s@.subrange(start as int, s@.len() as int));
    result
}

/// Whether `plugin` decodes `extension`.
fn decodes_extension_exec(plugin: &InstalledPlugin, wanted: &Vec<char>, Ghost(extension): Ghost<Seq<char>>) -> (result: bool)
    requires
        wanted@ == strip_leading_dots(extension),
    ensures
        result == decodes_extension(*plugin, extension),
{
    if !plugin.probe || !plugin.decode_preview {
        return false;
    }
    let mut k: usize = 0;
    while k < plugin.supported_extensions.len()
        invariant
            k <= plugin.supported_extensions.len(),
            plugin.probe && plugin.decode_preview,
            wanted@ == strip_leading_dots(extension),
            forall|j: int| 0 <= j < k ==> !eq_ignore_case(#[trigger] plugin.supported_extensions@[j]@, strip_leading_dots(extension)),
        decreases plugin.supported_extensions.len() - k,
    {
        let candidate = chars_of(plugin.supported_extensions[k].as_str());
        if chars_equal_ignore_case(&candidate, wanted) {
            assert(eq_ignore_case(plugin.supported_extensions@[k as int]@, strip_leading_dots(extension)));
            return true;
        }
        k = k + 1;
    }
    false
}

/// The installed plugins, one per id, ordered by id.
pub struct PluginRegistry {
    plugins: Vec<InstalledPlugin>,
}

impl View for PluginRegistry {
    type V = Seq<InstalledPlugin>;

    closed spec fn view(&self) -> Seq<InstalledPlugin> {
        self.plugins@
    }
}

impl PluginRegistry {
    /// The registry's invariant: ids strictly ascending, hence distinct.
    pub open spec fn well_formed(&self) -> bool {
        ids_ascending(plugin_ids(self@))
    }

    /// A registry without plugins.
    pub fn new() -> (result: Self)
        ensures
            result.well_formed(),
            result@ == Seq::<InstalledPlugin>::empty(),
    {
        PluginRegistry { plugins: Vec::new() }
    }

    /// All plugins, ordered by id.
    pub fn all(&self) -> (result: &[InstalledPlugin])
        ensures
            result@ == self@,
    {
        self.plugins.as_slice()
    }

    /// The first plugin with id `id`.
    pub fn get(&self, id: &str) -> (result: Option<&InstalledPlugin>)
        ensures
            match result {
                Some(plugin) => exists|k: int| 0 <= k < self@.len() && *plugin == #[trigger] self@[k]
                    && plugin.id@ == id@ && forall|j: int| 0 <= j < k ==> self@[j].id@ != id@,
                None => forall|k: int| 0 <= k < self@.len() ==> #[trigger] self@[k].id@ != id@,
            },
    {
        let key = chars_of(id);
        let mut i: usize = 0;
        while i < self.plugins.len()
            invariant
                i <= self.plugins.len(),
                key@ == id@,
                forall|j: int| 0 <= j < i ==> #[trigger] self.plugins@[j].id@ != id@,
            decreases self.plugins.len() - i,
        {
            let candidate = chars_of(self.plugins[i].id.as_str());
            if chars_equal(&candidate, &key) {
                assert(self@[i as int] == self.plugins@[i as int]);
                return Some(&self.plugins[i]);
            }
            i = i + 1;
        }
        None
    }

    /// The first plugin that probes and decodes previews of files with
    /// `extension` (leading dots ignored, ASCII case ignored).
    pub fn decoder_for_extension(&self, extension: &str) -> (result: Option<&InstalledPlugin>)
        ensures
            match result {
                Some(plugin) => exists|k: int| 0 <= k < self@.len() && *plugin == #[trigger] self@[k]
                    && decodes_extension(self@[k], extension@)
                    && forall|j: int| 0 <= j < k ==> !decodes_extension(self@[j], extension@),
                None => forall|k: int| 0 <= k < self@.len() ==> !decodes_extension(#[trigger] self@[k], extension@),
            },
    {
        let wanted = strip_leading_dots_exec(&chars_of(extension));
        let mut i: usize = 0;
        while i < self.plugins.len()
            invariant
                i <= self.plugins.len(),
                wanted@ == strip_leading_dots(extension@),
                forall|j: int| 0 <= j < i ==> !decodes_extension(#[trigger] self.plugins@[j], extension@),
            decreases self.plugins.len() - i,
        {
            if decodes_extension_exec(&self.plugins[i], &wanted, Ghost(extension@)) {
                assert(self@[i as int] == self.plugins@[i as int]);
                return Some(&self.plugins[i]);
            }
            i = i + 1;
        }
        None
    }

    /// Drops every plugin with id `id`; the others keep their order.
    pub fn remove(&mut self, id: &str)
        requires
            old(self).well_formed(),
        ensures
            final(self).well_formed(),
            final(self)@ == without_id(old(self)@, id@),
    {
        let key = chars_of(id);
        let mut rest: Vec<InstalledPlugin> = Vec::new();
        std::mem::swap(&mut rest, &mut self.plugins);
        let ghost all = rest@;
        let mut kept: Vec<InstalledPlugin> = Vec::new();
        let mut n: usize = 0;
        assert(all.len() == rest.len());
        while rest.len() > 0
            invariant
                n <= all.len(),
                all.len() <= usize::MAX,
                key@ == id@,
                rest@ == all.subrange(n as int, all.len() as int),
                kept@ == without_id(all.take(n as int), id@),
                ids_ascending(plugin_ids(all)),
                ids_ascending(plugin_ids(kept@)),
                forall|k: int, m: int| 0 <= k < kept@.len() && n <= m < all.len()
                    ==> lex_lt(#[trigger] kept@[k].id@, #[trigger] all[m].id@),
            decreases rest.len(),
        {
            let plugin = rest.remove(0);
            assert(plugin == all[n as int]);
            assert(all.take(n + 1).drop_last() =~= all.take(n as int));
            assert(all.take(n + 1).last() == all[n as int]);
            let candidate = chars_of(plugin.id.as_str());
            let ghost before = kept@;
            if !chars_equal(&candidate, &key) {
                kept.push(plugin);
                assert(kept@ =~= before.push(all[n as int]));
                assert forall|i: int, j: int| 0 <= i < j < kept@.len() implies lex_lt(
                    #[trigger] plugin_ids(kept@)[i],
                    #[trigger] plugin_ids(kept@)[j],
                ) by {
                    if j < before.len() {
                        assert(plugin_ids(before)[i] == plugin_ids(kept@)[i]);
                        assert(plugin_ids(before)[j] == plugin_ids(kept@)[j]);
                    } else {
                        assert(kept@[i] == before[i]);
                        assert(lex_lt(before[i].id@, all[n as int].id@));
                    }
                }
            }
            assert forall|k: int, m: int| 0 <= k < kept@.len() && n + 1 <= m < all.len()
                implies lex_lt(#[trigger] kept@[k].id@, #[trigger] all[m].id@) by {
                if k < before.len() {
                    assert(kept@[k] == before[k]);
                } else {
                    assert(plugin_ids(all)[n as int] == all[n as int].id@);
                    assert(plugin_ids(all)[m] == all[m].id@);
                }
            }
            n = n + 1;
        }
        assert(all.take(n as int) =~= all);
        self.plugins = kept;
    }
}


/// Index `i` holds the first plugin of `plugins` with its id.
pub open spec fn first_of_its_id(plugins: Seq<InstalledPlugin>, i: int) -> bool {
    &&& 0 <= i < plugins.len()
    &&& forall|j: int| 0 <= j < i ==> plugins[j].id@ != plugins[i].id@
}

/// `plugin` is the first plugin of `plugins` with its id.
pub open spec fn is_first_of_its_id(plugins: Seq<InstalledPlugin>, plugin: InstalledPlugin) -> bool {
    exists|i: int| #[trigger] first_of_its_id(plugins, i) && plugins[i] == plugin
}

/// In ascending ids, an id after the one at `j` sorts after anything that
/// sorts before the one at `j`.
proof fn lemma_after_position(ids: Seq<Seq<char>>, j: int, key: Seq<char>)
    requires
        ids_ascending(ids),
        0 <= j < ids.len(),
        lex_lt(key, ids[j]),
    ensures
        forall|k: int| j <= k < ids.len() ==> lex_lt(key, #[trigger] ids[k]),
{
    assert forall|k: int| j <= k < ids.len() implies lex_lt(key, #[trigger] ids[k]) by {
        if k > j {
            assert(lex_lt(ids[j], ids[k]));
            crate::text::lemma_lex_transitive(key, ids[j], ids[k]);
        }
    }
}

/// Inserting `key` where everything before sorts below it and everything
/// after sorts above it keeps ids ascending.
proof fn lemma_insert_ascending(ids: Seq<Seq<char>>, j: int, key: Seq<char>)
    requires
        ids_ascending(ids),
        0 <= j <= ids.len(),
        forall|k: int| 0 <= k < j ==> lex_lt(#[trigger] ids[k], key),
        forall|k: int| j <= k < ids.len() ==> lex_lt(key, #[trigger] ids[k]),
    ensures
        ids_ascending(ids.insert(j, key)),
{
    let after = ids.insert(j, key);
    assert forall|a: int, b: int| 0 <= a < b < after.len() implies lex_lt(#[trigger] after[a], #[trigger] after[b]) by {
        if b < j {
            assert(lex_lt(ids[a], ids[b]));
        } else if b == j {
            assert(lex_lt(ids[a], key));
        } else if a < j {
            assert(lex_lt(ids[a], ids[b - 1]));
        } else if a == j {
            assert(lex_lt(key, ids[b - 1]));
        } else {
            assert(lex_lt(ids[a - 1], ids[b - 1]));
        }
    }
}

impl PluginRegistry {
    /// The registry of the plugins found on disk, in any order: ordered by
    /// id, and of plugins sharing an id only the first found is kept.
    pub fn from_discovered(plugins: Vec<InstalledPlugin>) -> (result: Self)
        ensures
            result.well_formed(),
            forall|k: int| 0 <= k < result@.len() ==> is_first_of_its_id(plugins@, #[trigger] result@[k]),
            forall|i: int| 0 <= i < plugins@.len() ==> plugin_ids(result@).contains(#[trigger] plugins@[i].id@),
    {
        let ghost input = plugins@;
        let mut rest = plugins;
        assert(input.len() == rest.len());
        let mut sorted: Vec<InstalledPlugin> = Vec::new();
        let mut n: usize = 0;
        assert(input.subrange(0, input.len() as int) =~= input);
        while rest.len() > 0
            invariant
                n <= input.len(),
                input.len() <= usize::MAX,
                rest@ == input.subrange(n as int, input.len() as int),
                ids_ascending(plugin_ids(sorted@)),
                forall|k: int| 0 <= k < sorted@.len() ==> is_first_of_its_id(input, #[trigger] sorted@[k]),
                forall|i: int| 0 <= i < n ==> plugin_ids(sorted@).contains(#[trigger] input[i].id@),
            decreases rest.len(),
        {
            let plugin = rest.remove(0);
            assert(plugin == input[n as int]);
            let key = chars_of(plugin.id.as_str());
            let mut j: usize = 0;
            let mut stop = false;
            let mut found = false;
            while !stop && j < sorted.len()
                invariant
                    j <= sorted.len(),
                    key@ == input[n as int].id@,
                    ids_ascending(plugin_ids(sorted@)),
                    forall|k: int| 0 <= k < j ==> lex_lt(#[trigger] plugin_ids(sorted@)[k], key@),
                    found ==> stop && j < sorted.len() && plugin_ids(sorted@)[j as int] == key@,
                    stop && !found ==> j < sorted.len() && lex_lt(key@, plugin_ids(sorted@)[j as int]),
                decreases sorted.len() - j + (if stop { 0int } else { 1int }),
            {
                let current = chars_of(sorted[j].id.as_str());
                let order = compare_chars(&current, &key);
                if order == 0 {
                    found = true;
                    stop = true;
                } else if order > 0 {
                    stop = true;
                } else {
                    j = j + 1;
                }
            }
            let ghost before = sorted@;
            let ghost ids = plugin_ids(before);
            if found {
                assert(ids.contains(input[n as int].id@));
                assert forall|i: int| 0 <= i < n + 1 implies plugin_ids(sorted@).contains(#[trigger] input[i].id@) by {
                    if i < n {
                        assert(plugin_ids(sorted@).contains(input[i].id@));
                    }
                }
            } else {
                proof {
                    if stop {
                        lemma_after_position(ids, j as int, key@);
                    }
                    assert forall|k: int| 0 <= k < ids.len() implies #[trigger] ids[k] != key@ by {
                        if k < j {
                            crate::text::lemma_lex_trichotomy(ids[k], key@);
                        } else {
                            crate::text::lemma_lex_trichotomy(key@, ids[k]);
                        }
                    }
                    assert(!ids.contains(key@));
                    assert forall|i: int| 0 <= i < n implies input[i].id@ != input[n as int].id@ by {
                        assert(ids.contains(input[i].id@));
                    }
                    assert(first_of_its_id(input, n as int));
                    lemma_insert_ascending(ids, j as int, key@);
                }
                sorted.insert(j, plugin);
                assert(plugin_ids(sorted@) =~= ids.insert(j as int, key@));
                assert forall|i: int| 0 <= i < n + 1 implies plugin_ids(sorted@).contains(#[trigger] input[i].id@) by {
                    if i < n {
                        let m = choose|m: int| 0 <= m < ids.len() && ids[m] == input[i].id@;
                        if m < j {
                            assert(plugin_ids(sorted@)[m] == input[i].id@);
                        } else {
                            assert(plugin_ids(sorted@)[m + 1] == input[i].id@);
                        }
                    } else {
                        assert(plugin_ids(sorted@)[j as int] == input[i].id@);
                    }
                }
                assert forall|k: int| 0 <= k < sorted@.len() implies is_first_of_its_id(input, #[trigger] sorted@[k]) by {
                    if k < j {
                        assert(sorted@[k] == before[k]);
                    } else if k == j {
                        assert(sorted@[k] == input[n as int]);
                        assert(first_of_its_id(input, n as int) && input[n as int] == sorted@[k]);
                    } else {
                        assert(sorted@[k] == before[k - 1]);
                    }
                }
            }
            n = n + 1;
            assert(rest@ =~= input.subrange(n as int, input.len() as int));
        }
        let result = PluginRegistry { plugins: sorted };
        result
    }
}


/// What an official plugin's manifest declares that decides its role.
#[derive(Debug, Clone, Copy, PartialEq, Eq, Structural)]
pub struct ManifestRoles {
    /// The `Probe` capability.
    pub probe: bool,
    /// The `DecodePreview` capability.
    pub decode_preview: bool,
    /// The `UiContributions` capability.
    pub ui_contributions: bool,
    /// Any command, context-menu item, right panel or canvas tool.
    pub has_contributions: bool,
    /// Whether the manifest lists any supported extension.
    pub has_extensions: bool,
}

/// Why an official plugin's manifest is refused.
#[derive(Debug, Clone, PartialEq, Eq)]
pub enum OfficialManifestError {
    /// Neither a decoder nor a UI plugin.
    NoRole,
    /// Declared a decoder, and the decoder checks refused it.
    InvalidDecoder(String),
    /// Declared a decoder without any supported extension.
    NoExtensions,
    /// Declared UI contributions, and the UI checks refused them.
    InvalidUi(String),
}

impl ManifestRoles {
    /// The plugin decodes previews: it probes and decodes.
    pub open spec fn spec_is_decoder(self) -> bool {
        self.probe && self.decode_preview
    }

    /// The plugin contributes to the user interface.
    pub open spec fn spec_is_ui(self) -> bool {
        self.ui_contributions || self.has_contributions
    }
}

/// Checks that an official plugin is a decoder or a UI plugin or both, and
/// that each role it declares is sound: a decoder passes the decoder checks
/// (`decoder_check`, `None` when they pass) and lists an extension; a UI
/// plugin passes the UI checks (`ui_check`). The first failure is given.
pub fn validate_official_plugin_manifest(
    roles: ManifestRoles,
    decoder_check: Option<String>,
    ui_check: Option<String>,
) -> (result: Result<(), OfficialManifestError>)
    ensures
        match result {
            Ok(()) => (roles.spec_is_decoder() || roles.spec_is_ui())
                && (roles.spec_is_decoder() ==> decoder_check is None && roles.has_extensions)
                && (roles.spec_is_ui() ==> ui_check is None),
            Err(OfficialManifestError::NoRole) => !roles.spec_is_decoder() && !roles.spec_is_ui(),
            Err(OfficialManifestError::InvalidDecoder(reason)) => (roles.spec_is_decoder() || roles.spec_is_ui())
                && roles.spec_is_decoder() && decoder_check == Some(reason),
            Err(OfficialManifestError::NoExtensions) => roles.spec_is_decoder() && decoder_check is None
                && !roles.has_extensions,
            Err(OfficialManifestError::InvalidUi(reason)) => (roles.spec_is_decoder() ==> decoder_check is None
                && roles.has_extensions) && roles.spec_is_ui() && ui_check == Some(reason),
        },
{
    let decoder = roles.probe && roles.decode_preview;
    let ui = roles.ui_contributions || roles.has_contributions;
    if !decoder && !ui {
        return Err(OfficialManifestError::NoRole);
    }
    if decoder {
        if let Some(reason) = decoder_check {
            return Err(OfficialManifestError::InvalidDecoder(reason));
        }
        if !roles.has_extensions {
            return Err(OfficialManifestError::NoExtensions);
        }
    }
    if ui {
        if let Some(reason) = ui_check {
            return Err(OfficialManifestError::InvalidUi(reason));
        }
    }
    Ok(())
}

/// Why a shipped asset is refused.
#[derive(Debug, Clone, PartialEq, Eq)]
pub enum AssetError {
    /// The asset's content does not have the digest its manifest declares.
    Integrity(String),
}

/// Checks the content of a plugin's asset against the SHA-256 that its
/// manifest declares (lowercase hexadecimal, compared exactly); the error
/// names the asset.
pub fn verify_asset_digest(asset: &PluginAsset, content: &[u8]) -> (result: Result<(), AssetError>)
    ensures
        match result {
            Ok(()) => crate::digest::sha256_hex(content@) == asset.sha256@,
            Err(AssetError::Integrity(id)) => crate::digest::sha256_hex(content@) != asset.sha256@
                && id@ == asset.id@,
        },
{
    let digest = crate::digest::sha256_hex_exec(content);
    if chars_equal(&chars_of(digest.as_str()), &chars_of(asset.sha256.as_str())) {
        Ok(())
    } else {
        Err(AssetError::Integrity(crate::text::string_from_chars(&chars_of(asset.id.as_str()))))
    }
}


/// An item of the viewer's context menu contributed by a plugin.
#[derive(Debug, Clone)]
pub struct PluginMenuItem {
    pub plugin_id: String,
    pub command_id: String,
    pub label: String,
    pub icon: PluginIcon,
    pub icon_path: Option<String>,
    pub enabled: bool,
}

/// The plain value of a menu item.
pub struct MenuItemView {
    pub plugin_id: Seq<char>,
    pub command_id: Seq<char>,
    pub label: Seq<char>,
    pub icon: IconView,
    pub icon_path: Option<Seq<char>>,
    pub enabled: bool,
}

impl View for PluginMenuItem {
    type V = MenuItemView;

    open spec fn view(&self) -> MenuItemView {
        MenuItemView {
            plugin_id: self.plugin_id@,
            command_id: self.command_id@,
            label: self.label@,
            icon: self.icon@,
            icon_path: crate::preview_cache::opt_string_view(self.icon_path),
            enabled: self.enabled,
        }
    }
}

/// A menu item with the group and order it sorts by.
pub type RankedItem = (u32, i32, MenuItemView);

/// The index of the first command from `i` on with id `id`.
pub open spec fn command_index(commands: Seq<PluginCommand>, id: Seq<char>, i: int) -> Option<int>
    decreases commands.len() - i,
{
    if i < 0 || i >= commands.len() {
        None
    } else if commands[i].id@ == id {
        Some(i)
    } else {
        command_index(commands, id, i + 1)
    }
}

/// The menu item for one context-menu entry of `plugin`, when the entry
/// names one of its commands: enabled when the command's need for an open
/// image is met and, for a plugin drawing on the canvas, the canvas is
/// available; its icon file is the asset its icon names.
pub open spec fn entry_item(
    plugin: InstalledPlugin,
    entry: ContextMenuEntry,
    has_document: bool,
    canvas_available: bool,
) -> Option<RankedItem> {
    match command_index(plugin.commands@, entry.command_id@, 0) {
        Some(k) => {
            let command = plugin.commands@[k];
            Some((
                entry.group,
                entry.order,
                MenuItemView {
                    plugin_id: plugin.id@,
                    command_id: command.id@,
                    label: command.label@,
                    icon: command.icon@,
                    icon_path: match command.icon {
                        PluginIcon::Asset(asset) => spec_asset_path(plugin, asset@),
                        _ => None,
                    },
                    enabled: (!command.requires_document || has_document) && (!plugin.canvas_overlay
                        || canvas_available),
                },
            ))
        },
        None => None,
    }
}

/// The items of the first `n` context-menu entries of `plugin`, in order.
pub open spec fn plugin_items(plugin: InstalledPlugin, n: int, has_document: bool, canvas_available: bool) -> Seq<
    RankedItem,
>
    decreases n,
{
    if n <= 0 {
        Seq::empty()
    } else {
        let before = plugin_items(plugin, n - 1, has_document, canvas_available);
        match entry_item(plugin, plugin.context_menu@[n - 1], has_document, canvas_available) {
            Some(item) => before.push(item),
            None => before,
        }
    }
}

/// The items of the first `n` plugins that contribute commands, in order.
pub open spec fn registry_items(plugins: Seq<InstalledPlugin>, n: int, has_document: bool, canvas_available: bool) -> Seq<
    RankedItem,
>
    decreases n,
{
    if n <= 0 {
        Seq::empty()
    } else {
        let before = registry_items(plugins, n - 1, has_document, canvas_available);
        let plugin = plugins[n - 1];
        if plugin.commands@.len() == 0 {
            before
        } else {
            before + plugin_items(plugin, plugin.context_menu@.len() as int, has_document, canvas_available)
        }
    }
}

/// `a` sorts strictly before `b`: by group, then by order.
pub open spec fn rank_lt(a: RankedItem, b: RankedItem) -> bool {
    a.0 < b.0 || (a.0 == b.0 && a.1 < b.1)
}

/// Where `item` goes among items sorted by rank: after those ranked no
/// later than it.
pub open spec fn first_ranked_after(items: Seq<RankedItem>, item: RankedItem, i: int) -> int
    decreases items.len() - i,
{
    if i < 0 || i >= items.len() {
        items.len() as int
    } else if rank_lt(item, items[i]) {
        i
    } else {
        first_ranked_after(items, item, i + 1)
    }
}

/// The stable sort of items by (group, order).
pub open spec fn sort_by_rank(items: Seq<RankedItem>) -> Seq<RankedItem>
    decreases items.len(),
{
    if items.len() == 0 {
        items
    } else {
        let rest = sort_by_rank(items.drop_last());
        rest.insert(first_ranked_after(rest, items.last(), 0), items.last())
    }
}

/// What `first_ranked_after` is.
proof fn lemma_first_ranked_after(items: Seq<RankedItem>, item: RankedItem, i: int)
    requires
        0 <= i <= items.len(),
    ensures
        i <= first_ranked_after(items, item, i) <= items.len(),
        forall|k: int| i <= k < first_ranked_after(items, item, i) ==> !rank_lt(item, #[trigger] items[k]),
        first_ranked_after(items, item, i) < items.len() ==> rank_lt(item, items[first_ranked_after(items, item, i)]),
    decreases items.len() - i,
{
    if i < items.len() && !rank_lt(item, items[i]) {
        lemma_first_ranked_after(items, item, i + 1);
    }
}

/// The menu comes out ordered by group, then order, holding every item.
pub proof fn lemma_sort_by_rank(items: Seq<RankedItem>)
    ensures
        forall|i: int, j: int| 0 <= i < j < sort_by_rank(items).len() ==> !rank_lt(
            #[trigger] sort_by_rank(items)[j],
            #[trigger] sort_by_rank(items)[i],
        ),
        sort_by_rank(items).to_multiset() == items.to_multiset(),
    decreases items.len(),
{
    if items.len() > 0 {
        let rest = sort_by_rank(items.drop_last());
        let x = items.last();
        lemma_sort_by_rank(items.drop_last());
        lemma_first_ranked_after(rest, x, 0);
        let k = first_ranked_after(rest, x, 0);
        let out = rest.insert(k, x);
        assert forall|i: int, j: int| 0 <= i < j < out.len() implies !rank_lt(#[trigger] out[j], #[trigger] out[i]) by {
            if j < k {
                assert(out[i] == rest[i] && out[j] == rest[j]);
            } else if j == k {
                assert(out[i] == rest[i]);
            } else if i == k {
                assert(out[j] == rest[j - 1]);
                if j - 1 > k {
                    assert(!rank_lt(rest[j - 1], rest[k]));
                }
            } else if i < k {
                assert(out[i] == rest[i] && out[j] == rest[j - 1]);
            } else {
                assert(out[i] == rest[i - 1] && out[j] == rest[j - 1]);
            }
        }
        vstd::seq_lib::lemma_multiset_commutative(rest.take(k), rest.skip(k));
        assert(rest =~= rest.take(k) + rest.skip(k));
        assert(out =~= rest.take(k) + seq![x] + rest.skip(k));
        vstd::seq_lib::lemma_multiset_commutative(rest.take(k) + seq![x], rest.skip(k));
        vstd::seq_lib::lemma_multiset_commutative(rest.take(k), seq![x]);
        vstd::seq_lib::lemma_multiset_commutative(items.drop_last(), seq![x]);
        assert(items.drop_last() + seq![x] =~= items);
    }
}

/// The plain values of ranked items.
pub open spec fn ranked_views(items: Seq<(u32, i32, PluginMenuItem)>) -> Seq<RankedItem> {
    items.map_values(|t: (u32, i32, PluginMenuItem)| (t.0, t.1, t.2@))
}

/// A copy of an icon.
fn copy_icon(icon: &PluginIcon) -> (result: PluginIcon)
    ensures
        result@ == icon@,
{
    match icon {
        PluginIcon::Annotation => PluginIcon::Annotation,
        PluginIcon::Select => PluginIcon::Select,
        PluginIcon::Text => PluginIcon::Text,
        PluginIcon::Rectangle => PluginIcon::Rectangle,
        PluginIcon::Ellipse => PluginIcon::Ellipse,
        PluginIcon::Arrow => PluginIcon::Arrow,
        PluginIcon::Undo => PluginIcon::Undo,
        PluginIcon::Redo => PluginIcon::Redo,
        PluginIcon::Export => PluginIcon::Export,
        PluginIcon::Asset(id) => PluginIcon::Asset(crate::text::string_from_chars(&chars_of(id.as_str()))),
    }
}

/// A copy of a text.
fn copy_text(text: &str) -> (result: String)
    ensures
        result@ == text@,
{
    crate::text::string_from_chars(&chars_of(text))
}

/// The menu item for one context-menu entry of `plugin`.
fn entry_item_exec(
    plugin: &InstalledPlugin,
    entry: &ContextMenuEntry,
    has_document: bool,
    canvas_available: bool,
) -> (result: Option<(u32, i32, PluginMenuItem)>)
    ensures
        match result {
            Some(t) => entry_item(*plugin, *entry, has_document, canvas_available) == Some((t.0, t.1, t.2@)),
            None => entry_item(*plugin, *entry, has_document, canvas_available) is None,
        },
{
    let key = chars_of(entry.command_id.as_str());
    let mut k: usize = 0;
    while k < plugin.commands.len()
        invariant
            k <= plugin.commands.len(),
            key@ == entry.command_id@,
            command_index(plugin.commands@, entry.command_id@, 0) == command_index(
                plugin.commands@,
                entry.command_id@,
                k as int,
            ),
        decreases plugin.commands.len() - k,
    {
        if chars_equal(&chars_of(plugin.commands[k].id.as_str()), &key) {
            let command = &plugin.commands[k];
            let icon_path = match &command.icon {
                PluginIcon::Asset(asset) => plugin.asset_path(asset.as_str()),
                _ => None,
            };
            let item = PluginMenuItem {
                plugin_id: copy_text(plugin.id.as_str()),
                command_id: copy_text(command.id.as_str()),
                label: copy_text(command.label.as_str()),
                icon: copy_icon(&command.icon),
                icon_path,
                enabled: (!command.requires_document || has_document) && (!plugin.canvas_overlay || canvas_available),
            };
            return Some((entry.group, entry.order, item));
        }
        k = k + 1;
    }
    None
}

/// Inserts a ranked item at its place among items sorted by rank.
fn insert_ranked(items: &mut Vec<(u32, i32, PluginMenuItem)>, item: (u32, i32, PluginMenuItem))
    ensures
        ranked_views(final(items)@) == ({
            let before = ranked_views(old(items)@);
            let x = (item.0, item.1, item.2@);
            before.insert(first_ranked_after(before, x, 0), x)
        }),
{
    let ghost before = ranked_views(items@);
    let ghost x = (item.0, item.1, item.2@);
    let mut i: usize = 0;
    while i < items.len() && !(item.0 < items[i].0 || (item.0 == items[i].0 && item.1 < items[i].1))
        invariant
            i <= items.len(),
            ranked_views(items@) == before,
            x == (item.0, item.1, item.2@),
            first_ranked_after(before, x, 0) == first_ranked_after(before, x, i as int),
        decreases items.len() - i,
    {
        i = i + 1;
    }
    items.insert(i, item);
    assert(ranked_views(items@) =~= before.insert(i as int, x));
}

impl PluginRegistry {
    /// The items plugins add to the viewer's context menu: those of every
    /// plugin that contributes commands, in registry order and then entry
    /// order, for the entries that name one of the plugin's commands;
    /// sorted stably by group, then order.
    pub fn context_menu_items(&self, has_document: bool, canvas_available: bool) -> (result: Vec<PluginMenuItem>)
        ensures
            result@.map_values(|item: PluginMenuItem| item@) == sort_by_rank(
                registry_items(self@, self@.len() as int, has_document, canvas_available),
            ).map_values(|t: RankedItem| t.2),
    {
        let mut ranked: Vec<(u32, i32, PluginMenuItem)> = Vec::new();
        let mut p: usize = 0;
        while p < self.plugins.len()
            invariant
                p <= self.plugins.len(),
                ranked_views(ranked@) == sort_by_rank(registry_items(self@, p as int, has_document, canvas_available)),
            decreases self.plugins.len() - p,
        {
            let plugin = &self.plugins[p];
            let ghost done = registry_items(self@, p as int, has_document, canvas_available);
            assert(self@[p as int] == *plugin);
            if plugin.commands.len() > 0 {
                let mut m: usize = 0;
                while m < plugin.context_menu.len()
                    invariant
                        m <= plugin.context_menu.len(),
                        plugin.commands@.len() > 0,
                        ranked_views(ranked@) == sort_by_rank(done + plugin_items(*plugin, m as int, has_document, canvas_available)),
                    decreases plugin.context_menu.len() - m,
                {
                    let ghost so_far = done + plugin_items(*plugin, m as int, has_document, canvas_available);
                    match entry_item_exec(plugin, &plugin.context_menu[m], has_document, canvas_available) {
                        Some(item) => {
                            let ghost x = (item.0, item.1, item.2@);
                            insert_ranked(&mut ranked, item);
                            assert(done + plugin_items(*plugin, m + 1, has_document, canvas_available) =~= so_far.push(x));
                            assert(so_far.push(x).drop_last() =~= so_far);
                        },
                        None => {
                            assert(done + plugin_items(*plugin, m + 1, has_document, canvas_available) =~= so_far);
                        },
                    }
                    m = m + 1;
                }
                assert(registry_items(self@, p + 1, has_document, canvas_available) =~= done + plugin_items(
                    *plugin,
                    plugin.context_menu@.len() as int,
                    has_document,
                    canvas_available,
                ));
            } else {
                assert(registry_items(self@, p + 1, has_document, canvas_available) =~= done);
            }
            p = p + 1;
        }
        let ghost sorted = ranked_views(ranked@);
        assert(sorted.len() == ranked.len());
        assert(sorted.subrange(0, sorted.len() as int) =~= sorted);
        let mut result: Vec<PluginMenuItem> = Vec::new();
        let mut n: usize = 0;
        while ranked.len() > 0
            invariant
                n <= sorted.len(),
                sorted.len() <= usize::MAX,
                ranked_views(ranked@) == sorted.subrange(n as int, sorted.len() as int),
                result@.map_values(|item: PluginMenuItem| item@) == sorted.take(n as int).map_values(|t: RankedItem| t.2),
            decreases ranked.len(),
        {
            let ghost rest = ranked_views(ranked@);
            assert(rest.len() == ranked@.len());
            assert(rest[0] == sorted[n as int]);
            assert(rest[0] == (ranked@[0].0, ranked@[0].1, ranked@[0].2@));
            let (_, _, item) = ranked.remove(0);
            assert(item@ == sorted[n as int].2);
            let ghost before = result@.map_values(|item: PluginMenuItem| item@);
            result.push(item);
            assert(result@.map_values(|item: PluginMenuItem| item@) =~= before.push(sorted[n as int].2));
            assert(sorted.take(n + 1).map_values(|t: RankedItem| t.2) =~= sorted.take(n as int).map_values(
                |t: RankedItem| t.2,
            ).push(sorted[n as int].2));
            assert(ranked_views(ranked@) =~= rest.drop_first());
            n = n + 1;
        }
        assert(sorted.take(n as int) =~= sorted);
        result
    }
}

/// Where a command id is found among a plugin's commands, a command
/// there has that id.
proof fn lemma_command_index(commands: Seq<PluginCommand>, id: Seq<char>, i: int)
    requires
        0 <= i,
    ensures
        command_index(commands, id, i) matches Some(k) ==> i <= k < commands.len() && commands[k].id@ == id,
    decreases commands.len() - i,
{
    if i < commands.len() && commands[i].id@ != id {
        lemma_command_index(commands, id, i + 1);
    }
}

/// What an enabled context-menu item promises: the command it runs needs
/// no open image, or an image is open; and a canvas plugin's command is
/// enabled only while the canvas is available. The item runs a command of
/// the plugin with the entry's command id.
pub proof fn lemma_enabled_item_can_run(
    plugin: InstalledPlugin,
    entry: ContextMenuEntry,
    has_document: bool,
    canvas_available: bool,
)
    ensures
        entry_item(plugin, entry, has_document, canvas_available) matches Some(t) ==> {
            &&& t.2.plugin_id == plugin.id@
            &&& t.2.command_id == entry.command_id@
            &&& exists|k: int|
                0 <= k < plugin.commands@.len() && #[trigger] plugin.commands@[k].id@ == entry.command_id@
                    && (t.2.enabled ==> !plugin.commands@[k].requires_document || has_document)
            &&& t.2.enabled ==> !plugin.canvas_overlay || canvas_available
        },
{
    lemma_command_index(plugin.commands@, entry.command_id@, 0);
}

/// Every item the registry offers in the context menu that is enabled
/// while no image is open runs a command, of the plugin it names, that
/// needs no open image.
pub proof fn lemma_registry_items_need_a_document_only_when_open(
    plugins: Seq<InstalledPlugin>,
    n: int,
    has_document: bool,
    canvas_available: bool,
)
    requires
        0 <= n <= plugins.len(),
    ensures
        forall|i: int|
            0 <= i < registry_items(plugins, n, has_document, canvas_available).len() && #[trigger] registry_items(
                plugins,
                n,
                has_document,
                canvas_available,
            )[i].2.enabled && !has_document ==> exists|p: int, k: int|
                0 <= p < n && 0 <= k < plugins[p].commands@.len() && plugins[p].id@ == registry_items(
                    plugins,
                    n,
                    has_document,
                    canvas_available,
                )[i].2.plugin_id && #[trigger] plugins[p].commands@[k].id@ == registry_items(
                    plugins,
                    n,
                    has_document,
                    canvas_available,
                )[i].2.command_id && !plugins[p].commands@[k].requires_document,
    decreases n,
{
    if n > 0 {
        lemma_registry_items_need_a_document_only_when_open(plugins, n - 1, has_document, canvas_available);
        let before = registry_items(plugins, n - 1, has_document, canvas_available);
        let plugin = plugins[n - 1];
        let all = registry_items(plugins, n, has_document, canvas_available);
        if plugin.commands@.len() > 0 {
            let m = plugin.context_menu@.len() as int;
            lemma_plugin_items_need_a_document_only_when_open(plugin, m, has_document, canvas_available);
            let own = plugin_items(plugin, m, has_document, canvas_available);
            assert forall|i: int|
                0 <= i < all.len() && #[trigger] all[i].2.enabled && !has_document implies exists|p: int, k: int|
                0 <= p < n && 0 <= k < plugins[p].commands@.len() && plugins[p].id@ == all[i].2.plugin_id
                    && #[trigger] plugins[p].commands@[k].id@ == all[i].2.command_id
                    && !plugins[p].commands@[k].requires_document by {
                if i < before.len() {
                    assert(all[i] == before[i]);
                    assert(before[i].2.enabled);
                } else {
                    assert(all[i] == own[i - before.len()]);
                    assert(own[i - before.len()].2.enabled);
                    let k = choose|k: int| 0 <= k < plugin.commands@.len() && #[trigger] plugin.commands@[k].id@
                        == own[i - before.len()].2.command_id && !plugin.commands@[k].requires_document;
                    assert(plugins[n - 1].commands@[k].id@ == all[i].2.command_id);
                }
            }
        }
    }
}

/// The same, over the items of the first `n` context-menu entries of one
/// plugin.
proof fn lemma_plugin_items_need_a_document_only_when_open(
    plugin: InstalledPlugin,
    n: int,
    has_document: bool,
    canvas_available: bool,
)
    ensures
        forall|i: int|
            0 <= i < plugin_items(plugin, n, has_document, canvas_available).len() && #[trigger] plugin_items(
                plugin,
                n,
                has_document,
                canvas_available,
            )[i].2.enabled && !has_document ==> plugin_items(plugin, n, has_document, canvas_available)[i].2.plugin_id
                == plugin.id@ && exists|k: int|
                0 <= k < plugin.commands@.len() && #[trigger] plugin.commands@[k].id@ == plugin_items(
                    plugin,
                    n,
                    has_document,
                    canvas_available,
                )[i].2.command_id && !plugin.commands@[k].requires_document,
    decreases n,
{
    if n > 0 {
        lemma_plugin_items_need_a_document_only_when_open(plugin, n - 1, has_document, canvas_available);
        let entry = plugin.context_menu@[n - 1];
        lemma_enabled_item_can_run(plugin, entry, has_document, canvas_available);
        lemma_command_index(plugin.commands@, entry.command_id@, 0);
    }
}

} // verus!
