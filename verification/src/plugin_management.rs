//! Installing and removing plugins from the settings window: the installed
//! list, the package awaiting confirmation, the status shown, and the
//! generation that makes late completions of superseded work harmless.
use vstd::prelude::*;
use crate::package_checks::PluginPackageManifest;
use crate::plugin_package::{PackageErrorView, PluginPackageError};
use crate::text::{lex_lt, views};

verus! {

/// The kind of failure shown for a plugin operation.
#[derive(Debug, Clone, Copy, PartialEq, Eq, Structural)]
pub enum PluginManagementErrorKind {
    InvalidPackage,
    Incompatible,
    Installation,
    Removal,
    Storage,
}

/// The kind under which a package error is shown: platform, API, version
/// and downgrade refusals are incompatibilities, read failures are storage
/// failures, and everything else is an invalid package.
pub open spec fn spec_package_error_kind(error: PackageErrorView) -> PluginManagementErrorKind {
    match error {
        PackageErrorView::IncompatiblePlatform { .. } => PluginManagementErrorKind::Incompatible,
        PackageErrorView::IncompatibleArchitecture { .. } => PluginManagementErrorKind::Incompatible,
        PackageErrorView::IncompatiblePluginApi { .. } => PluginManagementErrorKind::Incompatible,
        PackageErrorView::IncompatibleLumiaVersion { .. } => PluginManagementErrorKind::Incompatible,
        PackageErrorView::DowngradeBlocked { .. } => PluginManagementErrorKind::Incompatible,
        PackageErrorView::Io(_) => PluginManagementErrorKind::Storage,
        _ => PluginManagementErrorKind::InvalidPackage,
    }
}

/// Classifies a package error for display.
pub fn package_error_kind(error: &PluginPackageError) -> (result: PluginManagementErrorKind)
    ensures
        result == spec_package_error_kind(error@),
{
    match error {
        PluginPackageError::IncompatiblePlatform { .. } => PluginManagementErrorKind::Incompatible,
        PluginPackageError::IncompatibleArchitecture { .. } => PluginManagementErrorKind::Incompatible,
        PluginPackageError::IncompatiblePluginApi { .. } => PluginManagementErrorKind::Incompatible,
        PluginPackageError::IncompatibleLumiaVersion { .. } => PluginManagementErrorKind::Incompatible,
        PluginPackageError::DowngradeBlocked { .. } => PluginManagementErrorKind::Incompatible,
        PluginPackageError::Io(_) => PluginManagementErrorKind::Storage,
        _ => PluginManagementErrorKind::InvalidPackage,
    }
}

/// The stable label of an error kind.
pub open spec fn spec_error_kind_label(kind: PluginManagementErrorKind) -> Seq<char> {
    match kind {
        PluginManagementErrorKind::InvalidPackage => "invalid_package"@,
        PluginManagementErrorKind::Incompatible => "incompatible"@,
        PluginManagementErrorKind::Installation => "installation"@,
        PluginManagementErrorKind::Removal => "removal"@,
        PluginManagementErrorKind::Storage => "storage"@,
    }
}

/// The stable label of an error kind, as shown in the settings window.
pub fn error_kind_label(kind: PluginManagementErrorKind) -> (result: &'static str)
    ensures
        result@ == spec_error_kind_label(kind),
{
    match kind {
        PluginManagementErrorKind::InvalidPackage => "invalid_package",
        PluginManagementErrorKind::Incompatible => "incompatible",
        PluginManagementErrorKind::Installation => "installation",
        PluginManagementErrorKind::Removal => "removal",
        PluginManagementErrorKind::Storage => "storage",
    }
}

/// A plugin found on disk: the directory it was loaded from and what its
/// manifest says.
#[derive(Debug, Clone, PartialEq, Eq)]
pub struct InstalledPluginInfo {
    pub root: String,
    pub id: String,
    pub name: String,
    pub version: String,
    pub permissions: Vec<String>,
}

/// A plugin as the settings window lists it.
#[derive(Debug, Clone, PartialEq, Eq)]
pub struct ManagedPlugin {
    pub id: String,
    pub name: String,
    pub version: String,
    pub install_directory: String,
    pub permissions: Vec<String>,
}

/// The plain value of a listed plugin.
pub struct ManagedView {
    pub id: Seq<char>,
    pub name: Seq<char>,
    pub version: Seq<char>,
    pub install_directory: Seq<char>,
    pub permissions: Seq<Seq<char>>,
}

impl View for ManagedPlugin {
    type V = ManagedView;

    open spec fn view(&self) -> ManagedView {
        ManagedView {
            id: self.id@,
            name: self.name@,
            version: self.version@,
            install_directory: self.install_directory@,
            permissions: views(self.permissions@),
        }
    }
}

/// The views of a list of plugins.
pub open spec fn managed_views(items: Seq<ManagedPlugin>) -> Seq<ManagedView> {
    items.map_values(|p: ManagedPlugin| p@)
}

/// Copies a list of strings.
fn copy_strings(items: &Vec<String>) -> (result: Vec<String>)
    ensures
        views(result@) == views(items@),
{
    let mut result: Vec<String> = Vec::new();
    let mut i: usize = 0;
    while i < items.len()
        invariant
            i <= items.len(),
            views(result@) == views(items@).take(i as int),
        decreases items.len() - i,
    {
        let item = items[i].clone();
        assert(item@ == views(items@)[i as int]);
        let ghost before = result@;
        result.push(item);
        assert(views(result@) =~= views(before).push(item@));
        i = i + 1;
        assert(views(result@) =~= views(items@).take(i as int));
    }
    assert(views(items@).take(items.len() as int) =~= views(items@));
    result
}

impl ManagedPlugin {
    /// The listing of an installed plugin: its install directory is the
    /// final name of its root directory, or its id when the root has none.
    pub fn from_installed(plugin: &InstalledPluginInfo) -> (result: ManagedPlugin)
        ensures
            result@.id == plugin.id@,
            result@.name == plugin.name@,
            result@.version == plugin.version@,
            result@.permissions == views(plugin.permissions@),
            result@.install_directory == (match crate::text::file_name(plugin.root@, false) {
                Some(name) => name,
                None => plugin.id@,
            }),
    {
        let install_directory = match crate::text::file_name_exec(&crate::text::chars_of(&plugin.root), false) {
            Some(name) => crate::text::string_from_chars(&name),
            None => plugin.id.clone(),
        };
        ManagedPlugin {
            id: plugin.id.clone(),
            name: plugin.name.clone(),
            version: plugin.version.clone(),
            install_directory,
            permissions: copy_strings(&plugin.permissions),
        }
    }

    /// Copies a listed plugin.
    pub fn duplicate(&self) -> (result: ManagedPlugin)
        ensures
            result@ == self@,
    {
        ManagedPlugin {
            id: self.id.clone(),
            name: self.name.clone(),
            version: self.version.clone(),
            install_directory: self.install_directory.clone(),
            permissions: copy_strings(&self.permissions),
        }
    }
}

/// Every listed plugin sorts by name no earlier than the ones before it.
pub open spec fn sorted_by_name(items: Seq<ManagedView>) -> bool {
    forall|i: int, j: int|
        0 <= i < j < items.len() ==> !lex_lt(#[trigger] items[j].name, #[trigger] items[i].name)
}

/// Where a plugin named `name` goes in a list sorted by name: before the
/// first plugin whose name sorts after it, so that equal names keep their
/// order and it follows them.
pub open spec fn first_after(items: Seq<ManagedView>, name: Seq<char>, i: int) -> int
    decreases items.len() - i,
{
    if i < 0 || i >= items.len() {
        items.len() as int
    } else if lex_lt(name, items[i].name) {
        i
    } else {
        first_after(items, name, i + 1)
    }
}

/// What recording an installed plugin makes of a list: any plugin with the
/// same id is dropped, and the plugin is inserted at its place by name.
pub open spec fn record_in(items: Seq<ManagedView>, plugin: ManagedView) -> Seq<ManagedView> {
    let kept = items.filter(|p: ManagedView| p.id != plugin.id);
    kept.insert(first_after(kept, plugin.name, 0), plugin)
}

/// What a plugin operation shows.
#[derive(Debug, Clone, PartialEq, Eq)]
pub enum PluginManagementStatus {
    Idle,
    Inspecting,
    AwaitingConfirmation,
    Installing,
    Installed { name: String, version: String, restart_required: bool },
    Removing { plugin_id: String },
    Removed { name: String, restart_required: bool },
    Error { kind: PluginManagementErrorKind, message: String },
}

/// A package that passed every check, at the path it was read from.
#[derive(Debug, Clone, PartialEq, Eq)]
pub struct VerifiedPluginPackage {
    pub archive_path: String,
    pub manifest: PluginPackageManifest,
}

/// A verified package waiting for the user to confirm its installation.
#[derive(Debug, Clone, PartialEq, Eq)]
pub struct PendingPluginInstall {
    pub package: VerifiedPluginPackage,
    pub name: String,
    pub permissions: Vec<String>,
    pub installed_version: Option<String>,
}

/// The state of plugin management.
pub struct PluginManagementState {
    pub installed: Vec<ManagedPlugin>,
    pub pending: Option<PendingPluginInstall>,
    pub status: PluginManagementStatus,
    pub generation: u64,
}

/// The generation after `g`, wrapping to zero after the largest value.
pub open spec fn next_generation(g: u64) -> u64 {
    if g == u64::MAX {
        0
    } else {
        (g + 1) as u64
    }
}

/// `list` with `plugin` inserted at its place by name.
pub open spec fn insert_by_name(items: Seq<ManagedView>, plugin: ManagedView) -> Seq<ManagedView> {
    items.insert(first_after(items, plugin.name, 0), plugin)
}

/// The stable sort of a list by name: each plugin in turn is inserted at
/// its place, after the equal names already there.
pub open spec fn sort_by_name(items: Seq<ManagedView>) -> Seq<ManagedView>
    decreases items.len(),
{
    if items.len() == 0 {
        items
    } else {
        insert_by_name(sort_by_name(items.drop_last()), items.last())
    }
}

/// `first_after` lies between `i` and the length, every plugin from `i`
/// before it sorts no later than `name`, and the plugin at it sorts after.
pub proof fn lemma_first_after(items: Seq<ManagedView>, name: Seq<char>, i: int)
    requires
        0 <= i <= items.len(),
    ensures
        i <= first_after(items, name, i) <= items.len(),
        forall|k: int| i <= k < first_after(items, name, i) ==> !lex_lt(name, #[trigger] items[k].name),
        first_after(items, name, i) < items.len() ==> lex_lt(name, items[first_after(items, name, i)].name),
    decreases items.len() - i,
{
    if i < items.len() && !lex_lt(name, items[i].name) {
        lemma_first_after(items, name, i + 1);
    }
}

/// Inserting a plugin at its place keeps a list sorted by name.
pub proof fn lemma_insert_keeps_sorted(items: Seq<ManagedView>, plugin: ManagedView)
    requires
        sorted_by_name(items),
    ensures
        sorted_by_name(insert_by_name(items, plugin)),
        insert_by_name(items, plugin).len() == items.len() + 1,
        insert_by_name(items, plugin).contains(plugin),
{
    lemma_first_after(items, plugin.name, 0);
    let k = first_after(items, plugin.name, 0);
    let out = insert_by_name(items, plugin);
    assert(out[k] == plugin);
    assert forall|i: int, j: int| 0 <= i < j < out.len() implies !lex_lt(
        #[trigger] out[j].name,
        #[trigger] out[i].name,
    ) by {
        if j < k {
            assert(out[i] == items[i] && out[j] == items[j]);
        } else if j == k {
            assert(out[i] == items[i]);
            crate::text::lemma_lex_trichotomy(plugin.name, items[i].name);
        } else if i == k {
            assert(out[j] == items[j - 1]);
            assert(lex_lt(plugin.name, items[k].name));
            if j - 1 > k {
                assert(!lex_lt(items[j - 1].name, items[k].name));
                crate::text::lemma_lex_trichotomy(items[k].name, items[j - 1].name);
                if lex_lt(items[k].name, items[j - 1].name) {
                    crate::text::lemma_lex_transitive(plugin.name, items[k].name, items[j - 1].name);
                }
            }
            crate::text::lemma_lex_trichotomy(plugin.name, items[j - 1].name);
        } else if i < k {
            assert(out[i] == items[i] && out[j] == items[j - 1]);
        } else {
            assert(out[i] == items[i - 1] && out[j] == items[j - 1]);
        }
    }
}

/// The stable sort by name is sorted and holds the same plugins.
pub proof fn lemma_sort_by_name(items: Seq<ManagedView>)
    ensures
        sorted_by_name(sort_by_name(items)),
        sort_by_name(items).to_multiset() == items.to_multiset(),
    decreases items.len(),
{
    if items.len() > 0 {
        let rest = sort_by_name(items.drop_last());
        lemma_sort_by_name(items.drop_last());
        lemma_insert_keeps_sorted(rest, items.last());
        lemma_first_after(rest, items.last().name, 0);
        let k = first_after(rest, items.last().name, 0);
        vstd::seq_lib::lemma_multiset_commutative(rest.take(k), rest.skip(k));
        assert(rest =~= rest.take(k) + rest.skip(k));
        assert(rest.insert(k, items.last()) =~= rest.take(k) + seq![items.last()] + rest.skip(k));
        vstd::seq_lib::lemma_multiset_commutative(rest.take(k) + seq![items.last()], rest.skip(k));
        vstd::seq_lib::lemma_multiset_commutative(rest.take(k), seq![items.last()]);
        assert(items =~= items.drop_last().push(items.last()));
        vstd::seq_lib::lemma_multiset_commutative(items.drop_last(), seq![items.last()]);
        assert(items.drop_last() + seq![items.last()] =~= items);
    }
}

/// Where a plugin named `name` goes in `items`.
fn position_after(items: &Vec<ManagedPlugin>, name: &str) -> (result: usize)
    ensures
        result as int == first_after(managed_views(items@), name@, 0),
{
    let ghost v = managed_views(items@);
    let key = crate::text::chars_of(name);
    let mut i: usize = 0;
    while i < items.len()
        invariant
            v == managed_views(items@),
            key@ == name@,
            i <= items.len(),
            first_after(v, name@, 0) == first_after(v, name@, i as int),
        decreases items.len() - i,
    {
        assert(v[i as int] == items@[i as int]@);
        let current = crate::text::chars_of(&items[i].name);
        if crate::text::compare_chars(&key, &current) < 0 {
            return i;
        }
        i = i + 1;
    }
    i
}

/// Inserts a plugin at its place by name.
fn insert_managed(items: &mut Vec<ManagedPlugin>, plugin: ManagedPlugin)
    ensures
        managed_views(final(items)@) == insert_by_name(managed_views(old(items)@), plugin@),
{
    let position = position_after(items, &plugin.name);
    proof {
        lemma_first_after(managed_views(items@), plugin@.name, 0);
    }
    let ghost before = items@;
    items.insert(position, plugin);
    assert(managed_views(items@) =~= managed_views(before).insert(position as int, plugin@));
}

/// The plain value of an installed plugin.
pub struct InstalledView {
    pub root: Seq<char>,
    pub id: Seq<char>,
    pub name: Seq<char>,
    pub version: Seq<char>,
    pub permissions: Seq<Seq<char>>,
}

impl View for InstalledPluginInfo {
    type V = InstalledView;

    open spec fn view(&self) -> InstalledView {
        InstalledView {
            root: self.root@,
            id: self.id@,
            name: self.name@,
            version: self.version@,
            permissions: views(self.permissions@),
        }
    }
}

/// The listing of an installed plugin.
pub open spec fn spec_from_installed(p: InstalledView) -> ManagedView {
    ManagedView {
        id: p.id,
        name: p.name,
        version: p.version,
        install_directory: match crate::text::file_name(p.root, false) {
            Some(name) => name,
            None => p.id,
        },
        permissions: p.permissions,
    }
}

/// The listings of the first `n` plugins whose root's parent is `root`.
pub open spec fn listed_under(plugins: Seq<InstalledView>, root: Seq<char>, n: int) -> Seq<ManagedView>
    decreases n,
{
    if n <= 0 {
        Seq::empty()
    } else if crate::text::parent(plugins[n - 1].root, false) == Some(root) {
        listed_under(plugins, root, n - 1).push(spec_from_installed(plugins[n - 1]))
    } else {
        listed_under(plugins, root, n - 1)
    }
}

/// The plugins that live directly in the per-user plugin directory (the
/// parent of their root is, as text, that directory), sorted stably by
/// name; none when that directory is unknown.
pub open spec fn spec_managed_plugins(plugins: Seq<InstalledView>, user_root: Option<Seq<char>>) -> Seq<ManagedView> {
    match user_root {
        None => Seq::empty(),
        Some(root) => sort_by_name(listed_under(plugins, root, plugins.len() as int)),
    }
}

/// Lists the plugins the user installed, sorted by name.
pub fn managed_plugins(plugins: &Vec<InstalledPluginInfo>, user_root: Option<&str>) -> (result: Vec<
    ManagedPlugin,
>)
    ensures
        managed_views(result@) == spec_managed_plugins(
            plugins@.map_values(|p: InstalledPluginInfo| p@),
            crate::package_checks::opt_text(user_root),
        ),
{
    let mut result: Vec<ManagedPlugin> = Vec::new();
    let root = match user_root {
        None => {
            assert(managed_views(result@) =~= Seq::<ManagedView>::empty());
            return result;
        },
        Some(r) => crate::text::chars_of(r),
    };
    let ghost all = plugins@.map_values(|p: InstalledPluginInfo| p@);
    let mut i: usize = 0;
    while i < plugins.len()
        invariant
            all == plugins@.map_values(|p: InstalledPluginInfo| p@),
            user_root matches Some(r) && root@ == r@,
            i <= plugins.len(),
            managed_views(result@) == sort_by_name(listed_under(all, root@, i as int)),
        decreases plugins.len() - i,
    {
        let plugin = &plugins[i];
        assert(all[i as int] == plugin@);
        let under = match crate::text::parent_exec(&crate::text::chars_of(&plugin.root), false) {
            Some(p) => crate::text::chars_equal(&p, &root),
            None => false,
        };
        if under {
            let managed = ManagedPlugin::from_installed(plugin);
            assert(managed@ == spec_from_installed(all[i as int]));
            let ghost listed = listed_under(all, root@, i + 1);
            assert(listed.drop_last() =~= listed_under(all, root@, i as int));
            insert_managed(&mut result, managed);
        }
        i = i + 1;
    }
    result
}

impl PluginManagementState {
    /// The generation of the latest operation begun.
    pub open spec fn generation(&self) -> u64 {
        self.generation
    }

    /// The state for a freshly discovered set of plugins: the user's
    /// plugins listed by name, nothing pending, idle.
    pub fn from_registry(plugins: &Vec<InstalledPluginInfo>, user_root: Option<&str>) -> (result: Self)
        ensures
            managed_views(result.installed@) == spec_managed_plugins(
                plugins@.map_values(|p: InstalledPluginInfo| p@),
                crate::package_checks::opt_text(user_root),
            ),
            result.pending is None,
            result.status is Idle,
            result.generation() == 0,
    {
        PluginManagementState {
            installed: managed_plugins(plugins, user_root),
            pending: None,
            status: PluginManagementStatus::Idle,
            generation: 0,
        }
    }

    /// Replaces the installed list.
    pub fn refresh(&mut self, plugins: &Vec<InstalledPluginInfo>, user_root: Option<&str>)
        ensures
            managed_views(final(self).installed@) == spec_managed_plugins(
                plugins@.map_values(|p: InstalledPluginInfo| p@),
                crate::package_checks::opt_text(user_root),
            ),
            final(self).pending == old(self).pending,
            final(self).status == old(self).status,
            final(self).generation() == old(self).generation(),
    {
        self.installed = managed_plugins(plugins, user_root);
    }

    /// Records a newly installed plugin: any listing with its id is
    /// replaced, and it is placed by name.
    pub fn record_installed(&mut self, plugin: &InstalledPluginInfo)
        ensures
            managed_views(final(self).installed@) == record_in(
                managed_views(old(self).installed@),
                spec_from_installed(plugin@),
            ),
            final(self).pending == old(self).pending,
            final(self).status == old(self).status,
            final(self).generation() == old(self).generation(),
    {
        let managed = ManagedPlugin::from_installed(plugin);
        let ghost old_views = managed_views(self.installed@);
        let mut kept: Vec<ManagedPlugin> = Vec::new();
        let id = crate::text::chars_of(&managed.id);
        let mut i: usize = 0;
        while i < self.installed.len()
            invariant
                old_views == managed_views(self.installed@),
                id@ == managed@.id,
                i <= self.installed.len(),
                managed_views(kept@) == old_views.take(i as int).filter(
                    |p: ManagedView| p.id != managed@.id,
                ),
            decreases self.installed.len() - i,
        {
            let ghost before = managed_views(kept@);
            assert(old_views.take(i + 1).drop_last() =~= old_views.take(i as int));
            proof {
                reveal(Seq::filter);
            }
            assert(old_views[i as int] == self.installed@[i as int]@);
            if !crate::text::chars_equal(&crate::text::chars_of(&self.installed[i].id), &id) {
                let copy = self.installed[i].duplicate();
                kept.push(copy);
                assert(managed_views(kept@) =~= before.push(copy@));
            }
            i = i + 1;
        }
        assert(old_views.take(old_views.len() as int) =~= old_views);
        insert_managed(&mut kept, managed);
        self.installed = kept;
    }

    /// Begins inspecting a package: a new generation, nothing pending,
    /// and the status shows the inspection; gives the generation.
    pub fn begin_inspection(&mut self) -> (result: u64)
        ensures
            final(self).generation() == next_generation(old(self).generation()),
            result == final(self).generation(),
            final(self).pending is None,
            final(self).status is Inspecting,
            final(self).installed == old(self).installed,
    {
        self.generation = self.generation.wrapping_add(1);
        self.pending = None;
        self.status = PluginManagementStatus::Inspecting;
        self.generation
    }

    /// Whether `generation` is the latest operation begun.
    pub fn is_current(&self, generation: u64) -> (result: bool)
        ensures
            result == (self.generation() == generation),
    {
        self.generation == generation
    }

    /// Cancels the pending operation: a new generation, so that its
    /// completion is ignored, nothing pending, idle.
    pub fn cancel_pending(&mut self)
        ensures
            final(self).generation() == next_generation(old(self).generation()),
            final(self).pending is None,
            final(self).status is Idle,
            final(self).installed == old(self).installed,
    {
        self.generation = self.generation.wrapping_add(1);
        self.pending = None;
        self.status = PluginManagementStatus::Idle;
    }
}

impl PluginManagementState {
    /// Takes the result of an inspection begun at `generation`. A result
    /// of superseded work changes nothing; otherwise a verified package
    /// awaits confirmation, and a refused one shows its kind and message.
    /// Gives whether the result was taken.
    pub fn finish_inspection(
        &mut self,
        generation: u64,
        outcome: Result<PendingPluginInstall, (PluginPackageError, String)>,
    ) -> (result: bool)
        ensures
            result == (old(self).generation() == generation),
            !result ==> *final(self) == *old(self),
            final(self).generation() == old(self).generation(),
            final(self).installed == old(self).installed,
            result ==> (match outcome {
                Ok(pending) => final(self).pending == Some(pending) && final(self).status is AwaitingConfirmation,
                Err((error, message)) => final(self).pending is None && (final(self).status matches PluginManagementStatus::Error { kind, message: m } && kind == spec_package_error_kind(error@) && m == message),
            }),
    {
        if !self.is_current(generation) {
            return false;
        }
        match outcome {
            Ok(pending) => {
                self.pending = Some(pending);
                self.status = PluginManagementStatus::AwaitingConfirmation;
            },
            Err((error, message)) => {
                self.pending = None;
                self.status = PluginManagementStatus::Error { kind: package_error_kind(&error), message };
            },
        }
        true
    }

    /// Begins installing the pending package. Nothing happens without one;
    /// without a per-user plugin directory a storage error is shown;
    /// otherwise a new generation begins and the status shows the
    /// installation. Gives the generation when installation begins.
    pub fn begin_install(&mut self, plugin_root_available: bool) -> (result: Option<u64>)
        ensures
            final(self).installed == old(self).installed,
            final(self).pending == old(self).pending,
            old(self).pending is None ==> result is None && *final(self) == *old(self),
            old(self).pending is Some && !plugin_root_available ==> result is None
                && final(self).generation() == old(self).generation()
                && (final(self).status matches PluginManagementStatus::Error { kind, message }
                && kind == PluginManagementErrorKind::Storage
                && message@ == "the per-user plugin directory is unavailable"@),
            old(self).pending is Some && plugin_root_available ==> result == Some(final(self).generation())
                && final(self).generation() == next_generation(old(self).generation())
                && final(self).status is Installing,
    {
        if self.pending.is_none() {
            return None;
        }
        if !plugin_root_available {
            self.status = PluginManagementStatus::Error {
                kind: PluginManagementErrorKind::Storage,
                message: "the per-user plugin directory is unavailable".to_owned(),
            };
            return None;
        }
        self.status = PluginManagementStatus::Installing;
        self.generation = self.generation.wrapping_add(1);
        Some(self.generation)
    }

    /// Takes the result of an installation begun at `generation`: the
    /// installed plugin with the version installed and whether a restart is
    /// needed, or the failure's message. A result of superseded work
    /// changes nothing. On success the plugin is recorded, nothing is
    /// pending and the status shows it installed; on failure the status
    /// shows an installation error. Gives whether the result was taken.
    pub fn finish_install(
        &mut self,
        generation: u64,
        outcome: Result<(InstalledPluginInfo, String, bool), String>,
    ) -> (result: bool)
        ensures
            result == (old(self).generation() == generation),
            !result ==> *final(self) == *old(self),
            final(self).generation() == old(self).generation(),
            result ==> (match outcome {
                Ok((plugin, version, restart)) => {
                    &&& managed_views(final(self).installed@) == record_in(
                        managed_views(old(self).installed@),
                        spec_from_installed(plugin@),
                    )
                    &&& final(self).pending is None
                    &&& final(self).status matches PluginManagementStatus::Installed { name, version: v, restart_required }
                        && name@ == plugin@.name && v == version && restart_required == restart
                },
                Err(message) => final(self).installed == old(self).installed
                    && final(self).pending == old(self).pending
                    && (final(self).status matches PluginManagementStatus::Error { kind, message: m }
                    && kind == PluginManagementErrorKind::Installation && m == message),
            }),
    {
        if !self.is_current(generation) {
            return false;
        }
        match outcome {
            Ok((plugin, version, restart_required)) => {
                let name = plugin.name.clone();
                self.record_installed(&plugin);
                self.pending = None;
                self.status = PluginManagementStatus::Installed { name, version, restart_required };
            },
            Err(message) => {
                self.status = PluginManagementStatus::Error {
                    kind: PluginManagementErrorKind::Installation,
                    message,
                };
            },
        }
        true
    }
}

/// The first listed plugin with id `id`, from index `i` on.
pub open spec fn listed_index(items: Seq<ManagedView>, id: Seq<char>, i: int) -> Option<int>
    decreases items.len() - i,
{
    if i < 0 || i >= items.len() {
        None
    } else if items[i].id == id {
        Some(i)
    } else {
        listed_index(items, id, i + 1)
    }
}

/// A listed index is in bounds and holds a plugin with that id.
proof fn lemma_listed_index(items: Seq<ManagedView>, id: Seq<char>, i: int)
    ensures
        listed_index(items, id, i) matches Some(j) ==> i <= j < items.len() && items[j].id == id,
    decreases items.len() - i,
{
    if 0 <= i < items.len() && items[i].id != id {
        lemma_listed_index(items, id, i + 1);
    }
}

/// Finds the first listed plugin with id `id`.
pub fn find_listed(items: &Vec<ManagedPlugin>, id: &str) -> (result: Option<usize>)
    ensures
        (match listed_index(managed_views(items@), id@, 0) {
            Some(j) => result == Some(j as usize) && 0 <= j < items.len() && managed_views(items@)[j].id == id@,
            None => result is None,
        }),
{
    let ghost listed = managed_views(items@);
    proof {
        lemma_listed_index(listed, id@, 0);
    }
    let key = crate::text::chars_of(id);
    let mut i: usize = 0;
    while i < items.len()
        invariant
            listed == managed_views(items@),
            key@ == id@,
            i <= items.len(),
            listed_index(listed, id@, 0) == listed_index(listed, id@, i as int),
        decreases items.len() - i,
    {
        assert(listed[i as int] == items@[i as int]@);
        if crate::text::chars_equal(&crate::text::chars_of(&items[i].id), &key) {
            return Some(i);
        }
        i = i + 1;
    }
    None
}

impl PluginManagementState {
    /// Begins removing the listed plugin `plugin_id`. Nothing happens when
    /// it is not listed; without a per-user plugin directory a storage
    /// error is shown; while it is the active plugin a removal error is
    /// shown; otherwise a new generation begins and the status shows the
    /// removal. Gives the plugin and the generation when removal begins.
    pub fn begin_removal(
        &mut self,
        plugin_id: &str,
        plugin_root_available: bool,
        active_plugin_id: Option<&str>,
    ) -> (result: Option<(ManagedPlugin, u64)>)
        ensures
            final(self).installed == old(self).installed,
            final(self).pending == old(self).pending,
            (match listed_index(managed_views(old(self).installed@), plugin_id@, 0) {
                None => result is None && *final(self) == *old(self),
                Some(j) => if !plugin_root_available {
                    result is None && final(self).generation() == old(self).generation()
                        && (final(self).status matches PluginManagementStatus::Error { kind, message }
                        && kind == PluginManagementErrorKind::Storage
                        && message@ == "the per-user plugin directory is unavailable"@)
                } else if crate::package_checks::opt_text(active_plugin_id) == Some(plugin_id@) {
                    result is None && final(self).generation() == old(self).generation()
                        && (final(self).status matches PluginManagementStatus::Error { kind, message }
                        && kind == PluginManagementErrorKind::Removal
                        && message@ == "close the active plugin session before removing it"@)
                } else {
                    result matches Some((plugin, g)) && plugin@ == managed_views(old(self).installed@)[j]
                        && g == final(self).generation()
                        && final(self).generation() == next_generation(old(self).generation())
                        && (final(self).status matches PluginManagementStatus::Removing { plugin_id: removing }
                        && removing@ == plugin_id@)
                },
            }),
    {
        let index = match find_listed(&self.installed, plugin_id) {
            None => {
                return None;
            },
            Some(index) => index,
        };
        if !plugin_root_available {
            self.status = PluginManagementStatus::Error {
                kind: PluginManagementErrorKind::Storage,
                message: "the per-user plugin directory is unavailable".to_owned(),
            };
            return None;
        }
        let plugin = self.installed[index].duplicate();
        if let Some(active) = active_plugin_id {
            if crate::text::chars_equal(&crate::text::chars_of(active), &crate::text::chars_of(&plugin.id)) {
                self.status = PluginManagementStatus::Error {
                    kind: PluginManagementErrorKind::Removal,
                    message: "close the active plugin session before removing it".to_owned(),
                };
                return None;
            }
        }
        self.generation = self.generation.wrapping_add(1);
        self.status = PluginManagementStatus::Removing { plugin_id: plugin.id.clone() };
        Some((plugin, self.generation))
    }

    /// Takes the result of a removal begun at `generation`: the removed
    /// plugin's name and whether a restart is needed, or the failure's
    /// message. A result of superseded work changes nothing. On success the
    /// list is rebuilt from the plugins still found and the status shows
    /// the removal; on failure it shows a removal error. Gives whether the
    /// result was taken.
    pub fn finish_removal(
        &mut self,
        generation: u64,
        outcome: Result<(String, bool), String>,
        plugins: &Vec<InstalledPluginInfo>,
        user_root: Option<&str>,
    ) -> (result: bool)
        ensures
            result == (old(self).generation() == generation),
            !result ==> *final(self) == *old(self),
            final(self).generation() == old(self).generation(),
            final(self).pending == old(self).pending,
            result ==> (match outcome {
                Ok((name, restart)) => managed_views(final(self).installed@) == spec_managed_plugins(
                    plugins@.map_values(|p: InstalledPluginInfo| p@),
                    crate::package_checks::opt_text(user_root),
                ) && (final(self).status matches PluginManagementStatus::Removed { name: n, restart_required }
                    && n == name && restart_required == restart),
                Err(message) => final(self).installed == old(self).installed
                    && (final(self).status matches PluginManagementStatus::Error { kind, message: m }
                    && kind == PluginManagementErrorKind::Removal && m == message),
            }),
    {
        if !self.is_current(generation) {
            return false;
        }
        match outcome {
            Ok((name, restart_required)) => {
                self.refresh(plugins, user_root);
                self.status = PluginManagementStatus::Removed { name, restart_required };
            },
            Err(message) => {
                self.status = PluginManagementStatus::Error {
                    kind: PluginManagementErrorKind::Removal,
                    message,
                };
            },
        }
        true
    }
}

/// Recording an installed plugin keeps the list sorted by name, lists the
/// plugin, and leaves no other listing with its id.
pub proof fn lemma_record_keeps_listing_sorted(items: Seq<ManagedView>, plugin: ManagedView)
    requires
        sorted_by_name(items),
    ensures
        sorted_by_name(record_in(items, plugin)),
        record_in(items, plugin).contains(plugin),
        forall|i: int|
            0 <= i < record_in(items, plugin).len() && #[trigger] record_in(items, plugin)[i].id == plugin.id
                ==> record_in(items, plugin)[i] == plugin,
{
    let kept = items.filter(|p: ManagedView| p.id != plugin.id);
    lemma_filter_keeps_sorted(items, plugin.id);
    lemma_insert_keeps_sorted(kept, plugin);
    lemma_first_after(kept, plugin.name, 0);
    let k = first_after(kept, plugin.name, 0);
    let out = record_in(items, plugin);
    assert forall|i: int| 0 <= i < out.len() && #[trigger] out[i].id == plugin.id implies out[i] == plugin by {
        if i < k {
            assert(out[i] == kept[i]);
            items.lemma_filter_pred(|p: ManagedView| p.id != plugin.id, i);
        } else if i > k {
            assert(out[i] == kept[i - 1]);
            items.lemma_filter_pred(|p: ManagedView| p.id != plugin.id, i - 1);
        }
    }
}

/// Dropping the plugins with one id keeps a list sorted by name.
proof fn lemma_filter_keeps_sorted(items: Seq<ManagedView>, id: Seq<char>)
    requires
        sorted_by_name(items),
    ensures
        sorted_by_name(items.filter(|p: ManagedView| p.id != id)),
    decreases items.len(),
{
    reveal(Seq::filter);
    if items.len() > 0 {
        let rest = items.drop_last();
        assert(sorted_by_name(rest)) by {
            assert forall|i: int, j: int| 0 <= i < j < rest.len() implies !lex_lt(
                #[trigger] rest[j].name,
                #[trigger] rest[i].name,
            ) by {
                assert(rest[i] == items[i] && rest[j] == items[j]);
            }
        }
        lemma_filter_keeps_sorted(rest, id);
        let sub = rest.filter(|p: ManagedView| p.id != id);
        if items.last().id != id {
            assert forall|i: int| 0 <= i < sub.len() implies !lex_lt(items.last().name, #[trigger] sub[i].name) by {
                rest.lemma_filter_contains_rev(|p: ManagedView| p.id != id, sub[i]);
                let k = choose|k: int| 0 <= k < rest.len() && rest[k] == sub[i];
                assert(items[k] == sub[i]);
                assert(!lex_lt(items[items.len() - 1].name, items[k].name));
            }
            let out = sub.push(items.last());
            assert forall|i: int, j: int| 0 <= i < j < out.len() implies !lex_lt(
                #[trigger] out[j].name,
                #[trigger] out[i].name,
            ) by {
                if j == out.len() - 1 {
                    assert(out[i] == sub[i]);
                } else {
                    assert(out[i] == sub[i] && out[j] == sub[j]);
                }
            }
        }
    }
}

/// Beginning an operation makes every earlier generation stale: a result
/// that arrives for it is not taken.
pub proof fn lemma_new_generation_is_fresh(g: u64)
    ensures
        next_generation(g) != g,
{
}


/// A permission a plugin asks for.
#[derive(Debug, Clone, PartialEq, Eq)]
pub enum PluginPermission {
    ReadInputPath,
    WriteTemporaryOutput,
    Network,
    /// Reading the named configuration secret.
    ReadConfigSecret(String),
}

/// How a permission is written in the plugin settings.
pub open spec fn spec_permission_label(permission: PluginPermission) -> Seq<char> {
    match permission {
        PluginPermission::ReadInputPath => "read_input_path"@,
        PluginPermission::WriteTemporaryOutput => "write_temporary_output"@,
        PluginPermission::Network => "network"@,
        PluginPermission::ReadConfigSecret(name) => "read_config_secret:"@ + name@,
    }
}

/// Writes a permission as the plugin settings show it.
pub fn permission_label(permission: &PluginPermission) -> (result: String)
    ensures
        result@ == spec_permission_label(*permission),
{
    match permission {
        PluginPermission::ReadInputPath => "read_input_path".to_owned(),
        PluginPermission::WriteTemporaryOutput => "write_temporary_output".to_owned(),
        PluginPermission::Network => "network".to_owned(),
        PluginPermission::ReadConfigSecret(name) => crate::text::concat2("read_config_secret:", name.as_str()),
    }
}

/// The permissions a plugin asks for, written one after another and
/// separated by `, `; `none` (the text shown for no permission) when there
/// is none.
pub fn permission_summary(permissions: &Vec<PluginPermission>, none: &str) -> (result: String)
    ensures
        permissions@.len() == 0 ==> result@ == none@,
        permissions@.len() > 0 ==> result@ == crate::association_formats::join_with(
            permissions@.map_values(|p: PluginPermission| spec_permission_label(p)),
            ", "@,
        ),
{
    if permissions.len() == 0 {
        return crate::text::string_from_chars(&crate::text::chars_of(none));
    }
    let mut labels: Vec<String> = Vec::new();
    let mut i: usize = 0;
    while i < permissions.len()
        invariant
            i <= permissions.len(),
            views(labels@) == permissions@.take(i as int).map_values(|p: PluginPermission| spec_permission_label(p)),
        decreases permissions.len() - i,
    {
        let label = permission_label(&permissions[i]);
        let ghost before = views(labels@);
        labels.push(label);
        assert(views(labels@) =~= before.push(spec_permission_label(permissions@[i as int])));
        assert(permissions@.take(i + 1).map_values(|p: PluginPermission| spec_permission_label(p))
            =~= permissions@.take(i as int).map_values(|p: PluginPermission| spec_permission_label(p)).push(
            spec_permission_label(permissions@[i as int]),
        ));
        i = i + 1;
    }
    assert(permissions@.take(permissions@.len() as int) =~= permissions@);
    crate::association_formats::join_strings(&labels, ", ")
}

/// The permission written `name` on its own, as a plugin index lists it.
pub open spec fn spec_permission_named(name: Seq<char>) -> Option<PluginPermission> {
    if name == "read_input_path"@ {
        Some(PluginPermission::ReadInputPath)
    } else if name == "write_temporary_output"@ {
        Some(PluginPermission::WriteTemporaryOutput)
    } else if name == "network"@ {
        Some(PluginPermission::Network)
    } else {
        None
    }
}

/// Reads a permission written as a bare name; `None` for a name that is
/// not one of them.
pub fn permission_named(name: &str) -> (result: Option<PluginPermission>)
    ensures
        result == spec_permission_named(name@),
{
    let chars = crate::text::chars_of(name);
    if crate::text::chars_equal(&chars, &crate::text::chars_of("read_input_path")) {
        Some(PluginPermission::ReadInputPath)
    } else if crate::text::chars_equal(&chars, &crate::text::chars_of("write_temporary_output")) {
        Some(PluginPermission::WriteTemporaryOutput)
    } else if crate::text::chars_equal(&chars, &crate::text::chars_of("network")) {
        Some(PluginPermission::Network)
    } else {
        None
    }
}

/// Reads a permission written as a key with a detail: the configuration
/// secret `detail` for the key `read_config_secret`; `None` for another key.
pub fn permission_with_detail(key: &str, detail: &str) -> (result: Option<PluginPermission>)
    ensures
        key@ == "read_config_secret"@ ==> (result matches Some(PluginPermission::ReadConfigSecret(name)) && name@
            == detail@),
        key@ != "read_config_secret"@ ==> result is None,
{
    if crate::text::chars_equal(&crate::text::chars_of(key), &crate::text::chars_of("read_config_secret")) {
        Some(PluginPermission::ReadConfigSecret(crate::text::string_from_chars(&crate::text::chars_of(detail))))
    } else {
        None
    }
}

} // verus!
