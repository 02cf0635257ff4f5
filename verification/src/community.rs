//! The community plugin index: its data, search, the choice of the version
//! and artifact to install on this host, and the browser's state.
use vstd::prelude::*;
use crate::digest::{unicode_lowercase, unicode_trim};
use crate::text::{contains_seq, views};
use crate::versions::{semver_less, semver_valid, SemanticVersion};

verus! {

/// The highest index schema this build reads.
pub const COMMUNITY_INDEX_SCHEMA_VERSION: u32 = 1;

/// Largest package download accepted, in bytes.
pub const MAX_PACKAGE_DOWNLOAD_BYTES: u64 = 134217728;

/// One downloadable package of a plugin version.
#[derive(Debug, Clone, PartialEq, Eq)]
pub struct CommunityArtifact {
    pub target_os: String,
    pub target_arch: String,
    pub url: String,
    pub sha256: String,
    pub size: u64,
}

/// One published version of a community plugin.
#[derive(Debug, Clone, PartialEq, Eq)]
pub struct CommunityPluginVersion {
    pub version: String,
    pub minimum_lumia_version: String,
    pub plugin_api_version: u32,
    pub install_directory: String,
    pub artifacts: Vec<CommunityArtifact>,
}

/// The author of a community plugin.
#[derive(Debug, Clone, PartialEq, Eq)]
pub struct CommunityAuthor {
    pub name: String,
    pub url: Option<String>,
}

/// A plugin listed in the community index.
#[derive(Debug, Clone, PartialEq, Eq)]
pub struct CommunityPlugin {
    pub id: String,
    pub name: String,
    pub description: String,
    pub author: Option<CommunityAuthor>,
    pub tags: Vec<String>,
    pub permissions: Vec<String>,
    pub repository: Option<String>,
    pub website: Option<String>,
    pub versions: Vec<CommunityPluginVersion>,
}

/// The community index.
#[derive(Debug, Clone, PartialEq, Eq)]
pub struct CommunityIndex {
    pub schema_version: u32,
    pub index_version: String,
    pub plugins: Vec<CommunityPlugin>,
}

/// Whether this build reads an index of `schema_version`; newer schemas
/// are refused rather than misread.
pub fn index_schema_supported(schema_version: u32) -> (result: bool)
    ensures
        result == (schema_version <= COMMUNITY_INDEX_SCHEMA_VERSION),
{
    schema_version <= COMMUNITY_INDEX_SCHEMA_VERSION
}

/// The index of the first artifact of `v` built for `os` and `arch`.
pub open spec fn host_artifact(v: CommunityPluginVersion, os: Seq<char>, arch: Seq<char>, i: int) -> Option<int>
    decreases v.artifacts@.len() - i,
{
    if i < 0 || i >= v.artifacts@.len() {
        None
    } else if v.artifacts@[i].target_os@ == os && v.artifacts@[i].target_arch@ == arch {
        Some(i)
    } else {
        host_artifact(v, os, arch, i + 1)
    }
}

/// A host artifact index is in bounds and built for that host.
proof fn lemma_host_artifact(v: CommunityPluginVersion, os: Seq<char>, arch: Seq<char>, i: int)
    ensures
        host_artifact(v, os, arch, i) matches Some(j) ==> i <= j < v.artifacts@.len()
            && v.artifacts@[j].target_os@ == os && v.artifacts@[j].target_arch@ == arch,
    decreases v.artifacts@.len() - i,
{
    if 0 <= i < v.artifacts@.len() && !(v.artifacts@[i].target_os@ == os && v.artifacts@[i].target_arch@
        == arch) {
        lemma_host_artifact(v, os, arch, i + 1);
    }
}

/// The text a version sorts by: its version, or `0.0.0` when that is not
/// a semantic version.
pub open spec fn version_key(text: Seq<char>) -> Seq<char> {
    if semver_valid(text) {
        text
    } else {
        "0.0.0"@
    }
}

/// Whether a listed version may run on this build: its plugin API is
/// unspecified (0) or the host's, and its minimum Lumia version, when it is
/// a semantic version, is not above the current one.
pub open spec fn spec_is_compatible(v: CommunityPluginVersion, current: Seq<char>, host_api: u32) -> bool {
    if v.plugin_api_version != 0 && v.plugin_api_version != host_api {
        false
    } else if !semver_valid(v.minimum_lumia_version@) {
        true
    } else {
        !semver_less(current, v.minimum_lumia_version@)
    }
}

/// The version considered for installation among the first `n`: the one
/// with the highest version key among those with an artifact for this
/// host (and, when `compatible_only`, compatible with this build); the
/// last of equal keys wins.
pub open spec fn best_version_upto(
    versions: Seq<CommunityPluginVersion>,
    os: Seq<char>,
    arch: Seq<char>,
    compatible_only: bool,
    current: Seq<char>,
    host_api: u32,
    n: int,
) -> Option<int>
    decreases n,
{
    if n <= 0 {
        None
    } else {
        let prev = best_version_upto(versions, os, arch, compatible_only, current, host_api, n - 1);
        let v = versions[n - 1];
        if host_artifact(v, os, arch, 0) is Some && (!compatible_only || spec_is_compatible(
            v,
            current,
            host_api,
        )) {
            match prev {
                None => Some(n - 1),
                Some(b) => if semver_less(version_key(v.version@), version_key(versions[b].version@)) {
                    Some(b)
                } else {
                    Some(n - 1)
                },
            }
        } else {
            prev
        }
    }
}

/// The chosen version is in bounds and has an artifact for the host.
proof fn lemma_best_version_upto(
    versions: Seq<CommunityPluginVersion>,
    os: Seq<char>,
    arch: Seq<char>,
    compatible_only: bool,
    current: Seq<char>,
    host_api: u32,
    n: int,
)
    requires
        n <= versions.len(),
    ensures
        best_version_upto(versions, os, arch, compatible_only, current, host_api, n) matches Some(b)
            ==> 0 <= b < n && host_artifact(versions[b], os, arch, 0) is Some && (!compatible_only
            || spec_is_compatible(versions[b], current, host_api)),
    decreases n,
{
    if n > 0 {
        lemma_best_version_upto(versions, os, arch, compatible_only, current, host_api, n - 1);
    }
}

/// The plugin API version this build speaks.
pub const PLUGIN_PROTOCOL_VERSION: u32 = 3;

/// Finds the first artifact of `v` built for `os` and `arch`.
fn find_host_artifact(v: &CommunityPluginVersion, os: &str, arch: &str) -> (result: Option<usize>)
    ensures
        (match result {
            Some(k) => host_artifact(*v, os@, arch@, 0) == Some(k as int),
            None => host_artifact(*v, os@, arch@, 0) is None,
        }),
{
    proof {
        lemma_host_artifact(*v, os@, arch@, 0);
    }
    let os_chars = crate::text::chars_of(os);
    let arch_chars = crate::text::chars_of(arch);
    let mut i: usize = 0;
    while i < v.artifacts.len()
        invariant
            os_chars@ == os@,
            arch_chars@ == arch@,
            i <= v.artifacts.len(),
            host_artifact(*v, os@, arch@, 0) == host_artifact(*v, os@, arch@, i as int),
        decreases v.artifacts.len() - i,
    {
        let artifact = &v.artifacts[i];
        if crate::text::chars_equal(&crate::text::chars_of(&artifact.target_os), &os_chars)
            && crate::text::chars_equal(&crate::text::chars_of(&artifact.target_arch), &arch_chars) {
            return Some(i);
        }
        i = i + 1;
    }
    None
}

/// Whether a listed version may run on this build (advisory: the signed
/// package is checked again when it is installed).
pub fn is_compatible(version: &CommunityPluginVersion, current_lumia: &SemanticVersion) -> (result: bool)
    ensures
        result == spec_is_compatible(*version, current_lumia@, PLUGIN_PROTOCOL_VERSION),
{
    if version.plugin_api_version != 0 && version.plugin_api_version != PLUGIN_PROTOCOL_VERSION {
        return false;
    }
    match SemanticVersion::parse(&version.minimum_lumia_version) {
        None => true,
        Some(minimum) => !current_lumia.less_than(&minimum),
    }
}

/// The version key of a listed version.
fn version_key_exec(text: &str) -> (result: SemanticVersion)
    ensures
        result@ == version_key(text@),
{
    match SemanticVersion::parse(text) {
        Some(v) => v,
        None => crate::versions::zero_version(),
    }
}

/// The version a plugin card shows among the first `n` listed versions:
/// the highest by `version_key`, the last of equal keys winning (as
/// `Iterator::max_by` picks).
pub open spec fn shown_version_upto(versions: Seq<CommunityPluginVersion>, n: int) -> Option<int>
    decreases n,
{
    if n <= 0 {
        None
    } else {
        match shown_version_upto(versions, n - 1) {
            None => Some(n - 1),
            Some(b) => if semver_less(version_key(versions[n - 1].version@), version_key(versions[b].version@)) {
                Some(b)
            } else {
                Some(n - 1)
            },
        }
    }
}

/// The version text a plugin card shows: that of the highest listed
/// version, or nothing when none is listed.
pub open spec fn spec_displayed_version(plugin: CommunityPlugin) -> Seq<char> {
    match shown_version_upto(plugin.versions@, plugin.versions@.len() as int) {
        Some(i) => plugin.versions@[i].version@,
        None => Seq::empty(),
    }
}

/// The version text shown on a community plugin's card.
pub fn displayed_version(plugin: &CommunityPlugin) -> (result: String)
    ensures
        result@ == spec_displayed_version(*plugin),
{
    let mut best: Option<usize> = None;
    let mut best_key: Option<SemanticVersion> = None;
    let mut i: usize = 0;
    while i < plugin.versions.len()
        invariant
            i <= plugin.versions.len(),
            best == (match shown_version_upto(plugin.versions@, i as int) {
                Some(b) => Some(b as usize),
                None => None::<usize>,
            }),
            shown_version_upto(plugin.versions@, i as int) matches Some(b) ==> 0 <= b < i,
            best is Some <==> best_key is Some,
            best matches Some(b) ==> best_key matches Some(k) && k@ == version_key(plugin.versions@[b as int].version@),
        decreases plugin.versions.len() - i,
    {
        let key = version_key_exec(&plugin.versions[i].version);
        let keep = match &best_key {
            Some(k) => key.less_than(k),
            None => false,
        };
        if !keep {
            best = Some(i);
            best_key = Some(key);
        }
        i = i + 1;
    }
    match best {
        Some(b) => plugin.versions[b].version.clone(),
        None => String::new(),
    }
}

/// Chooses the version and artifact to install, as `best_version_upto`.
fn best_for_host(
    plugin: &CommunityPlugin,
    os: &str,
    arch: &str,
    compatible_only: bool,
    current: &SemanticVersion,
) -> (result: Option<(usize, usize)>)
    ensures
        (match best_version_upto(
            plugin.versions@,
            os@,
            arch@,
            compatible_only,
            current@,
            PLUGIN_PROTOCOL_VERSION,
            plugin.versions@.len() as int,
        ) {
            Some(b) => 0 <= b < plugin.versions@.len() && (result matches Some((vi, ai)) && vi == b && host_artifact(
                plugin.versions@[b],
                os@,
                arch@,
                0,
            ) == Some(ai as int)),
            None => result is None,
        }),
{
    let ghost versions = plugin.versions@;
    let mut best: Option<(usize, usize, SemanticVersion)> = None;
    let mut i: usize = 0;
    while i < plugin.versions.len()
        invariant
            versions == plugin.versions@,
            i <= versions.len(),
            (match best_version_upto(versions, os@, arch@, compatible_only, current@, PLUGIN_PROTOCOL_VERSION, i as int) {
                Some(b) => best matches Some((vi, ai, key)) && vi == b && host_artifact(versions[b], os@, arch@, 0)
                    == Some(ai as int) && key@ == version_key(versions[b].version@),
                None => best is None,
            }),
        decreases versions.len() - i,
    {
        proof {
            lemma_best_version_upto(versions, os@, arch@, compatible_only, current@, PLUGIN_PROTOCOL_VERSION, i as int);
        }
        let version = &plugin.versions[i];
        assert(versions[i as int] == *version);
        let found = find_host_artifact(version, os, arch);
        let compatible = !compatible_only || is_compatible(version, current);
        match found {
            Some(ai) => {
                if compatible {
                    let key = version_key_exec(&version.version);
                    let replace = match &best {
                        None => true,
                        Some(entry) => !key.less_than(&entry.2),
                    };
                    if replace {
                        best = Some((i, ai, key));
                    }
                }
            },
            None => {},
        }
        i = i + 1;
    }
    proof {
        lemma_best_version_upto(versions, os@, arch@, compatible_only, current@, PLUGIN_PROTOCOL_VERSION, versions.len() as int);
    }
    match best {
        None => None,
        Some((vi, ai, _)) => Some((vi, ai)),
    }
}

/// The version and artifact to install on this host regardless of
/// compatibility: among versions with an artifact for `os` and `arch`, the
/// highest version (unparsable versions sort as `0.0.0`; of equal versions
/// the last listed wins). Gives their indices.
pub fn best_artifact_for_host(plugin: &CommunityPlugin, os: &str, arch: &str) -> (result: Option<
    (usize, usize),
>)
    ensures
        (match best_version_upto(
            plugin.versions@,
            os@,
            arch@,
            false,
            Seq::empty(),
            PLUGIN_PROTOCOL_VERSION,
            plugin.versions@.len() as int,
        ) {
            Some(b) => 0 <= b < plugin.versions@.len() && (result matches Some((vi, ai)) && vi == b && host_artifact(
                plugin.versions@[b],
                os@,
                arch@,
                0,
            ) == Some(ai as int)),
            None => result is None,
        }),
{
    let current = crate::versions::zero_version();
    let result = best_for_host(plugin, os, arch, false, &current);
    proof {
        lemma_best_ignores_current(plugin.versions@, os@, arch@, current@, Seq::empty(), plugin.versions@.len() as int);
    }
    result
}

/// Without the compatibility filter, the current version plays no part.
proof fn lemma_best_ignores_current(
    versions: Seq<CommunityPluginVersion>,
    os: Seq<char>,
    arch: Seq<char>,
    a: Seq<char>,
    b: Seq<char>,
    n: int,
)
    ensures
        best_version_upto(versions, os, arch, false, a, PLUGIN_PROTOCOL_VERSION, n)
            == best_version_upto(versions, os, arch, false, b, PLUGIN_PROTOCOL_VERSION, n),
    decreases n,
{
    if n > 0 {
        lemma_best_ignores_current(versions, os, arch, a, b, n - 1);
    }
}

/// Like `best_artifact_for_host`, among the versions compatible with the
/// running build only.
pub fn best_compatible_artifact_for_host(
    plugin: &CommunityPlugin,
    current_lumia: &SemanticVersion,
    os: &str,
    arch: &str,
) -> (result: Option<(usize, usize)>)
    ensures
        (match best_version_upto(
            plugin.versions@,
            os@,
            arch@,
            true,
            current_lumia@,
            PLUGIN_PROTOCOL_VERSION,
            plugin.versions@.len() as int,
        ) {
            Some(b) => 0 <= b < plugin.versions@.len() && (result matches Some((vi, ai)) && vi == b && host_artifact(
                plugin.versions@[b],
                os@,
                arch@,
                0,
            ) == Some(ai as int)),
            None => result is None,
        }),
{
    best_for_host(plugin, os, arch, true, current_lumia)
}

/// The texts a search looks in: the id, name and description, the tags,
/// and the author's name when there is one.
pub open spec fn haystacks(p: CommunityPlugin) -> Seq<Seq<char>> {
    seq![p.id@, p.name@, p.description@] + views(p.tags@) + match p.author {
        Some(a) => seq![a.name@],
        None => Seq::<Seq<char>>::empty(),
    }
}

/// Whether a plugin matches a search: the query, trimmed and lowercased,
/// is empty or occurs in one of its lowercased texts.
pub open spec fn spec_matches_query(p: CommunityPlugin, query: Seq<char>) -> bool {
    let q = unicode_lowercase(unicode_trim(query));
    q.len() == 0 || exists|i: int|
        0 <= i < haystacks(p).len() && contains_seq(unicode_lowercase(#[trigger] haystacks(p)[i]), q)
}

/// Whether the lowercased `text` holds the lowercased query `q`.
fn text_holds(text: &str, q: &Vec<char>) -> (result: bool)
    ensures
        result == contains_seq(unicode_lowercase(text@), q@),
{
    let lowered = crate::digest::to_lowercase(text);
    crate::text::contains_chars(&crate::text::chars_of(&lowered), q)
}

/// Case-insensitive search in a plugin's id, name, description, tags and
/// author; an empty query matches every plugin.
pub fn matches_query(plugin: &CommunityPlugin, query: &str) -> (result: bool)
    ensures
        result == spec_matches_query(*plugin, query@),
{
    let trimmed = crate::digest::trim(query);
    let lowered = crate::digest::to_lowercase(&trimmed);
    let q = crate::text::chars_of(&lowered);
    if q.len() == 0 {
        return true;
    }
    let ghost hs = haystacks(*plugin);
    assert(hs[0] == plugin.id@ && hs[1] == plugin.name@ && hs[2] == plugin.description@);
    if text_holds(&plugin.id, &q) {
        assert(contains_seq(unicode_lowercase(hs[0]), q@));
        return true;
    }
    if text_holds(&plugin.name, &q) {
        assert(contains_seq(unicode_lowercase(hs[1]), q@));
        return true;
    }
    if text_holds(&plugin.description, &q) {
        assert(contains_seq(unicode_lowercase(hs[2]), q@));
        return true;
    }
    let mut i: usize = 0;
    while i < plugin.tags.len()
        invariant
            hs == haystacks(*plugin),
            q@ == unicode_lowercase(unicode_trim(query@)),
            q@.len() > 0,
            i <= plugin.tags.len(),
            forall|k: int| 0 <= k < 3 + i ==> !contains_seq(unicode_lowercase(#[trigger] hs[k]), q@),
        decreases plugin.tags.len() - i,
    {
        assert(hs[3 + i] == plugin.tags@[i as int]@);
        if text_holds(&plugin.tags[i], &q) {
            assert(contains_seq(unicode_lowercase(hs[3 + i]), q@));
            return true;
        }
        i = i + 1;
    }
    match &plugin.author {
        Some(author) => {
            assert(hs[3 + plugin.tags.len()] == author.name@);
            if text_holds(&author.name, &q) {
                assert(contains_seq(unicode_lowercase(hs[3 + plugin.tags.len()]), q@));
                return true;
            }
            assert(hs.len() == 4 + plugin.tags.len());
        },
        None => {
            assert(hs.len() == 3 + plugin.tags.len());
        },
    }
    false
}

/// What a search result offers.
#[derive(Debug, Clone, Copy, PartialEq, Eq, Structural)]
pub enum CommunityAction {
    Incompatible,
    Install,
    Update,
    Installed,
}

/// The action offered for a plugin: without an installed copy, install
/// when a compatible version exists for this host and otherwise nothing;
/// with one, update when the compatible version chosen differs from the
/// installed version, and otherwise show it installed.
pub open spec fn spec_community_action(
    p: CommunityPlugin,
    installed: Seq<crate::plugin_management::ManagedView>,
    current: Seq<char>,
    os: Seq<char>,
    arch: Seq<char>,
) -> CommunityAction {
    let best = best_version_upto(p.versions@, os, arch, true, current, PLUGIN_PROTOCOL_VERSION, p.versions@.len() as int);
    match crate::plugin_management::listed_index(installed, p.id@, 0) {
        None => if best is Some {
            CommunityAction::Install
        } else {
            CommunityAction::Incompatible
        },
        Some(j) => if best matches Some(b) && p.versions@[b].version@ != installed[j].version {
            CommunityAction::Update
        } else {
            CommunityAction::Installed
        },
    }
}

/// The action a search result offers for `plugin`.
pub fn community_action(
    plugin: &CommunityPlugin,
    installed: &Vec<crate::plugin_management::ManagedPlugin>,
    current_lumia: &SemanticVersion,
    os: &str,
    arch: &str,
) -> (result: CommunityAction)
    ensures
        result == spec_community_action(
            *plugin,
            crate::plugin_management::managed_views(installed@),
            current_lumia@,
            os@,
            arch@,
        ),
{
    let best = best_compatible_artifact_for_host(plugin, current_lumia, os, arch);
    match crate::plugin_management::find_listed(installed, &plugin.id) {
        None => if best.is_some() {
            CommunityAction::Install
        } else {
            CommunityAction::Incompatible
        },
        Some(j) => {
            let managed = &installed[j];
            match best {
                Some((vi, _)) => {
                    let offered = crate::text::chars_of(&plugin.versions[vi].version);
                    if crate::text::chars_equal(&offered, &crate::text::chars_of(&managed.version)) {
                        CommunityAction::Installed
                    } else {
                        CommunityAction::Update
                    }
                },
                None => CommunityAction::Installed,
            }
        },
    }
}

/// Result `a` comes before result `b`: by name, then by place in the
/// index.
pub open spec fn result_before(plugins: Seq<CommunityPlugin>, a: int, b: int) -> bool {
    crate::text::lex_lt(plugins[a].name@, plugins[b].name@) || (plugins[a].name@ == plugins[b].name@ && a < b)
}

/// The search results: the plugins that match, each once, ordered by name
/// and, among equal names, by their place in the index, each with the
/// action it offers.
pub open spec fn search_results_valid(
    plugins: Seq<CommunityPlugin>,
    query: Seq<char>,
    installed: Seq<crate::plugin_management::ManagedView>,
    current: Seq<char>,
    os: Seq<char>,
    arch: Seq<char>,
    results: Seq<(usize, CommunityAction)>,
) -> bool {
    &&& forall|i: int, j: int|
        0 <= i < j < results.len() ==> result_before(plugins, #[trigger] results[i].0 as int, #[trigger] results[j].0 as int)
    &&& forall|k: int|
        0 <= k < plugins.len() && spec_matches_query(#[trigger] plugins[k], query) ==> exists|i: int|
            0 <= i < results.len() && #[trigger] results[i].0 == k
    &&& forall|i: int|
        0 <= i < results.len() ==> (results[i].0 as int) < plugins.len() && spec_matches_query(
            plugins[#[trigger] results[i].0 as int],
            query,
        ) && results[i].1 == spec_community_action(plugins[results[i].0 as int], installed, current, os, arch)
}

/// Where result `k` goes among sorted results whose indices are all below
/// `k`: before the first result whose name sorts after its name.
fn result_position(plugins: &Vec<CommunityPlugin>, results: &Vec<(usize, CommunityAction)>, k: usize) -> (result: usize)
    requires
        k < plugins.len(),
        forall|i: int| 0 <= i < results.len() ==> (#[trigger] results@[i].0) < k,
    ensures
        result <= results.len(),
        forall|i: int| 0 <= i < result ==> !crate::text::lex_lt(plugins@[k as int].name@, plugins@[#[trigger] results@[i].0 as int].name@),
        result < results.len() ==> crate::text::lex_lt(plugins@[k as int].name@, plugins@[results@[result as int].0 as int].name@),
{
    let name = crate::text::chars_of(&plugins[k].name);
    let mut i: usize = 0;
    while i < results.len()
        invariant
            k < plugins.len(),
            name@ == plugins@[k as int].name@,
            forall|m: int| 0 <= m < results.len() ==> (#[trigger] results@[m].0) < k,
            i <= results.len(),
            forall|m: int| 0 <= m < i ==> !crate::text::lex_lt(plugins@[k as int].name@, plugins@[#[trigger] results@[m].0 as int].name@),
        decreases results.len() - i,
    {
        let other = results[i].0;
        let other_name = crate::text::chars_of(&plugins[other].name);
        if crate::text::compare_chars(&name, &other_name) < 0 {
            return i;
        }
        i = i + 1;
    }
    i
}

/// The community plugins that match `query`, ordered by name (stably), each
/// with the action its result card offers.
pub fn search_results(
    index: &CommunityIndex,
    query: &str,
    installed: &Vec<crate::plugin_management::ManagedPlugin>,
    current_lumia: &SemanticVersion,
    os: &str,
    arch: &str,
) -> (result: Vec<(usize, CommunityAction)>)
    ensures
        search_results_valid(
            index.plugins@,
            query@,
            crate::plugin_management::managed_views(installed@),
            current_lumia@,
            os@,
            arch@,
            result@,
        ),
{
    let ghost plugins = index.plugins@;
    let ghost inst = crate::plugin_management::managed_views(installed@);
    let mut results: Vec<(usize, CommunityAction)> = Vec::new();
    let mut k: usize = 0;
    while k < index.plugins.len()
        invariant
            plugins == index.plugins@,
            inst == crate::plugin_management::managed_views(installed@),
            k <= plugins.len(),
            forall|i: int| 0 <= i < results.len() ==> (#[trigger] results@[i].0) < k,
            forall|i: int, j: int|
                0 <= i < j < results.len() ==> result_before(plugins, #[trigger] results@[i].0 as int, #[trigger] results@[j].0 as int),
            forall|m: int|
                0 <= m < k && spec_matches_query(#[trigger] plugins[m], query@) ==> exists|i: int|
                    0 <= i < results.len() && #[trigger] results@[i].0 == m,
            forall|i: int|
                0 <= i < results.len() ==> (results@[i].0 as int) < plugins.len() && spec_matches_query(
                    plugins[#[trigger] results@[i].0 as int],
                    query@,
                ) && results@[i].1 == spec_community_action(plugins[results@[i].0 as int], inst, current_lumia@, os@, arch@),
        decreases plugins.len() - k,
    {
        let plugin = &index.plugins[k];
        if matches_query(plugin, query) {
            let action = community_action(plugin, installed, current_lumia, os, arch);
            let position = result_position(&index.plugins, &results, k);
            let ghost before = results@;
            results.insert(position, (k, action));
            proof {
                assert(results@ =~= before.insert(position as int, (k, action)));
                assert forall|i: int, j: int|
                    0 <= i < j < results.len() implies result_before(plugins, #[trigger] results@[i].0 as int, #[trigger] results@[j].0 as int) by {
                    let p = position as int;
                    if j < p {
                        assert(results@[i] == before[i] && results@[j] == before[j]);
                    } else if j == p {
                        assert(results@[i] == before[i]);
                        crate::text::lemma_lex_trichotomy(plugins[k as int].name@, plugins[before[i].0 as int].name@);
                    } else if i == p {
                        assert(results@[j] == before[j - 1]);
                        let first = before[p].0 as int;
                        let other = before[j - 1].0 as int;
                        assert(crate::text::lex_lt(plugins[k as int].name@, plugins[first].name@));
                        if j - 1 > p {
                            assert(result_before(plugins, first, other));
                            if crate::text::lex_lt(plugins[first].name@, plugins[other].name@) {
                                crate::text::lemma_lex_transitive(plugins[k as int].name@, plugins[first].name@, plugins[other].name@);
                            }
                        }
                    } else if i < p {
                        assert(results@[i] == before[i] && results@[j] == before[j - 1]);
                    } else {
                        assert(results@[i] == before[i - 1] && results@[j] == before[j - 1]);
                    }
                }
                assert forall|m: int|
                    0 <= m < k + 1 && spec_matches_query(#[trigger] plugins[m], query@) implies exists|i: int|
                        0 <= i < results.len() && #[trigger] results@[i].0 == m by {
                    if m == k {
                        assert(results@[position as int].0 == m);
                    } else {
                        let i = choose|i: int| 0 <= i < before.len() && #[trigger] before[i].0 == m;
                        if i < position {
                            assert(results@[i].0 == m);
                        } else {
                            assert(results@[i + 1].0 == m);
                        }
                    }
                }
            }
        }
        k = k + 1;
    }
    results
}

/// Which list the plugin browser shows.
#[derive(Debug, Clone, Copy, PartialEq, Eq, Structural)]
pub enum CommunityTab {
    Community,
    Installed,
}

/// What the plugin browser is doing.
#[derive(Debug, Clone, PartialEq, Eq)]
pub enum CommunityStatus {
    Idle,
    Loading,
    Loaded,
    Downloading { plugin_id: String, downloaded_bytes: u64, total_bytes: Option<u64> },
    Error(String),
}

impl CommunityStatus {
    /// Whether the browser is loading the index or downloading a package.
    pub fn is_busy(&self) -> (result: bool)
        ensures
            result == (self is Loading || self is Downloading),
    {
        match self {
            CommunityStatus::Loading => true,
            CommunityStatus::Downloading { .. } => true,
            _ => false,
        }
    }
}

/// The state of the plugin browser.
pub struct CommunityPluginsState {
    pub index: Option<CommunityIndex>,
    pub search_query: String,
    pub status: CommunityStatus,
    pub active_tab: CommunityTab,
    pub generation: u64,
}

impl CommunityPluginsState {
    /// An idle browser with no index.
    pub fn new() -> (result: Self)
        ensures
            result.index is None,
            result.search_query@.len() == 0,
            result.status is Idle,
            result.active_tab == CommunityTab::Community,
            result.generation == 0,
    {
        CommunityPluginsState {
            index: None,
            search_query: String::new(),
            status: CommunityStatus::Idle,
            active_tab: CommunityTab::Community,
            generation: 0,
        }
    }

    /// Begins loading the index unless the browser is busy: an index read
    /// from the cache is shown meanwhile when none is shown yet, a new
    /// generation begins and the status shows the load. Gives the
    /// generation when loading begins.
    pub fn start_load(&mut self, cached: Option<CommunityIndex>) -> (result: Option<u64>)
        ensures
            (old(self).status is Loading || old(self).status is Downloading) ==> result is None && *final(self) == *old(self),
            !(old(self).status is Loading || old(self).status is Downloading) ==> {
                &&& result == Some(final(self).generation)
                &&& final(self).generation == crate::plugin_management::next_generation(old(self).generation)
                &&& final(self).status is Loading
                &&& final(self).index == (if old(self).index is None { cached } else { old(self).index })
                &&& final(self).search_query == old(self).search_query
                &&& final(self).active_tab == old(self).active_tab
            },
    {
        if self.status.is_busy() {
            return None;
        }
        if self.index.is_none() {
            self.index = cached;
        }
        Some(self.begin_load())
    }

    /// Begins a load: a new generation, and the status shows the load.
    pub fn begin_load(&mut self) -> (result: u64)
        ensures
            final(self).generation == crate::plugin_management::next_generation(old(self).generation),
            result == final(self).generation,
            final(self).status is Loading,
            final(self).index == old(self).index,
            final(self).search_query == old(self).search_query,
            final(self).active_tab == old(self).active_tab,
    {
        self.generation = self.generation.wrapping_add(1);
        self.status = CommunityStatus::Loading;
        self.generation
    }

    /// Whether `generation` is the latest load begun.
    pub fn is_current(&self, generation: u64) -> (result: bool)
        ensures
            result == (self.generation == generation),
    {
        self.generation == generation
    }

    /// Takes the result of a load begun at `generation`. A superseded load
    /// changes nothing. A fetched index is shown; a failure is shown when
    /// the load was asked for, and otherwise the cached index stays shown
    /// (or the browser goes idle without one). Gives whether the result was
    /// taken.
    pub fn finish_load(&mut self, generation: u64, manual: bool, outcome: Result<CommunityIndex, String>) -> (result: bool)
        ensures
            result == (old(self).generation == generation),
            !result ==> *final(self) == *old(self),
            final(self).generation == old(self).generation,
            final(self).search_query == old(self).search_query,
            final(self).active_tab == old(self).active_tab,
            result ==> (match outcome {
                Ok(index) => final(self).index == Some(index) && final(self).status is Loaded,
                Err(message) => final(self).index == old(self).index && if manual {
                    final(self).status == CommunityStatus::Error(message)
                } else if old(self).index is Some {
                    final(self).status is Loaded
                } else {
                    final(self).status is Idle
                },
            }),
    {
        if !self.is_current(generation) {
            return false;
        }
        match outcome {
            Ok(index) => {
                self.index = Some(index);
                self.status = CommunityStatus::Loaded;
            },
            Err(message) => {
                if manual {
                    self.status = CommunityStatus::Error(message);
                } else if self.index.is_some() {
                    self.status = CommunityStatus::Loaded;
                } else {
                    self.status = CommunityStatus::Idle;
                }
            },
        }
        true
    }
}

/// What installing a community plugin starts with.
#[derive(Debug, Clone, Copy, PartialEq, Eq, Structural)]
pub enum InstallChoice {
    /// The plugin is not in the index.
    NotListed,
    /// Download this version's artifact (indices into the plugin's lists).
    Download { plugin: usize, version: usize, artifact: usize },
    /// A version exists for this host, none compatible with this build.
    Incompatible,
    /// No version exists for this host.
    RequiresLumia,
}

/// The first plugin of the index with id `id`.
pub open spec fn plugin_index(plugins: Seq<CommunityPlugin>, id: Seq<char>, i: int) -> Option<int>
    decreases plugins.len() - i,
{
    if i < 0 || i >= plugins.len() {
        None
    } else if plugins[i].id@ == id {
        Some(i)
    } else {
        plugin_index(plugins, id, i + 1)
    }
}

/// What installing `id` starts with: the best compatible version's
/// artifact; without one, `Incompatible` when some version exists for this
/// host and `RequiresLumia` when none does.
pub open spec fn spec_install_choice(
    plugins: Seq<CommunityPlugin>,
    id: Seq<char>,
    current: Seq<char>,
    os: Seq<char>,
    arch: Seq<char>,
) -> InstallChoice {
    match plugin_index(plugins, id, 0) {
        None => InstallChoice::NotListed,
        Some(p) => {
            let versions = plugins[p].versions@;
            match best_version_upto(versions, os, arch, true, current, PLUGIN_PROTOCOL_VERSION, versions.len() as int) {
                Some(b) => InstallChoice::Download {
                    plugin: p as usize,
                    version: b as usize,
                    artifact: host_artifact(versions[b], os, arch, 0)->0 as usize,
                },
                None => if best_version_upto(versions, os, arch, false, Seq::empty(), PLUGIN_PROTOCOL_VERSION, versions.len() as int) is Some {
                    InstallChoice::Incompatible
                } else {
                    InstallChoice::RequiresLumia
                },
            }
        },
    }
}

/// Decides what installing the community plugin `id` starts with.
pub fn choose_install(
    index: &CommunityIndex,
    id: &str,
    current_lumia: &SemanticVersion,
    os: &str,
    arch: &str,
) -> (result: InstallChoice)
    ensures
        result == spec_install_choice(index.plugins@, id@, current_lumia@, os@, arch@),
{
    let key = crate::text::chars_of(id);
    let mut i: usize = 0;
    while i < index.plugins.len()
        invariant
            key@ == id@,
            i <= index.plugins.len(),
            plugin_index(index.plugins@, id@, 0) == plugin_index(index.plugins@, id@, i as int),
        decreases index.plugins.len() - i,
    {
        if crate::text::chars_equal(&crate::text::chars_of(&index.plugins[i].id), &key) {
            let plugin = &index.plugins[i];
            return match best_compatible_artifact_for_host(plugin, current_lumia, os, arch) {
                Some((version, artifact)) => InstallChoice::Download { plugin: i, version, artifact },
                None => if best_artifact_for_host(plugin, os, arch).is_some() {
                    InstallChoice::Incompatible
                } else {
                    InstallChoice::RequiresLumia
                },
            };
        }
        i = i + 1;
    }
    InstallChoice::NotListed
}

/// Whether a download of `downloaded` bytes is still within the limit.
pub fn download_within_limit(downloaded: u64) -> (result: bool)
    ensures
        result == (downloaded <= MAX_PACKAGE_DOWNLOAD_BYTES),
{
    downloaded <= MAX_PACKAGE_DOWNLOAD_BYTES
}

/// Why a finished download is refused.
#[derive(Debug, Clone, Copy, PartialEq, Eq, Structural)]
pub enum DownloadError {
    Incomplete { downloaded: u64, size: u64 },
    HashMismatch,
}

/// A package being downloaded: the bytes received so far and the SHA-256
/// being taken of them as they stream in.
pub struct PackageDownload {
    downloaded: u64,
    hasher: crate::digest::StreamingSha256,
}

impl PackageDownload {
    /// The number of bytes received so far.
    pub closed spec fn downloaded(&self) -> u64 {
        self.downloaded
    }

    /// The bytes received so far, in order.
    pub closed spec fn received(&self) -> Seq<u8> {
        crate::digest::absorbed_bytes(self.hasher)
    }

    /// The count is that of the bytes received, and within the limit.
    pub closed spec fn well_formed(&self) -> bool {
        &&& self.received().len() == self.downloaded
        &&& self.downloaded <= MAX_PACKAGE_DOWNLOAD_BYTES
    }

    /// A download that has received nothing yet.
    pub fn new() -> (result: Self)
        ensures
            result.downloaded() == 0,
            result.received() == Seq::<u8>::empty(),
            result.well_formed(),
    {
        PackageDownload { downloaded: 0, hasher: crate::digest::streaming_new() }
    }

    /// The number of bytes received so far, for progress reports.
    pub fn downloaded_bytes(&self) -> (result: u64)
        ensures
            result == self.downloaded(),
    {
        self.downloaded
    }

    /// Takes a received chunk: refused when the download would pass the
    /// package size limit, and then nothing is taken; otherwise it is
    /// counted and hashed after what came before.
    pub fn accept(&mut self, chunk: &[u8]) -> (result: bool)
        requires
            old(self).well_formed(),
        ensures
            result == (old(self).downloaded() + chunk@.len() <= MAX_PACKAGE_DOWNLOAD_BYTES),
            final(self).downloaded() == (if result {
                old(self).downloaded() + chunk@.len()
            } else {
                old(self).downloaded() as int
            }),
            final(self).received() == (if result { old(self).received() + chunk@ } else { old(self).received() }),
            final(self).well_formed(),
    {
        if chunk.len() as u64 > MAX_PACKAGE_DOWNLOAD_BYTES - self.downloaded {
            return false;
        }
        let total = self.downloaded + chunk.len() as u64;
        self.downloaded = total;
        crate::digest::streaming_update(&mut self.hasher, chunk);
        true
    }
}

/// Checks a finished download: when the index gives a size the download
/// must have exactly that many bytes, and the SHA-256 of the bytes received
/// must equal the index's digest up to ASCII case.
pub fn verify_download(size: u64, download: PackageDownload, expected_sha256: &str) -> (result: Result<
    (),
    DownloadError,
>)
    requires
        download.well_formed(),
    ensures
        size != 0 && download.downloaded() != size ==> result == Err::<(), DownloadError>(
            DownloadError::Incomplete { downloaded: download.downloaded(), size },
        ),
        !(size != 0 && download.downloaded() != size) ==> (result is Ok <==> crate::text::eq_ignore_case(
            crate::digest::sha256_hex(download.received()),
            expected_sha256@,
        )),
        !(size != 0 && download.downloaded() != size) && result is Err ==> result == Err::<(), DownloadError>(
            DownloadError::HashMismatch,
        ),
{
    let downloaded = download.downloaded_bytes();
    if size != 0 && downloaded != size {
        return Err(DownloadError::Incomplete { downloaded, size });
    }
    let digest = crate::digest::streaming_hex(download.hasher);
    if !crate::text::chars_equal_ignore_case(&crate::text::chars_of(&digest), &crate::text::chars_of(expected_sha256)) {
        return Err(DownloadError::HashMismatch);
    }
    Ok(())
}

} // verus!
