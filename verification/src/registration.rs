//! The Windows registry changes that register Lumia as a handler for the
//! selected image extensions, and that remove everything it registered.
//! Plans are computed here; applying them to the registry happens outside.
use vstd::prelude::*;
use crate::association_formats::supported_image_extensions;
use crate::association_formats::spec_supported_extensions;
use crate::text::{concat2, concat3, views};

verus! {

/// The data of one registry value.
#[derive(Debug, PartialEq, Eq)]
pub enum RegistryData {
    String(String),
    Dword(u32),
    MultiString(Vec<String>),
}

/// The plain value of registry data.
pub enum DataView {
    Str(Seq<char>),
    Dword(u32),
    Multi(Seq<Seq<char>>),
}

impl View for RegistryData {
    type V = DataView;

    open spec fn view(&self) -> DataView {
        match self {
            RegistryData::String(s) => DataView::Str(s@),
            RegistryData::Dword(d) => DataView::Dword(*d),
            RegistryData::MultiString(items) => DataView::Multi(views(items@)),
        }
    }
}

/// A registry value under `HKEY_CURRENT_USER`.
#[derive(Debug, PartialEq, Eq)]
pub struct RegistryValue {
    pub path: String,
    pub name: String,
    pub data: RegistryData,
}

/// The plain value of a registry value.
pub struct ValueView {
    pub path: Seq<char>,
    pub name: Seq<char>,
    pub data: DataView,
}

impl View for RegistryValue {
    type V = ValueView;

    open spec fn view(&self) -> ValueView {
        ValueView { path: self.path@, name: self.name@, data: self.data@ }
    }
}

/// Registry changes: values to write, values to delete, and key trees to delete.
#[derive(Debug, PartialEq, Eq)]
pub struct RegistryPlan {
    pub set_values: Vec<RegistryValue>,
    pub delete_values: Vec<RegistryValue>,
    pub delete_trees: Vec<String>,
}

/// The plain value of a registry plan.
pub struct PlanView {
    pub set_values: Seq<ValueView>,
    pub delete_values: Seq<ValueView>,
    pub delete_trees: Seq<Seq<char>>,
}

/// The plain values of a list of registry values.
pub open spec fn value_views(values: Seq<RegistryValue>) -> Seq<ValueView> {
    values.map_values(|v: RegistryValue| v@)
}

impl View for RegistryPlan {
    type V = PlanView;

    open spec fn view(&self) -> PlanView {
        PlanView {
            set_values: value_views(self.set_values@),
            delete_values: value_views(self.delete_values@),
            delete_trees: views(self.delete_trees@),
        }
    }
}

/// A string value.
pub open spec fn string_value(path: Seq<char>, name: Seq<char>, data: Seq<char>) -> ValueView {
    ValueView { path, name, data: DataView::Str(data) }
}

/// A value to delete (its data is unused and empty).
pub open spec fn deleted_value(path: Seq<char>, name: Seq<char>) -> ValueView {
    string_value(path, name, Seq::<char>::empty())
}

impl RegistryPlan {
    /// A plan that changes nothing.
    pub fn new() -> (result: RegistryPlan)
        ensures
            result@.set_values.len() == 0,
            result@.delete_values.len() == 0,
            result@.delete_trees.len() == 0,
    {
        RegistryPlan { set_values: Vec::new(), delete_values: Vec::new(), delete_trees: Vec::new() }
    }

    /// Adds a string value to write.
    pub fn set_string(&mut self, path: &str, name: &str, data: &str)
        ensures
            final(self)@.set_values == old(self)@.set_values.push(string_value(path@, name@, data@)),
            final(self)@.delete_values == old(self)@.delete_values,
            final(self)@.delete_trees == old(self)@.delete_trees,
    {
        let value = RegistryValue {
            path: path.to_owned(),
            name: name.to_owned(),
            data: RegistryData::String(data.to_owned()),
        };
        self.set_values.push(value);
        assert(value_views(self.set_values@) =~= value_views(old(self).set_values@).push(
            string_value(path@, name@, data@),
        ));
    }

    /// Adds a 32-bit value to write.
    pub fn set_dword(&mut self, path: &str, name: &str, data: u32)
        ensures
            final(self)@.set_values == old(self)@.set_values.push(
                ValueView { path: path@, name: name@, data: DataView::Dword(data) },
            ),
            final(self)@.delete_values == old(self)@.delete_values,
            final(self)@.delete_trees == old(self)@.delete_trees,
    {
        let value = RegistryValue {
            path: path.to_owned(),
            name: name.to_owned(),
            data: RegistryData::Dword(data),
        };
        self.set_values.push(value);
        assert(value_views(self.set_values@) =~= value_views(old(self).set_values@).push(
            ValueView { path: path@, name: name@, data: DataView::Dword(data) },
        ));
    }

    /// Adds a multi-string value to write.
    pub fn set_multi_string(&mut self, path: &str, name: &str, data: Vec<String>)
        ensures
            final(self)@.set_values == old(self)@.set_values.push(
                ValueView { path: path@, name: name@, data: DataView::Multi(views(data@)) },
            ),
            final(self)@.delete_values == old(self)@.delete_values,
            final(self)@.delete_trees == old(self)@.delete_trees,
    {
        let ghost items = views(data@);
        let value = RegistryValue {
            path: path.to_owned(),
            name: name.to_owned(),
            data: RegistryData::MultiString(data),
        };
        self.set_values.push(value);
        assert(value_views(self.set_values@) =~= value_views(old(self).set_values@).push(
            ValueView { path: path@, name: name@, data: DataView::Multi(items) },
        ));
    }

    /// Adds a value to delete.
    pub fn delete_value(&mut self, path: &str, name: &str)
        ensures
            final(self)@.delete_values == old(self)@.delete_values.push(deleted_value(path@, name@)),
            final(self)@.set_values == old(self)@.set_values,
            final(self)@.delete_trees == old(self)@.delete_trees,
    {
        let value = RegistryValue {
            path: path.to_owned(),
            name: name.to_owned(),
            data: RegistryData::String(String::new()),
        };
        self.delete_values.push(value);
        assert(value_views(self.delete_values@) =~= value_views(old(self).delete_values@).push(
            deleted_value(path@, name@),
        ));
    }

    /// Adds a key tree to delete.
    pub fn delete_tree(&mut self, path: String)
        ensures
            final(self)@.delete_trees == old(self)@.delete_trees.push(path@),
            final(self)@.set_values == old(self)@.set_values,
            final(self)@.delete_values == old(self)@.delete_values,
    {
        let ghost p = path@;
        self.delete_trees.push(path);
        assert(views(self.delete_trees@) =~= views(old(self).delete_trees@).push(p));
    }
}

} // verus!

verus! {

/// The program identifier under which Lumia registers its open command.
pub open spec fn prog_id() -> Seq<char> {
    "Lumia.Image"@
}

/// `"{exe}" "%1"`: the command that opens a file with Lumia.
pub open spec fn spec_open_command(exe: Seq<char>) -> Seq<char> {
    "\""@ + exe + "\" \"%1\""@
}

/// `"{exe}",0`: the first icon of the executable.
pub open spec fn spec_icon(exe: Seq<char>) -> Seq<char> {
    "\""@ + exe + "\",0"@
}

/// The command that opens a file with the executable at `exe_path`.
pub fn open_command(exe_path: &str) -> (result: String)
    ensures
        result@ == spec_open_command(exe_path@),
{
    concat3("\"", exe_path, "\" \"%1\"")
}

/// The icon reference of the executable at `exe_path`.
pub fn icon_reference(exe_path: &str) -> (result: String)
    ensures
        result@ == spec_icon(exe_path@),
{
    concat3("\"", exe_path, "\",0")
}

/// Values written whatever the selection: the program id, the application
/// entry, and the capabilities that list Lumia under Default Apps.
pub open spec fn header_values(icon: Seq<char>, command: Seq<char>) -> Seq<ValueView> {
    seq![
        string_value("Software\\Classes\\Lumia.Image"@, ""@, "Lumia image"@),
        string_value("Software\\Classes\\Lumia.Image\\DefaultIcon"@, ""@, icon),
        string_value("Software\\Classes\\Lumia.Image\\shell\\open\\command"@, ""@, command),
        string_value("Software\\Classes\\Applications\\lumia-app.exe"@, "FriendlyAppName"@, "Lumia"@),
        string_value("Software\\Classes\\Applications\\lumia-app.exe\\DefaultIcon"@, ""@, icon),
        string_value(
            "Software\\Classes\\Applications\\lumia-app.exe\\shell\\open\\command"@,
            ""@,
            command,
        ),
        string_value("Software\\Lumia\\Capabilities"@, "ApplicationName"@, "Lumia"@),
        string_value(
            "Software\\Lumia\\Capabilities"@,
            "ApplicationDescription"@,
            "Fast and lightweight image viewer"@,
        ),
        string_value("Software\\Lumia\\Capabilities"@, "ApplicationIcon"@, icon),
        string_value("Software\\RegisteredApplications"@, "Lumia"@, "Software\\Lumia\\Capabilities"@),
    ]
}

/// `Software\Classes\.{ext}\OpenWithProgids`.
pub open spec fn open_with_path(ext: Seq<char>) -> Seq<char> {
    "Software\\Classes\\."@ + ext + "\\OpenWithProgids"@
}

/// `Software\Classes\SystemFileAssociations\.{ext}\shell\Lumia`.
pub open spec fn context_menu_path(ext: Seq<char>) -> Seq<char> {
    "Software\\Classes\\SystemFileAssociations\\."@ + ext + "\\shell\\Lumia"@
}

/// The list of types the application entry supports.
pub open spec fn supported_types_path() -> Seq<char> {
    "Software\\Classes\\Applications\\lumia-app.exe\\SupportedTypes"@
}

/// The association list of the capabilities.
pub open spec fn capability_associations_path() -> Seq<char> {
    "Software\\Lumia\\Capabilities\\FileAssociations"@
}

/// The values written for a selected extension.
pub open spec fn selected_extension_values(ext: Seq<char>, icon: Seq<char>, command: Seq<char>) -> Seq<ValueView> {
    seq![
        string_value(open_with_path(ext), prog_id(), ""@),
        string_value(supported_types_path(), "."@ + ext, ""@),
        string_value(capability_associations_path(), "."@ + ext, prog_id()),
        string_value(context_menu_path(ext), "MUIVerb"@, "Open with Lumia"@),
        string_value(context_menu_path(ext), "Icon"@, icon),
        string_value(context_menu_path(ext) + "\\command"@, ""@, command),
    ]
}

/// The values deleted for an extension that is not selected.
pub open spec fn unselected_extension_deletions(ext: Seq<char>) -> Seq<ValueView> {
    seq![
        deleted_value(open_with_path(ext), prog_id()),
        deleted_value(supported_types_path(), "."@ + ext),
        deleted_value(capability_associations_path(), "."@ + ext),
    ]
}

/// The per-extension part of an apply plan, over `exts` in order.
pub open spec fn extension_plan(
    exts: Seq<Seq<char>>,
    selected: Set<Seq<char>>,
    icon: Seq<char>,
    command: Seq<char>,
) -> PlanView
    decreases exts.len(),
{
    if exts.len() == 0 {
        PlanView {
            set_values: Seq::empty(),
            delete_values: Seq::empty(),
            delete_trees: Seq::empty(),
        }
    } else {
        let previous = extension_plan(exts.drop_last(), selected, icon, command);
        let ext = exts.last();
        if selected.contains(ext) {
            PlanView {
                set_values: previous.set_values + selected_extension_values(ext, icon, command),
                delete_values: previous.delete_values,
                delete_trees: previous.delete_trees,
            }
        } else {
            PlanView {
                set_values: previous.set_values,
                delete_values: previous.delete_values + unselected_extension_deletions(ext),
                delete_trees: previous.delete_trees.push(context_menu_path(ext)),
            }
        }
    }
}

/// The association record of the selection.
pub open spec fn associations_key() -> Seq<char> {
    "Software\\Lumia\\Associations"@
}

/// The context menu that older versions registered for all images.
pub open spec fn legacy_menu_path() -> Seq<char> {
    "Software\\Classes\\SystemFileAssociations\\image\\shell\\Lumia"@
}

/// The whole apply plan for the executable `exe` and the selection `selected`.
pub open spec fn spec_apply_plan(exe: Seq<char>, selected: Seq<Seq<char>>) -> PlanView {
    let icon = spec_icon(exe);
    let command = spec_open_command(exe);
    let per_extension = extension_plan(spec_supported_extensions(), selected.to_set(), icon, command);
    PlanView {
        set_values: header_values(icon, command) + per_extension.set_values + seq![
            ValueView { path: associations_key(), name: "Configured"@, data: DataView::Dword(1) },
            ValueView { path: associations_key(), name: "SelectedExtensions"@, data: DataView::Multi(selected) },
        ],
        delete_values: per_extension.delete_values,
        delete_trees: per_extension.delete_trees.push(legacy_menu_path()),
    }
}

/// Copies a list of strings.
fn clone_strings(items: &Vec<String>) -> (result: Vec<String>)
    ensures
        views(result@) == views(items@),
{
    let mut result: Vec<String> = Vec::new();
    let mut i: usize = 0;
    while i < items.len()
        invariant
            i <= items.len(),
            views(result@) == views(items@.subrange(0, i as int)),
        decreases items.len() - i,
    {
        let ghost before = result@;
        result.push(items[i].clone());
        i = i + 1;
        assert(views(result@) =~= views(items@.subrange(0, i as int))) by {
            assert(views(result@) =~= views(before).push(items@[i - 1]@));
        }
    }
    assert(items@.subrange(0, items@.len() as int) =~= items@);
    result
}

/// The registry changes that register Lumia for exactly the `selected`
/// extensions among those it supports and record the selection. The
/// selection is a set, held as its strictly increasing list of names, so
/// it is recorded sorted and without repeats. That no path of this plan
/// names `UserChoice` is `lemma_registry_plans_touch_only_lumia`.
pub fn build_apply_plan(exe_path: &str, selected_extensions: &Vec<String>) -> (result: RegistryPlan)
    requires
        crate::text::strictly_sorted(views(selected_extensions@)),
    ensures
        result@ == spec_apply_plan(exe_path@, views(selected_extensions@)),
{
    let mut plan = RegistryPlan::new();
    let command = open_command(exe_path);
    let icon = icon_reference(exe_path);
    plan.set_string("Software\\Classes\\Lumia.Image", "", "Lumia image");
    plan.set_string("Software\\Classes\\Lumia.Image\\DefaultIcon", "", icon.as_str());
    plan.set_string("Software\\Classes\\Lumia.Image\\shell\\open\\command", "", command.as_str());
    plan.set_string("Software\\Classes\\Applications\\lumia-app.exe", "FriendlyAppName", "Lumia");
    plan.set_string("Software\\Classes\\Applications\\lumia-app.exe\\DefaultIcon", "", icon.as_str());
    plan.set_string(
        "Software\\Classes\\Applications\\lumia-app.exe\\shell\\open\\command",
        "",
        command.as_str(),
    );
    plan.set_string("Software\\Lumia\\Capabilities", "ApplicationName", "Lumia");
    plan.set_string(
        "Software\\Lumia\\Capabilities",
        "ApplicationDescription",
        "Fast and lightweight image viewer",
    );
    plan.set_string("Software\\Lumia\\Capabilities", "ApplicationIcon", icon.as_str());
    plan.set_string("Software\\RegisteredApplications", "Lumia", "Software\\Lumia\\Capabilities");
    let ghost header = plan@.set_values;
    assert(header =~= header_values(icon@, command@));

    let extensions = supported_image_extensions();
    let mut i: usize = 0;
    while i < extensions.len()
        invariant
            i <= extensions.len(),
            views(extensions@) == spec_supported_extensions(),
            header == header_values(icon@, command@),
            icon@ == spec_icon(exe_path@),
            command@ == spec_open_command(exe_path@),
            ({
                let part = extension_plan(
                    spec_supported_extensions().subrange(0, i as int),
                    views(selected_extensions@).to_set(),
                    icon@,
                    command@,
                );
                &&& plan@.set_values == header + part.set_values
                &&& plan@.delete_values == part.delete_values
                &&& plan@.delete_trees == part.delete_trees
            }),
        decreases extensions.len() - i,
    {
        let extension = extensions[i].as_str();
        let ghost ext = extension@;
        assert(ext == spec_supported_extensions()[i as int]);
        let extension_with_dot = concat2(".", extension);
        let open_with = concat3("Software\\Classes\\.", extension, "\\OpenWithProgids");
        let context_menu = concat3(
            "Software\\Classes\\SystemFileAssociations\\.",
            extension,
            "\\shell\\Lumia",
        );
        let ghost previous = plan@;
        if crate::association_formats::contains_string(selected_extensions, extension) {
            plan.set_string(open_with.as_str(), "Lumia.Image", "");
            plan.set_string(
                "Software\\Classes\\Applications\\lumia-app.exe\\SupportedTypes",
                extension_with_dot.as_str(),
                "",
            );
            plan.set_string(
                "Software\\Lumia\\Capabilities\\FileAssociations",
                extension_with_dot.as_str(),
                "Lumia.Image",
            );
            plan.set_string(context_menu.as_str(), "MUIVerb", "Open with Lumia");
            plan.set_string(context_menu.as_str(), "Icon", icon.as_str());
            let context_command = concat2(context_menu.as_str(), "\\command");
            plan.set_string(context_command.as_str(), "", command.as_str());
            assert(plan@.set_values =~= previous.set_values + selected_extension_values(
                ext,
                icon@,
                command@,
            ));
        } else {
            plan.delete_value(open_with.as_str(), "Lumia.Image");
            plan.delete_value(
                "Software\\Classes\\Applications\\lumia-app.exe\\SupportedTypes",
                extension_with_dot.as_str(),
            );
            plan.delete_value(
                "Software\\Lumia\\Capabilities\\FileAssociations",
                extension_with_dot.as_str(),
            );
            plan.delete_tree(context_menu);
            assert(plan@.delete_values =~= previous.delete_values + unselected_extension_deletions(
                ext,
            ));
        }
        i = i + 1;
        assert(spec_supported_extensions().subrange(0, i as int).drop_last() =~= spec_supported_extensions().subrange(0, i - 1));
        assert(plan@.set_values =~= header + extension_plan(
            spec_supported_extensions().subrange(0, i as int),
            views(selected_extensions@).to_set(),
            icon@,
            command@,
        ).set_values);
    }
    assert(spec_supported_extensions().subrange(0, extensions@.len() as int) =~= spec_supported_extensions());
    let ghost before_tail = plan@;
    plan.delete_tree("Software\\Classes\\SystemFileAssociations\\image\\shell\\Lumia".to_owned());
    plan.set_dword("Software\\Lumia\\Associations", "Configured", 1);
    plan.set_multi_string(
        "Software\\Lumia\\Associations",
        "SelectedExtensions",
        clone_strings(selected_extensions),
    );
    assert(plan@.set_values =~= spec_apply_plan(exe_path@, views(selected_extensions@)).set_values);
    plan
}

} // verus!

verus! {

/// The per-extension removals of the unregister plan, over `exts` in order.
pub open spec fn unregister_extensions(exts: Seq<Seq<char>>) -> (Seq<ValueView>, Seq<Seq<char>>)
    decreases exts.len(),
{
    if exts.len() == 0 {
        (Seq::empty(), Seq::empty())
    } else {
        let (values, trees) = unregister_extensions(exts.drop_last());
        (
            values.push(deleted_value(open_with_path(exts.last()), prog_id())),
            trees.push(context_menu_path(exts.last())),
        )
    }
}

/// The whole unregister plan.
pub open spec fn spec_unregister_plan() -> PlanView {
    let (values, trees) = unregister_extensions(spec_supported_extensions());
    PlanView {
        set_values: Seq::empty(),
        delete_values: seq![deleted_value("Software\\RegisteredApplications"@, "Lumia"@)] + values,
        delete_trees: seq![
            "Software\\Classes\\Lumia.Image"@,
            "Software\\Classes\\Applications\\lumia-app.exe"@,
            legacy_menu_path(),
            "Software\\Lumia"@,
        ] + trees,
    }
}

/// The registry changes that remove everything Lumia registered. That this
/// plan sets nothing, deletes only Lumia's values and keys, and names no
/// `UserChoice` path is `lemma_registry_plans_touch_only_lumia`.
pub fn build_unregister_plan() -> (result: RegistryPlan)
    ensures
        result@ == spec_unregister_plan(),
{
    let mut plan = RegistryPlan::new();
    plan.delete_value("Software\\RegisteredApplications", "Lumia");
    plan.delete_tree("Software\\Classes\\Lumia.Image".to_owned());
    plan.delete_tree("Software\\Classes\\Applications\\lumia-app.exe".to_owned());
    plan.delete_tree("Software\\Classes\\SystemFileAssociations\\image\\shell\\Lumia".to_owned());
    plan.delete_tree("Software\\Lumia".to_owned());
    let ghost head_values = plan@.delete_values;
    let ghost head_trees = plan@.delete_trees;
    let extensions = supported_image_extensions();
    let mut i: usize = 0;
    while i < extensions.len()
        invariant
            i <= extensions.len(),
            views(extensions@) == spec_supported_extensions(),
            plan@.set_values.len() == 0,
            ({
                let (values, trees) = unregister_extensions(
                    spec_supported_extensions().subrange(0, i as int),
                );
                &&& plan@.delete_values == head_values + values
                &&& plan@.delete_trees == head_trees + trees
            }),
        decreases extensions.len() - i,
    {
        let extension = extensions[i].as_str();
        assert(extension@ == spec_supported_extensions()[i as int]);
        let open_with = concat3("Software\\Classes\\.", extension, "\\OpenWithProgids");
        plan.delete_value(open_with.as_str(), "Lumia.Image");
        plan.delete_tree(
            concat3("Software\\Classes\\SystemFileAssociations\\.", extension, "\\shell\\Lumia"),
        );
        i = i + 1;
        assert(spec_supported_extensions().subrange(0, i as int).drop_last() =~= spec_supported_extensions().subrange(0, i - 1));
        assert(plan@.delete_values =~= head_values + unregister_extensions(
            spec_supported_extensions().subrange(0, i as int),
        ).0);
        assert(plan@.delete_trees =~= head_trees + unregister_extensions(
            spec_supported_extensions().subrange(0, i as int),
        ).1);
    }
    assert(spec_supported_extensions().subrange(0, extensions@.len() as int) =~= spec_supported_extensions());
    assert(plan@.set_values =~= Seq::<ValueView>::empty());
    assert(plan@.delete_values =~= spec_unregister_plan().delete_values);
    assert(plan@.delete_trees =~= spec_unregister_plan().delete_trees);
    plan
}

} // verus!

verus! {

/// The per-extension writes and deletions of an apply plan match the selection.
proof fn lemma_extension_plan(
    exts: Seq<Seq<char>>,
    selected: Set<Seq<char>>,
    icon: Seq<char>,
    command: Seq<char>,
)
    ensures
        forall|e: Seq<char>|
            exts.contains(e) && selected.contains(e) ==> extension_plan(exts, selected, icon, command).set_values.contains(
                string_value(open_with_path(e), prog_id(), ""@),
            ),
        forall|e: Seq<char>|
            exts.contains(e) && !selected.contains(e) ==> extension_plan(exts, selected, icon, command).delete_values.contains(
                deleted_value(open_with_path(e), prog_id()),
            ),
        forall|v: ValueView|
            extension_plan(exts, selected, icon, command).set_values.contains(v) && v.name == prog_id()
                ==> exists|e: Seq<char>| exts.contains(e) && selected.contains(e) && v.path == open_with_path(e),
    decreases exts.len(),
{
    if exts.len() > 0 {
        let rest = exts.drop_last();
        lemma_extension_plan(rest, selected, icon, command);
        let previous = extension_plan(rest, selected, icon, command);
        let ext = exts.last();
        let current = extension_plan(exts, selected, icon, command);
        assert forall|e: Seq<char>| exts.contains(e) && selected.contains(e) implies current.set_values.contains(
            string_value(open_with_path(e), prog_id(), ""@),
        ) by {
            let k = choose|k: int| 0 <= k < exts.len() && exts[k] == e;
            if k < exts.len() - 1 {
                assert(rest[k] == e);
                let j = choose|j: int| 0 <= j < previous.set_values.len() && previous.set_values[j]
                    == string_value(open_with_path(e), prog_id(), ""@);
                assert(current.set_values[j] == previous.set_values[j]);
            } else {
                assert(current.set_values[previous.set_values.len() as int] == string_value(
                    open_with_path(e),
                    prog_id(),
                    ""@,
                ));
            }
        }
        assert forall|e: Seq<char>| exts.contains(e) && !selected.contains(e) implies current.delete_values.contains(
            deleted_value(open_with_path(e), prog_id()),
        ) by {
            let k = choose|k: int| 0 <= k < exts.len() && exts[k] == e;
            if k < exts.len() - 1 {
                assert(rest[k] == e);
                let j = choose|j: int| 0 <= j < previous.delete_values.len() && previous.delete_values[j]
                    == deleted_value(open_with_path(e), prog_id());
                assert(current.delete_values[j] == previous.delete_values[j]);
            } else {
                assert(current.delete_values[previous.delete_values.len() as int] == deleted_value(
                    open_with_path(e),
                    prog_id(),
                ));
            }
        }
        assert forall|v: ValueView| current.set_values.contains(v) && v.name == prog_id() implies exists|e: Seq<char>|
            exts.contains(e) && selected.contains(e) && v.path == open_with_path(e) by {
            let j = choose|j: int| 0 <= j < current.set_values.len() && current.set_values[j] == v;
            if j < previous.set_values.len() {
                assert(previous.set_values[j] == v);
                assert(previous.set_values.contains(v));
                let e = choose|e: Seq<char>| rest.contains(e) && selected.contains(e) && v.path == open_with_path(e);
                let k = choose|k: int| 0 <= k < rest.len() && rest[k] == e;
                assert(exts[k] == e);
            } else {
                assert(selected.contains(ext));
                let offset = j - previous.set_values.len();
                let values = selected_extension_values(ext, icon, command);
                assert(v == values[offset]);
                reveal_strlit("Lumia.Image");
                reveal_strlit(".");
                reveal_strlit("MUIVerb");
                reveal_strlit("Icon");
                reveal_strlit("");
                if offset == 1 || offset == 2 {
                    assert(v.name[0] == '.');
                    assert(prog_id()[0] == 'L');
                } else if offset == 3 {
                    assert(v.name.len() != prog_id().len());
                } else if offset == 4 {
                    assert(v.name.len() != prog_id().len());
                } else if offset == 5 {
                    assert(v.name.len() != prog_id().len());
                } else {
                    assert(v.path == open_with_path(ext));
                }
                assert(exts[exts.len() - 1] == ext);
                assert(exts.contains(ext));
            }
        }
    }
}


/// The per-extension part of an apply plan removes the "Open with Lumia"
/// context menu of every extension it leaves unselected.
proof fn lemma_extension_plan_removes_menus(
    exts: Seq<Seq<char>>,
    selected: Set<Seq<char>>,
    icon: Seq<char>,
    command: Seq<char>,
)
    ensures
        forall|e: Seq<char>|
            exts.contains(e) && !selected.contains(e) ==> extension_plan(exts, selected, icon, command).delete_trees.contains(
                "Software\\Classes\\SystemFileAssociations\\."@ + e + "\\shell\\Lumia"@,
            ),
    decreases exts.len(),
{
    if exts.len() > 0 {
        let rest = exts.drop_last();
        lemma_extension_plan_removes_menus(rest, selected, icon, command);
        let previous = extension_plan(rest, selected, icon, command);
        let current = extension_plan(exts, selected, icon, command);
        assert forall|e: Seq<char>| exts.contains(e) && !selected.contains(e) implies current.delete_trees.contains(
            "Software\\Classes\\SystemFileAssociations\\."@ + e + "\\shell\\Lumia"@,
        ) by {
            let k = choose|k: int| 0 <= k < exts.len() && exts[k] == e;
            let menu = "Software\\Classes\\SystemFileAssociations\\."@ + e + "\\shell\\Lumia"@;
            if k < exts.len() - 1 {
                assert(rest[k] == e);
                let j = choose|j: int| 0 <= j < previous.delete_trees.len() && previous.delete_trees[j] == menu;
                assert(current.delete_trees[j] == previous.delete_trees[j]);
            } else {
                assert(current.delete_trees[previous.delete_trees.len() as int] == menu);
            }
        }
    }
}

/// Every key the per-extension part of an apply plan deletes is the
/// context menu of an extension it leaves unselected.
proof fn lemma_extension_plan_deletes_only_unselected_menus(
    exts: Seq<Seq<char>>,
    selected: Set<Seq<char>>,
    icon: Seq<char>,
    command: Seq<char>,
)
    ensures
        forall|i: int|
            0 <= i < extension_plan(exts, selected, icon, command).delete_trees.len() ==> exists|e: Seq<char>|
                exts.contains(e) && !selected.contains(e) && #[trigger] extension_plan(
                    exts,
                    selected,
                    icon,
                    command,
                ).delete_trees[i] == context_menu_path(e),
    decreases exts.len(),
{
    if exts.len() > 0 {
        let rest = exts.drop_last();
        lemma_extension_plan_deletes_only_unselected_menus(rest, selected, icon, command);
        let previous = extension_plan(rest, selected, icon, command);
        let current = extension_plan(exts, selected, icon, command);
        assert forall|i: int| 0 <= i < current.delete_trees.len() implies exists|e: Seq<char>|
            exts.contains(e) && !selected.contains(e) && #[trigger] current.delete_trees[i] == context_menu_path(e) by {
            if i < previous.delete_trees.len() {
                assert(current.delete_trees[i] == previous.delete_trees[i]);
                let e = choose|e: Seq<char>| rest.contains(e) && !selected.contains(e) && #[trigger] previous.delete_trees[i]
                    == context_menu_path(e);
                let k = choose|k: int| 0 <= k < rest.len() && rest[k] == e;
                assert(exts[k] == e);
            } else {
                assert(exts[exts.len() - 1] == exts.last());
            }
        }
    }
}

/// Two extensions with the same context menu key are the same extension.
proof fn lemma_context_menu_path_injective(a: Seq<char>, b: Seq<char>)
    requires
        context_menu_path(a) == context_menu_path(b),
    ensures
        a == b,
{
    let p = "Software\\Classes\\SystemFileAssociations\\."@;
    let q = "\\shell\\Lumia"@;
    assert(context_menu_path(a).len() == p.len() + a.len() + q.len());
    assert(a =~= context_menu_path(a).subrange(p.len() as int, (p.len() + a.len()) as int));
    assert(b =~= context_menu_path(b).subrange(p.len() as int, (p.len() + b.len()) as int));
}

/// Applying a selection keeps the context menu of every selected
/// extension: no key the apply plan deletes is the
/// `Software\Classes\SystemFileAssociations\.{ext}\shell\Lumia` key
/// of a selected extension.
pub proof fn lemma_apply_plan_keeps_selected_menus(exe: Seq<char>, selected: Seq<Seq<char>>)
    ensures
        forall|e: Seq<char>|
            selected.contains(e) ==> !spec_apply_plan(exe, selected).delete_trees.contains(
                "Software\\Classes\\SystemFileAssociations\\."@ + e + "\\shell\\Lumia"@,
            ),
{
    let icon = spec_icon(exe);
    let command = spec_open_command(exe);
    let exts = spec_supported_extensions();
    let sel = selected.to_set();
    lemma_extension_plan_deletes_only_unselected_menus(exts, sel, icon, command);
    let part = extension_plan(exts, sel, icon, command);
    let plan = spec_apply_plan(exe, selected);
    assert forall|e: Seq<char>| selected.contains(e) implies !plan.delete_trees.contains(
        "Software\\Classes\\SystemFileAssociations\\."@ + e + "\\shell\\Lumia"@,
    ) by {
        let menu = "Software\\Classes\\SystemFileAssociations\\."@ + e + "\\shell\\Lumia"@;
        assert(sel.contains(e));
        if plan.delete_trees.contains(menu) {
            let j = choose|j: int| 0 <= j < plan.delete_trees.len() && plan.delete_trees[j] == menu;
            if j < part.delete_trees.len() {
                assert(plan.delete_trees[j] == part.delete_trees[j]);
                let f = choose|f: Seq<char>| exts.contains(f) && !sel.contains(f) && #[trigger] part.delete_trees[j]
                    == context_menu_path(f);
                lemma_context_menu_path_injective(e, f);
            } else {
                assert(plan.delete_trees[j] == legacy_menu_path());
                let p = "Software\\Classes\\SystemFileAssociations\\."@;
                reveal_strlit("Software\\Classes\\SystemFileAssociations\\.");
                reveal_strlit("Software\\Classes\\SystemFileAssociations\\image\\shell\\Lumia");
                assert(menu[p.len() - 1] == '.');
                assert(legacy_menu_path()[p.len() - 1] == 'i');
            }
        }
    }
}

/// Applying a selection removes the "Open with Lumia" context menu of
/// every supported extension left out of it:
/// `Software\Classes\SystemFileAssociations\.{ext}\shell\Lumia` is among
/// the keys the apply plan deletes.
pub proof fn lemma_apply_plan_removes_unselected_menus(exe: Seq<char>, selected: Seq<Seq<char>>)
    ensures
        forall|e: Seq<char>|
            spec_supported_extensions().contains(e) && !selected.contains(e) ==> spec_apply_plan(
                exe,
                selected,
            ).delete_trees.contains("Software\\Classes\\SystemFileAssociations\\."@ + e + "\\shell\\Lumia"@),
{
    let icon = spec_icon(exe);
    let command = spec_open_command(exe);
    let exts = spec_supported_extensions();
    let sel = selected.to_set();
    lemma_extension_plan_removes_menus(exts, sel, icon, command);
    let part = extension_plan(exts, sel, icon, command);
    let plan = spec_apply_plan(exe, selected);
    assert forall|e: Seq<char>| exts.contains(e) && !selected.contains(e) implies plan.delete_trees.contains(
        "Software\\Classes\\SystemFileAssociations\\."@ + e + "\\shell\\Lumia"@,
    ) by {
        assert(!sel.contains(e));
        let menu = "Software\\Classes\\SystemFileAssociations\\."@ + e + "\\shell\\Lumia"@;
        let j = choose|j: int| 0 <= j < part.delete_trees.len() && part.delete_trees[j] == menu;
        assert(plan.delete_trees[j] == part.delete_trees[j]);
    }
}

/// An apply plan registers Lumia's program id exactly for the selected
/// supported extensions: every selected extension gets an `OpenWithProgids`
/// entry, every other supported extension has that entry deleted, and no
/// `OpenWithProgids` entry is written for an extension that is not selected.
pub proof fn lemma_apply_plan_registers_only_selected(exe: Seq<char>, selected: Seq<Seq<char>>)
    ensures
        forall|e: Seq<char>|
            spec_supported_extensions().contains(e) && selected.contains(e) ==> spec_apply_plan(exe, selected).set_values.contains(
                string_value(open_with_path(e), prog_id(), ""@),
            ),
        forall|e: Seq<char>|
            spec_supported_extensions().contains(e) && !selected.contains(e) ==> spec_apply_plan(exe, selected).delete_values.contains(
                deleted_value(open_with_path(e), prog_id()),
            ),
        forall|v: ValueView|
            spec_apply_plan(exe, selected).set_values.contains(v) && v.name == prog_id() ==> exists|e: Seq<char>|
                spec_supported_extensions().contains(e) && selected.contains(e) && v.path == open_with_path(e),
{
    let icon = spec_icon(exe);
    let command = spec_open_command(exe);
    let exts = spec_supported_extensions();
    let sel = selected.to_set();
    lemma_extension_plan(exts, sel, icon, command);
    let part = extension_plan(exts, sel, icon, command);
    let plan = spec_apply_plan(exe, selected);
    let header = header_values(icon, command);
    assert forall|e: Seq<char>| exts.contains(e) && selected.contains(e) implies plan.set_values.contains(
        string_value(open_with_path(e), prog_id(), ""@),
    ) by {
        assert(sel.contains(e));
        let j = choose|j: int| 0 <= j < part.set_values.len() && part.set_values[j] == string_value(
            open_with_path(e),
            prog_id(),
            ""@,
        );
        assert(plan.set_values[header.len() + j] == part.set_values[j]);
    }
    assert forall|e: Seq<char>| exts.contains(e) && !selected.contains(e) implies plan.delete_values.contains(
        deleted_value(open_with_path(e), prog_id()),
    ) by {
        assert(!sel.contains(e));
    }
    assert forall|v: ValueView| plan.set_values.contains(v) && v.name == prog_id() implies exists|e: Seq<char>|
        exts.contains(e) && selected.contains(e) && v.path == open_with_path(e) by {
        let j = choose|j: int| 0 <= j < plan.set_values.len() && plan.set_values[j] == v;
        reveal_strlit("Lumia.Image");
        reveal_strlit("");
        reveal_strlit("FriendlyAppName");
        reveal_strlit("ApplicationName");
        reveal_strlit("ApplicationDescription");
        reveal_strlit("ApplicationIcon");
        reveal_strlit("Lumia");
        reveal_strlit("Configured");
        reveal_strlit("SelectedExtensions");
        if j < header.len() {
            assert(v == header[j]);
            assert(v.name.len() != prog_id().len());
        } else if j < header.len() + part.set_values.len() {
            assert(part.set_values[j - header.len()] == v);
            assert(part.set_values.contains(v));
            let e = choose|e: Seq<char>| exts.contains(e) && sel.contains(e) && v.path == open_with_path(e);
            assert(selected.contains(e));
        } else {
            assert(v.name.len() != prog_id().len());
        }
    }
}

} // verus!

verus! {

/// No character of `s` is an uppercase `U`.
pub open spec fn free_of_u(s: Seq<char>) -> bool {
    forall|i: int| 0 <= i < s.len() ==> s[i] != 'U'
}

/// A string without `U` cannot contain `UserChoice`.
proof fn lemma_free_of_u_excludes_user_choice(s: Seq<char>)
    requires
        free_of_u(s),
    ensures
        !crate::text::contains_seq(s, "UserChoice"@),
{
    reveal_strlit("UserChoice");
    if crate::text::contains_seq(s, "UserChoice"@) {
        let i = choose|i: int| crate::text::occurs_at(s, "UserChoice"@, i);
        assert(s.subrange(i, i + 10)[0] == 'U');
        assert(s[i] == 'U');
    }
}

/// Concatenation keeps strings free of `U`.
proof fn lemma_free_of_u_concat(a: Seq<char>, b: Seq<char>)
    requires
        free_of_u(a),
        free_of_u(b),
    ensures
        free_of_u(a + b),
{
    assert forall|i: int| 0 <= i < (a + b).len() implies (a + b)[i] != 'U' by {
        if i < a.len() {
            assert((a + b)[i] == a[i]);
        } else {
            assert((a + b)[i] == b[i - a.len()]);
        }
    }
}

/// The supported extensions are lowercase and so free of `U`.
proof fn lemma_supported_free_of_u()
    ensures
        forall|k: int| 0 <= k < spec_supported_extensions().len() ==> free_of_u(#[trigger] spec_supported_extensions()[k]),
{
    reveal_strlit("avif"); reveal_strlit("jpg"); reveal_strlit("jpeg"); reveal_strlit("png");
    reveal_strlit("gif"); reveal_strlit("webp"); reveal_strlit("tif"); reveal_strlit("tiff");
    reveal_strlit("tga"); reveal_strlit("dds"); reveal_strlit("bmp"); reveal_strlit("ico");
    reveal_strlit("hdr"); reveal_strlit("exr"); reveal_strlit("pbm"); reveal_strlit("pam");
    reveal_strlit("ppm"); reveal_strlit("pgm"); reveal_strlit("ff"); reveal_strlit("farbfeld");
    reveal_strlit("qoi"); reveal_strlit("svg"); reveal_strlit("heic"); reveal_strlit("heif");
    reveal_strlit("psd"); reveal_strlit("psb");
    let t = crate::association_formats::format_table();
    let exts = spec_supported_extensions();
    reveal_with_fuel(crate::association_formats::flatten_extensions, 19);
    assert(exts =~= seq![
        "avif"@, "jpg"@, "jpeg"@, "png"@, "gif"@, "webp"@, "tif"@, "tiff"@, "tga"@, "dds"@,
        "bmp"@, "ico"@, "hdr"@, "exr"@, "pbm"@, "pam"@, "ppm"@, "pgm"@, "ff"@, "farbfeld"@,
        "qoi"@, "svg"@, "heic"@, "heif"@, "psd"@, "psb"@,
    ]);
}

} // verus!

verus! {

/// Every path that a plan writes or deletes.
pub open spec fn plan_paths(plan: PlanView) -> Set<Seq<char>> {
    Set::new(
        |p: Seq<char>|
            (exists|i: int| 0 <= i < plan.set_values.len() && #[trigger] plan.set_values[i].path == p)
                || (exists|i: int| 0 <= i < plan.delete_values.len() && #[trigger] plan.delete_values[i].path == p)
                || plan.delete_trees.contains(p),
    )
}

/// Every path of a plan is free of `U`.
pub open spec fn plan_free_of_u(plan: PlanView) -> bool {
    &&& forall|i: int| 0 <= i < plan.set_values.len() ==> free_of_u(#[trigger] plan.set_values[i].path)
    &&& forall|i: int| 0 <= i < plan.delete_values.len() ==> free_of_u(#[trigger] plan.delete_values[i].path)
    &&& forall|i: int| 0 <= i < plan.delete_trees.len() ==> free_of_u(#[trigger] plan.delete_trees[i])
}

/// The literal path parts are free of `U`.
proof fn lemma_literals_free_of_u()
    ensures
        free_of_u("Software\\Classes\\Lumia.Image"@),
        free_of_u("Software\\Classes\\Lumia.Image\\DefaultIcon"@),
        free_of_u("Software\\Classes\\Lumia.Image\\shell\\open\\command"@),
        free_of_u("Software\\Classes\\Applications\\lumia-app.exe"@),
        free_of_u("Software\\Classes\\Applications\\lumia-app.exe\\DefaultIcon"@),
        free_of_u("Software\\Classes\\Applications\\lumia-app.exe\\shell\\open\\command"@),
        free_of_u("Software\\Lumia\\Capabilities"@),
        free_of_u("Software\\RegisteredApplications"@),
        free_of_u("Software\\Classes\\."@),
        free_of_u("\\OpenWithProgids"@),
        free_of_u("Software\\Classes\\SystemFileAssociations\\."@),
        free_of_u("\\shell\\Lumia"@),
        free_of_u("\\command"@),
        free_of_u(supported_types_path()),
        free_of_u(capability_associations_path()),
        free_of_u(associations_key()),
        free_of_u(legacy_menu_path()),
        free_of_u("Software\\Lumia"@),
{
    reveal_strlit("Software\\Classes\\Lumia.Image");
    reveal_strlit("Software\\Classes\\Lumia.Image\\DefaultIcon");
    reveal_strlit("Software\\Classes\\Lumia.Image\\shell\\open\\command");
    reveal_strlit("Software\\Classes\\Applications\\lumia-app.exe");
    reveal_strlit("Software\\Classes\\Applications\\lumia-app.exe\\DefaultIcon");
    reveal_strlit("Software\\Classes\\Applications\\lumia-app.exe\\shell\\open\\command");
    reveal_strlit("Software\\Lumia\\Capabilities");
    reveal_strlit("Software\\RegisteredApplications");
    reveal_strlit("Software\\Classes\\.");
    reveal_strlit("\\OpenWithProgids");
    reveal_strlit("Software\\Classes\\SystemFileAssociations\\.");
    reveal_strlit("\\shell\\Lumia");
    reveal_strlit("\\command");
    reveal_strlit("Software\\Classes\\Applications\\lumia-app.exe\\SupportedTypes");
    reveal_strlit("Software\\Lumia\\Capabilities\\FileAssociations");
    reveal_strlit("Software\\Lumia\\Associations");
    reveal_strlit("Software\\Classes\\SystemFileAssociations\\image\\shell\\Lumia");
    reveal_strlit("Software\\Lumia");
}

/// Paths built from a `U`-free extension are free of `U`.
proof fn lemma_extension_paths_free_of_u(ext: Seq<char>)
    requires
        free_of_u(ext),
    ensures
        free_of_u(open_with_path(ext)),
        free_of_u(context_menu_path(ext)),
        free_of_u(context_menu_path(ext) + "\\command"@),
{
    lemma_literals_free_of_u();
    lemma_free_of_u_concat("Software\\Classes\\."@, ext);
    lemma_free_of_u_concat("Software\\Classes\\."@ + ext, "\\OpenWithProgids"@);
    lemma_free_of_u_concat("Software\\Classes\\SystemFileAssociations\\."@, ext);
    lemma_free_of_u_concat("Software\\Classes\\SystemFileAssociations\\."@ + ext, "\\shell\\Lumia"@);
    lemma_free_of_u_concat(context_menu_path(ext), "\\command"@);
}

/// The per-extension part of a plan over `U`-free extensions is `U`-free.
proof fn lemma_extension_plan_free_of_u(
    exts: Seq<Seq<char>>,
    selected: Set<Seq<char>>,
    icon: Seq<char>,
    command: Seq<char>,
)
    requires
        forall|k: int| 0 <= k < exts.len() ==> free_of_u(#[trigger] exts[k]),
    ensures
        plan_free_of_u(extension_plan(exts, selected, icon, command)),
    decreases exts.len(),
{
    if exts.len() > 0 {
        let rest = exts.drop_last();
        assert forall|k: int| 0 <= k < rest.len() implies free_of_u(#[trigger] rest[k]) by {
            assert(rest[k] == exts[k]);
        }
        lemma_extension_plan_free_of_u(rest, selected, icon, command);
        let ext = exts.last();
        assert(free_of_u(exts[exts.len() - 1]));
        lemma_extension_paths_free_of_u(ext);
        lemma_literals_free_of_u();
    }
}

/// Each supported extension contributes to the unregister plan exactly its
/// `OpenWithProgids` entry for `Lumia.Image` and its context menu key.
proof fn lemma_unregister_extensions_shape(exts: Seq<Seq<char>>)
    ensures
        unregister_extensions(exts).0.len() == exts.len(),
        unregister_extensions(exts).1.len() == exts.len(),
        forall|k: int|
            0 <= k < exts.len() ==> #[trigger] unregister_extensions(exts).0[k] == deleted_value(
                open_with_path(exts[k]),
                prog_id(),
            ),
        forall|k: int|
            0 <= k < exts.len() ==> #[trigger] unregister_extensions(exts).1[k] == context_menu_path(exts[k]),
    decreases exts.len(),
{
    if exts.len() > 0 {
        lemma_unregister_extensions_shape(exts.drop_last());
    }
}

/// A path that ends with `suffix` contains it.
proof fn lemma_ends_with(prefix: Seq<char>, suffix: Seq<char>)
    ensures
        crate::text::contains_seq(prefix + suffix, suffix),
{
    let hay = prefix + suffix;
    assert(hay.subrange(prefix.len() as int, (prefix.len() + suffix.len()) as int) =~= suffix);
    assert(crate::text::occurs_at(hay, suffix, prefix.len() as int));
}

/// Unregistering removes only what Lumia owns: it sets no value, every
/// value it deletes is named `Lumia.Image` or `Lumia`, and every key it
/// deletes has `Lumia` or `lumia-app.exe` in its path.
pub proof fn lemma_unregister_plan_removes_only_lumia_entries()
    ensures
        spec_unregister_plan().set_values.len() == 0,
        forall|i: int|
            0 <= i < spec_unregister_plan().delete_values.len() ==> (
            #[trigger] spec_unregister_plan().delete_values[i].name == prog_id()
                || spec_unregister_plan().delete_values[i].name == "Lumia"@),
        forall|i: int|
            0 <= i < spec_unregister_plan().delete_trees.len() ==> (crate::text::contains_seq(
                #[trigger] spec_unregister_plan().delete_trees[i],
                "Lumia"@,
            ) || crate::text::contains_seq(spec_unregister_plan().delete_trees[i], "lumia-app.exe"@)),
{
    let exts = spec_supported_extensions();
    lemma_unregister_extensions_shape(exts);
    let plan = spec_unregister_plan();
    let (values, trees) = unregister_extensions(exts);
    assert forall|i: int| 0 <= i < plan.delete_values.len() implies (#[trigger] plan.delete_values[i].name
        == prog_id() || plan.delete_values[i].name == "Lumia"@) by {
        if i > 0 {
            assert(plan.delete_values[i] == values[i - 1]);
        }
    }
    assert forall|i: int| 0 <= i < plan.delete_trees.len() implies (crate::text::contains_seq(
        #[trigger] plan.delete_trees[i],
        "Lumia"@,
    ) || crate::text::contains_seq(plan.delete_trees[i], "lumia-app.exe"@)) by {
        if i == 0 {
            assert(plan.delete_trees[i] =~= "Software\\Classes\\"@ + ("Lumia"@ + ".Image"@)) by {
                reveal_strlit("Software\\Classes\\Lumia.Image");
                reveal_strlit("Software\\Classes\\");
                reveal_strlit("Lumia");
                reveal_strlit(".Image");
            }
            lemma_occurs_in_middle("Software\\Classes\\"@, "Lumia"@, ".Image"@);
        } else if i == 1 {
            assert(plan.delete_trees[i] =~= "Software\\Classes\\Applications\\"@ + "lumia-app.exe"@) by {
                reveal_strlit("Software\\Classes\\Applications\\lumia-app.exe");
                reveal_strlit("Software\\Classes\\Applications\\");
                reveal_strlit("lumia-app.exe");
            }
            lemma_ends_with("Software\\Classes\\Applications\\"@, "lumia-app.exe"@);
        } else if i == 2 {
            assert(plan.delete_trees[i] =~= "Software\\Classes\\SystemFileAssociations\\image\\shell\\"@
                + "Lumia"@) by {
                reveal_strlit("Software\\Classes\\SystemFileAssociations\\image\\shell\\Lumia");
                reveal_strlit("Software\\Classes\\SystemFileAssociations\\image\\shell\\");
                reveal_strlit("Lumia");
            }
            lemma_ends_with("Software\\Classes\\SystemFileAssociations\\image\\shell\\"@, "Lumia"@);
        } else if i == 3 {
            assert(plan.delete_trees[i] =~= "Software\\"@ + "Lumia"@) by {
                reveal_strlit("Software\\Lumia");
                reveal_strlit("Software\\");
                reveal_strlit("Lumia");
            }
            lemma_ends_with("Software\\"@, "Lumia"@);
        } else {
            let ext = exts[i - 4];
            assert(plan.delete_trees[i] == trees[i - 4]);
            assert(plan.delete_trees[i] =~= ("Software\\Classes\\SystemFileAssociations\\."@ + ext
                + "\\shell\\"@) + "Lumia"@) by {
                reveal_strlit("\\shell\\Lumia");
                reveal_strlit("\\shell\\");
                reveal_strlit("Lumia");
            }
            lemma_ends_with("Software\\Classes\\SystemFileAssociations\\."@ + ext + "\\shell\\"@, "Lumia"@);
        }
    }
}

/// A text with `middle` between two others contains it.
proof fn lemma_occurs_in_middle(before: Seq<char>, middle: Seq<char>, after: Seq<char>)
    ensures
        crate::text::contains_seq(before + (middle + after), middle),
{
    let hay = before + (middle + after);
    assert(hay.subrange(before.len() as int, (before.len() + middle.len()) as int) =~= middle);
    assert(crate::text::occurs_at(hay, middle, before.len() as int));
}

/// No apply plan and no unregister plan touches the `UserChoice` keys that
/// Windows reserves for the user's own default-app choice: none of their
/// paths contains `UserChoice`.
pub proof fn lemma_plans_never_touch_user_choice(exe: Seq<char>, selected: Seq<Seq<char>>)
    ensures
        forall|p: Seq<char>|
            plan_paths(spec_apply_plan(exe, selected)).contains(p) ==> !crate::text::contains_seq(
                p,
                "UserChoice"@,
            ),
        forall|p: Seq<char>|
            plan_paths(spec_unregister_plan()).contains(p) ==> !crate::text::contains_seq(
                p,
                "UserChoice"@,
            ),
{
    lemma_supported_free_of_u();
    lemma_literals_free_of_u();
    let icon = spec_icon(exe);
    let command = spec_open_command(exe);
    let exts = spec_supported_extensions();
    lemma_extension_plan_free_of_u(exts, selected.to_set(), icon, command);
    let plan = spec_apply_plan(exe, selected);
    assert(plan_free_of_u(plan)) by {
        let part = extension_plan(exts, selected.to_set(), icon, command);
        let header = header_values(icon, command);
        assert forall|i: int| 0 <= i < plan.set_values.len() implies free_of_u(
            #[trigger] plan.set_values[i].path,
        ) by {
            if i >= header.len() && i < header.len() + part.set_values.len() {
                assert(plan.set_values[i] == part.set_values[i - header.len()]);
            }
        }
        assert forall|i: int| 0 <= i < plan.delete_trees.len() implies free_of_u(
            #[trigger] plan.delete_trees[i],
        ) by {
            if i < part.delete_trees.len() {
                assert(plan.delete_trees[i] == part.delete_trees[i]);
            }
        }
    }
    assert forall|p: Seq<char>| plan_paths(plan).contains(p) implies !crate::text::contains_seq(
        p,
        "UserChoice"@,
    ) by {
        if exists|i: int| 0 <= i < plan.set_values.len() && #[trigger] plan.set_values[i].path == p {
            let i = choose|i: int| 0 <= i < plan.set_values.len() && #[trigger] plan.set_values[i].path == p;
            assert(free_of_u(plan.set_values[i].path));
        } else if exists|i: int| 0 <= i < plan.delete_values.len() && #[trigger] plan.delete_values[i].path == p {
            let i = choose|i: int| 0 <= i < plan.delete_values.len() && #[trigger] plan.delete_values[i].path == p;
            assert(free_of_u(plan.delete_values[i].path));
        } else {
            let i = choose|i: int| 0 <= i < plan.delete_trees.len() && plan.delete_trees[i] == p;
            assert(free_of_u(plan.delete_trees[i]));
        }
        lemma_free_of_u_excludes_user_choice(p);
    }
    lemma_unregister_free_of_u(exts);
    let unregister = spec_unregister_plan();
    assert(plan_free_of_u(unregister)) by {
        let (values, trees) = unregister_extensions(exts);
        assert forall|i: int| 0 <= i < unregister.delete_values.len() implies free_of_u(
            #[trigger] unregister.delete_values[i].path,
        ) by {
            if i > 0 {
                assert(unregister.delete_values[i] == values[i - 1]);
            }
        }
        assert forall|i: int| 0 <= i < unregister.delete_trees.len() implies free_of_u(
            #[trigger] unregister.delete_trees[i],
        ) by {
            if i >= 4 {
                assert(unregister.delete_trees[i] == trees[i - 4]);
            }
        }
    }
    assert forall|p: Seq<char>| plan_paths(unregister).contains(p) implies !crate::text::contains_seq(
        p,
        "UserChoice"@,
    ) by {
        if exists|i: int| 0 <= i < unregister.delete_values.len() && #[trigger] unregister.delete_values[i].path == p {
            let i = choose|i: int| 0 <= i < unregister.delete_values.len() && #[trigger] unregister.delete_values[i].path == p;
            assert(free_of_u(unregister.delete_values[i].path));
        } else if unregister.delete_trees.contains(p) {
            let i = choose|i: int| 0 <= i < unregister.delete_trees.len() && unregister.delete_trees[i] == p;
            assert(free_of_u(unregister.delete_trees[i]));
        }
        lemma_free_of_u_excludes_user_choice(p);
    }
}

/// The per-extension removals over `U`-free extensions are `U`-free.
proof fn lemma_unregister_free_of_u(exts: Seq<Seq<char>>)
    requires
        forall|k: int| 0 <= k < exts.len() ==> free_of_u(#[trigger] exts[k]),
    ensures
        forall|i: int| 0 <= i < unregister_extensions(exts).0.len() ==> free_of_u(#[trigger] unregister_extensions(exts).0[i].path),
        forall|i: int| 0 <= i < unregister_extensions(exts).1.len() ==> free_of_u(#[trigger] unregister_extensions(exts).1[i]),
    decreases exts.len(),
{
    if exts.len() > 0 {
        let rest = exts.drop_last();
        assert forall|k: int| 0 <= k < rest.len() implies free_of_u(#[trigger] rest[k]) by {
            assert(rest[k] == exts[k]);
        }
        lemma_unregister_free_of_u(rest);
        assert(free_of_u(exts[exts.len() - 1]));
        lemma_extension_paths_free_of_u(exts.last());
    }
}


/// The repairs of the context menu of each extension, in order: its icon
/// and its command.
pub open spec fn context_menu_repairs(selected: Seq<Seq<char>>, icon: Seq<char>, command: Seq<char>) -> Seq<ValueView>
    decreases selected.len(),
{
    if selected.len() == 0 {
        Seq::empty()
    } else {
        let ext = selected.last();
        context_menu_repairs(selected.drop_last(), icon, command) + seq![
            string_value(context_menu_path(ext), "Icon"@, icon),
            string_value(context_menu_path(ext) + "\\command"@, ""@, command),
        ]
    }
}

/// The registry strings that may still name the executable of a legacy
/// install, each with the value it should hold for the executable at `exe`:
/// the icon and open command of the program id and of the application
/// entry, the capabilities' icon, then the context-menu icon and command of
/// each selected extension.
pub open spec fn spec_repair_targets(exe: Seq<char>, selected: Seq<Seq<char>>) -> Seq<ValueView> {
    let icon = spec_icon(exe);
    let command = spec_open_command(exe);
    seq![
        string_value("Software\\Classes\\Lumia.Image\\DefaultIcon"@, ""@, icon),
        string_value("Software\\Classes\\Lumia.Image\\shell\\open\\command"@, ""@, command),
        string_value("Software\\Classes\\Applications\\lumia-app.exe\\DefaultIcon"@, ""@, icon),
        string_value("Software\\Classes\\Applications\\lumia-app.exe\\shell\\open\\command"@, ""@, command),
        string_value("Software\\Lumia\\Capabilities"@, "ApplicationIcon"@, icon),
    ] + context_menu_repairs(selected, icon, command)
}

/// The supported extensions among `stored`, without repeats and in order.
pub fn supported_set(stored: &Vec<String>) -> (result: Vec<String>)
    ensures
        crate::text::strictly_sorted(views(result@)),
        views(result@).to_set() == views(stored@).to_set().filter(
            |e: Seq<char>| spec_supported_extensions().contains(e),
        ),
{
    let mut result: Vec<String> = Vec::new();
    let mut i: usize = 0;
    while i < stored.len()
        invariant
            i <= stored.len(),
            crate::text::strictly_sorted(views(result@)),
            views(result@).to_set() == views(stored@).take(i as int).to_set().filter(
                |e: Seq<char>| spec_supported_extensions().contains(e),
            ),
        decreases stored.len() - i,
    {
        let ghost before = views(stored@).take(i as int);
        assert(views(stored@).take(i + 1) =~= before.push(stored@[i as int]@));
        proof {
            before.lemma_push_to_set_commute(stored@[i as int]@);
        }
        if crate::association_formats::is_supported_image_extension(stored[i].as_str()) {
            crate::text::insert_sorted(&mut result, stored[i].clone());
            assert(views(result@).to_set() =~= views(stored@).take(i + 1).to_set().filter(
                |e: Seq<char>| spec_supported_extensions().contains(e),
            ));
        } else {
            assert(views(result@).to_set() =~= views(stored@).take(i + 1).to_set().filter(
                |e: Seq<char>| spec_supported_extensions().contains(e),
            ));
        }
        i = i + 1;
    }
    assert(views(stored@).take(stored.len() as int) =~= views(stored@));
    result
}

/// The registry strings to repair after a move from a legacy Program Files
/// install, for the executable at `exe_path` and the selection stored in
/// the registry (`stored`): the selection's supported extensions are taken
/// once each, in order.
pub fn legacy_repair_targets(exe_path: &str, stored: &Vec<String>) -> (result: Vec<RegistryValue>)
    ensures
        exists|selected: Seq<Seq<char>>|
            crate::text::strictly_sorted(selected) && selected.to_set() == views(stored@).to_set().filter(
                |e: Seq<char>| spec_supported_extensions().contains(e),
            ) && value_views(result@) == spec_repair_targets(exe_path@, selected),
{
    let selected = supported_set(stored);
    let icon = icon_reference(exe_path);
    let command = open_command(exe_path);
    let mut plan = RegistryPlan::new();
    plan.set_string("Software\\Classes\\Lumia.Image\\DefaultIcon", "", icon.as_str());
    plan.set_string("Software\\Classes\\Lumia.Image\\shell\\open\\command", "", command.as_str());
    plan.set_string("Software\\Classes\\Applications\\lumia-app.exe\\DefaultIcon", "", icon.as_str());
    plan.set_string(
        "Software\\Classes\\Applications\\lumia-app.exe\\shell\\open\\command",
        "",
        command.as_str(),
    );
    plan.set_string("Software\\Lumia\\Capabilities", "ApplicationIcon", icon.as_str());
    let ghost head = plan@.set_values;
    assert(head =~= spec_repair_targets(exe_path@, Seq::empty()));
    let mut i: usize = 0;
    while i < selected.len()
        invariant
            i <= selected.len(),
            icon@ == spec_icon(exe_path@),
            command@ == spec_open_command(exe_path@),
            plan@.set_values == head + context_menu_repairs(views(selected@).take(i as int), icon@, command@),
        decreases selected.len() - i,
    {
        let ghost previous = plan@.set_values;
        let context_menu = concat3("Software\\Classes\\SystemFileAssociations\\.", selected[i].as_str(), "\\shell\\Lumia");
        plan.set_string(context_menu.as_str(), "Icon", icon.as_str());
        let context_command = concat2(context_menu.as_str(), "\\command");
        plan.set_string(context_command.as_str(), "", command.as_str());
        assert(views(selected@).take(i + 1).drop_last() =~= views(selected@).take(i as int));
        assert(views(selected@).take(i + 1).last() == selected@[i as int]@);
        assert(plan@.set_values =~= head + context_menu_repairs(views(selected@).take(i + 1), icon@, command@));
        i = i + 1;
    }
    assert(views(selected@).take(selected.len() as int) =~= views(selected@));
    assert(spec_repair_targets(exe_path@, views(selected@)) =~= head + context_menu_repairs(views(selected@), icon@, command@));
    plan.set_values
}

/// The registry plans touch only what is Lumia's and never the user's own
/// choice: for every executable and selection, no path that
/// `build_apply_plan` or `build_unregister_plan` sets or deletes contains
/// `UserChoice`; `build_unregister_plan` sets nothing, deletes only values
/// named `Lumia.Image` or `Lumia`, and only keys whose path contains
/// `Lumia` or `lumia-app.exe`.
pub proof fn lemma_registry_plans_touch_only_lumia(exe: Seq<char>, selected: Seq<Seq<char>>)
    ensures
        forall|p: Seq<char>|
            plan_paths(spec_apply_plan(exe, selected)).contains(p) ==> !crate::text::contains_seq(
                p,
                "UserChoice"@,
            ),
        forall|p: Seq<char>|
            plan_paths(spec_unregister_plan()).contains(p) ==> !crate::text::contains_seq(
                p,
                "UserChoice"@,
            ),
        spec_unregister_plan().set_values.len() == 0,
        forall|i: int|
            0 <= i < spec_unregister_plan().delete_values.len() ==> (
            #[trigger] spec_unregister_plan().delete_values[i].name == prog_id()
                || spec_unregister_plan().delete_values[i].name == "Lumia"@),
        forall|i: int|
            0 <= i < spec_unregister_plan().delete_trees.len() ==> (crate::text::contains_seq(
                #[trigger] spec_unregister_plan().delete_trees[i],
                "Lumia"@,
            ) || crate::text::contains_seq(spec_unregister_plan().delete_trees[i], "lumia-app.exe"@)),
{
    lemma_plans_never_touch_user_choice(exe, selected);
    lemma_unregister_plan_removes_only_lumia_entries();
}

} // verus!
