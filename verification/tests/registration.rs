use lumia_viewer::registration::{
    build_apply_plan, build_unregister_plan, legacy_repair_targets, open_command, supported_set, RegistryData,
    RegistryPlan,
};

const PROG_ID: &str = "Lumia.Image";

fn selected(values: &[&str]) -> Vec<String> {
    let mut items: Vec<String> = values.iter().map(|value| (*value).to_string()).collect();
    items.sort();
    items.dedup();
    items
}

#[test]
fn apply_plan_registers_only_selected_extensions() {
    let plan = build_apply_plan(r"C:\Program Files\Lumia\lumia-app.exe", &selected(&["jpg", "jpeg", "png"]));

    assert!(plan.set_values.iter().any(|value| {
        value.path.ends_with(r".png\OpenWithProgids") && value.name == PROG_ID
    }));
    assert!(plan.delete_values.iter().any(|value| {
        value.path.ends_with(r".gif\OpenWithProgids") && value.name == PROG_ID
    }));
    assert!(plan.set_values.iter().any(|value| {
        value.path.ends_with(r".jpg\shell\Lumia\command")
            && value.data == RegistryData::String(r#""C:\Program Files\Lumia\lumia-app.exe" "%1""#.into())
    }));
}

#[test]
fn apply_plan_records_selection_and_cleans_legacy_menu() {
    let plan = build_apply_plan("lumia-app.exe", &selected(&["png"]));

    assert!(plan.set_values.iter().any(|value| {
        value.path == r"Software\Lumia\Associations"
            && value.name == "SelectedExtensions"
            && value.data == RegistryData::MultiString(vec!["png".into()])
    }));
    assert!(plan
        .delete_trees
        .contains(&r"Software\Classes\SystemFileAssociations\image\shell\Lumia".to_string()));
}

#[test]
fn apply_plan_registers_photoshop_extensions() {
    let plan = build_apply_plan(r"C:\Program Files\Lumia\lumia-app.exe", &selected(&["psd", "psb"]));

    for extension in ["psd", "psb"] {
        assert!(plan.set_values.iter().any(|value| {
            value.path.ends_with(&format!(r".{extension}\OpenWithProgids")) && value.name == PROG_ID
        }));
        assert!(plan.set_values.iter().any(|value| {
            value.path == r"Software\Lumia\Capabilities\FileAssociations"
                && value.name == format!(".{extension}")
                && value.data == RegistryData::String(PROG_ID.into())
        }));
    }
}

fn all_paths(plans: &[&RegistryPlan]) -> Vec<String> {
    let mut paths = Vec::new();
    for plan in plans {
        for value in plan.set_values.iter().chain(&plan.delete_values) {
            paths.push(value.path.clone());
        }
        paths.extend(plan.delete_trees.iter().cloned());
    }
    paths
}

#[test]
fn plans_never_modify_windows_user_choice() {
    let apply = build_apply_plan("lumia-app.exe", &selected(&["png"]));
    let unregister = build_unregister_plan();
    let paths = all_paths(&[&apply, &unregister]);
    assert!(paths.iter().all(|path| !path.contains("UserChoice")));
}

#[test]
fn unregister_plan_removes_only_lumia_owned_entries() {
    let plan = build_unregister_plan();
    assert!(plan.delete_values.iter().all(|value| value.name == PROG_ID || value.name == "Lumia"));
    assert!(plan
        .delete_trees
        .iter()
        .all(|path| path.contains("Lumia") || path.contains("lumia-app.exe")));
}

#[test]
fn open_command_quotes_the_executable_and_argument() {
    assert_eq!(open_command(r"C:\Lumia\lumia-app.exe"), r#""C:\Lumia\lumia-app.exe" "%1""#);
}

#[test]
fn plan_builders_record_each_change() {
    let mut plan = RegistryPlan::new();
    plan.set_string("a", "b", "c");
    plan.set_dword("a", "d", 7);
    plan.set_multi_string("a", "e", vec!["x".into()]);
    plan.delete_value("f", "g");
    plan.delete_tree("h".into());
    assert_eq!(plan.set_values.len(), 3);
    assert_eq!(plan.set_values[1].data, RegistryData::Dword(7));
    assert_eq!(plan.delete_values[0].path, "f");
    assert_eq!(plan.delete_trees, vec!["h".to_string()]);
}

#[test]
fn legacy_repairs_cover_shared_entries_and_each_selected_context_menu() {
    let exe = r"C:\Users\Ada\AppData\Local\Programs\Lumia\lumia-app.exe";
    let stored = vec!["png".to_string(), "doc".to_string(), "jpg".to_string(), "png".to_string()];
    let targets = legacy_repair_targets(exe, &stored);
    let icon = format!("\"{exe}\",0");
    let command = format!("\"{exe}\" \"%1\"");
    assert_eq!(targets.len(), 9);
    assert_eq!(targets[0].path, r"Software\Classes\Lumia.Image\DefaultIcon");
    assert_eq!(targets[0].data, RegistryData::String(icon.clone()));
    assert_eq!(targets[1].data, RegistryData::String(command.clone()));
    assert_eq!(targets[4].path, r"Software\Lumia\Capabilities");
    assert_eq!(targets[4].name, "ApplicationIcon");
    assert_eq!(targets[5].path, r"Software\Classes\SystemFileAssociations\.jpg\shell\Lumia");
    assert_eq!(targets[5].name, "Icon");
    assert_eq!(targets[6].path, r"Software\Classes\SystemFileAssociations\.jpg\shell\Lumia\command");
    assert_eq!(targets[6].data, RegistryData::String(command));
    assert_eq!(targets[7].path, r"Software\Classes\SystemFileAssociations\.png\shell\Lumia");
    assert_eq!(targets[8].data, RegistryData::String(format!("\"{exe}\" \"%1\"")));
}

#[test]
fn stored_selection_keeps_supported_extensions_once_in_order() {
    let stored = vec!["webp".to_string(), "JPG".to_string(), "avif".to_string(), "webp".to_string()];
    assert_eq!(supported_set(&stored), vec!["avif".to_string(), "webp".to_string()]);
}
