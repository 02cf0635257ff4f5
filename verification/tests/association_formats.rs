use lumia_viewer::association_formats::restore_handler;
use lumia_viewer::association_formats::{
    applications_dir, association_formats, data_home, desktop_exec_path, extensions_for_linux_mime,
    extensions_for_macos_content_type, is_supported_image_extension, mime_types,
    plan_mime_default, supported_image_extensions, unique_mime_types, MimeAction,
};

#[test]
fn shared_handlers_expand_to_complete_format_groups() {
    assert_eq!(
        extensions_for_linux_mime("image/jpeg"),
        vec!["jpeg".to_string(), "jpg".to_string()]
    );
    assert_eq!(
        extensions_for_macos_content_type("public.jpeg"),
        vec!["jpeg".to_string(), "jpg".to_string()]
    );
}

#[test]
fn unknown_handlers_expand_to_nothing() {
    assert!(extensions_for_linux_mime("image/unknown").is_empty());
    assert!(extensions_for_macos_content_type("public.unknown").is_empty());
}

#[test]
fn mime_types_are_unique_and_sorted() {
    let values = mime_types();
    let parts = values.split(';').collect::<Vec<_>>();
    assert!(parts.windows(2).all(|pair| pair[0] < pair[1]));
    assert!(parts.contains(&"image/png"));
    assert!(parts.contains(&"image/heic"));
    assert!(parts.contains(&"image/vnd.adobe.photoshop"));
}

#[test]
fn unique_mime_types_cover_every_format() {
    let unique = unique_mime_types();
    for format in association_formats() {
        for mime in &format.linux_mime_types {
            assert!(unique.contains(mime));
        }
    }
}

#[test]
fn desktop_exec_quotes_shell_sensitive_paths() {
    assert_eq!(desktop_exec_path("/tmp/Lumia $Build/app"), r#""/tmp/Lumia \$Build/app""#);
}

#[test]
fn desktop_exec_escapes_quotes_backslashes_and_backticks() {
    assert_eq!(desktop_exec_path("a\"b\\c`d"), "\"a\\\"b\\\\c\\`d\"");
}

#[test]
fn supported_extensions_are_recognised_case_sensitively_as_listed() {
    assert!(is_supported_image_extension("png"));
    assert!(!is_supported_image_extension("exe"));
    let all = supported_image_extensions();
    assert!(all.contains(&"psd".to_string()));
}

#[test]
fn mime_default_plans_follow_the_selection() {
    assert_eq!(
        plan_mime_default(true, Some("org.gnome.eog.desktop"), None),
        MimeAction::TakeDefault { remember: Some("org.gnome.eog.desktop".into()) }
    );
    assert_eq!(plan_mime_default(true, Some(""), None), MimeAction::TakeDefault { remember: None });
    assert_eq!(plan_mime_default(true, Some("lumia.desktop"), None), MimeAction::Keep);
    assert_eq!(
        plan_mime_default(false, Some("lumia.desktop"), Some("eog.desktop")),
        MimeAction::RestorePrevious("eog.desktop".into())
    );
    assert_eq!(plan_mime_default(false, Some("lumia.desktop"), None), MimeAction::ManualRestore);
    assert_eq!(plan_mime_default(false, None, Some("x")), MimeAction::ForgetPrevious);
}

#[test]
fn applications_dir_prefers_xdg_data_home() {
    assert_eq!(applications_dir(Some("/data"), Some("/home/u")), Ok("/data/applications".to_string()));
    assert_eq!(
        applications_dir(None, Some("/home/u")),
        Ok("/home/u/.local/share/applications".to_string())
    );
    assert!(applications_dir(None, None).is_err());
    assert_eq!(data_home(Some("/data"), None), Ok("/data".to_string()));
    assert_eq!(data_home(None, Some("/home/u")), Ok("/home/u/.local/share".to_string()));
    assert!(data_home(None, None).is_err());
}

#[test]
fn association_formats_cover_every_supported_extension_once() {
    let mapped: Vec<String> = association_formats()
        .into_iter()
        .flat_map(|format| format.extensions.into_iter())
        .collect();
    let unique: std::collections::BTreeSet<String> = mapped.iter().cloned().collect();
    let supported: std::collections::BTreeSet<String> = supported_image_extensions().into_iter().collect();
    assert_eq!(mapped.len(), unique.len());
    assert_eq!(unique, supported);
}

#[test]
fn restoring_defaults_touches_only_types_lumia_still_owns() {
    assert_eq!(restore_handler(Some("lumia.desktop"), "org.gnome.eog.desktop"), Some("org.gnome.eog.desktop".to_string()));
    assert_eq!(restore_handler(Some("gimp.desktop"), "org.gnome.eog.desktop"), None);
    assert_eq!(restore_handler(None, "org.gnome.eog.desktop"), None);
}
