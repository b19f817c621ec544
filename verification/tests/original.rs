use read_bazel_log::cli::{add, bad_add};
use read_bazel_log::gradle::{find_include_modules, find_project_ext, script_files_under, DependencyGraph, ScanError, ScriptSet};
use read_bazel_log::manifest::{gather_uses_permission, manifest_paths, parse_main_manifest};

#[test]
fn test_add() {
    assert_eq!(add(1, 2), 3);
}

#[test]
fn test_bad_add() {
    assert_eq!(bad_add(1, 2), 3);
}

#[test]
fn err_xxx() {
    let error_message: String =
        "full_path x/buildconfig/appcompile/compile-customerapp.gradle not existed".into();
    let result = find_include_modules("x", &vec![None, None, None]).unwrap_err();
    match result {
        ScanError::MissingFile(m) => assert_eq!(m, error_message),
        other => panic!("unexpected error {:?}", other),
    }
}

#[test]
fn internal() {
    let root = "/work/project";
    let files = script_files_under(root, ScriptSet::CompileScripts);
    assert_eq!(files.len(), 3);
    let contents = vec![
        Some("include ':app'\ninclude ':features:home'\n".to_string()),
        Some("include ':seller'\n".to_string()),
        Some("// libraries\n".to_string()),
    ];
    assert_eq!(true, find_include_modules(root, &contents).is_ok());
}

#[test]
fn test_find_project_ext() {
    let root = "/work/project";
    let contents = vec![
        Some("ext.features = [\n    home : \"com.example:home\",\n]\n".to_string()),
        Some("ext.libraries = [\n    appcompat : \"androidx.appcompat:appcompat\",\n]\n".to_string()),
    ];
    assert_eq!(true, find_project_ext(root, &contents).is_ok());
}

#[test]
fn test_find_all_modules_manifest() {
    let walked = vec![
        "/work/example_manifest".to_string(),
        "/work/example_manifest/a".to_string(),
        "/work/example_manifest/a/AndroidManifest.xml".to_string(),
        "/work/example_manifest/a/c".to_string(),
        "/work/example_manifest/b/AndroidManifest.xml".to_string(),
        "/work/example_manifest/b/build.gradle".to_string(),
        "/work/example_manifest/AndroidManifest.xml".to_string(),
    ];
    assert_eq!(manifest_paths(&walked).len(), 3);
}

#[test]
fn failed_test_find_all_modules_manifest() {
    let walked = vec!["/work/example_manifest/a/c".to_string()];
    assert_eq!(manifest_paths(&walked).len(), 0);
}

#[test]
fn test_dependency_graph() {
    let y = DependencyGraph::new(Some("/Users/normansyahputa/Documents/dev/repo/android-tokopedia-core"));
    assert_eq!(y.project_path, "/Users/normansyahputa/Documents/dev/repo/android-tokopedia-core");
    assert_eq!(y.email, "sekarang");
    assert_eq!(y.ext, "sekarang");
}

const MODULE_MANIFEST: &str = r#"<?xml version="1.0" encoding="utf-8"?>
<manifest xmlns:android="http://schemas.android.com/apk/res/android" package="com.example.feature">
    <uses-permission android:name="android.permission.INTERNET" />
    <uses-permission android:name="android.permission.ACCESS_NETWORK_STATE" />
    <application android:label="feature">
    </application>
</manifest>
"#;

#[test]
fn test_gather_permission() {
    let permissions = gather_uses_permission(MODULE_MANIFEST).unwrap();
    assert_eq!(
        permissions,
        vec![
            ("uses-permission".to_string(), "android.permission.INTERNET".to_string(), "android:name".to_string()),
            (
                "uses-permission".to_string(),
                "android.permission.ACCESS_NETWORK_STATE".to_string(),
                "android:name".to_string(),
            ),
        ]
    );
}

#[test]
fn test_main_permission() {
    let main_manifest = "<manifest package=\"com.example\">\n    <application android:label=\"app\">\n    </application>\n</manifest>\n";
    let set = vec![(
        "uses-permission".to_string(),
        "android.permission.ACCESS_NETWORK_STATE".to_string(),
        "android:name".to_string(),
    )];
    let content = parse_main_manifest(main_manifest, &set).unwrap();
    assert_eq!(
        content,
        "<manifest package=\"com.example\">\n <uses-permission android:name=\"android.permission.ACCESS_NETWORK_STATE\" />\n    <application android:label=\"app\">\n    </application>\n</manifest>\n"
    );
}
