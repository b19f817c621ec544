use read_bazel_log::cli::{
    bazel_influx_fields, command_plan, gradle_build_seconds, gradle_influx_fields, influx_fields, option_values,
    path_in_working_dir, runtime_summary, sample_action, total_run_time, Command, SampleAction, SampleEvent,
    TimingError, BUILD_TIME_PATTERN, TOTAL_RUN_TIME_PATTERN,
};
use read_bazel_log::gradle::{
    applied_scripts, assemble_dependencies, ext_variable_names, find_include_modules, find_project_ext,
    implementation_dependencies, included_modules, module_dir, script_files_under, script_path, ScanError,
    ScriptSet, APPLY_FROM_PATTERN, EXT_VARIABLE_PATTERN, IMPLEMENTATION_PATTERN, INCLUDE_PATTERN,
};
use read_bazel_log::manifest::{
    add_manifest_permissions, add_new_permissions, gather_uses_permission, manifest_paths, parse_main_manifest,
    GatherError, Permission,
};
use read_bazel_log::path::join_path;
use read_bazel_log::walk::{read_content, walk, Traversal};
use read_bazel_log::text::{
    chars_of, contains_chars, find_chars, parse_usize, replace_chars, split_chars, string_of, trim_chars, usize_text,
};

fn cs(s: &str) -> Vec<char> {
    s.chars().collect()
}

fn strings(v: &[&str]) -> Vec<String> {
    v.iter().map(|s| s.to_string()).collect()
}

fn perm(name: &str, value: &str, key: &str) -> Permission {
    (name.to_string(), value.to_string(), key.to_string())
}

#[test]
fn chars_round_trip() {
    assert_eq!(chars_of("añb"), vec!['a', 'ñ', 'b']);
    assert_eq!(string_of(&cs("añb")), "añb");
}

#[test]
fn replace_is_left_to_right_and_non_overlapping() {
    assert_eq!(string_of(&replace_chars(&cs("aaa"), &cs("aa"), &cs("b"))), "ba");
    assert_eq!(string_of(&replace_chars(&cs("x:y:z"), &cs(":"), &cs("/"))), "x/y/z");
    assert_eq!(string_of(&replace_chars(&cs("none"), &cs("q"), &cs("r"))), "none");
}

#[test]
fn trim_removes_only_the_set_at_both_ends() {
    assert_eq!(string_of(&trim_chars(&cs(" \"a b\"' "), &cs("'\" "))), "a b");
    assert_eq!(string_of(&trim_chars(&cs("\"\""), &cs("'\" "))), "");
    assert_eq!(string_of(&trim_chars(&cs("\tx "), &cs(" "))), "\tx");
}

#[test]
fn split_keeps_empty_pieces() {
    let pieces: Vec<String> = split_chars(&cs("a,,b,"), ',').iter().map(|p| string_of(p)).collect();
    assert_eq!(pieces, strings(&["a", "", "b", ""]));
    assert_eq!(split_chars(&cs(""), ',').len(), 1);
}

#[test]
fn find_gives_first_occurrence() {
    assert_eq!(find_chars(&cs("abcabc"), &cs("ca")), Some(2));
    assert_eq!(find_chars(&cs("abc"), &cs("")), Some(0));
    assert_eq!(find_chars(&cs("abc"), &cs("d")), None);
    assert!(contains_chars(&cs("a/AndroidManifest.xml"), &cs("AndroidManifest.xml")));
}

#[test]
fn parse_usize_follows_std() {
    assert_eq!(parse_usize(&cs("12345")), Some(12345));
    assert_eq!(parse_usize(&cs("+7")), Some(7));
    assert_eq!(parse_usize(&cs("")), None);
    assert_eq!(parse_usize(&cs("+")), None);
    assert_eq!(parse_usize(&cs("-1")), None);
    assert_eq!(parse_usize(&cs("1a")), None);
    assert_eq!(parse_usize(&cs("99999999999999999999999")), None);
    assert_eq!(parse_usize(&cs(&usize::MAX.to_string())), Some(usize::MAX));
}

#[test]
fn decimal_text_round_trip() {
    for n in [0usize, 7, 10, 305, 123456789, usize::MAX] {
        let t = usize_text(n);
        assert_eq!(t, n.to_string());
        assert_eq!(parse_usize(&cs(&t)), Some(n));
    }
}

#[test]
fn join_follows_path_join() {
    assert_eq!(join_path("a", "b"), "a/b");
    assert_eq!(join_path("a/", "b"), "a/b");
    assert_eq!(join_path("a", "/b"), "/b");
    assert_eq!(join_path("", "b"), "b");
    assert_eq!(join_path("a", ""), "a/");
}

#[test]
fn implementation_dependencies_are_group_slash_name() {
    let content = "dependencies {\n    implementation rootProject.ext.libraries.appcompat\n    lintChecks project(rootProject.ext.features.lint)\n}\n";
    assert_eq!(
        implementation_dependencies(content),
        Some(strings(&["libraries/appcompat", "features/lint"]))
    );
    assert_eq!(implementation_dependencies("nothing here"), Some(vec![]));
}

#[test]
fn applied_scripts_are_resolved_against_the_script() {
    let content = "apply from: \"$rootProject.projectDir/buildconfig/common.gradle\"\napply from: \"local.gradle\"\n";
    assert_eq!(
        applied_scripts("/proj", "/proj/app", content),
        Some(strings(&["/proj/buildconfig/common.gradle", "/proj/app/local.gradle"]))
    );
}

#[test]
fn ext_names_are_trimmed() {
    let content = "ext.libraries = [\n    appcompat : \"androidx-appcompat:appcompat\",\n    core_ktx: \"androidx-core:core-ktx\",\n]\n";
    assert_eq!(ext_variable_names(content), Some(strings(&["appcompat", "core_ktx"])));
}

#[test]
fn included_modules_keep_quotes() {
    let content = "include ':app'\ninclude \":features:home\"\n  include ':ignored'\n";
    assert_eq!(included_modules(content), Some(strings(&["':app'", "\":features:home\""])));
}

#[test]
fn module_dir_turns_colons_into_slashes() {
    assert_eq!(module_dir("/proj", "':features:home'"), "/proj/features/home");
    assert_eq!(module_dir("/proj", "\":app\""), "/proj/app");
}

#[test]
fn script_path_joins_the_extension() {
    assert_eq!(script_path("/proj/app", "build.gradle"), "/proj/app/build.gradle");
    assert_eq!(script_path("/proj/app/x.gradle", ""), "/proj/app/x.gradle");
}

#[test]
fn own_dependencies_repeat_for_each_applied_script() {
    let children = vec![strings(&["a/x"]), vec![]];
    let deps = strings(&["own/d"]);
    assert_eq!(assemble_dependencies(&children, &deps), strings(&["a/x", "own/d", "own/d"]));
    assert_eq!(assemble_dependencies(&vec![], &deps), Vec::<String>::new());
}

#[test]
fn script_files_are_under_the_root() {
    assert_eq!(
        script_files_under("/p", ScriptSet::DependencyScripts),
        strings(&[
            "/p/buildconfig/dependencies/dependency-features.gradle",
            "/p/buildconfig/dependencies/dependency-libraries.gradle",
        ])
    );
}

#[test]
fn scan_collects_in_file_order() {
    let contents = vec![Some("include ':a'\n".to_string()), Some("include ':b'\n".to_string()), Some(String::new())];
    assert_eq!(find_include_modules("/p", &contents).unwrap(), strings(&["':a'", "':b'"]));
}

#[test]
fn scan_reports_the_first_missing_file() {
    let contents = vec![Some("  x : \"a:b\"\n".to_string())];
    match find_project_ext("/p", &contents) {
        Err(ScanError::MissingFile(m)) => {
            assert_eq!(m, "full_path /p/buildconfig/dependencies/dependency-libraries.gradle not existed")
        }
        other => panic!("unexpected {:?}", other),
    }
}

const MODULE: &str = "<manifest xmlns:android=\"http://schemas.android.com/apk/res/android\">\n    <uses-permission android:name=\"android.permission.INTERNET\" />\n</manifest>\n";

#[test]
fn gathered_entries_are_uses_permission() {
    let ps = gather_uses_permission(MODULE).unwrap();
    assert_eq!(ps, vec![perm("uses-permission", "android.permission.INTERNET", "android:name")]);
}

#[test]
fn gather_errors() {
    assert_eq!(gather_uses_permission("<manifest>\n</manifest>"), Err(GatherError::NoUsesPermission));
    assert_eq!(
        gather_uses_permission("<manifest xmlns:x=\"urn:other\"><x:item/></manifest>"),
        Err(GatherError::UnexpectedEvent)
    );
    assert_eq!(
        gather_uses_permission("<manifest xmlns:x=\"urn:other\"><x:item></x:item></manifest>"),
        Err(GatherError::UnexpectedNamespace)
    );
    assert_eq!(gather_uses_permission("<manifest>text</manifest>"), Err(GatherError::UnexpectedEvent));
    assert_eq!(
        gather_uses_permission("<manifest><uses-permission a=\"1\" a=\"2\"/></manifest>"),
        Err(GatherError::MalformedAttribute)
    );
    assert_eq!(
        gather_uses_permission("<manifest><uses-permission a=\"1\"/></wrong>"),
        Err(GatherError::UnexpectedEvent)
    );
}

#[test]
fn permissions_are_added_once() {
    let mut set = vec![perm("uses-permission", "A", "android:name")];
    add_new_permissions(
        &mut set,
        &vec![perm("uses-permission", "B", "android:name"), perm("uses-permission", "A", "android:name"), perm("uses-permission", "B", "android:name")],
    );
    assert_eq!(set, vec![perm("uses-permission", "A", "android:name"), perm("uses-permission", "B", "android:name")]);
}

#[test]
fn manifest_permissions_are_merged_or_reported() {
    let mut set = Vec::new();
    assert_eq!(add_manifest_permissions(&mut set, MODULE), Ok(()));
    assert_eq!(add_manifest_permissions(&mut set, MODULE), Ok(()));
    assert_eq!(set.len(), 1);
    assert_eq!(add_manifest_permissions(&mut set, "<manifest/>"), Err(GatherError::NoUsesPermission));
    assert_eq!(set.len(), 1);
}

#[test]
fn main_manifest_lines_go_before_application() {
    let main = "<manifest>\n    <application>\n    </application>\n</manifest>\n";
    let ps = vec![perm("uses-permission", "A", "android:name"), perm("uses-permission", "B", "android:name")];
    let merged = parse_main_manifest(main, &ps).unwrap();
    let block = " <uses-permission android:name=\"B\" />\n <uses-permission android:name=\"A\" />\n";
    assert_eq!(merged, format!("<manifest>\n{}    <application>\n    </application>\n</manifest>\n", block));
    assert_eq!(merged.replacen(block, "", 1), main);
    assert_eq!(parse_main_manifest(main, &vec![]).unwrap(), main);
    assert_eq!(parse_main_manifest("<manifest/>", &ps), None);
}

#[test]
fn manifest_paths_keep_order() {
    let paths = strings(&["/a/AndroidManifest.xml", "/a/b", "/c/AndroidManifest.xml.bak"]);
    assert_eq!(manifest_paths(&paths), strings(&["/a/AndroidManifest.xml", "/c/AndroidManifest.xml.bak"]));
}

#[test]
fn options_are_read_after_the_only_equals() {
    let k = strings(&["command", "result-manifest"]);
    assert_eq!(option_values("-command=a,b", &k), Some(strings(&["a", "b"])));
    assert_eq!(option_values("-result-manifest=out.xml", &k), Some(strings(&["out.xml"])));
    assert_eq!(option_values("-command=a=b", &k), None);
    assert_eq!(option_values("-command", &k), None);
    assert_eq!(option_values("-extras=a", &k), None);
    assert_eq!(option_values("-command=", &k), Some(strings(&[""])));
}

#[test]
fn commands_are_named() {
    assert_eq!(Command::parse("find_bazel_log"), Command::FindBazelLog);
    assert_eq!(Command::parse("parse_profile_to_grafana"), Command::ParseProfileToGrafana);
    assert_eq!(Command::parse("parse_gradle_profile_to_grafana"), Command::ParseGradleProfileToGrafana);
    assert_eq!(Command::parse("android_manifest_merger"), Command::AndroidManifestMerger);
    assert_eq!(Command::parse("none"), Command::Unknown);
}

#[test]
fn plans_pair_commands_with_extras() {
    assert_eq!(
        command_plan(Some(strings(&["a", "b"])), Some(strings(&["x", "y"]))),
        Some(vec![("a".to_string(), "x".to_string()), ("b".to_string(), "y".to_string())])
    );
    assert_eq!(command_plan(None, None), Some(vec![("none".to_string(), "none".to_string())]));
    assert_eq!(command_plan(Some(strings(&["a", "b"])), None), None);
}

#[test]
fn influx_fields_end_with_the_duration() {
    assert_eq!(
        influx_fields("12"),
        "start_time=1,fetch_duration=200,build_duration=201,report_duration=202,total_duration=12"
    );
    assert_eq!(gradle_influx_fields(305), influx_fields("305"));
    assert_eq!(bazel_influx_fields(&None), influx_fields("0"));
    assert_eq!(bazel_influx_fields(&Some("4.5".to_string())), influx_fields("4.5"));
}

#[test]
fn run_time_is_read_from_the_profile() {
    assert_eq!(total_run_time("Total run time                435.463"), Ok(Some("435.463".to_string())));
    assert_eq!(total_run_time("a\nTotal run time 1.5 s\nTotal run time 2 s"), Ok(Some("1.5".to_string())));
    assert_eq!(total_run_time("no timing"), Err(TimingError::NoMatch));
}

#[test]
fn build_seconds_are_read_from_the_profile() {
    assert_eq!(gradle_build_seconds("x total_build_time=12345 y"), Ok(12));
    assert_eq!(gradle_build_seconds("total_build_time=999"), Ok(0));
    assert_eq!(gradle_build_seconds("build took long"), Err(TimingError::NoMatch));
    assert_eq!(gradle_build_seconds("total_build_time="), Err(TimingError::BadNumber));
    assert_eq!(gradle_build_seconds("total_build_time=99999999999999999999999"), Err(TimingError::BadNumber));
}

#[test]
fn runtime_summary_is_found() {
    assert_eq!(
        runtime_summary("Total runtime 4s 43.16%"),
        Some(Some((0, 23, "Total runtime 4s 43.16%".to_string())))
    );
    assert_eq!(runtime_summary("nothing"), Some(None));
}

#[test]
fn working_dir_paths_drop_the_newline() {
    assert_eq!(path_in_working_dir("/home/me\n", "/path.log"), "/home/me/path.log");
}

#[test]
fn sample_events_are_renamed() {
    assert_eq!(sample_action(&SampleEvent::StartTag(b"this_tag".to_vec())), SampleAction::WriteRenamedStart);
    assert_eq!(sample_action(&SampleEvent::StartTag(b"child".to_vec())), SampleAction::CopyEvent);
    assert_eq!(sample_action(&SampleEvent::EndTag(b"this_tag".to_vec())), SampleAction::WriteRenamedEnd);
    assert_eq!(sample_action(&SampleEvent::EndOfDocument), SampleAction::Finish);
    assert_eq!(sample_action(&SampleEvent::OtherEvent), SampleAction::CopyEvent);
}

/// Each fixed pattern compiles, has the number of group entries that the library relies on,
/// and fills every group outside an optional part on a sample match.
fn check_pattern(pattern: &str, entries: usize, filled: usize, sample: &str) {
    let re = regex::Regex::new(pattern).expect("the pattern compiles");
    assert_eq!(re.captures_len(), entries);
    let caps: Vec<regex::Captures> = re.captures_iter(sample).collect();
    assert!(!caps.is_empty());
    for c in caps {
        assert_eq!(c.len(), entries);
        for g in 0..filled {
            assert!(c.get(g).is_some());
        }
    }
}

#[test]
fn fixed_patterns_compile_with_their_groups() {
    check_pattern(APPLY_FROM_PATTERN, 3, 3, "apply from: \"a.gradle\"\napply from:\"b.gradle\"");
    check_pattern(
        IMPLEMENTATION_PATTERN,
        6,
        6,
        "implementation rootProject.ext.features.home\nlintChecks project(rootProject.ext.libs.lint)",
    );
    check_pattern(EXT_VARIABLE_PATTERN, 5, 5, "ext {\n  home : \"features:home\"\n    lint: \"libs:lint\"\n}");
    check_pattern(INCLUDE_PATTERN, 4, 4, "include ':app'\ninclude \"lib:core\"");
    check_pattern(TOTAL_RUN_TIME_PATTERN, 5, 4, "Total run time   12.5 s\nTotal run time 7");
    check_pattern(BUILD_TIME_PATTERN, 3, 3, "total_build_time=4200 total_build_time=");
}

#[test]
fn readers_succeed_on_any_script() {
    assert_eq!(implementation_dependencies(""), Some(vec![]));
    assert_eq!(included_modules("no include here"), Some(vec![]));
    assert_eq!(ext_variable_names("}"), Some(vec![]));
    assert_eq!(applied_scripts("/p", "/p/app", "apply plugin: 'x'"), Some(vec![]));
    assert_eq!(total_run_time("nothing"), Err(TimingError::NoMatch));
    assert_eq!(gradle_build_seconds("nothing"), Err(TimingError::NoMatch));
    let present = vec![Some(String::new()), Some("include ':a'".to_string()), Some(String::new())];
    assert_eq!(find_include_modules("/p", &present).ok(), Some(strings(&["':a'"])));
    let deps = vec![Some("  a : \"x\"".to_string()), Some(String::new())];
    assert_eq!(find_project_ext("/p", &deps).ok(), Some(strings(&["a"])));
}

fn done(t: Traversal) -> Vec<String> {
    match t {
        Traversal::Done(found) => found,
        Traversal::Read(p) => panic!("asked to read {}", p),
        Traversal::TooDeep => panic!("too deep"),
    }
}

fn read_request(t: Traversal) -> String {
    match t {
        Traversal::Read(p) => p,
        _ => panic!("expected a read request"),
    }
}

#[test]
fn walk_asks_for_each_script_then_finishes() {
    let mut files: Vec<(String, String)> = Vec::new();
    let first = read_request(walk("/p", &files, "/p/app", "build.gradle", 8));
    assert_eq!(first, "/p/app/build.gradle");
    files.push((
        first,
        "apply from: \"deps.gradle\"\nimplementation rootProject.ext.features.home\n".to_string(),
    ));
    let second = read_request(walk("/p", &files, "/p/app", "build.gradle", 8));
    assert_eq!(second, "/p/app/deps.gradle");
    files.push((second, "implementation rootProject.ext.libs.core\n".to_string()));
    assert_eq!(done(walk("/p", &files, "/p/app", "build.gradle", 8)), strings(&["features/home"]));
    assert_eq!(done(walk("/p", &files, "/p/app", "build.gradle", 9)), strings(&["features/home"]));
}

#[test]
fn walk_repeats_own_dependencies_after_each_applied_script() {
    let files = vec![
        (
            "/p/m/build.gradle".to_string(),
            "apply from: \"/p/a.gradle\"\napply from: \"/p/b.gradle\"\nimplementation rootProject.ext.x.y\n"
                .to_string(),
        ),
        ("/p/a.gradle".to_string(), "apply from: \"/p/c.gradle\"\nimplementation rootProject.ext.a.one\n".to_string()),
        ("/p/b.gradle".to_string(), String::new()),
        ("/p/c.gradle".to_string(), "implementation rootProject.ext.c.two\n".to_string()),
    ];
    assert_eq!(done(walk("/p", &files, "/p/m", "build.gradle", 8)), strings(&["a/one", "x/y", "x/y"]));
}

#[test]
fn walk_stops_on_scripts_that_apply_each_other() {
    let files = vec![("/p/a.gradle".to_string(), "apply from: \"/p/a.gradle\"\n".to_string())];
    assert!(matches!(walk("/p", &files, "/p/a.gradle", "", 16), Traversal::TooDeep));
    assert!(matches!(walk("/p", &files, "/p/a.gradle", "", 0), Traversal::TooDeep));
}

#[test]
fn read_content_takes_the_first_entry() {
    let files = vec![("a".to_string(), "one".to_string()), ("a".to_string(), "two".to_string())];
    assert_eq!(read_content(&files, &"a".to_string()), Some("one".to_string()));
    assert_eq!(read_content(&files, &"b".to_string()), None);
}
