use gameperf::command::UtilError;
use gameperf::query::{
    check_inject_so_succeed, find_file, fuzzy_package, fuzzy_runing, get_android_prop,
    get_built_file, needs_process_listing, pid_of,
};

#[test]
fn numeric_pid_is_returned_verbatim_without_listing() {
    assert!(!needs_process_listing("1234"));
    let r = pid_of("1234", "").unwrap();
    assert_eq!(r, "1234");
    let r = pid_of("1234", "anything at all\nroot 99 x").unwrap();
    assert_eq!(r, "1234");
}

#[test]
fn non_numeric_pid_needs_listing() {
    assert!(needs_process_listing("com.example"));
    assert!(needs_process_listing("12a34"));
}

#[test]
fn pid_resolves_by_fuzzy_match_on_last_column() {
    let listing = "USER  PID  PPID NAME\n\
                   root  1    0    /init\n\
                   u0_a1 4242 123  com.example.app\n\
                   u0_a2 4343 123  com.example.app.other\n";
    let r = pid_of("example", listing).unwrap();
    assert_eq!(r, "4242");
    let (pid, name) = fuzzy_runing("example", listing).unwrap();
    assert_eq!(pid, "4242");
    assert_eq!(name, "com.example.app");
}

#[test]
fn pid_not_found_reports_wanted_identifier() {
    let e = pid_of("absent", "root 1 /init\n").unwrap_err();
    assert!(matches!(e, UtilError::NotFound { wanted } if wanted == "absent"));
}

#[test]
fn fuzzy_package_takes_text_after_last_equals() {
    let listing = "package:/data/app/base.apk=com.example.app\n\
                   package:/data/app/two.apk=com.other.app\n";
    let p = fuzzy_package("other", listing).unwrap();
    assert_eq!(p, "com.other.app");
    let p = fuzzy_package("example", listing).unwrap();
    assert_eq!(p, "com.example.app");
}

#[test]
fn fuzzy_package_not_found() {
    let e = fuzzy_package("missing", "package:/a.apk=com.a\n").unwrap_err();
    assert!(matches!(e, UtilError::NotFound { wanted } if wanted == "missing"));
}

#[test]
fn library_found_in_maps() {
    let maps = "7f00-7f10 r-xp /system/lib64/libc.so\n\
                7f20-7f30 r-xp /data/local/libinject.so\n";
    assert!(check_inject_so_succeed("libinject.so", maps).unwrap());
}

#[test]
fn library_missing_is_injection_error() {
    let maps = "7f00-7f10 r-xp /system/lib64/libc.so\n";
    let e = check_inject_so_succeed("libinject.so", maps).unwrap_err();
    assert!(matches!(e, UtilError::Injection { library } if library == "libinject.so"));
}

#[test]
fn property_value_is_extracted_from_bracket_pair() {
    let props = "[ro.product.model]: [Pixel]\n[ro.build.version.sdk]: [33]\n";
    let v = get_android_prop("ro.build.version.sdk", props).unwrap();
    assert_eq!(v, "33");
}

#[test]
fn property_single_line_scenario() {
    let v = get_android_prop("ro.build.version.sdk", "[ro.build.version.sdk]: [33]").unwrap();
    assert_eq!(v, "33");
}

#[test]
fn property_missing_key_is_property_error() {
    let e = get_android_prop("ro.absent", "[ro.other]: [1]\n").unwrap_err();
    assert!(matches!(e, UtilError::Property));
}

#[test]
fn property_malformed_line_is_property_error() {
    let e = get_android_prop("ro.bad", "ro.bad has no brackets\n").unwrap_err();
    assert!(matches!(e, UtilError::Property));
}

#[test]
fn find_file_returns_first_containing_path() {
    let files = vec![
        "built/other/readme.txt".to_string(),
        "built/lib/libinject.so".to_string(),
        "built/lib2/libinject.so".to_string(),
    ];
    assert_eq!(find_file("libinject", &files).unwrap(), "built/lib/libinject.so");
    assert_eq!(get_built_file("libinject", &files).unwrap(), "built/lib/libinject.so");
    assert!(find_file("absent", &files).is_none());
}

#[test]
fn current_app_extracts_package_from_activity_dump() {
    let dump = "  mResumedActivity: ActivityRecord{1234 u0 com.example.app/.MainActivity t42}\n";
    let p = gameperf::query::current_app(dump).unwrap();
    assert_eq!(p, "com.example.app");
}

#[test]
fn current_app_takes_pattern_at_end_of_text() {
    let p = gameperf::query::current_app("foo com.example").unwrap();
    assert_eq!(p, "com.example");
}

#[test]
fn current_app_does_not_cross_line_breaks() {
    let e = gameperf::query::current_app("com\nexample.app").unwrap_err();
    assert!(matches!(e, gameperf::command::UtilError::NotFound { .. }));
}

#[test]
fn current_app_without_match_is_not_found() {
    let e = gameperf::query::current_app("nothing here").unwrap_err();
    assert!(matches!(e, gameperf::command::UtilError::NotFound { wanted } if wanted == "com"));
}
