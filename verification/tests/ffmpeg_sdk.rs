use video_worker::sdk::{
    analyze_version_output, detect_libclang, inspect_layout, required_dlls, required_headers,
    required_libs, sdk_report, IssueSeverity, LayoutFacts, PathFact, SdkPaths, VersionRun,
};

fn fact(display: &str, present: bool) -> PathFact {
    PathFact { display: display.to_string(), present }
}

fn layout(root: &str, present: impl Fn(&str) -> bool) -> LayoutFacts {
    let path = |dir: &str, name: &str| format!("{root}/{dir}/{name}");
    LayoutFacts {
        include_dir: fact(&format!("{root}/include"), present("include")),
        lib_dir: fact(&format!("{root}/lib"), present("lib")),
        bin_dir: fact(&format!("{root}/bin"), present("bin")),
        headers: required_headers()
            .iter()
            .map(|h| fact(&path("include", h), present(&format!("include/{h}"))))
            .collect(),
        libs: required_libs()
            .iter()
            .map(|l| fact(&path("lib", l), present(&format!("lib/{l}"))))
            .collect(),
        dlls: required_dlls()
            .iter()
            .map(|d| fact(&path("bin", d), present(&format!("bin/{d}"))))
            .collect(),
    }
}

#[test]
fn complete_layout_has_no_errors() {
    let issues = inspect_layout(&layout("/sdk", |_| true));
    assert!(issues.is_empty(), "unexpected issues: {issues:?}");
}

#[test]
fn missing_layout_entries_are_reported_as_errors() {
    // Only the directory include/libavcodec exists under the root.
    let issues = inspect_layout(&layout("/sdk", |p| p == "include"));
    assert!(issues
        .iter()
        .any(|issue| issue.code == "missing-lib-dir" && issue.severity == IssueSeverity::Error));
    assert!(issues
        .iter()
        .any(|issue| issue.code == "missing-runtime-dll" && issue.severity == IssueSeverity::Error));
    assert_eq!(issues[0].message, "required directory is missing: /sdk/lib");
    assert_eq!(issues.iter().filter(|i| i.code == "missing-header").count(), 4);
    assert_eq!(issues.len(), 2 + 4 + 7 + 7);
}

#[test]
fn version_probe_flags_gpl_and_gcc_builds() {
    let (build_info, issues) = analyze_version_output(
        "ffmpeg version 8.0.1-full_build-www.gyan.dev\nbuilt with gcc 15.2.0\nconfiguration: --enable-gpl --enable-version3 --enable-shared\n",
    );

    assert_eq!(
        build_info.version_line.as_deref(),
        Some("ffmpeg version 8.0.1-full_build-www.gyan.dev")
    );
    assert!(issues.iter().any(|issue| issue.code == "gpl-build"));
    assert!(issues.iter().any(|issue| issue.code == "gcc-built-bundle"));
}

#[test]
fn version_probe_reads_lines_words_and_flags() {
    let (build_info, issues) = analyze_version_output(
        "\r\n  \nffmpeg version n7\r\nbuilt with Clang 17\nconfiguration:   --enable-nonfree\t--disable-debug \nconfiguration: --enable-gpl",
    );
    assert_eq!(build_info.version_line.as_deref(), Some("ffmpeg version n7"));
    assert_eq!(build_info.built_with.as_deref(), Some("built with Clang 17"));
    assert_eq!(build_info.configuration_flags, vec!["--enable-nonfree", "--disable-debug"]);
    let codes: Vec<&str> = issues.iter().map(|i| i.code.as_str()).collect();
    assert_eq!(codes, vec!["nonfree-build"]);
    assert!(issues.iter().all(|i| i.severity == IssueSeverity::Warning));
}

#[test]
fn version_probe_of_empty_output_finds_nothing() {
    let (build_info, issues) = analyze_version_output("");
    assert_eq!(build_info.version_line, None);
    assert_eq!(build_info.built_with, None);
    assert!(build_info.configuration_flags.is_empty());
    assert!(issues.is_empty());
    let (build_info, issues) = analyze_version_output("built with MinGW-GCC\n");
    assert_eq!(build_info.version_line.as_deref(), Some("built with MinGW-GCC"));
    assert_eq!(issues.len(), 1);
    assert_eq!(issues[0].code, "gcc-built-bundle");
}

#[test]
fn detect_libclang_accepts_explicit_candidate() {
    let candidates = vec![
        fact("/missing/libclang.dll", false),
        fact("/llvm/bin/libclang.dll", true),
        fact("/other/libclang.dll", true),
    ];
    assert_eq!(detect_libclang(&candidates).as_deref(), Some("/llvm/bin/libclang.dll"));
    assert_eq!(detect_libclang(&candidates[..1]), None);
}

#[test]
fn report_gathers_layout_version_and_libclang_issues() {
    let paths = SdkPaths {
        root: "/sdk".to_string(),
        include_dir: "/sdk/include".to_string(),
        lib_dir: "/sdk/lib".to_string(),
        bin_dir: "/sdk/bin".to_string(),
    };
    let report = sdk_report(
        paths.clone(),
        &layout("/sdk", |_| true),
        VersionRun::Failed { exe: "/sdk/bin/ffmpeg".to_string(), status: Some(1) },
        None,
    );
    let codes: Vec<&str> = report.issues.iter().map(|i| i.code.as_str()).collect();
    assert_eq!(codes, vec!["ffmpeg-version-command-failed", "missing-libclang"]);
    assert_eq!(
        report.issues[0].message,
        "/sdk/bin/ffmpeg exited with status Some(1) while probing SDK version"
    );
    assert_eq!(report.required_dlls.len(), 7);
    assert_eq!(report.required_headers[0], "libavcodec/avcodec.h");

    let report = sdk_report(
        paths,
        &layout("/sdk", |_| true),
        VersionRun::Output("ffmpeg version 8\nconfiguration: --enable-gpl\n".to_string()),
        Some("/llvm/bin/libclang.dll".to_string()),
    );
    let codes: Vec<&str> = report.issues.iter().map(|i| i.code.as_str()).collect();
    assert_eq!(codes, vec!["gpl-build"]);
    assert_eq!(report.build_info.version_line.as_deref(), Some("ffmpeg version 8"));
}
