use cmaker::cmake::{
    build_cmake, clean_cmake, combine_artifact_path, configure_cmake, coverage_cmake,
    install_cmake, target_cmake, test_cmake, CmakeVars,
};
use cmaker::tidy::{clang_tidy_args, filter_files, first_path, search_tidy, split_patterns};

fn request() -> CmakeVars {
    CmakeVars {
        destroy: false,
        configure: false,
        build: false,
        test: false,
        coverage: false,
        install: false,
        target: None,
        tidy: false,
        release: false,
    }
}

#[test]
fn combine_artifact_path_is_plain_concatenation() {
    let out = combine_artifact_path(&"/out".to_string(), "/ClangTidy/log.txt");
    assert_eq!(out, "/out/ClangTidy/log.txt");
}

#[test]
fn combine_artifact_path_does_not_normalize() {
    let out = combine_artifact_path(&"/out/".to_string(), "/x");
    assert_eq!(out, "/out//x");
}

#[test]
fn target_args_are_exact() {
    let args = target_cmake("docs", &"/b".to_string());
    assert_eq!(args, vec!["--build", "/b", "--parallel", "--target", "docs"]);
}

#[test]
fn fixed_target_args_are_exact() {
    let b = "/b".to_string();
    assert_eq!(build_cmake(&b)[4], "all");
    assert_eq!(coverage_cmake(&b)[4], "ExperimentalCoverage");
    assert_eq!(install_cmake(&b)[4], "install");
    assert_eq!(clean_cmake(&b)[4], "clean");
}

#[test]
fn configure_args_debug_by_default() {
    let args = configure_cmake(&request(), false, &"/b".to_string());
    assert_eq!(
        args,
        vec!["-S", ".", "-B", "/b", "-G", "Ninja", "-DCMAKE_BUILD_TYPE=Debug"]
    );
}

#[test]
fn configure_args_release_and_coverage() {
    let mut req = request();
    req.coverage = true;
    let args = configure_cmake(&req, true, &"/b".to_string());
    assert_eq!(
        args,
        vec![
            "-S",
            ".",
            "-B",
            "/b",
            "-G",
            "Ninja",
            "-DCMAKE_BUILD_TYPE=Release",
            "-Dtest=ON",
            "-DENABLE_COVERAGE=ON",
        ]
    );
}

#[test]
fn configure_args_test_only() {
    let mut req = request();
    req.test = true;
    let args = configure_cmake(&req, false, &"/b".to_string());
    assert_eq!(args.last().unwrap(), "-Dtest=ON");
    assert_eq!(args.len(), 8);
}

#[test]
fn test_args_are_exact() {
    let args = test_cmake(&"/b".to_string());
    assert_eq!(
        args,
        vec![
            "--test-dir",
            "/b",
            "--output-junit",
            "report.xml",
            "--output-on-failure",
        ]
    );
}

#[test]
fn clang_tidy_args_are_exact() {
    let files = vec!["a.cpp".to_string(), "b.cpp".to_string()];
    let args = clang_tidy_args(
        &"/b".to_string(),
        &"/repo/.clang-tidy".to_string(),
        &"/b/ClangTidy/clang-tidy-fixes.yaml".to_string(),
        &files,
    );
    assert_eq!(
        args,
        vec![
            "-p",
            "/b",
            "--config-file=/repo/.clang-tidy",
            "--format-style=file",
            "--export-fixes=/b/ClangTidy/clang-tidy-fixes.yaml",
            "a.cpp",
            "b.cpp",
        ]
    );
}

#[test]
fn extractor_keeps_error_and_warning_lines_only() {
    let input = b"a: note: x\nb: error: y\nc: warning: z\nd: info: w\n";
    let out = search_tidy(input).unwrap();
    assert_eq!(out, b"b: error: y\nc: warning: z\n".to_vec());
}

#[test]
fn extractor_preserves_order_and_handles_final_unterminated_line() {
    let input = b"warning: first\nplain\nerror: last";
    let out = search_tidy(input).unwrap();
    assert_eq!(out, b"warning: first\nerror: last\n".to_vec());
}

#[test]
fn extractor_requires_exact_marker_form() {
    // "error:" without the trailing space does not count.
    let input = b"x error:y\nwarning:z\n";
    let out = search_tidy(input).unwrap();
    assert!(out.is_empty());
}

#[test]
fn extractor_strips_carriage_returns_on_terminated_lines() {
    let input = b"b: error: y\r\nc: warning: z\r\n";
    let out = search_tidy(input).unwrap();
    assert_eq!(out, b"b: error: y\nc: warning: z\n".to_vec());
}

#[test]
fn extractor_rejects_undecodable_lines() {
    let input = vec![101u8, 114, 114, 111, 114, 58, 32, 0xff, 0xfe, 10];
    assert_eq!(search_tidy(&input), None);
}

#[test]
fn extractor_of_empty_output_is_empty() {
    assert_eq!(search_tidy(b"").unwrap(), Vec::<u8>::new());
}

#[test]
fn split_patterns_of_empty_list_is_empty() {
    assert!(split_patterns("").is_empty());
}

#[test]
fn split_patterns_drops_extra_spaces() {
    assert_eq!(split_patterns("  a  bb "), vec!["a", "bb"]);
}

#[test]
fn zero_patterns_keep_no_file() {
    let files = vec!["src/a.cpp".to_string(), "src/b.cpp".to_string()];
    let pats: Vec<String> = Vec::new();
    let kept = filter_files(&files, &pats).unwrap();
    assert!(kept.is_empty());
}

#[test]
fn matching_pattern_selects_the_file() {
    let files = vec!["src/foobar.cpp".to_string(), "src/baz.cpp".to_string()];
    let pats = vec!["foo.*".to_string()];
    let kept = filter_files(&files, &pats).unwrap();
    assert_eq!(kept, vec!["src/foobar.cpp".to_string()]);
}

#[test]
fn any_of_several_patterns_selects() {
    let files = vec![
        "src/one.cpp".to_string(),
        "src/two.cpp".to_string(),
        "src/three.cpp".to_string(),
    ];
    let pats = vec!["two".to_string(), "three".to_string()];
    let kept = filter_files(&files, &pats).unwrap();
    assert_eq!(
        kept,
        vec!["src/two.cpp".to_string(), "src/three.cpp".to_string()]
    );
}

#[test]
fn first_path_picks_the_first_entry() {
    let paths = vec!["/repo/.clang-tidy".to_string(), "/repo/sub/.clang-tidy".to_string()];
    assert_eq!(first_path(&paths), Some("/repo/.clang-tidy".to_string()));
}

#[test]
fn first_path_of_no_entries_is_none() {
    assert_eq!(first_path(&Vec::new()), None);
}

#[test]
fn invalid_pattern_with_files_is_rejected() {
    let files = vec!["src/a.cpp".to_string()];
    let pats = vec!["(".to_string()];
    assert_eq!(filter_files(&files, &pats), None);
}

#[test]
fn invalid_pattern_without_files_is_never_compiled() {
    let files: Vec<String> = Vec::new();
    let pats = vec!["(".to_string()];
    assert_eq!(filter_files(&files, &pats), Some(Vec::new()));
}
