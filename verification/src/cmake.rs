use vstd::prelude::*;

use crate::phases::EffectivePhaseSet;

verus! {

/// The independently togglable user intents for one invocation. They are
/// independent as input, but not as effective behaviour: see `resolve`.
#[derive(Debug)]
pub struct CmakeVars {
    /// Destroy the build directory.
    pub destroy: bool,
    /// Configure the project.
    pub configure: bool,
    /// Run the build.
    pub build: bool,
    /// Run the test suite.
    pub test: bool,
    /// Run code coverage.
    pub coverage: bool,
    /// Install the project.
    pub install: bool,
    /// Build one named target; the name "clean" is a reserved sentinel that
    /// asks for a clean phase instead of a target build.
    pub target: Option<String>,
    /// Run the static-analysis (lint) phase.
    pub tidy: bool,
    /// Configure for the release configuration.
    pub release: bool,
}

/// Whether the requested target carries the reserved name "clean".
pub open spec fn spec_is_clean_target(target: Option<String>) -> bool {
    match target {
        Some(t) => t@ == "clean"@,
        None => false,
    }
}

/// The flag cascade: every requested action switches on each phase it
/// depends on, so the runner never needs to reason about transitive
/// requirements. Coverage implies test; test, install and lint imply build;
/// build, release, a named target and lint imply configure.
pub open spec fn spec_resolve(req: CmakeVars) -> EffectivePhaseSet {
    let coverage = req.coverage;
    let test = req.test || coverage;
    let install = req.install;
    let lint = req.tidy;
    let target = req.target is Some;
    let build = req.build || test || install || lint;
    let configure = req.configure || build || req.release || target || lint;
    EffectivePhaseSet {
        destroy: req.destroy,
        clean: target && spec_is_clean_target(req.target),
        configure,
        build,
        target,
        test,
        coverage,
        lint,
        install,
    }
}

fn is_clean_target(target: &Option<String>) -> (r: bool)
    ensures
        r == spec_is_clean_target(*target),
{
    match target {
        Some(t) => {
            let clean_name: String = "clean".to_string();
            *t == clean_name
        },
        None => false,
    }
}

/// Expands the requested actions into the full effective phase set, once,
/// up front. Pure: no side effects, never fails.
pub fn resolve(req: &CmakeVars) -> (r: EffectivePhaseSet)
    ensures
        r == spec_resolve(*req),
{
    let coverage = req.coverage;
    let test = req.test || coverage;
    let install = req.install;
    let lint = req.tidy;
    let target = req.target.is_some();
    let build = req.build || test || install || lint;
    let configure = req.configure || build || req.release || target || lint;
    let clean = target && is_clean_target(&req.target);
    EffectivePhaseSet {
        destroy: req.destroy,
        clean,
        configure,
        build,
        target,
        test,
        coverage,
        lint,
        install,
    }
}

/// The monotonic-dependency law of the flag cascade: whenever a downstream
/// phase is effective, every phase it depends on is effective as well.
pub proof fn lemma_resolve_dependencies(req: CmakeVars)
    ensures
        spec_resolve(req).coverage ==> spec_resolve(req).test,
        spec_resolve(req).test ==> spec_resolve(req).build,
        spec_resolve(req).install ==> spec_resolve(req).build,
        spec_resolve(req).lint ==> spec_resolve(req).build,
        spec_resolve(req).build ==> spec_resolve(req).configure,
        spec_resolve(req).target ==> spec_resolve(req).configure,
        spec_resolve(req).clean ==> spec_resolve(req).target,
{
}

/// Joins the build-artifact directory with a relative suffix by plain string
/// concatenation, with no normalization.
pub fn combine_artifact_path(artifacts: &String, text: &str) -> (r: String)
    ensures
        r@ == artifacts@ + text@,
{
    let mut out_file = artifacts.clone();
    out_file.append(text);
    out_file
}

/// The argument vector of a named-target build: build this directory, this
/// target, in parallel.
pub open spec fn spec_target_args(target: Seq<char>, artifacts: Seq<char>) -> Seq<Seq<char>> {
    seq!["--build"@, artifacts, "--parallel"@, "--target"@, target]
}

/// Arguments for building one named target.
pub fn target_cmake(target: &str, artifacts: &String) -> (r: Vec<String>)
    ensures
        r.deep_view() == spec_target_args(target@, artifacts@),
{
    let mut v: Vec<String> = Vec::new();
    v.push("--build".to_string());
    v.push(artifacts.clone());
    v.push("--parallel".to_string());
    v.push("--target".to_string());
    v.push(target.to_string());
    proof {
        assert(v.deep_view() =~= spec_target_args(target@, artifacts@));
    }
    v
}

/// Arguments for the default build phase: the "all" target.
pub fn build_cmake(artifacts: &String) -> (r: Vec<String>)
    ensures
        r.deep_view() == spec_target_args("all"@, artifacts@),
{
    target_cmake("all", artifacts)
}

/// Arguments for the coverage phase: the "ExperimentalCoverage" target.
pub fn coverage_cmake(artifacts: &String) -> (r: Vec<String>)
    ensures
        r.deep_view() == spec_target_args("ExperimentalCoverage"@, artifacts@),
{
    target_cmake("ExperimentalCoverage", artifacts)
}

/// Arguments for the install phase: the "install" target.
pub fn install_cmake(artifacts: &String) -> (r: Vec<String>)
    ensures
        r.deep_view() == spec_target_args("install"@, artifacts@),
{
    target_cmake("install", artifacts)
}

/// Arguments for the clean phase: the "clean" target.
pub fn clean_cmake(artifacts: &String) -> (r: Vec<String>)
    ensures
        r.deep_view() == spec_target_args("clean"@, artifacts@),
{
    target_cmake("clean", artifacts)
}

/// The argument vector of the configure phase: source dir, binary dir, the
/// designated generator, a build-type define, and optional test and coverage
/// defines. Coverage configuration also switches tests on.
pub open spec fn spec_configure_args(
    coverage: bool,
    test: bool,
    release: bool,
    artifacts: Seq<char>,
) -> Seq<Seq<char>> {
    let base = seq![
        "-S"@,
        "."@,
        "-B"@,
        artifacts,
        "-G"@,
        "Ninja"@,
        if release {
            "-DCMAKE_BUILD_TYPE=Release"@
        } else {
            "-DCMAKE_BUILD_TYPE=Debug"@
        },
    ];
    if coverage {
        base + seq!["-Dtest=ON"@, "-DENABLE_COVERAGE=ON"@]
    } else if test {
        base + seq!["-Dtest=ON"@]
    } else {
        base
    }
}

/// Arguments for the configure phase.
pub fn configure_cmake(cmds: &CmakeVars, release: bool, artifacts: &String) -> (r: Vec<String>)
    ensures
        r.deep_view() == spec_configure_args(cmds.coverage, cmds.test, release, artifacts@),
{
    let mut v: Vec<String> = Vec::new();
    v.push("-S".to_string());
    v.push(".".to_string());
    v.push("-B".to_string());
    v.push(artifacts.clone());
    v.push("-G".to_string());
    v.push("Ninja".to_string());
    if release {
        v.push("-DCMAKE_BUILD_TYPE=Release".to_string());
    } else {
        v.push("-DCMAKE_BUILD_TYPE=Debug".to_string());
    }
    if cmds.coverage {
        v.push("-Dtest=ON".to_string());
        v.push("-DENABLE_COVERAGE=ON".to_string());
    } else if cmds.test {
        v.push("-Dtest=ON".to_string());
    }
    proof {
        assert(v.deep_view() =~= spec_configure_args(
            cmds.coverage,
            cmds.test,
            release,
            artifacts@,
        ));
    }
    v
}

/// The argument vector of the test phase: run the tests in the build
/// directory, emit a JUnit-style report, and show output on failure.
pub open spec fn spec_test_args(artifacts: Seq<char>) -> Seq<Seq<char>> {
    seq!["--test-dir"@, artifacts, "--output-junit"@, "report.xml"@, "--output-on-failure"@]
}

/// Arguments for the test phase.
pub fn test_cmake(artifacts: &String) -> (r: Vec<String>)
    ensures
        r.deep_view() == spec_test_args(artifacts@),
{
    let mut v: Vec<String> = Vec::new();
    v.push("--test-dir".to_string());
    v.push(artifacts.clone());
    v.push("--output-junit".to_string());
    v.push("report.xml".to_string());
    v.push("--output-on-failure".to_string());
    proof {
        assert(v.deep_view() =~= spec_test_args(artifacts@));
    }
    v
}

} // verus!
