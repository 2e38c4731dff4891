use cmaker::cmake::{resolve, CmakeVars};
use cmaker::phases::{plan, run_plan, Phase, Runner};

fn request() -> CmakeVars {
    CmakeVars {
        destroy: false,
        configure: false,
        build: false,
        test: false,
        coverage: false,
        install: false,
        target: None,
        tidy: false,
        release: false,
    }
}

#[test]
fn destroy_only_without_directory_runs_nothing_and_succeeds() {
    let mut req = request();
    req.destroy = true;
    let phases = resolve(&req);
    let p = plan(&phases, false);
    assert!(p.is_empty());
    let (executed, status) = run_plan(&p, &vec![true; 9]);
    assert!(executed.is_empty());
    assert!(status);
}

#[test]
fn destroy_only_with_directory_attempts_destroy() {
    let mut req = request();
    req.destroy = true;
    let phases = resolve(&req);
    let p = plan(&phases, true);
    assert_eq!(p, vec![Phase::Destroy]);
}

#[test]
fn clean_target_without_directory_is_configure_only() {
    let mut req = request();
    req.target = Some("clean".to_string());
    let phases = resolve(&req);
    let p = plan(&phases, false);
    assert_eq!(p, vec![Phase::Configure]);
    let (executed, status) = run_plan(&p, &vec![true; 9]);
    assert_eq!(executed, vec![Phase::Configure]);
    assert!(status);
}

#[test]
fn clean_target_with_directory_cleans_then_configures() {
    let mut req = request();
    req.target = Some("clean".to_string());
    let phases = resolve(&req);
    let p = plan(&phases, true);
    assert_eq!(p, vec![Phase::Clean, Phase::Configure]);
}

#[test]
fn named_target_runs_after_build_phase_position() {
    let mut req = request();
    req.target = Some("docs".to_string());
    req.build = true;
    let phases = resolve(&req);
    let p = plan(&phases, true);
    assert_eq!(p, vec![Phase::Configure, Phase::Build, Phase::Target]);
}

#[test]
fn build_request_is_configure_then_build() {
    let mut req = request();
    req.build = true;
    let phases = resolve(&req);
    let p = plan(&phases, false);
    assert_eq!(p, vec![Phase::Configure, Phase::Build]);
    let (executed, status) = run_plan(&p, &vec![true; 9]);
    assert_eq!(executed, vec![Phase::Configure, Phase::Build]);
    assert!(status);
}

#[test]
fn build_request_fails_when_one_invocation_fails() {
    let mut req = request();
    req.build = true;
    let phases = resolve(&req);
    let p = plan(&phases, false);
    let (_, status) = run_plan(&p, &vec![true, false, true, true, true, true, true, true, true]);
    assert!(!status);
}

#[test]
fn full_request_orders_all_phases() {
    let req = CmakeVars {
        destroy: true,
        configure: true,
        build: true,
        test: true,
        coverage: true,
        install: true,
        target: Some("docs".to_string()),
        tidy: true,
        release: false,
    };
    let phases = resolve(&req);
    let p = plan(&phases, true);
    assert_eq!(
        p,
        vec![
            Phase::Destroy,
            Phase::Configure,
            Phase::Build,
            Phase::Target,
            Phase::Test,
            Phase::Coverage,
            Phase::Lint,
            Phase::Install,
        ]
    );
}

#[test]
fn build_failure_short_circuits_later_phases() {
    let req = CmakeVars {
        destroy: false,
        configure: false,
        build: true,
        test: true,
        coverage: true,
        install: true,
        target: None,
        tidy: true,
        release: false,
    };
    let phases = resolve(&req);
    let p = plan(&phases, true);
    assert_eq!(
        p,
        vec![
            Phase::Configure,
            Phase::Build,
            Phase::Test,
            Phase::Coverage,
            Phase::Lint,
            Phase::Install,
        ]
    );
    // configure succeeds, build fails
    let results = vec![true, false, true, true, true, true, true, true, true];
    let (executed, status) = run_plan(&p, &results);
    assert_eq!(executed, vec![Phase::Configure, Phase::Build]);
    assert!(!executed.contains(&Phase::Test));
    assert!(!executed.contains(&Phase::Coverage));
    assert!(!executed.contains(&Phase::Lint));
    assert!(!executed.contains(&Phase::Install));
    assert!(!status);
}

#[test]
fn runner_counts_invocations_with_a_mock() {
    let mut req = request();
    req.build = true;
    req.test = true;
    let phases = resolve(&req);
    let p = plan(&phases, true);
    assert_eq!(p, vec![Phase::Configure, Phase::Build, Phase::Test]);
    // A mock tool that fails the build phase and counts invocations.
    let mut invoked: Vec<Phase> = Vec::new();
    let mut runner = Runner::new(p);
    while let Some(ph) = runner.next_phase() {
        invoked.push(ph);
        let ok = ph != Phase::Build;
        runner.record(ok);
    }
    assert_eq!(invoked, vec![Phase::Configure, Phase::Build]);
    assert!(!runner.status());
}

#[test]
fn runner_hands_out_nothing_after_failure() {
    let mut runner = Runner::new(vec![Phase::Configure, Phase::Build]);
    assert_eq!(runner.next_phase(), Some(Phase::Configure));
    runner.record(false);
    assert_eq!(runner.next_phase(), None);
    assert_eq!(runner.next_phase(), None);
    assert!(!runner.status());
}

#[test]
fn destroy_failure_stops_the_run() {
    let mut req = request();
    req.destroy = true;
    req.build = true;
    let phases = resolve(&req);
    let p = plan(&phases, true);
    assert_eq!(p, vec![Phase::Destroy, Phase::Configure, Phase::Build]);
    let results = vec![false, true, true, true, true, true, true, true, true];
    let (executed, status) = run_plan(&p, &results);
    assert_eq!(executed, vec![Phase::Destroy]);
    assert!(!status);
}
