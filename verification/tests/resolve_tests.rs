use cmaker::cmake::{resolve, CmakeVars};
use cmaker::phases::EffectivePhaseSet;
use cmaker::Commands;

fn request() -> CmakeVars {
    CmakeVars {
        destroy: false,
        configure: false,
        build: false,
        test: false,
        coverage: false,
        install: false,
        target: None,
        tidy: false,
        release: false,
    }
}

#[test]
fn empty_request_resolves_to_nothing() {
    let p = resolve(&request());
    assert_eq!(
        p,
        EffectivePhaseSet {
            destroy: false,
            clean: false,
            configure: false,
            build: false,
            target: false,
            test: false,
            coverage: false,
            lint: false,
            install: false,
        }
    );
}

#[test]
fn coverage_cascades_to_test_build_configure() {
    let mut req = request();
    req.coverage = true;
    let p = resolve(&req);
    assert!(p.coverage);
    assert!(p.test);
    assert!(p.build);
    assert!(p.configure);
    assert!(!p.destroy && !p.clean && !p.target && !p.lint && !p.install);
}

#[test]
fn test_cascades_to_build_and_configure() {
    let mut req = request();
    req.test = true;
    let p = resolve(&req);
    assert!(p.test && p.build && p.configure);
    assert!(!p.coverage);
}

#[test]
fn install_cascades_to_build() {
    let mut req = request();
    req.install = true;
    let p = resolve(&req);
    assert!(p.install && p.build && p.configure);
    assert!(!p.test && !p.coverage);
}

#[test]
fn tidy_cascades_to_build_and_configure() {
    let mut req = request();
    req.tidy = true;
    let p = resolve(&req);
    assert!(p.lint && p.build && p.configure);
}

#[test]
fn release_cascades_to_configure_only() {
    let mut req = request();
    req.release = true;
    let p = resolve(&req);
    assert!(p.configure);
    assert!(!p.build && !p.test && !p.coverage && !p.lint && !p.install);
}

#[test]
fn named_target_cascades_to_configure() {
    let mut req = request();
    req.target = Some("docs".to_string());
    let p = resolve(&req);
    assert!(p.target && p.configure);
    assert!(!p.clean && !p.build);
}

#[test]
fn clean_target_sets_clean_flag() {
    let mut req = request();
    req.target = Some("clean".to_string());
    let p = resolve(&req);
    assert!(p.target && p.clean && p.configure);
    assert!(!p.build);
}

#[test]
fn destroy_alone_resolves_to_destroy_only() {
    let mut req = request();
    req.destroy = true;
    let p = resolve(&req);
    assert!(p.destroy);
    assert!(!p.clean && !p.configure && !p.build && !p.target);
}

#[test]
fn run_dispatches_cmake_request() {
    let mut req = request();
    req.build = true;
    let p = cmaker::run(&Commands::Cmake(req));
    assert!(p.build && p.configure);
    assert!(!p.test && !p.coverage && !p.lint && !p.install && !p.destroy);
}
