use firstaide::env::Env;
use firstaide::orchestrator::{
    check_version, version_verdict, Build, BuildAction, BuildError, BuildEvent, Stage, VersionError,
};

fn b(s: &str) -> Vec<u8> {
    s.as_bytes().to_vec()
}

fn snapshot(pairs: &[(&str, &str)]) -> Vec<u8> {
    Env::from_pairs(pairs.iter().map(|(k, v)| (b(k), b(v))).collect()).unwrap().encode().unwrap()
}

fn to_outside_capture() -> Build {
    let (mut build, first) = Build::new();
    assert!(matches!(first, BuildAction::QueryVersion));
    assert!(matches!(build.step(BuildEvent::VersionText("2.21.3".to_string())), BuildAction::Allow));
    assert!(matches!(build.step(BuildEvent::StepDone(true)), BuildAction::CreateCacheDir));
    assert!(matches!(build.step(BuildEvent::StepDone(true)), BuildAction::CaptureOutside));
    build
}

#[test]
fn build_runs_every_step_then_saves() {
    let mut build = to_outside_capture();
    match build.step(BuildEvent::Captured(true, Some(snapshot(&[("FOO", "1")])))) {
        BuildAction::CaptureInside(seed) => assert_eq!(seed, vec![(b("FOO"), b("1"))]),
        _ => panic!("expected the inside capture"),
    }
    let inside = snapshot(&[("BAR", "x"), ("FOO", "2")]);
    assert!(matches!(build.step(BuildEvent::Captured(true, Some(inside))), BuildAction::ReadWatched));
    let entry = match build.step(BuildEvent::Watched(vec![(b("shell.nix"), Some(b("{ }")))])) {
        BuildAction::Save(e) => e,
        _ => panic!("expected an entry to save"),
    };
    assert_eq!(entry.diff.changes.len(), 2);
    assert_eq!(entry.sums.sums.len(), 1);
    assert!(matches!(build.step(BuildEvent::Saved(true)), BuildAction::Finish));
    assert_eq!(build.stage, Stage::Done);
}

#[test]
fn build_inside_capture_failure_saves_nothing() {
    let mut build = to_outside_capture();
    assert!(matches!(
        build.step(BuildEvent::Captured(true, Some(snapshot(&[("FOO", "1")])))),
        BuildAction::CaptureInside(_)
    ));
    assert!(matches!(
        build.step(BuildEvent::Captured(false, None)),
        BuildAction::Abort(BuildError::InsideCapture)
    ));
    assert_eq!(build.stage, Stage::Failed);
    assert!(matches!(
        build.step(BuildEvent::Watched(Vec::new())),
        BuildAction::Abort(BuildError::OutOfOrder)
    ));
}

#[test]
fn build_errors_for_each_step() {
    let (mut build, _) = Build::new();
    assert!(matches!(
        build.step(BuildEvent::VersionText("2.20.0".to_string())),
        BuildAction::Abort(BuildError::Version(VersionError::TooOld(2, 20, 0)))
    ));

    let (mut build, _) = Build::new();
    build.step(BuildEvent::VersionText("2.20.1".to_string()));
    assert!(matches!(build.step(BuildEvent::StepDone(false)), BuildAction::Abort(BuildError::AllowFailed)));

    let (mut build, _) = Build::new();
    build.step(BuildEvent::VersionText("3.0.0".to_string()));
    build.step(BuildEvent::StepDone(true));
    assert!(matches!(build.step(BuildEvent::StepDone(false)), BuildAction::Abort(BuildError::CacheDirFailed)));

    let mut build = to_outside_capture();
    assert!(matches!(build.step(BuildEvent::Captured(false, None)), BuildAction::Abort(BuildError::OutsideCapture)));
    let mut build = to_outside_capture();
    assert!(matches!(build.step(BuildEvent::Captured(true, None)), BuildAction::Abort(BuildError::OutsideRead)));
    let mut build = to_outside_capture();
    assert!(matches!(
        build.step(BuildEvent::Captured(true, Some(vec![9]))),
        BuildAction::Abort(BuildError::OutsideDecode)
    ));

    let mut build = to_outside_capture();
    build.step(BuildEvent::Captured(true, Some(snapshot(&[]))));
    assert!(matches!(build.step(BuildEvent::Captured(true, None)), BuildAction::Abort(BuildError::InsideRead)));
    let mut build = to_outside_capture();
    build.step(BuildEvent::Captured(true, Some(snapshot(&[]))));
    assert!(matches!(
        build.step(BuildEvent::Captured(true, Some(vec![1, 2]))),
        BuildAction::Abort(BuildError::InsideDecode)
    ));

    let mut build = to_outside_capture();
    build.step(BuildEvent::Captured(true, Some(snapshot(&[]))));
    build.step(BuildEvent::Captured(true, Some(snapshot(&[]))));
    match build.step(BuildEvent::Watched(vec![(b("a"), Some(b("1"))), (b("b"), None)])) {
        BuildAction::Abort(BuildError::Checksum(p)) => assert_eq!(p, b("b")),
        _ => panic!("expected a checksum error"),
    }

    let mut build = to_outside_capture();
    build.step(BuildEvent::Captured(true, Some(snapshot(&[]))));
    build.step(BuildEvent::Captured(true, Some(snapshot(&[]))));
    build.step(BuildEvent::Watched(Vec::new()));
    assert!(matches!(build.step(BuildEvent::Saved(false)), BuildAction::Abort(BuildError::CacheSave)));
}

#[test]
fn version_checks() {
    assert_eq!(check_version("2.20.1"), Ok(()));
    assert_eq!(check_version("2.32.0"), Ok(()));
    assert_eq!(check_version("2.20.0"), Err(VersionError::TooOld(2, 20, 0)));
    assert_eq!(check_version("1.99.99"), Err(VersionError::TooOld(1, 99, 99)));
    assert_eq!(check_version("2.20.1-rc.1"), Err(VersionError::TooOld(2, 20, 1)));
    assert_eq!(check_version("not a version"), Err(VersionError::Unparsable));
    assert_eq!(version_verdict(None), Err(VersionError::Unparsable));
    assert_eq!(version_verdict(Some((2, 21, 0, true))), Ok(()));
}
