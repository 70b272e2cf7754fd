//! The build: a linear sequence of steps, each performed outside the library
//! and reported back, that ends in a new cache entry or in the first error.
use vstd::prelude::*;
use crate::cache::CacheEntry;
use crate::env::{copy_bytes, decodes_sorted, diff, diff_of, Env};
use crate::sums::{all_read, contents_view, fingerprints, first_unreadable, reads_view, Checksums};

verus! {

/// The oldest loader version known to activate environments correctly.
pub const MIN_MAJOR: u64 = 2;

pub const MIN_MINOR: u64 = 20;

pub const MIN_PATCH: u64 = 1;

/// A version as major, minor and patch numbers, and whether it carries a
/// pre-release part (which orders it before the same numbers without one).
pub type Version = (u64, u64, u64, bool);

/// `v` comes before the oldest supported version.
pub open spec fn too_old(v: Version) -> bool {
    v.0 < MIN_MAJOR || (v.0 == MIN_MAJOR && (v.1 < MIN_MINOR || (v.1 == MIN_MINOR && (v.2
        < MIN_PATCH || (v.2 == MIN_PATCH && v.3)))))
}

#[derive(PartialEq, Eq, Structural, Clone, Copy, Debug)]
pub enum VersionError {
    /// The loader's version text is not a version.
    Unparsable,
    /// The loader is older than the oldest supported version.
    TooOld(u64, u64, u64),
}

/// What semver reads from `text`: the major, minor and patch numbers and
/// whether there is a pre-release part, where the text is a version.
pub uninterp spec fn semver_of(text: Seq<char>) -> Option<Version>;

/// Relies on semver's `Version::parse`: where the text is a version, its
/// major, minor and patch numbers and whether it has a pre-release part; the
/// outcome depends on the text alone.
#[verifier::external_body]
fn parse_version(text: &str) -> (r: Option<Version>)
    ensures
        r == semver_of(text@),
{
    match semver::Version::parse(text) {
        Ok(v) => Some((v.major, v.minor, v.patch, !v.pre.is_empty())),
        Err(_) => None,
    }
}

/// Accepts a parsed loader version unless it is too old.
pub fn version_verdict(v: Option<Version>) -> (r: Result<(), VersionError>)
    ensures
        v is None ==> r == Err::<(), VersionError>(VersionError::Unparsable),
        v matches Some(x) ==> (r is Ok <==> !too_old(x)),
        v matches Some(x) ==> too_old(x) ==> r == Err::<(), VersionError>(VersionError::TooOld(x.0, x.1, x.2)),
{
    match v {
        None => Err(VersionError::Unparsable),
        Some(x) => {
            let old = x.0 < MIN_MAJOR || (x.0 == MIN_MAJOR && (x.1 < MIN_MINOR || (x.1 == MIN_MINOR
                && (x.2 < MIN_PATCH || (x.2 == MIN_PATCH && x.3)))));
            if old {
                Err(VersionError::TooOld(x.0, x.1, x.2))
            } else {
                Ok(())
            }
        },
    }
}

/// Checks the version that the loader reports of itself.
pub fn check_version(text: &str) -> (r: Result<(), VersionError>)
    ensures
        semver_of(text@) is None ==> r == Err::<(), VersionError>(VersionError::Unparsable),
        semver_of(text@) matches Some(x) ==> (r is Ok <==> !too_old(x)),
        semver_of(text@) matches Some(x) ==> too_old(x) ==> r == Err::<(), VersionError>(VersionError::TooOld(x.0, x.1, x.2)),
{
    version_verdict(parse_version(text))
}

/// Copies a list of name/value pairs.
pub fn copy_pairs(v: &Vec<(Vec<u8>, Vec<u8>)>) -> (r: Vec<(Vec<u8>, Vec<u8>)>)
    ensures
        r@.map_values(|p: (Vec<u8>, Vec<u8>)| (p.0@, p.1@)) == v@.map_values(|p: (Vec<u8>, Vec<u8>)| (p.0@, p.1@)),
{
    let mut out: Vec<(Vec<u8>, Vec<u8>)> = Vec::new();
    let mut i: usize = 0;
    while i < v.len()
        invariant
            i <= v.len(),
            out@.len() == i,
            forall|j: int| 0 <= j < i ==> (#[trigger] out@[j]).0@ == v@[j].0@ && out@[j].1@ == v@[j].1@,
        decreases v.len() - i,
    {
        out.push((copy_bytes(&v[i].0), copy_bytes(&v[i].1)));
        i = i + 1;
    }
    assert(out@.map_values(|p: (Vec<u8>, Vec<u8>)| (p.0@, p.1@)) =~= v@.map_values(|p: (Vec<u8>, Vec<u8>)| (p.0@, p.1@)));
    out
}

/// Why a build stopped.
pub enum BuildError {
    Version(VersionError),
    AllowFailed,
    CacheDirFailed,
    OutsideCapture,
    OutsideRead,
    OutsideDecode,
    InsideCapture,
    InsideRead,
    InsideDecode,
    /// A watched file could not be read; its path.
    Checksum(Vec<u8>),
    CacheSave,
    /// An event came that the current step does not expect.
    OutOfOrder,
}

/// Where a build stands: the step whose outcome it waits for.
#[derive(PartialEq, Eq, Structural, Clone, Copy, Debug)]
pub enum Stage {
    CheckVersion,
    Allow,
    CreateCacheDir,
    CaptureOutside,
    CaptureInside,
    ReadWatched,
    Save,
    Done,
    Failed,
}

/// What a step reported.
pub enum BuildEvent {
    /// The loader's version text.
    VersionText(String),
    /// Whether enabling activation, or creating the cache directory, worked.
    StepDone(bool),
    /// A capture: whether the subprocess exited successfully, and the bytes it
    /// left where they could be read.
    Captured(bool, Option<Vec<u8>>),
    /// Each watched file's path and, where it could be read, its contents.
    Watched(Vec<(Vec<u8>, Option<Vec<u8>>)>),
    /// Whether the cache entry was written.
    Saved(bool),
}

/// What to do next.
pub enum BuildAction {
    /// Ask the loader for its version.
    QueryVersion,
    /// Enable activation for the project directory.
    Allow,
    /// Make sure the cache directory exists.
    CreateCacheDir,
    /// Capture the environment without the project.
    CaptureOutside,
    /// Capture the environment with the project, seeded from this outside one.
    CaptureInside(Vec<(Vec<u8>, Vec<u8>)>),
    /// Read the watched files.
    ReadWatched,
    /// Write this entry to the cache file, replacing it at once.
    Save(CacheEntry),
    /// The build succeeded.
    Finish,
    /// The build failed; nothing more is done.
    Abort(BuildError),
}

/// `e` is the entry that a build makes of its captures and of the watched
/// files: the diff from the outside to the inside environment, and the
/// fingerprints of the files.
pub open spec fn entry_of_build(e: CacheEntry, event: BuildEvent, outside: Option<Env>, inside: Option<Env>) -> bool {
    match (event, outside, inside) {
        (BuildEvent::Watched(files), Some(o), Some(i)) => e@ == (
            diff_of(o@, i@),
            fingerprints(contents_view(reads_view(files@))),
        ),
        _ => false,
    }
}

/// The verdict on the loader's version text.
pub open spec fn version_step(text: Seq<char>, r: BuildAction) -> bool {
    match semver_of(text) {
        None => r == BuildAction::Abort(BuildError::Version(VersionError::Unparsable)),
        Some(x) => if too_old(x) {
            r == BuildAction::Abort(BuildError::Version(VersionError::TooOld(x.0, x.1, x.2)))
        } else {
            r is Allow
        },
    }
}

/// The outcome of a capture: `next` where the subprocess exited successfully
/// and left bytes that decode to a snapshot, else the matching error.
pub open spec fn capture_step(
    ok: bool,
    bytes: Option<Vec<u8>>,
    r: BuildAction,
    next: bool,
    capture_failed: BuildError,
    read_failed: BuildError,
    decode_failed: BuildError,
) -> bool {
    if !ok {
        r == BuildAction::Abort(capture_failed)
    } else {
        match bytes {
            None => r == BuildAction::Abort(read_failed),
            Some(b) => if decodes_sorted(b@) {
                next
            } else {
                r == BuildAction::Abort(decode_failed)
            },
        }
    }
}

pub open spec fn checksum_abort(r: BuildAction, files: Seq<(Vec<u8>, Option<Vec<u8>>)>) -> bool {
    match r {
        BuildAction::Abort(BuildError::Checksum(p)) => first_unreadable(files, p@),
        _ => false,
    }
}

/// The action that each step gives for each event: the next step where the
/// event reports success, the step's own error where it reports failure, and
/// `OutOfOrder` for an event that the step does not expect.
pub open spec fn step_result(stage: Stage, event: BuildEvent, r: BuildAction) -> bool {
    match (stage, event) {
        (Stage::CheckVersion, BuildEvent::VersionText(t)) => version_step(t@, r),
        (Stage::Allow, BuildEvent::StepDone(ok)) => if ok {
            r is CreateCacheDir
        } else {
            r == BuildAction::Abort(BuildError::AllowFailed)
        },
        (Stage::CreateCacheDir, BuildEvent::StepDone(ok)) => if ok {
            r is CaptureOutside
        } else {
            r == BuildAction::Abort(BuildError::CacheDirFailed)
        },
        (Stage::CaptureOutside, BuildEvent::Captured(ok, b)) => capture_step(
            ok,
            b,
            r,
            r is CaptureInside,
            BuildError::OutsideCapture,
            BuildError::OutsideRead,
            BuildError::OutsideDecode,
        ),
        (Stage::CaptureInside, BuildEvent::Captured(ok, b)) => capture_step(
            ok,
            b,
            r,
            r is ReadWatched,
            BuildError::InsideCapture,
            BuildError::InsideRead,
            BuildError::InsideDecode,
        ),
        (Stage::ReadWatched, BuildEvent::Watched(files)) => if all_read(files@) {
            r is Save
        } else {
            checksum_abort(r, files@)
        },
        (Stage::Save, BuildEvent::Saved(ok)) => if ok {
            r is Finish
        } else {
            r == BuildAction::Abort(BuildError::CacheSave)
        },
        _ => r == BuildAction::Abort(BuildError::OutOfOrder),
    }
}

/// The stage that follows an action.
pub open spec fn stage_after(r: BuildAction) -> Stage {
    match r {
        BuildAction::QueryVersion => Stage::CheckVersion,
        BuildAction::Allow => Stage::Allow,
        BuildAction::CreateCacheDir => Stage::CreateCacheDir,
        BuildAction::CaptureOutside => Stage::CaptureOutside,
        BuildAction::CaptureInside(_) => Stage::CaptureInside,
        BuildAction::ReadWatched => Stage::ReadWatched,
        BuildAction::Save(_) => Stage::Save,
        BuildAction::Finish => Stage::Done,
        BuildAction::Abort(_) => Stage::Failed,
    }
}

/// A build in progress.
pub struct Build {
    pub stage: Stage,
    pub outside: Option<Env>,
    pub inside: Option<Env>,
}

impl Build {
    pub open spec fn wf(&self) -> bool {
        &&& (self.stage == Stage::CaptureInside || self.stage == Stage::ReadWatched) ==> (
        self.outside matches Some(o) && o.wf())
        &&& self.stage == Stage::ReadWatched ==> (self.inside matches Some(i) && i.wf())
    }

    /// A new build, and its first action: the version check.
    pub fn new() -> (r: (Build, BuildAction))
        ensures
            r.0.stage == Stage::CheckVersion,
            r.0.wf(),
            r.1 is QueryVersion,
    {
        (Build { stage: Stage::CheckVersion, outside: None, inside: None }, BuildAction::QueryVersion)
    }

    fn fail(&mut self, e: BuildError) -> (r: BuildAction)
        ensures
            final(self).stage == Stage::Failed,
            final(self).outside == old(self).outside,
            final(self).inside == old(self).inside,
            r == BuildAction::Abort(e),
    {
        self.stage = Stage::Failed;
        BuildAction::Abort(e)
    }

    /// Takes the outcome of the current step and gives the next action. Each
    /// failure ends the build at once; the entry to save is only given after
    /// every earlier step succeeded, and it is the diff from the outside to
    /// the inside environment with the fingerprints of the watched files.
    pub fn step(&mut self, event: BuildEvent) -> (r: BuildAction)
        requires
            old(self).wf(),
        ensures
            final(self).wf(),
            step_result(old(self).stage, event, r),
            final(self).stage == stage_after(r),
            r is Save <==> final(self).stage == Stage::Save,
            r is Finish <==> final(self).stage == Stage::Done,
            r is Abort <==> final(self).stage == Stage::Failed,
            r is Save ==> old(self).stage == Stage::ReadWatched,
            r matches BuildAction::Save(e) ==> entry_of_build(e, event, old(self).outside, old(self).inside),
            r is Finish ==> old(self).stage == Stage::Save && event == BuildEvent::Saved(true),
            old(self).stage == Stage::Done || old(self).stage == Stage::Failed ==> r is Abort,
            event == BuildEvent::StepDone(false) ==> r is Abort,
            event == BuildEvent::Saved(false) ==> r is Abort,
            (event matches BuildEvent::Captured(ok, _) && !ok) ==> r is Abort,
            (event matches BuildEvent::Captured(_, b) && b is None) ==> r is Abort,
            old(self).stage == Stage::CaptureOutside ==> (r is CaptureInside || r is Abort),
            old(self).stage == Stage::CaptureInside ==> (r is ReadWatched || r is Abort),
            r matches BuildAction::CaptureInside(v) ==> (final(self).outside matches Some(o)
                && o.pairs() == v@.map_values(|p: (Vec<u8>, Vec<u8>)| (p.0@, p.1@))),
    {
        match self.stage {
            Stage::CheckVersion => match event {
                BuildEvent::VersionText(text) => match check_version(text.as_str()) {
                    Ok(()) => {
                        self.stage = Stage::Allow;
                        BuildAction::Allow
                    },
                    Err(e) => self.fail(BuildError::Version(e)),
                },
                _ => self.fail(BuildError::OutOfOrder),
            },
            Stage::Allow => match event {
                BuildEvent::StepDone(true) => {
                    self.stage = Stage::CreateCacheDir;
                    BuildAction::CreateCacheDir
                },
                BuildEvent::StepDone(false) => self.fail(BuildError::AllowFailed),
                _ => self.fail(BuildError::OutOfOrder),
            },
            Stage::CreateCacheDir => match event {
                BuildEvent::StepDone(true) => {
                    self.stage = Stage::CaptureOutside;
                    BuildAction::CaptureOutside
                },
                BuildEvent::StepDone(false) => self.fail(BuildError::CacheDirFailed),
                _ => self.fail(BuildError::OutOfOrder),
            },
            Stage::CaptureOutside => match event {
                BuildEvent::Captured(false, _) => self.fail(BuildError::OutsideCapture),
                BuildEvent::Captured(true, None) => self.fail(BuildError::OutsideRead),
                BuildEvent::Captured(true, Some(bytes)) => match Env::decode(bytes.as_slice()) {
                    Some(env) => {
                        let seed = copy_pairs(&env.vars);
                        self.outside = Some(env);
                        self.stage = Stage::CaptureInside;
                        BuildAction::CaptureInside(seed)
                    },
                    None => self.fail(BuildError::OutsideDecode),
                },
                _ => self.fail(BuildError::OutOfOrder),
            },
            Stage::CaptureInside => match event {
                BuildEvent::Captured(false, _) => self.fail(BuildError::InsideCapture),
                BuildEvent::Captured(true, None) => self.fail(BuildError::InsideRead),
                BuildEvent::Captured(true, Some(bytes)) => match Env::decode(bytes.as_slice()) {
                    Some(env) => {
                        self.inside = Some(env);
                        self.stage = Stage::ReadWatched;
                        BuildAction::ReadWatched
                    },
                    None => self.fail(BuildError::InsideDecode),
                },
                _ => self.fail(BuildError::OutOfOrder),
            },
            Stage::ReadWatched => match event {
                BuildEvent::Watched(files) => match Checksums::compute(&files) {
                    Ok(sums) => {
                        let d = match (&self.outside, &self.inside) {
                            (Some(o), Some(i)) => diff(o, i),
                            _ => {
                                return self.fail(BuildError::OutOfOrder);
                            },
                        };
                        self.stage = Stage::Save;
                        BuildAction::Save(CacheEntry { diff: d, sums })
                    },
                    Err(path) => self.fail(BuildError::Checksum(path)),
                },
                _ => self.fail(BuildError::OutOfOrder),
            },
            Stage::Save => match event {
                BuildEvent::Saved(true) => {
                    self.stage = Stage::Done;
                    BuildAction::Finish
                },
                BuildEvent::Saved(false) => self.fail(BuildError::CacheSave),
                _ => self.fail(BuildError::OutOfOrder),
            },
            _ => self.fail(BuildError::OutOfOrder),
        }
    }
}

} // verus!
