//! The hook: on each shell entry, decide whether the cached environment is
//! valid, stale or missing, and write the script that tells the shell.
use vstd::prelude::*;
use vstd::string::StringSliceAdditionalSpecFns;
use crate::bash::{escape, escaped};
use crate::cache::CacheEntry;
use crate::env::{decodes_sorted, diff, diff_of, excluded, pairs_decoded, ChangeView, Diff, Env};
use crate::script::{
    append_bytes, chunk_of, dump_lines, export_line, push_chunk, push_export,
    shown, watch, watch_line, watch_lines, watches, DIRENV_PREFIX,
};
use crate::sums::{equal, sums_equal, Checksums};
pub use crate::script::env_diff_dump;

verus! {

/// The variable in which the loader keeps what it watches; it passes through
/// the filter on the loader's own variables.
pub const WATCHES_KEY: &'static str = "DIRENV_WATCHES";

/// Where the user's getting-started message goes in the active notice.
pub const MESSAGE_MARKER: &'static str = "__MESSAGE__";

pub const START: &'static str = "{ # Start.\n\n";

pub const END: &'static str = "} # End.\n";

pub const PARENT_TITLE: &'static str = "Parent environment follows:";

pub const HELPERS_TITLE: &'static str = "Helpers.";

pub const CACHED_TITLE: &'static str = "Cached environment follows:";

pub const DEPENDENCIES_TITLE: &'static str = "Watch dependencies.";

pub const CACHE_FILE_TITLE: &'static str = "Watch the cache file.";

pub const OKAY_TITLE: &'static str = "Development environment is up to date.";

pub const STALE_TITLE: &'static str = "Development environment is stale.";

pub const UNKNOWN_TITLE: &'static str = "Development environment has not been built.";

pub const HELPERS: &'static str = "firstaide_note() {\n  printf 'firstaide: %s\\n' \"$@\" >&2\n}\n";

pub const ACTIVE: &'static str = "firstaide_note 'development environment is active.'\nfirstaide_note __MESSAGE__\n";

pub const STALE: &'static str = "firstaide_note 'development environment is STALE; run the build to refresh it.'\n";

pub const INACTIVE: &'static str = "firstaide_note 'development environment is NOT active; run the build first.'\n";

/// How the cached environment stands against the watched files.
#[derive(PartialEq, Eq, Structural, Clone, Copy, Debug)]
pub enum HookState {
    /// The checksums match: the cached diff is current.
    Okay,
    /// The checksums differ: the cached diff is applied, and a rebuild is due.
    Stale,
    /// There is no readable cache.
    Unknown,
}

impl HookState {
    pub open spec fn title_spec(self) -> Seq<u8> {
        match self {
            HookState::Okay => OKAY_TITLE.spec_bytes(),
            HookState::Stale => STALE_TITLE.spec_bytes(),
            HookState::Unknown => UNKNOWN_TITLE.spec_bytes(),
        }
    }

    /// The banner title of the state's chunk.
    pub fn title(&self) -> (r: &'static str)
        ensures
            r.spec_bytes() == self.title_spec(),
    {
        match self {
            HookState::Okay => OKAY_TITLE,
            HookState::Stale => STALE_TITLE,
            HookState::Unknown => UNKNOWN_TITLE,
        }
    }
}

pub open spec fn entry_view(cache: Option<CacheEntry>) -> Option<(Seq<ChangeView>, Seq<(Seq<u8>, Seq<u8>)>)> {
    match cache {
        Some(e) => Some(e@),
        None => None,
    }
}

pub open spec fn sums_view(now: Result<Checksums, Vec<u8>>) -> Option<Seq<(Seq<u8>, Seq<u8>)>> {
    match now {
        Ok(c) => Some(c@),
        Err(_) => None,
    }
}

/// No cache is `Unknown`; a cache whose checksums equal those of the watched
/// files now is `Okay`; any other cache, also where a watched file cannot be
/// read now, is `Stale`.
pub open spec fn state_of(
    cache: Option<(Seq<ChangeView>, Seq<(Seq<u8>, Seq<u8>)>)>,
    now: Option<Seq<(Seq<u8>, Seq<u8>)>>,
) -> HookState {
    match cache {
        None => HookState::Unknown,
        Some(e) => match now {
            Some(n) => if sums_equal(n, e.1) {
                HookState::Okay
            } else {
                HookState::Stale
            },
            None => HookState::Stale,
        },
    }
}

/// Classifies the cache against the checksums of the watched files now.
pub fn classify(cache: &Option<CacheEntry>, sums_now: &Result<Checksums, Vec<u8>>) -> (r: HookState)
    ensures
        r == state_of(entry_view(*cache), sums_view(*sums_now)),
{
    match cache {
        None => HookState::Unknown,
        Some(e) => match sums_now {
            Ok(now) => if equal(now, &e.sums) {
                HookState::Okay
            } else {
                HookState::Stale
            },
            Err(_) => HookState::Stale,
        },
    }
}

/// The line that passes the loader's watch list through, where it has one.
pub open spec fn watches_line(w: Option<Seq<u8>>) -> Seq<u8> {
    match w {
        Some(v) => export_line(WATCHES_KEY.spec_bytes(), v),
        None => Seq::empty(),
    }
}

/// The chunks that replay a cached entry and watch its files.
pub open spec fn cached_chunks(e: (Seq<ChangeView>, Seq<(Seq<u8>, Seq<u8>)>)) -> Seq<u8> {
    chunk_of(CACHED_TITLE.spec_bytes(), dump_lines(shown(e.0))) + chunk_of(
        DEPENDENCIES_TITLE.spec_bytes(),
        watch_lines(e.1.map_values(|p: (Seq<u8>, Seq<u8>)| p.0)),
    )
}

/// The chunks that depend on the state of the cache.
pub open spec fn state_chunks(
    state: HookState,
    cache: Option<(Seq<ChangeView>, Seq<(Seq<u8>, Seq<u8>)>)>,
    active: Seq<u8>,
) -> Seq<u8> {
    match state {
        HookState::Okay => chunk_of(state.title_spec(), active) + cached_chunks(cache->0),
        HookState::Stale => chunk_of(state.title_spec(), STALE.spec_bytes()) + cached_chunks(cache->0),
        HookState::Unknown => chunk_of(state.title_spec(), INACTIVE.spec_bytes()),
    }
}

/// The whole hook script, in one `{ ... }` block so that the shell runs none
/// of it before it has read all of it.
pub open spec fn script_of(
    parent: Seq<ChangeView>,
    watches: Option<Seq<u8>>,
    cache: Option<(Seq<ChangeView>, Seq<(Seq<u8>, Seq<u8>)>)>,
    now: Option<Seq<(Seq<u8>, Seq<u8>)>>,
    active: Seq<u8>,
    cache_file: Seq<u8>,
) -> Seq<u8> {
    START.spec_bytes() + chunk_of(
        PARENT_TITLE.spec_bytes(),
        dump_lines(shown(parent)) + watches_line(watches),
    ) + chunk_of(HELPERS_TITLE.spec_bytes(), HELPERS.spec_bytes()) + state_chunks(
        state_of(cache, now),
        cache,
        active,
    ) + chunk_of(CACHE_FILE_TITLE.spec_bytes(), watch_line(cache_file)) + END.spec_bytes()
}

pub open spec fn opt_bytes(v: Option<&Vec<u8>>) -> Option<Seq<u8>> {
    match v {
        Some(b) => Some(b@),
        None => None,
    }
}

/// Writes the hook script from its parts: the parent diff, the loader's
/// watch list, the cache if one could be loaded, the checksums of the watched
/// files now, the active notice and the cache file's path.
pub fn render_script(
    parent: &Diff,
    watch_list: Option<&Vec<u8>>,
    cache: &Option<CacheEntry>,
    sums_now: &Result<Checksums, Vec<u8>>,
    active: &[u8],
    cache_file: &[u8],
) -> (r: Vec<u8>)
    ensures
        r@ == script_of(
            parent@,
            opt_bytes(watch_list),
            entry_view(*cache),
            sums_view(*sums_now),
            active@,
            cache_file@,
        ),
{
    let mut out: Vec<u8> = Vec::new();
    append_bytes(&mut out, START.as_bytes());
    let mut body = env_diff_dump(parent);
    match watch_list {
        Some(v) => push_export(&mut body, WATCHES_KEY.as_bytes(), v.as_slice()),
        None => {},
    }
    assert(body@ =~= dump_lines(shown(parent@)) + watches_line(opt_bytes(watch_list)));
    push_chunk(&mut out, PARENT_TITLE.as_bytes(), body.as_slice());
    push_chunk(&mut out, HELPERS_TITLE.as_bytes(), HELPERS.as_bytes());
    let ghost before_state = out@;
    let state = classify(cache, sums_now);
    match state {
        HookState::Okay => push_chunk(&mut out, state.title().as_bytes(), active),
        HookState::Stale => push_chunk(&mut out, state.title().as_bytes(), STALE.as_bytes()),
        HookState::Unknown => push_chunk(&mut out, state.title().as_bytes(), INACTIVE.as_bytes()),
    }
    match cache {
        Some(e) => {
            if state != HookState::Unknown {
                let ghost mid = out@;
                push_chunk(&mut out, CACHED_TITLE.as_bytes(), env_diff_dump(&e.diff).as_slice());
                let paths = e.sums.paths();
                assert(paths@.map_values(|p: Vec<u8>| p@) =~= e.sums@.map_values(|p: (Seq<u8>, Seq<u8>)| p.0));
                push_chunk(&mut out, DEPENDENCIES_TITLE.as_bytes(), watches(&paths).as_slice());
                assert(out@ =~= mid + cached_chunks(e@));
            }
        },
        None => {},
    }
    assert(out@ =~= before_state + state_chunks(state, entry_view(*cache), active@));
    push_chunk(&mut out, CACHE_FILE_TITLE.as_bytes(), watch(cache_file).as_slice());
    append_bytes(&mut out, END.as_bytes());
    assert(out@ =~= script_of(
        parent@,
        opt_bytes(watch_list),
        entry_view(*cache),
        sums_view(*sums_now),
        active@,
        cache_file@,
    ));
    out
}

/// What `hay` becomes when each non-overlapping occurrence of `needle`, from
/// left to right, is replaced by `with`.
pub uninterp spec fn replaced(hay: Seq<u8>, needle: Seq<u8>, with: Seq<u8>) -> Seq<u8>;

/// Relies on bstr's `ByteSlice::replace`: a new byte string, a function of
/// the three arguments alone.
#[verifier::external_body]
fn replace_bytes(hay: &[u8], needle: &[u8], with: &[u8]) -> (r: Vec<u8>)
    ensures
        r@ == replaced(hay@, needle@, with@),
{
    bstr::ByteSlice::replace(hay, needle, with)
}

/// The active notice with the user's getting-started message, quoted, in
/// place of the marker.
pub fn active_notice(message: &[u8]) -> (r: Vec<u8>)
    ensures
        r@ == replaced(ACTIVE.spec_bytes(), MESSAGE_MARKER.spec_bytes(), escaped(message@)),
{
    let quoted = escape(message);
    replace_bytes(ACTIVE.as_bytes(), MESSAGE_MARKER.as_bytes(), quoted.as_slice())
}

/// The changes that bring the live shell back to the outside environment,
/// without the loader's own variables.
pub fn parent_diff(live: &Env, outside: &Env) -> (r: Diff)
    requires
        live.wf(),
        outside.wf(),
    ensures
        r@ == excluded(diff_of(live@, outside@), DIRENV_PREFIX.spec_bytes()),
{
    diff(live, outside).exclude_by_prefix(DIRENV_PREFIX.as_bytes())
}

/// The hook script for a shell whose environment is `live`, given the freshly
/// captured outside environment, the cache if one could be loaded, the
/// checksums of the watched files now, the getting-started message and the
/// cache file's path. The same arguments give the same bytes.
pub fn hook_script(
    live: &Env,
    outside: &Env,
    cache: &Option<CacheEntry>,
    sums_now: &Result<Checksums, Vec<u8>>,
    message: &[u8],
    cache_file: &[u8],
) -> (r: Vec<u8>)
    requires
        live.wf(),
        outside.wf(),
    ensures
        r@ == script_of(
            excluded(diff_of(live@, outside@), DIRENV_PREFIX.spec_bytes()),
            if outside@.contains_key(WATCHES_KEY.spec_bytes()) {
                Some(outside@[WATCHES_KEY.spec_bytes()])
            } else {
                None
            },
            entry_view(*cache),
            sums_view(*sums_now),
            replaced(ACTIVE.spec_bytes(), MESSAGE_MARKER.spec_bytes(), escaped(message@)),
            cache_file@,
        ),
{
    let parent = parent_diff(live, outside);
    let watch_list = outside.get(WATCHES_KEY.as_bytes());
    let active = active_notice(message);
    render_script(&parent, watch_list, cache, sums_now, active.as_slice(), cache_file)
}

/// Where one watched file's fingerprint changed since the build, the paths
/// being the same, the cache is stale and its diff is still applied: the
/// stale notice, then the cached diff and the watch directives. The cached
/// paths are taken distinct; with a path listed twice, a changed copy could
/// match the other one.
pub proof fn lemma_changed_fingerprint_is_stale(
    d: Seq<ChangeView>,
    cached: Seq<(Seq<u8>, Seq<u8>)>,
    now: Seq<(Seq<u8>, Seq<u8>)>,
    i: int,
    active: Seq<u8>,
)
    requires
        0 <= i < cached.len(),
        now.len() == cached.len(),
        forall|a: int, b: int| 0 <= a < b < cached.len() ==> cached[a].0 != cached[b].0,
        forall|j: int| 0 <= j < cached.len() && j != i ==> now[j] == cached[j],
        now[i].0 == cached[i].0,
        now[i].1 != cached[i].1,
    ensures
        state_of(Some((d, cached)), Some(now)) == HookState::Stale,
        state_chunks(state_of(Some((d, cached)), Some(now)), Some((d, cached)), active) == chunk_of(
            STALE_TITLE.spec_bytes(),
            STALE.spec_bytes(),
        ) + cached_chunks((d, cached)),
{
    if sums_equal(now, cached) {
        assert(now.to_set().contains(now[i]));
        assert(cached.to_set().contains(now[i]));
        let j = choose|j: int| 0 <= j < cached.len() && cached[j] == now[i];
        if j < i {
            assert(cached[j].0 != cached[i].0);
        } else if j > i {
            assert(cached[i].0 != cached[j].0);
        }
    }
}

/// Why the hook could not run.
#[derive(PartialEq, Eq, Structural, Clone, Copy, Debug)]
pub enum Error {
    /// The captured outside environment could not be read back.
    Io,
    /// The outside capture did not exit successfully.
    EnvOutsideCapture,
    /// The captured outside environment did not decode.
    EnvOutsideDecode,
}

pub const IO_MESSAGE: &'static str = "input/output error: could not read the captured outside environment";

pub const CAPTURE_MESSAGE: &'static str = "could not capture outside environment";

pub const DECODE_MESSAGE: &'static str = "problem decoding outside environment";

impl Error {
    pub open spec fn message_spec(self) -> Seq<u8> {
        match self {
            Error::Io => IO_MESSAGE.spec_bytes(),
            Error::EnvOutsideCapture => CAPTURE_MESSAGE.spec_bytes(),
            Error::EnvOutsideDecode => DECODE_MESSAGE.spec_bytes(),
        }
    }

    /// A one-line description.
    pub fn message(&self) -> (r: &'static str)
        ensures
            r.spec_bytes() == self.message_spec(),
    {
        match self {
            Error::Io => IO_MESSAGE,
            Error::EnvOutsideCapture => CAPTURE_MESSAGE,
            Error::EnvOutsideDecode => DECODE_MESSAGE,
        }
    }
}

/// The outside environment from the outcome of its capture: whether the
/// subprocess exited successfully, and the bytes it left where they could be
/// read. This is the one step whose failure stops the hook.
pub fn outside_env(exited_ok: bool, bytes: Option<Vec<u8>>) -> (r: Result<Env, Error>)
    ensures
        !exited_ok ==> r == Err::<Env, Error>(Error::EnvOutsideCapture),
        exited_ok && bytes is None ==> r == Err::<Env, Error>(Error::Io),
        exited_ok && bytes is Some ==> (r is Ok || r == Err::<Env, Error>(Error::EnvOutsideDecode)),
        bytes matches Some(b) ==> exited_ok ==> (r is Ok <==> decodes_sorted(b@)),
        r matches Ok(e) ==> e.wf() && (bytes matches Some(b) ==> pairs_decoded(b@) == Some(e.pairs())),
{
    if !exited_ok {
        return Err(Error::EnvOutsideCapture);
    }
    match bytes {
        None => Err(Error::Io),
        Some(b) => match Env::decode(b.as_slice()) {
            Some(e) => Ok(e),
            None => Err(Error::EnvOutsideDecode),
        },
    }
}

} // verus!
