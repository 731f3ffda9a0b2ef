//! The whole composition: runtime and app trees, the extensions of the
//! runtime and of the app, host paths, linker configuration and environment,
//! in that order.

use crate::bwrap::{BwrapBuilder, OpSpec};
use crate::extension::{extension_spec, setup_extension, ExtensionError};
use crate::metadata::{field, field_spec, group_entries, lookup, metadata_at, metadata_entries, metadata_get, metadata_len, Group, Metadata};
use crate::policy::{add_ld_so_conf, env_spec, host_spec, ld_so_conf_text, runtime_spec, setup_env, setup_host_root_dirs, setup_runtime};
use crate::snapshot::HostSnapshot;
use crate::text::{same_text, split_on, split_spec, strip_prefix, texts};
use vstd::prelude::*;

verus! {

#[derive(Debug, Clone, PartialEq, Eq)]
pub enum SetupError {
    /// Both an app and a runtime were asked for.
    AppAndRuntime,
    /// Neither an app nor a runtime was asked for.
    NoAppOrRuntime,
    /// The app is installed under no install root.
    AppNotFound,
    /// The app's metadata names no runtime.
    MissingAppRuntime,
    /// The runtime is installed under no install root.
    RuntimeNotFound,
    /// The runtime's metadata names no runtime id.
    MissingRuntimeSpec,
    /// The runtime id has no architecture part.
    MissingArch,
    /// The runtime id has no version part.
    MissingVersion,
    /// An extension declaration was refused.
    Extension { name: String, error: ExtensionError },
}

pub ghost enum SetupFailure {
    AppAndRuntime,
    NoAppOrRuntime,
    AppNotFound,
    MissingAppRuntime,
    RuntimeNotFound,
    MissingRuntimeSpec,
    MissingArch,
    MissingVersion,
    Extension(Seq<char>, ExtensionError),
}

impl View for SetupError {
    type V = SetupFailure;

    open spec fn view(&self) -> SetupFailure {
        match self {
            SetupError::AppAndRuntime => SetupFailure::AppAndRuntime,
            SetupError::NoAppOrRuntime => SetupFailure::NoAppOrRuntime,
            SetupError::AppNotFound => SetupFailure::AppNotFound,
            SetupError::MissingAppRuntime => SetupFailure::MissingAppRuntime,
            SetupError::RuntimeNotFound => SetupFailure::RuntimeNotFound,
            SetupError::MissingRuntimeSpec => SetupFailure::MissingRuntimeSpec,
            SetupError::MissingArch => SetupFailure::MissingArch,
            SetupError::MissingVersion => SetupFailure::MissingVersion,
            SetupError::Extension { name, error } => SetupFailure::Extension(name@, *error),
        }
    }
}

pub type MetaView = Seq<(Seq<char>, Seq<(Seq<char>, Seq<char>)>)>;

/// The group-name prefix of extension declarations.
pub open spec fn extension_prefix() -> Seq<char> {
    "Extension "@
}

/// What setting up the extension declarations among `groups` does, in
/// order: the operations appended, and the failure that stopped it, if any.
/// Declarations without `version` or `versions` fall back to `fallback`.
pub open spec fn extensions_run(
    groups: MetaView,
    arch: Seq<char>,
    fallback: Seq<char>,
    avail: Seq<Seq<char>>,
    dirs: Seq<Seq<char>>,
    host: HostSnapshot,
    base: Seq<char>,
    prefix: Seq<char>,
) -> (Seq<OpSpec>, Option<SetupFailure>)
    decreases groups.len(),
{
    if groups.len() == 0 {
        (Seq::empty(), None)
    } else {
        let prev = extensions_run(groups.drop_last(), arch, fallback, avail, dirs, host, base, prefix);
        let g = groups.last();
        if prev.1 is Some || !extension_prefix().is_prefix_of(g.0) {
            prev
        } else {
            let name = g.0.skip(extension_prefix().len() as int);
            match extension_spec(g.1, name, arch, fallback, avail, dirs, host, base, prefix) {
                Ok(more) => (prev.0 + more, None),
                Err(e) => (prev.0, Some(SetupFailure::Extension(name, e))),
            }
        }
    }
}

proof fn lemma_extension_failure_persists(
    gs: MetaView,
    k: int,
    m: int,
    arch: Seq<char>,
    fallback: Seq<char>,
    avail: Seq<Seq<char>>,
    dirs: Seq<Seq<char>>,
    host: HostSnapshot,
    base: Seq<char>,
    prefix: Seq<char>,
)
    requires
        0 <= k <= m <= gs.len(),
        extensions_run(gs.take(k), arch, fallback, avail, dirs, host, base, prefix).1 is Some,
    ensures
        extensions_run(gs.take(m), arch, fallback, avail, dirs, host, base, prefix)
            == extensions_run(gs.take(k), arch, fallback, avail, dirs, host, base, prefix),
    decreases m - k,
{
    if m > k {
        lemma_extension_failure_persists(gs, k, m - 1, arch, fallback, avail, dirs, host, base, prefix);
        assert(gs.take(m).drop_last() == gs.take(m - 1));
    }
}

fn setup_extensions(
    bwrap: &mut BwrapBuilder,
    meta: &Metadata,
    arch: &str,
    fallback: &str,
    available_runtimes: &Vec<String>,
    install_dirs: &Vec<String>,
    host: &HostSnapshot,
    base: &str,
    prefix: &str,
) -> (r: Result<(), SetupError>)
    ensures
        final(bwrap)@ == old(bwrap)@ + extensions_run(
            metadata_entries(*meta),
            arch@,
            fallback@,
            texts(available_runtimes@),
            texts(install_dirs@),
            *host,
            base@,
            prefix@,
        ).0,
        match extensions_run(
            metadata_entries(*meta),
            arch@,
            fallback@,
            texts(available_runtimes@),
            texts(install_dirs@),
            *host,
            base@,
            prefix@,
        ).1 {
            None => r is Ok,
            Some(e) => r matches Err(x) && x@ == e,
        },
        final(bwrap).wrapped() == old(bwrap).wrapped(),
{
    let ghost gs = metadata_entries(*meta);
    let ghost spec_of = |k: int|
        extensions_run(gs.take(k), arch@, fallback@, texts(available_runtimes@), texts(install_dirs@), *host, base@, prefix@);
    let n = metadata_len(meta);
    let mut i: usize = 0;
    assert(gs.take(0).len() == 0);
    assert(old(bwrap)@ == old(bwrap)@ + Seq::<OpSpec>::empty());
    while i < n
        invariant
            i <= n,
            n == gs.len(),
            gs == metadata_entries(*meta),
            spec_of(i as int).1 is None,
            bwrap@ == old(bwrap)@ + spec_of(i as int).0,
            forall|k: int| spec_of(k) == extensions_run(gs.take(k), arch@, fallback@, texts(available_runtimes@), texts(install_dirs@), *host, base@, prefix@),
            bwrap.wrapped() == old(bwrap).wrapped(),
        decreases n - i,
    {
        assert(gs.take(i + 1).drop_last() == gs.take(i as int));
        let (gname, decl) = match metadata_at(meta, i) {
            Some(p) => p,
            None => return Ok(()),
        };
        assert(gs.take(i + 1).last() == (gname@, group_entries(*decl)));
        proof {
            reveal_strlit("Extension ");
        }
        match strip_prefix(gname.as_str(), "Extension ") {
            Some(name) => {
                let res = setup_extension(
                    decl,
                    bwrap,
                    name.as_str(),
                    arch,
                    fallback,
                    available_runtimes,
                    install_dirs,
                    base,
                    prefix,
                    host,
                );
                match res {
                    Ok(()) => {},
                    Err(error) => {
                        proof {
                            lemma_extension_failure_persists(gs, i + 1, n as int, arch@, fallback@, texts(available_runtimes@), texts(install_dirs@), *host, base@, prefix@);
                            assert(gs.take(n as int) == gs);
                        }
                        return Err(SetupError::Extension { name, error });
                    },
                }
            },
            None => {},
        }
        i = i + 1;
    }
    assert(gs.take(n as int) == gs);
    Ok(())
}

/// Part `k` of an image id `name/arch/branch`.
pub open spec fn id_part(id: Seq<char>, k: int) -> Option<Seq<char>> {
    if k < split_spec(id, '/').len() {
        Some(split_spec(id, '/')[k])
    } else {
        None
    }
}

/// What setting up the runtime's extensions does: they are mounted under
/// `/usr` and fall back to the runtime's own version. A runtime id without
/// arch or version appends nothing.
pub open spec fn runtime_extensions_spec(
    meta: MetaView,
    avail: Seq<Seq<char>>,
    dirs: Seq<Seq<char>>,
    host: HostSnapshot,
) -> (Seq<OpSpec>, Option<SetupFailure>) {
    match field_spec(meta, "Runtime"@, "runtime"@) {
        None => (Seq::empty(), Some(SetupFailure::MissingRuntimeSpec)),
        Some(id) => match id_part(id, 1) {
            None => (Seq::empty(), Some(SetupFailure::MissingArch)),
            Some(arch) => match id_part(id, 2) {
                None => (Seq::empty(), Some(SetupFailure::MissingVersion)),
                Some(version) => extensions_run(meta, arch, version, avail, dirs, host, "/usr"@, "runtime"@),
            },
        },
    }
}

/// What setting up the app's extensions does: they are mounted under `/app`
/// and fall back to the version of the runtime the app names. An app runtime
/// id without arch or version appends nothing.
pub open spec fn app_extensions_spec(
    meta: MetaView,
    avail: Seq<Seq<char>>,
    dirs: Seq<Seq<char>>,
    host: HostSnapshot,
) -> (Seq<OpSpec>, Option<SetupFailure>) {
    match field_spec(meta, "Application"@, "runtime"@) {
        None => (Seq::empty(), Some(SetupFailure::MissingAppRuntime)),
        Some(id) => match id_part(id, 1) {
            None => (Seq::empty(), Some(SetupFailure::MissingArch)),
            Some(arch) => match id_part(id, 2) {
                None => (Seq::empty(), Some(SetupFailure::MissingVersion)),
                Some(version) => extensions_run(meta, arch, version, avail, dirs, host, "/app"@, "app"@),
            },
        },
    }
}

fn id_piece(pieces: &Vec<String>, k: usize) -> (r: Option<&str>)
    ensures
        r matches Some(s) ==> k < pieces@.len() && s@ == pieces@[k as int]@,
        r is None ==> k >= pieces@.len(),
{
    if k < pieces.len() {
        Some(pieces[k].as_str())
    } else {
        None
    }
}

/// Sets up the extensions that the runtime's metadata declares.
pub fn setup_runtime_extensions(
    bwrap: &mut BwrapBuilder,
    runtime_metadata: &Metadata,
    available_runtimes: &Vec<String>,
    install_dirs: &Vec<String>,
    host: &HostSnapshot,
) -> (r: Result<(), SetupError>)
    ensures
        final(bwrap)@ == old(bwrap)@ + runtime_extensions_spec(
            metadata_entries(*runtime_metadata),
            texts(available_runtimes@),
            texts(install_dirs@),
            *host,
        ).0,
        match runtime_extensions_spec(metadata_entries(*runtime_metadata), texts(available_runtimes@), texts(install_dirs@), *host).1 {
            None => r is Ok,
            Some(e) => r matches Err(x) && x@ == e,
        },
        final(bwrap).wrapped() == old(bwrap).wrapped(),
{
    assert(old(bwrap)@ == old(bwrap)@ + Seq::<OpSpec>::empty());
    let runtime = match field(runtime_metadata, "Runtime", "runtime") {
        Some(r) => r,
        None => return Err(SetupError::MissingRuntimeSpec),
    };
    let pieces = split_on(runtime.as_str(), '/');
    let arch = match id_piece(&pieces, 1) {
        Some(a) => a,
        None => return Err(SetupError::MissingArch),
    };
    let version = match id_piece(&pieces, 2) {
        Some(v) => v,
        None => return Err(SetupError::MissingVersion),
    };
    setup_extensions(bwrap, runtime_metadata, arch, version, available_runtimes, install_dirs, host, "/usr", "runtime")
}

/// Sets up the extensions that the app's metadata declares.
pub fn setup_app_extensions(
    bwrap: &mut BwrapBuilder,
    app_metadata: &Metadata,
    available_runtimes: &Vec<String>,
    install_dirs: &Vec<String>,
    host: &HostSnapshot,
) -> (r: Result<(), SetupError>)
    ensures
        final(bwrap)@ == old(bwrap)@ + app_extensions_spec(
            metadata_entries(*app_metadata),
            texts(available_runtimes@),
            texts(install_dirs@),
            *host,
        ).0,
        match app_extensions_spec(metadata_entries(*app_metadata), texts(available_runtimes@), texts(install_dirs@), *host).1 {
            None => r is Ok,
            Some(e) => r matches Err(x) && x@ == e,
        },
        final(bwrap).wrapped() == old(bwrap).wrapped(),
{
    assert(old(bwrap)@ == old(bwrap)@ + Seq::<OpSpec>::empty());
    let runtime = match field(app_metadata, "Application", "runtime") {
        Some(r) => r,
        None => return Err(SetupError::MissingAppRuntime),
    };
    let pieces = split_on(runtime.as_str(), '/');
    let arch = match id_piece(&pieces, 1) {
        Some(a) => a,
        None => return Err(SetupError::MissingArch),
    };
    let version = match id_piece(&pieces, 2) {
        Some(v) => v,
        None => return Err(SetupError::MissingVersion),
    };
    setup_extensions(bwrap, app_metadata, arch, version, available_runtimes, install_dirs, host, "/app", "app")
}

/// An installed app: its id, its files directory and its metadata.
pub struct AppImage {
    pub id: String,
    pub files: String,
    pub metadata: Metadata,
}

/// The runtime's declared environment.
pub open spec fn runtime_env_spec(meta: MetaView) -> Seq<(Seq<char>, Seq<char>)> {
    match lookup(meta, "Environment"@) {
        Some(g) => g,
        None => Seq::empty(),
    }
}

pub open spec fn opt_view(o: Option<String>) -> Option<Seq<char>> {
    match o {
        Some(s) => Some(s@),
        None => None,
    }
}

/// The complete operation list, or why composition was refused.
pub open spec fn compose_spec(
    runtime_files: Seq<char>,
    runtime_meta: MetaView,
    app: Option<(Seq<char>, Seq<char>, MetaView)>,
    avail: Seq<Seq<char>>,
    dirs: Seq<Seq<char>>,
    host: HostSnapshot,
) -> Result<Seq<OpSpec>, SetupFailure> {
    let app_files = match app {
        Some(a) => Some(a.1),
        None => None,
    };
    let app_id = match app {
        Some(a) => Some(a.0),
        None => None,
    };
    let rt = runtime_extensions_spec(runtime_meta, avail, dirs, host);
    let ax = match app {
        None => (Seq::empty(), None),
        Some(a) => app_extensions_spec(a.2, avail, dirs, host),
    };
    match (rt.1, ax.1) {
        (Some(e), _) => Err(e),
        (None, Some(e)) => Err(e),
        (None, None) => Ok(runtime_spec(runtime_files, app_files, host) + rt.0 + ax.0 + host_spec(host) + seq![
            OpSpec::VirtualFile("/etc/ld.so.conf"@, ld_so_conf_text()),
        ] + env_spec(runtime_env_spec(runtime_meta), app_id, opt_view(host.home))),
    }
}

pub open spec fn app_view(app: Option<&AppImage>) -> Option<(Seq<char>, Seq<char>, MetaView)> {
    match app {
        Some(a) => Some((a.id@, a.files@, metadata_entries(a.metadata))),
        None => None,
    }
}

/// Composes the sandbox for a runtime whose files are at `runtime_files`,
/// and the app, if any.
pub fn compose(
    runtime_files: &str,
    runtime_metadata: &Metadata,
    app: Option<&AppImage>,
    available_runtimes: &Vec<String>,
    install_dirs: &Vec<String>,
    host: &HostSnapshot,
) -> (r: Result<BwrapBuilder, SetupError>)
    ensures
        match compose_spec(runtime_files@, metadata_entries(*runtime_metadata), app_view(app), texts(available_runtimes@), texts(install_dirs@), *host) {
            Ok(ops) => r matches Ok(b) && b@ == ops && !b.wrapped(),
            Err(e) => r matches Err(x) && x@ == e,
        },
{
    let mut bwrap = BwrapBuilder::new();
    let app_files: Option<&str> = match app {
        Some(a) => Some(a.files.as_str()),
        None => None,
    };
    setup_runtime(&mut bwrap, runtime_files, app_files, host);
    match setup_runtime_extensions(&mut bwrap, runtime_metadata, available_runtimes, install_dirs, host) {
        Ok(()) => {},
        Err(e) => return Err(e),
    }
    let ghost after_rt = bwrap@;
    match app {
        Some(a) => {
            match setup_app_extensions(&mut bwrap, &a.metadata, available_runtimes, install_dirs, host) {
                Ok(()) => {},
                Err(e) => return Err(e),
            }
        },
        None => {
            assert(bwrap@ == after_rt + Seq::<OpSpec>::empty());
        },
    }
    setup_host_root_dirs(&mut bwrap, host);
    let ghost after_app = bwrap@;
    add_ld_so_conf(&mut bwrap);
    let runtime_env = metadata_get(runtime_metadata, "Environment");
    let app_id: Option<&str> = match app {
        Some(a) => Some(a.id.as_str()),
        None => None,
    };
    let home: Option<&str> = match &host.home {
        Some(h) => Some(h.as_str()),
        None => None,
    };
    setup_env(&mut bwrap, runtime_env, app_id, home);
    proof {
        let ghost spec = compose_spec(runtime_files@, metadata_entries(*runtime_metadata), app_view(app), texts(available_runtimes@), texts(install_dirs@), *host);
        assert(crate::policy::env_entries(runtime_env) == runtime_env_spec(metadata_entries(*runtime_metadata)));
        assert(spec matches Ok(ops) && bwrap@ =~= ops);
    }
    Ok(bwrap)
}

/// What one run is composed around.
#[derive(Debug, Clone, PartialEq, Eq)]
pub enum Target {
    /// An installed app, by id.
    App(String),
    /// An installed runtime, by full id `name/arch/branch`.
    Runtime(String),
}

/// Exactly one of an app and a runtime must be asked for.
pub fn select_target(app: Option<&String>, runtime: Option<&String>) -> (r: Result<Target, SetupError>)
    ensures
        match (app, runtime) {
            (Some(a), None) => r matches Ok(Target::App(x)) && x@ == a@,
            (None, Some(t)) => r matches Ok(Target::Runtime(x)) && x@ == t@,
            (Some(_), Some(_)) => r matches Err(SetupError::AppAndRuntime),
            (None, None) => r matches Err(SetupError::NoAppOrRuntime),
        },
{
    match (app, runtime) {
        (Some(a), None) => Ok(Target::App(a.clone())),
        (None, Some(t)) => Ok(Target::Runtime(t.clone())),
        (Some(_), Some(_)) => Err(SetupError::AppAndRuntime),
        (None, None) => Err(SetupError::NoAppOrRuntime),
    }
}

/// The runtime id that the app's metadata names.
pub fn app_runtime(app_metadata: &Metadata) -> (r: Result<String, SetupError>)
    ensures
        match field_spec(metadata_entries(*app_metadata), "Application"@, "runtime"@) {
            Some(id) => r matches Ok(x) && x@ == id,
            None => r matches Err(SetupError::MissingAppRuntime),
        },
{
    match field(app_metadata, "Application", "runtime") {
        Some(id) => Ok(id.clone()),
        None => Err(SetupError::MissingAppRuntime),
    }
}

/// The system-wide install root, searched first.
pub open spec fn default_install_path() -> Seq<char> {
    "/var/lib/flatpak"@
}

/// The install roots in priority order: the system root, the user's root when
/// it exists, then the extra roots given.
pub fn install_roots(user_root: Option<&str>, extra: &Vec<String>) -> (r: Vec<String>)
    ensures
        texts(r@) == seq![default_install_path()] + match user_root {
            Some(u) => seq![u@],
            None => Seq::empty(),
        } + texts(extra@),
{
    let mut r: Vec<String> = Vec::new();
    r.push("/var/lib/flatpak".to_owned());
    match user_root {
        Some(u) => r.push(u.to_owned()),
        None => {},
    }
    let ghost head = texts(r@);
    let mut i: usize = 0;
    while i < extra.len()
        invariant
            i <= extra@.len(),
            texts(r@) == head + texts(extra@).take(i as int),
        decreases extra@.len() - i,
    {
        let ghost prev = r@;
        r.push(extra[i].clone());
        assert(texts(r@) == texts(prev).push(extra@[i as int]@));
        assert(texts(extra@).take(i + 1) == texts(extra@).take(i as int).push(extra@[i as int]@));
        i = i + 1;
    }
    assert(texts(extra@).take(i as int) == texts(extra@));
    assert(texts(r@) =~= seq![default_install_path()] + match user_root {
        Some(u) => seq![u@],
        None => Seq::<Seq<char>>::empty(),
    } + texts(extra@));
    r
}

/// Whether `pat` occurs in `s`.
pub open spec fn occurs_in(pat: Seq<char>, s: Seq<char>) -> bool {
    exists|i: int| 0 <= i && i + pat.len() <= s.len() && #[trigger] s.subrange(i, i + pat.len()) == pat
}

/// Whether `pat` occurs in `s`.
pub fn contains_substring(s: &str, pat: &str) -> (r: bool)
    ensures
        r == occurs_in(pat@, s@),
{
    let n = s.unicode_len();
    let m = pat.unicode_len();
    if m > n {
        return false;
    }
    let mut i: usize = 0;
    while i <= n - m
        invariant
            n == s@.len(),
            m == pat@.len(),
            m <= n,
            i <= n - m + 1,
            forall|j: int| 0 <= j < i ==> #[trigger] s@.subrange(j, j + m) != pat@,
        decreases n - m + 1 - i,
    {
        if same_text(s.substring_char(i, i + m), pat) {
            return true;
        }
        if i == n - m {
            return false;
        }
        i = i + 1;
    }
    false
}

/// Whether the final invocation goes through the unconfined AppArmor profile:
/// when it was asked for and the host's profile list shows an unconfined one.
pub fn wants_unconfined(requested: bool, profiles: Option<&str>) -> (r: bool)
    ensures
        r == (requested && (profiles matches Some(p) && occurs_in("(unconfined)"@, p@))),
{
    if !requested {
        return false;
    }
    match profiles {
        Some(p) => contains_substring(p, "(unconfined)"),
        None => false,
    }
}

/// The merge directories that the extension declarations among `groups`
/// name, declaration by declaration.
pub open spec fn declared_merge_dirs(groups: MetaView) -> Seq<Seq<char>>
    decreases groups.len(),
{
    if groups.len() == 0 {
        Seq::empty()
    } else {
        let init = declared_merge_dirs(groups.drop_last());
        let g = groups.last();
        if extension_prefix().is_prefix_of(g.0) {
            init + crate::extension::merge_dirs_of(g.1)
        } else {
            init
        }
    }
}

/// The merge directories that the metadata's extension declarations name;
/// these are the directories whose files the merge pass reads.
pub fn merge_dir_names(meta: &Metadata) -> (r: Vec<String>)
    ensures
        texts(r@) == declared_merge_dirs(metadata_entries(*meta)),
{
    let ghost gs = metadata_entries(*meta);
    let n = metadata_len(meta);
    let mut out: Vec<String> = Vec::new();
    let mut i: usize = 0;
    assert(gs.take(0).len() == 0);
    while i < n
        invariant
            i <= n,
            n == gs.len(),
            gs == metadata_entries(*meta),
            texts(out@) == declared_merge_dirs(gs.take(i as int)),
        decreases n - i,
    {
        assert(gs.take(i + 1).drop_last() == gs.take(i as int));
        let (gname, decl) = match metadata_at(meta, i) {
            Some(p) => p,
            None => return out,
        };
        assert(gs.take(i + 1).last() == (gname@, group_entries(*decl)));
        proof {
            reveal_strlit("Extension ");
        }
        if crate::text::starts_with(gname.as_str(), "Extension ") {
            match crate::metadata::group_get(decl, "merge-dirs") {
                Some(m) => {
                    let dirs = split_on(m.as_str(), ';');
                    let ghost before = texts(out@);
                    let mut j: usize = 0;
                    while j < dirs.len()
                        invariant
                            j <= dirs@.len(),
                            texts(out@) == before + texts(dirs@).take(j as int),
                        decreases dirs@.len() - j,
                    {
                        let ghost prev = out@;
                        out.push(dirs[j].clone());
                        assert(texts(out@) == texts(prev).push(dirs@[j as int]@));
                        assert(texts(dirs@).take(j + 1) == texts(dirs@).take(j as int).push(dirs@[j as int]@));
                        j = j + 1;
                    }
                    assert(texts(dirs@).take(j as int) =~= crate::extension::merge_dirs_of(group_entries(*decl)));
                },
                None => {
                    assert(crate::extension::merge_dirs_of(group_entries(*decl)) =~= Seq::<Seq<char>>::empty());
                    assert(texts(out@) =~= texts(out@) + Seq::<Seq<char>>::empty());
                },
            }
        }
        i = i + 1;
    }
    assert(gs.take(n as int) == gs);
    out
}

/// Whether a declaration carries an `enable-if` predicate that is not known,
/// which disables all of its implementations.
pub open spec fn has_unknown_predicate(decl: Seq<(Seq<char>, Seq<char>)>) -> bool {
    lookup(decl, "enable-if"@) matches Some(e) && e != "active-gl-driver"@
}

/// The names of the extension declarations among `groups` whose `enable-if`
/// predicate is not known, each with that predicate, in order.
pub open spec fn unknown_predicate_names(groups: MetaView) -> Seq<(Seq<char>, Seq<char>)>
    decreases groups.len(),
{
    if groups.len() == 0 {
        Seq::empty()
    } else {
        let init = unknown_predicate_names(groups.drop_last());
        let g = groups.last();
        if extension_prefix().is_prefix_of(g.0) && has_unknown_predicate(g.1) {
            init.push((g.0.skip(extension_prefix().len() as int), lookup(g.1, "enable-if"@)->Some_0))
        } else {
            init
        }
    }
}

pub open spec fn pair_texts(v: Seq<(String, String)>) -> Seq<(Seq<char>, Seq<char>)> {
    v.map_values(|p: (String, String)| (p.0@, p.1@))
}

/// The extensions that are left out because their `enable-if` predicate is
/// not known, for a diagnostic.
pub fn unsupported_enable_if(meta: &Metadata) -> (r: Vec<(String, String)>)
    ensures
        pair_texts(r@) == unknown_predicate_names(metadata_entries(*meta)),
{
    let ghost gs = metadata_entries(*meta);
    let n = metadata_len(meta);
    let mut out: Vec<(String, String)> = Vec::new();
    let mut i: usize = 0;
    assert(gs.take(0).len() == 0);
    assert(pair_texts(out@) =~= Seq::<(Seq<char>, Seq<char>)>::empty());
    while i < n
        invariant
            i <= n,
            n == gs.len(),
            gs == metadata_entries(*meta),
            pair_texts(out@) == unknown_predicate_names(gs.take(i as int)),
        decreases n - i,
    {
        assert(gs.take(i + 1).drop_last() == gs.take(i as int));
        let (gname, decl) = match metadata_at(meta, i) {
            Some(p) => p,
            None => return out,
        };
        assert(gs.take(i + 1).last() == (gname@, group_entries(*decl)));
        proof {
            reveal_strlit("Extension ");
        }
        match strip_prefix(gname.as_str(), "Extension ") {
            Some(name) => {
                match crate::metadata::group_get(decl, "enable-if") {
                    Some(e) => {
                        if !same_text(e.as_str(), "active-gl-driver") {
                            let ghost prev = out@;
                            out.push((name, e.clone()));
                            assert(pair_texts(out@) =~= pair_texts(prev).push((out@.last().0@, out@.last().1@)));
                        }
                    },
                    None => {},
                }
            },
            None => {},
        }
        i = i + 1;
    }
    assert(gs.take(n as int) == gs);
    out
}

proof fn lemma_no_extension_groups(
    groups: MetaView,
    arch: Seq<char>,
    fallback: Seq<char>,
    avail: Seq<Seq<char>>,
    dirs: Seq<Seq<char>>,
    host: HostSnapshot,
    base: Seq<char>,
    prefix: Seq<char>,
)
    requires
        forall|i: int| 0 <= i < groups.len() ==> !extension_prefix().is_prefix_of(#[trigger] groups[i].0),
    ensures
        extensions_run(groups, arch, fallback, avail, dirs, host, base, prefix) == (Seq::<OpSpec>::empty(), None::<SetupFailure>),
    decreases groups.len(),
{
    if groups.len() > 0 {
        let init = groups.drop_last();
        assert forall|i: int| 0 <= i < init.len() implies !extension_prefix().is_prefix_of(#[trigger] init[i].0) by {
            assert(init[i] == groups[i]);
        }
        lemma_no_extension_groups(init, arch, fallback, avail, dirs, host, base, prefix);
        assert(!extension_prefix().is_prefix_of(groups[groups.len() - 1].0));
    }
}

/// A runtime alone, with a full `name/arch/branch` id and no extension
/// declarations, composes to: the runtime tree (its bind at `/usr`, its `etc`
/// entries, the merged-`/usr` links and `/.flatpak-info`), then the host
/// exposure, then `/etc/ld.so.conf`, then the default environment followed by
/// the runtime's own variables.
pub proof fn lemma_runtime_only_composition(
    runtime_files: Seq<char>,
    meta: MetaView,
    avail: Seq<Seq<char>>,
    dirs: Seq<Seq<char>>,
    host: HostSnapshot,
)
    requires
        field_spec(meta, "Runtime"@, "runtime"@) matches Some(id) && id_part(id, 1) is Some && id_part(
            id,
            2,
        ) is Some,
        forall|i: int| 0 <= i < meta.len() ==> !extension_prefix().is_prefix_of(#[trigger] meta[i].0),
    ensures
        compose_spec(runtime_files, meta, None, avail, dirs, host) == Ok::<Seq<OpSpec>, SetupFailure>(
            runtime_spec(runtime_files, None, host) + host_spec(host) + seq![
                OpSpec::VirtualFile("/etc/ld.so.conf"@, ld_so_conf_text()),
            ] + env_spec(runtime_env_spec(meta), None, opt_view(host.home)),
        ),
{
    let id = field_spec(meta, "Runtime"@, "runtime"@)->Some_0;
    lemma_no_extension_groups(meta, id_part(id, 1)->Some_0, id_part(id, 2)->Some_0, avail, dirs, host, "/usr"@, "runtime"@);
    let rt = runtime_extensions_spec(meta, avail, dirs, host);
    assert(rt == (Seq::<OpSpec>::empty(), None::<SetupFailure>));
    assert(runtime_spec(runtime_files, None, host) + rt.0 == runtime_spec(runtime_files, None, host));
    assert(runtime_spec(runtime_files, None, host) + rt.0 + Seq::<OpSpec>::empty() == runtime_spec(runtime_files, None, host));
}

} // verus!
