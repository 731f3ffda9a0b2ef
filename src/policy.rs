//! The fixed parts of the sandbox: the runtime and app trees, the host paths
//! let through, the linker configuration and the environment.

use crate::bwrap::{BwrapBuilder, OpSpec};
use crate::metadata::{group_at, group_entries, group_len, Group};
use crate::snapshot::{EtcEntry, HostSnapshot};
use crate::text::{contains_text, join, join_spec, texts};
use vstd::prelude::*;

verus! {

pub open spec fn strs(v: Seq<&str>) -> Seq<Seq<char>> {
    v.map_values(|s: &str| s@)
}

/// Top-level directories that a merged-`/usr` runtime provides as links.
pub open spec fn usr_merged_dirs() -> Seq<Seq<char>> {
    seq!["bin"@, "lib"@, "lib32"@, "lib64"@, "sbin"@]
}

fn usr_merged_dirs_list() -> (r: Vec<&'static str>)
    ensures
        strs(r@) == usr_merged_dirs(),
{
    let r = vec!["bin", "lib", "lib32", "lib64", "sbin"];
    assert(strs(r@) =~= usr_merged_dirs());
    r
}

/// Top-level host directories that the sandbox supplies itself.
pub open spec fn forbidden_host_root_dirs() -> Seq<Seq<char>> {
    seq!["app"@, "usr"@, "run"@, "etc"@, "var"@]
}

/// Host `/` entries that are never let through.
pub open spec fn root_deny_list() -> Seq<Seq<char>> {
    forbidden_host_root_dirs() + usr_merged_dirs()
}

fn root_deny_list_exec() -> (r: Vec<String>)
    ensures
        texts(r@) == root_deny_list(),
{
    let v = vec!["app", "usr", "run", "etc", "var", "bin", "lib", "lib32", "lib64", "sbin"];
    let mut r: Vec<String> = Vec::new();
    let mut i: usize = 0;
    while i < v.len()
        invariant
            i <= v@.len(),
            v@ == seq!["app", "usr", "run", "etc", "var", "bin", "lib", "lib32", "lib64", "sbin"],
            texts(r@) == strs(v@).take(i as int),
        decreases v@.len() - i,
    {
        let ghost prev = r@;
        r.push(v[i].to_owned());
        assert(texts(r@) =~= texts(prev).push(v@[i as int]@));
        assert(strs(v@).take(i + 1) =~= strs(v@).take(i as int).push(v@[i as int]@));
        i = i + 1;
    }
    assert(strs(v@) =~= root_deny_list());
    r
}

/// Host `/run` entries that are never let through.
pub open spec fn run_deny_list() -> Seq<Seq<char>> {
    seq!["flatpak"@, "host"@]
}

/// Identity files of `/etc` exposed read-only when present.
pub open spec fn exposed_etc_paths() -> Seq<Seq<char>> {
    seq!["/etc/passwd"@, "/etc/group"@, "/etc/shadow"@]
}

/// Host paths exposed when present: source, destination, writable.
pub open spec fn path_bindings() -> Seq<(Seq<char>, Seq<char>, bool)> {
    seq![
        ("/"@, "/run/host/root"@, true),
        ("/usr/share/fonts"@, "/run/host/fonts"@, false),
        ("/usr/lib/fontconfig/cache"@, "/run/host/fonts-cache"@, false),
        ("/usr/share/icons"@, "/run/host/share/icons"@, false),
        ("/etc/machine-id"@, "/etc/machine-id"@, false),
        ("/var/lib/dbus/machine-id"@, "/var/lib/dbus/machine-id"@, false),
    ]
}

fn path_bindings_list() -> (r: Vec<(&'static str, &'static str, bool)>)
    ensures
        r@.map_values(|t: (&str, &str, bool)| (t.0@, t.1@, t.2)) == path_bindings(),
{
    let r = vec![
        ("/", "/run/host/root", true),
        ("/usr/share/fonts", "/run/host/fonts", false),
        ("/usr/lib/fontconfig/cache", "/run/host/fonts-cache", false),
        ("/usr/share/icons", "/run/host/share/icons", false),
        ("/etc/machine-id", "/etc/machine-id", false),
        ("/var/lib/dbus/machine-id", "/var/lib/dbus/machine-id", false),
    ];
    assert(r@.map_values(|t: (&str, &str, bool)| (t.0@, t.1@, t.2)) =~= path_bindings());
    r
}

/// The paths whose existence the fixed part of the sandbox depends on: the
/// merged-`/usr` directories of the runtime, then the exposed identity files,
/// then the sources of the fixed bindings.
pub open spec fn host_probe_spec(runtime_files: Seq<char>) -> Seq<Seq<char>> {
    usr_merged_dirs().map_values(|d: Seq<char>| join_spec(runtime_files, d)) + exposed_etc_paths()
        + path_bindings().map_values(|t: (Seq<char>, Seq<char>, bool)| t.0)
}

/// The paths to check on the host before composing; see `host_probe_spec`.
pub fn host_probe_paths(runtime_files: &str) -> (r: Vec<String>)
    ensures
        texts(r@) == host_probe_spec(runtime_files@),
{
    let mut r: Vec<String> = Vec::new();
    let dirs = usr_merged_dirs_list();
    let mut i: usize = 0;
    while i < dirs.len()
        invariant
            i <= dirs@.len(),
            strs(dirs@) == usr_merged_dirs(),
            texts(r@) == usr_merged_dirs().take(i as int).map_values(|d: Seq<char>| join_spec(runtime_files@, d)),
        decreases dirs@.len() - i,
    {
        let ghost prev = r@;
        r.push(join(runtime_files, dirs[i]));
        assert(texts(r@) =~= texts(prev).push(join_spec(runtime_files@, dirs@[i as int]@)));
        assert(usr_merged_dirs().take(i + 1) =~= usr_merged_dirs().take(i as int).push(dirs@[i as int]@));
        assert(texts(r@) =~= usr_merged_dirs().take(i + 1).map_values(|d: Seq<char>| join_spec(runtime_files@, d)));
        i = i + 1;
    }
    assert(usr_merged_dirs().take(5) == usr_merged_dirs());
    let ghost first = texts(r@);
    r.push("/etc/passwd".to_owned());
    r.push("/etc/group".to_owned());
    r.push("/etc/shadow".to_owned());
    assert(texts(r@) =~= first + exposed_etc_paths());
    let ghost second = texts(r@);
    let table = path_bindings_list();
    let mut j: usize = 0;
    while j < table.len()
        invariant
            j <= table@.len(),
            table@.map_values(|t: (&str, &str, bool)| (t.0@, t.1@, t.2)) == path_bindings(),
            texts(r@) == second + path_bindings().take(j as int).map_values(|t: (Seq<char>, Seq<char>, bool)| t.0),
        decreases table@.len() - j,
    {
        let (s, _, _) = table[j];
        assert(path_bindings()[j as int].0 == s@);
        let ghost prev = r@;
        r.push(s.to_owned());
        assert(texts(r@) =~= texts(prev).push(s@));
        assert(path_bindings().take(j + 1) =~= path_bindings().take(j as int).push(path_bindings()[j as int]));
        assert(texts(r@) =~= second + path_bindings().take(j + 1).map_values(|t: (Seq<char>, Seq<char>, bool)| t.0));
        j = j + 1;
    }
    assert(path_bindings().take(6) == path_bindings());
    r
}

pub open spec fn etc_view(entries: Seq<EtcEntry>) -> Seq<(Seq<char>, Option<Seq<char>>)> {
    entries.map_values(
        |e: EtcEntry|
            (
                e.name@,
                match e.link_target {
                    Some(t) => Some(t@),
                    None => None,
                },
            ),
    )
}

/// The operation for one entry of the runtime's `etc`: a link stays a link,
/// anything else is bound read-only.
pub open spec fn etc_op(rf: Seq<char>, e: (Seq<char>, Option<Seq<char>>)) -> OpSpec {
    match e.1 {
        Some(t) => OpSpec::Symlink(t, "etc/"@ + e.0),
        None => OpSpec::Bind(join_spec(join_spec(rf, "etc"@), e.0), "etc/"@ + e.0, false),
    }
}

/// A link from each top-level directory to its `/usr` counterpart, for those
/// the runtime has.
pub open spec fn merged_links(rf: Seq<char>, dirs: Seq<Seq<char>>, host: HostSnapshot) -> Seq<OpSpec>
    decreases dirs.len(),
{
    if dirs.len() == 0 {
        Seq::empty()
    } else {
        let init = merged_links(rf, dirs.drop_last(), host);
        let d = dirs.last();
        if host.has_path(join_spec(rf, d)) {
            init.push(OpSpec::Symlink(join_spec("/usr"@, d), d))
        } else {
            init
        }
    }
}

/// The runtime at `/usr`, the app at `/app`, the runtime's `etc` entries,
/// the merged-`/usr` links and the empty `/.flatpak-info`.
pub open spec fn runtime_spec(rf: Seq<char>, app_files: Option<Seq<char>>, host: HostSnapshot) -> Seq<OpSpec> {
    let app_part = match app_files {
        Some(a) => seq![OpSpec::Bind(a, "/app"@, false)],
        None => Seq::empty(),
    };
    seq![OpSpec::Bind(rf, "/usr"@, false)] + app_part + etc_view(host.runtime_etc@).map_values(|e: (Seq<char>, Option<Seq<char>>)| etc_op(rf, e))
        + merged_links(rf, usr_merged_dirs(), host) + seq![OpSpec::VirtualFile("/.flatpak-info"@, Seq::empty())]
}

/// Mounts the runtime and the app, if any, and the runtime's `etc` entries.
pub fn setup_runtime(
    bwrap: &mut BwrapBuilder,
    runtime_files_path: &str,
    app_files_path: Option<&str>,
    host: &HostSnapshot,
)
    ensures
        final(bwrap)@ == old(bwrap)@ + runtime_spec(
            runtime_files_path@,
            match app_files_path {
                Some(a) => Some(a@),
                None => None,
            },
            *host,
        ),
        final(bwrap).wrapped() == old(bwrap).wrapped(),
{
    let ghost rf = runtime_files_path@;
    bwrap.ro_bind(runtime_files_path, "/usr");
    match app_files_path {
        Some(a) => {
            bwrap.ro_bind(a, "/app");
        },
        None => {},
    }
    let ghost app_part = match app_files_path {
        Some(a) => seq![OpSpec::Bind(a@, "/app"@, false)],
        None => Seq::<OpSpec>::empty(),
    };
    assert(bwrap@ =~= old(bwrap)@ + seq![OpSpec::Bind(rf, "/usr"@, false)] + app_part);
    let ghost head = bwrap@;
    let ghost ev = etc_view(host.runtime_etc@);
    let etc_dir = join(runtime_files_path, "etc");
    let mut i: usize = 0;
    while i < host.runtime_etc.len()
        invariant
            i <= host.runtime_etc@.len(),
            ev == etc_view(host.runtime_etc@),
            rf == runtime_files_path@,
            etc_dir@ == join_spec(rf, "etc"@),
            bwrap@ == head + ev.take(i as int).map_values(|e: (Seq<char>, Option<Seq<char>>)| etc_op(rf, e)),
            bwrap.wrapped() == old(bwrap).wrapped(),
        decreases host.runtime_etc@.len() - i,
    {
        let e = &host.runtime_etc[i];
        let mut dest = "etc/".to_owned();
        dest.append(e.name.as_str());
        match &e.link_target {
            Some(t) => {
                bwrap.symlink(t.as_str(), dest.as_str());
            },
            None => {
                bwrap.ro_bind(join(etc_dir.as_str(), e.name.as_str()).as_str(), dest.as_str());
            },
        }
        assert(ev[i as int] == (e.name@, match e.link_target { Some(t) => Some(t@), None => None::<Seq<char>> }));
        assert(ev.take(i + 1).map_values(|e: (Seq<char>, Option<Seq<char>>)| etc_op(rf, e)) =~= ev.take(i as int).map_values(|e: (Seq<char>, Option<Seq<char>>)| etc_op(rf, e)).push(etc_op(rf, ev[i as int])));
        i = i + 1;
    }
    assert(ev.take(i as int) == ev);
    let ghost head2 = bwrap@;
    let dirs = usr_merged_dirs_list();
    let mut j: usize = 0;
    assert(usr_merged_dirs().take(0).len() == 0);
    while j < dirs.len()
        invariant
            j <= dirs@.len(),
            strs(dirs@) == usr_merged_dirs(),
            rf == runtime_files_path@,
            bwrap@ == head2 + merged_links(rf, usr_merged_dirs().take(j as int), *host),
            bwrap.wrapped() == old(bwrap).wrapped(),
        decreases dirs@.len() - j,
    {
        let d = dirs[j];
        assert(usr_merged_dirs().take(j + 1).drop_last() == usr_merged_dirs().take(j as int));
        assert(usr_merged_dirs().take(j + 1).last() == d@);
        let p = join(runtime_files_path, d);
        if contains_text(&host.existing, p.as_str()) {
            bwrap.symlink(join("/usr", d).as_str(), d);
        }
        j = j + 1;
    }
    assert(usr_merged_dirs().take(5) == usr_merged_dirs());
    let ghost before_info = bwrap@;
    proof {
        reveal_strlit("");
    }
    assert(""@ =~= Seq::<char>::empty());
    bwrap.ro_bind_data("/.flatpak-info", "");
    assert(bwrap@ == before_info.push(OpSpec::VirtualFile("/.flatpak-info"@, Seq::empty())));
    assert(before_info == old(bwrap)@ + seq![OpSpec::Bind(rf, "/usr"@, false)] + app_part + ev.map_values(|e: (Seq<char>, Option<Seq<char>>)| etc_op(rf, e)) + merged_links(rf, usr_merged_dirs(), *host));
    assert(bwrap@ =~= old(bwrap)@ + runtime_spec(
        rf,
        match app_files_path {
            Some(a) => Some(a@),
            None => None,
        },
        *host,
    ));
}

/// A writable bind at the same path for each entry of `parent` not on the deny list.
pub open spec fn pass_through(names: Seq<Seq<char>>, parent: Seq<char>, deny: Seq<Seq<char>>) -> Seq<OpSpec>
    decreases names.len(),
{
    if names.len() == 0 {
        Seq::empty()
    } else {
        let init = pass_through(names.drop_last(), parent, deny);
        let n = names.last();
        if deny.contains(n) {
            init
        } else {
            init.push(OpSpec::Bind(parent + n, parent + n, true))
        }
    }
}

/// A read-only bind at the same path for each path that exists.
pub open spec fn existing_ro(paths: Seq<Seq<char>>, host: HostSnapshot) -> Seq<OpSpec>
    decreases paths.len(),
{
    if paths.len() == 0 {
        Seq::empty()
    } else {
        let init = existing_ro(paths.drop_last(), host);
        let p = paths.last();
        if host.has_path(p) {
            init.push(OpSpec::Bind(p, p, false))
        } else {
            init
        }
    }
}

/// The bindings of the fixed table whose source exists.
pub open spec fn fixed_bindings(table: Seq<(Seq<char>, Seq<char>, bool)>, host: HostSnapshot) -> Seq<OpSpec>
    decreases table.len(),
{
    if table.len() == 0 {
        Seq::empty()
    } else {
        let init = fixed_bindings(table.drop_last(), host);
        let t = table.last();
        if host.has_path(t.0) {
            init.push(OpSpec::Bind(t.0, t.1, t.2))
        } else {
            init
        }
    }
}

/// Everything the host lets into the sandbox.
pub open spec fn host_spec(host: HostSnapshot) -> Seq<OpSpec> {
    pass_through(texts(host.root_entries@), "/"@, root_deny_list()) + pass_through(
        texts(host.run_entries@),
        "/run/"@,
        run_deny_list(),
    ) + existing_ro(exposed_etc_paths(), host) + fixed_bindings(path_bindings(), host) + seq![
        OpSpec::DevBind("/dev"@, "/dev"@),
        OpSpec::Symlink("/run"@, "/var/run"@),
    ]
}

fn pass_through_exec(bwrap: &mut BwrapBuilder, names: &Vec<String>, parent: &str, deny: &Vec<String>)
    ensures
        final(bwrap)@ == old(bwrap)@ + pass_through(texts(names@), parent@, texts(deny@)),
        final(bwrap).wrapped() == old(bwrap).wrapped(),
{
    let ghost ns = texts(names@);
    let mut i: usize = 0;
    assert(ns.take(0).len() == 0);
    assert(old(bwrap)@ == old(bwrap)@ + Seq::<OpSpec>::empty());
    while i < names.len()
        invariant
            i <= names@.len(),
            ns == texts(names@),
            bwrap@ == old(bwrap)@ + pass_through(ns.take(i as int), parent@, texts(deny@)),
            bwrap.wrapped() == old(bwrap).wrapped(),
        decreases names@.len() - i,
    {
        assert(ns.take(i + 1).drop_last() == ns.take(i as int));
        assert(ns.take(i + 1).last() == names@[i as int]@);
        if !contains_text(deny, names[i].as_str()) {
            let mut p = parent.to_owned();
            p.append(names[i].as_str());
            bwrap.bind(p.as_str(), p.as_str());
        }
        i = i + 1;
    }
    assert(ns.take(i as int) == ns);
}

/// Lets host paths into the sandbox: `/` and `/run` entries not on their deny
/// lists, identity files, the fixed bindings, `/dev`, and `/var/run`.
pub fn setup_host_root_dirs(bwrap: &mut BwrapBuilder, host: &HostSnapshot)
    ensures
        final(bwrap)@ == old(bwrap)@ + host_spec(*host),
        final(bwrap).wrapped() == old(bwrap).wrapped(),
{
    let ghost start = bwrap@;
    let root_deny = root_deny_list_exec();
    pass_through_exec(bwrap, &host.root_entries, "/", &root_deny);
    let run_deny = vec!["flatpak".to_owned(), "host".to_owned()];
    assert(texts(run_deny@) =~= run_deny_list());
    pass_through_exec(bwrap, &host.run_entries, "/run/", &run_deny);
    let ghost s2 = bwrap@;
    let etc = vec!["/etc/passwd", "/etc/group", "/etc/shadow"];
    assert(strs(etc@) =~= exposed_etc_paths());
    let mut i: usize = 0;
    assert(exposed_etc_paths().take(0).len() == 0);
    while i < etc.len()
        invariant
            i <= etc@.len(),
            strs(etc@) == exposed_etc_paths(),
            bwrap@ == s2 + existing_ro(exposed_etc_paths().take(i as int), *host),
            bwrap.wrapped() == old(bwrap).wrapped(),
        decreases etc@.len() - i,
    {
        assert(exposed_etc_paths().take(i + 1).drop_last() == exposed_etc_paths().take(i as int));
        assert(exposed_etc_paths().take(i + 1).last() == etc@[i as int]@);
        if contains_text(&host.existing, etc[i]) {
            bwrap.ro_bind(etc[i], etc[i]);
        }
        i = i + 1;
    }
    assert(exposed_etc_paths().take(3) == exposed_etc_paths());
    let ghost s3 = bwrap@;
    let table = path_bindings_list();
    let mut j: usize = 0;
    assert(path_bindings().take(0).len() == 0);
    while j < table.len()
        invariant
            j <= table@.len(),
            table@.map_values(|t: (&str, &str, bool)| (t.0@, t.1@, t.2)) == path_bindings(),
            bwrap@ == s3 + fixed_bindings(path_bindings().take(j as int), *host),
            bwrap.wrapped() == old(bwrap).wrapped(),
        decreases table@.len() - j,
    {
        let (src, dst, writable) = table[j];
        assert(path_bindings().take(j + 1).drop_last() == path_bindings().take(j as int));
        assert(path_bindings().take(j + 1).last() == (src@, dst@, writable));
        if contains_text(&host.existing, src) {
            if writable {
                bwrap.bind(src, dst);
            } else {
                bwrap.ro_bind(src, dst);
            }
        }
        j = j + 1;
    }
    assert(path_bindings().take(6) == path_bindings());
    bwrap.dev_bind("/dev", "/dev");
    bwrap.symlink("/run", "/var/run");
    assert(bwrap@ =~= start + host_spec(*host));
}

/// The linker configuration that reads the per-implementation files of app
/// and runtime extensions.
pub open spec fn ld_so_conf_text() -> Seq<char> {
    "include /run/flatpak/ld.so.conf.d/app-*.conf\ninclude /app/etc/ld.so.conf\n/app/lib\ninclude /run/flatpak/ld.so.conf.d/runtime-*.conf\n"@
}

/// Places the linker configuration at `/etc/ld.so.conf`.
pub fn add_ld_so_conf(bwrap: &mut BwrapBuilder)
    ensures
        final(bwrap)@ == old(bwrap)@.push(OpSpec::VirtualFile("/etc/ld.so.conf"@, ld_so_conf_text())),
        final(bwrap).wrapped() == old(bwrap).wrapped(),
{
    bwrap.ro_bind_data(
        "/etc/ld.so.conf",
        "include /run/flatpak/ld.so.conf.d/app-*.conf\ninclude /app/etc/ld.so.conf\n/app/lib\ninclude /run/flatpak/ld.so.conf.d/runtime-*.conf\n",
    );
}

/// The default environment: each variable set to a value, or removed.
pub open spec fn default_env() -> Seq<(Seq<char>, Option<Seq<char>>)> {
    seq![
        ("FLATBOX_ENV"@, Some("1"@)),
        ("PATH"@, Some("/app/bin:/usr/bin"@)),
        ("LD_LIBRARY_PATH"@, None),
        ("LD_PRELOAD"@, None),
        ("LD_AUDIT"@, None),
        ("XDG_CONFIG_DIRS"@, Some("/app/etc/xdg:/etc/xdg"@)),
        ("XDG_DATA_DIRS"@, Some("/app/share:/usr/share"@)),
        ("SHELL"@, Some("/bin/sh"@)),
        ("TEMP"@, None),
        ("TEMPDIR"@, None),
        ("TMP"@, None),
        ("TMPDIR"@, None),
        ("container"@, None),
        ("TZDIR"@, None),
        ("PYTHONPATH"@, None),
        ("PYTHONPYCACHEPREFIX"@, None),
        ("PERLLIB"@, None),
        ("PERL5LIB"@, None),
        ("XCURSOR_PATH"@, None),
        ("GST_PLUGIN_PATH_1_0"@, None),
        ("GST_REGISTRY"@, None),
        ("GST_REGISTRY_1_0"@, None),
        ("GST_PLUGIN_PATH"@, None),
        ("GST_PLUGIN_SYSTEM_PATH"@, None),
        ("GST_PLUGIN_SCANNER"@, None),
        ("GST_PLUGIN_SCANNER_1_0"@, None),
        ("GST_PLUGIN_SYSTEM_PATH_1_0"@, None),
        ("GST_PRESET_PATH"@, None),
        ("GST_PTP_HELPER"@, None),
        ("GST_PTP_HELPER_1_0"@, None),
        ("GST_INSTALL_PLUGINS_HELPER"@, None),
        ("KRB5CCNAME"@, None),
        ("XKB_CONFIG_ROOT"@, None),
        ("GIO_EXTRA_MODULES"@, None),
        ("GDK_BACKEND"@, None),
        ("VK_ADD_DRIVER_FILES"@, None),
        ("VK_ADD_LAYER_PATH"@, None),
        ("VK_DRIVER_FILES"@, None),
        ("VK_ICD_FILENAMES"@, None),
        ("VK_LAYER_PATH"@, None),
        ("__EGL_EXTERNAL_PLATFORM_CONFIG_DIRS"@, None),
        ("__EGL_EXTERNAL_PLATFORM_CONFIG_FILENAMES"@, None),
        ("__EGL_VENDOR_LIBRARY_DIRS"@, None),
        ("__EGL_VENDOR_LIBRARY_FILENAMES"@, None),
    ]
}

pub open spec fn env_op(e: (Seq<char>, Option<Seq<char>>)) -> OpSpec {
    match e.1 {
        Some(v) => OpSpec::SetEnv(e.0, v),
        None => OpSpec::UnsetEnv(e.0),
    }
}

fn default_env_list() -> (r: Vec<(&'static str, Option<&'static str>)>)
    ensures
        r@.map_values(|e: (&str, Option<&str>)| (e.0@, match e.1 { Some(v) => Some(v@), None => None })) == default_env(),
{
    let r = vec![
        ("FLATBOX_ENV", Some("1")),
        ("PATH", Some("/app/bin:/usr/bin")),
        ("LD_LIBRARY_PATH", None),
        ("LD_PRELOAD", None),
        ("LD_AUDIT", None),
        ("XDG_CONFIG_DIRS", Some("/app/etc/xdg:/etc/xdg")),
        ("XDG_DATA_DIRS", Some("/app/share:/usr/share")),
        ("SHELL", Some("/bin/sh")),
        ("TEMP", None),
        ("TEMPDIR", None),
        ("TMP", None),
        ("TMPDIR", None),
        ("container", None),
        ("TZDIR", None),
        ("PYTHONPATH", None),
        ("PYTHONPYCACHEPREFIX", None),
        ("PERLLIB", None),
        ("PERL5LIB", None),
        ("XCURSOR_PATH", None),
        ("GST_PLUGIN_PATH_1_0", None),
        ("GST_REGISTRY", None),
        ("GST_REGISTRY_1_0", None),
        ("GST_PLUGIN_PATH", None),
        ("GST_PLUGIN_SYSTEM_PATH", None),
        ("GST_PLUGIN_SCANNER", None),
        ("GST_PLUGIN_SCANNER_1_0", None),
        ("GST_PLUGIN_SYSTEM_PATH_1_0", None),
        ("GST_PRESET_PATH", None),
        ("GST_PTP_HELPER", None),
        ("GST_PTP_HELPER_1_0", None),
        ("GST_INSTALL_PLUGINS_HELPER", None),
        ("KRB5CCNAME", None),
        ("XKB_CONFIG_ROOT", None),
        ("GIO_EXTRA_MODULES", None),
        ("GDK_BACKEND", None),
        ("VK_ADD_DRIVER_FILES", None),
        ("VK_ADD_LAYER_PATH", None),
        ("VK_DRIVER_FILES", None),
        ("VK_ICD_FILENAMES", None),
        ("VK_LAYER_PATH", None),
        ("__EGL_EXTERNAL_PLATFORM_CONFIG_DIRS", None),
        ("__EGL_EXTERNAL_PLATFORM_CONFIG_FILENAMES", None),
        ("__EGL_VENDOR_LIBRARY_DIRS", None),
        ("__EGL_VENDOR_LIBRARY_FILENAMES", None),
    ];
    assert(r@.map_values(|e: (&str, Option<&str>)| (e.0@, match e.1 { Some(v) => Some(v@), None => None })) =~= default_env());
    r
}

/// The per-application XDG directories under the user's home.
pub open spec fn xdg_ops(app: Option<Seq<char>>, home: Option<Seq<char>>) -> Seq<OpSpec> {
    match (app, home) {
        (Some(a), Some(h)) => {
            let d = join_spec(join_spec(join_spec(h, ".var"@), "app"@), a);
            seq![
                OpSpec::SetEnv("XDG_DATA_HOME"@, join_spec(d, "data"@)),
                OpSpec::SetEnv("XDG_CONFIG_HOME"@, join_spec(d, "config"@)),
                OpSpec::SetEnv("XDG_CACHE_HOME"@, join_spec(d, "cache"@)),
                OpSpec::SetEnv("XDG_STATE_HOME"@, join_spec(join_spec(d, ".local"@), "state"@)),
            ]
        },
        _ => Seq::empty(),
    }
}

/// The defaults, then the runtime's own variables in order, then the
/// per-application directories.
pub open spec fn env_spec(
    runtime_env: Seq<(Seq<char>, Seq<char>)>,
    app: Option<Seq<char>>,
    home: Option<Seq<char>>,
) -> Seq<OpSpec> {
    default_env().map_values(|e: (Seq<char>, Option<Seq<char>>)| env_op(e)) + runtime_env.map_values(
        |kv: (Seq<char>, Seq<char>)| OpSpec::SetEnv(kv.0, kv.1),
    ) + xdg_ops(app, home)
}

pub open spec fn env_entries(runtime_env: Option<&Group>) -> Seq<(Seq<char>, Seq<char>)> {
    match runtime_env {
        Some(g) => group_entries(*g),
        None => Seq::empty(),
    }
}

/// Sets up the sandbox environment.
pub fn setup_env(
    bwrap: &mut BwrapBuilder,
    runtime_env: Option<&Group>,
    app_id: Option<&str>,
    home: Option<&str>,
)
    ensures
        final(bwrap)@ == old(bwrap)@ + env_spec(
            env_entries(runtime_env),
            match app_id {
                Some(a) => Some(a@),
                None => None,
            },
            match home {
                Some(h) => Some(h@),
                None => None,
            },
        ),
        final(bwrap).wrapped() == old(bwrap).wrapped(),
{
    let table = default_env_list();
    let ghost dv = default_env().map_values(|e: (Seq<char>, Option<Seq<char>>)| env_op(e));
    let mut i: usize = 0;
    assert(dv.take(0).len() == 0);
    assert(old(bwrap)@ == old(bwrap)@ + dv.take(0));
    while i < table.len()
        invariant
            i <= table@.len(),
            table@.map_values(|e: (&str, Option<&str>)| (e.0@, match e.1 { Some(v) => Some(v@), None => None })) == default_env(),
            dv == default_env().map_values(|e: (Seq<char>, Option<Seq<char>>)| env_op(e)),
            bwrap@ == old(bwrap)@ + dv.take(i as int),
            bwrap.wrapped() == old(bwrap).wrapped(),
        decreases table@.len() - i,
    {
        let (k, v) = table[i];
        assert(default_env()[i as int] == (k@, match v { Some(x) => Some(x@), None => None::<Seq<char>> }));
        assert(dv.take(i + 1) =~= dv.take(i as int).push(dv[i as int]));
        match v {
            Some(x) => {
                bwrap.set_env(k, x);
            },
            None => {
                bwrap.unset_env(k);
            },
        }
        i = i + 1;
    }
    assert(dv.take(i as int) == dv);
    let ghost s1 = bwrap@;
    let ghost rv = env_entries(runtime_env).map_values(|kv: (Seq<char>, Seq<char>)| OpSpec::SetEnv(kv.0, kv.1));
    match runtime_env {
        Some(g) => {
            let n = group_len(g);
            let mut j: usize = 0;
            assert(rv.take(0).len() == 0);
            assert(s1 == s1 + rv.take(0));
            while j < n
                invariant
                    j <= n,
                    n == group_entries(*g).len(),
                    rv == group_entries(*g).map_values(|kv: (Seq<char>, Seq<char>)| OpSpec::SetEnv(kv.0, kv.1)),
                    bwrap@ == s1 + rv.take(j as int),
                    bwrap.wrapped() == old(bwrap).wrapped(),
                decreases n - j,
            {
                match group_at(g, j) {
                    Some((k, v)) => {
                        bwrap.set_env(k.as_str(), v.as_str());
                    },
                    None => {},
                }
                assert(rv.take(j + 1) =~= rv.take(j as int).push(rv[j as int]));
                j = j + 1;
            }
            assert(rv.take(n as int) == rv);
        },
        None => {
            assert(rv =~= Seq::<OpSpec>::empty());
            assert(bwrap@ =~= s1 + rv);
        },
    }
    let ghost s2 = bwrap@;
    match (app_id, home) {
        (Some(app), Some(h)) => {
            let d = join(join(join(h, ".var").as_str(), "app").as_str(), app);
            bwrap.set_env("XDG_DATA_HOME", join(d.as_str(), "data").as_str());
            bwrap.set_env("XDG_CONFIG_HOME", join(d.as_str(), "config").as_str());
            bwrap.set_env("XDG_CACHE_HOME", join(d.as_str(), "cache").as_str());
            bwrap.set_env("XDG_STATE_HOME", join(join(d.as_str(), ".local").as_str(), "state").as_str());
        },
        _ => {},
    }
    assert(bwrap@ =~= s2 + xdg_ops(
        match app_id {
            Some(a) => Some(a@),
            None => None,
        },
        match home {
            Some(h) => Some(h@),
            None => None,
        },
    ));
}

/// The deny lists hold: no entry of the host's `/` named `app`, `usr`, `run`,
/// `etc`, `var`, `bin`, `lib`, `lib32`, `lib64` or `sbin` is ever bound into
/// the sandbox at its own path.
pub proof fn lemma_root_deny_list(names: Seq<Seq<char>>, n: Seq<char>)
    requires
        root_deny_list().contains(n),
    ensures
        forall|i: int|
            0 <= i < pass_through(names, "/"@, root_deny_list()).len() ==> !(
            #[trigger] pass_through(names, "/"@, root_deny_list())[i] matches OpSpec::Bind(s, _, _)
                && s == "/"@ + n),
    decreases names.len(),
{
    reveal_strlit("/");
    if names.len() > 0 {
        lemma_root_deny_list(names.drop_last(), n);
        let init = pass_through(names.drop_last(), "/"@, root_deny_list());
        let last = names.last();
        if !root_deny_list().contains(last) {
            assert(last != n);
            assert forall|i: int| 0 <= i < pass_through(names, "/"@, root_deny_list()).len() implies !(
                #[trigger] pass_through(names, "/"@, root_deny_list())[i] matches OpSpec::Bind(s, _, _)
                    && s == "/"@ + n) by {
                if i == init.len() {
                    if "/"@ + last == "/"@ + n {
                        assert(last =~= ("/"@ + last).skip(1));
                        assert(n =~= ("/"@ + n).skip(1));
                    }
                } else {
                    assert(pass_through(names, "/"@, root_deny_list())[i] == init[i]);
                }
            }
        }
    }
}

/// The host path a bind of any kind reads from.
pub open spec fn bind_source(op: OpSpec) -> Option<Seq<char>> {
    match op {
        OpSpec::Bind(src, _, _) => Some(src),
        OpSpec::DevBind(src, _) => Some(src),
        _ => None,
    }
}

proof fn lemma_pass_through_shape(names: Seq<Seq<char>>, parent: Seq<char>, deny: Seq<Seq<char>>)
    ensures
        forall|i: int|
            0 <= i < pass_through(names, parent, deny).len() ==> exists|nm: Seq<char>|
                !deny.contains(nm) && #[trigger] pass_through(names, parent, deny)[i] == OpSpec::Bind(
                    parent + nm,
                    parent + nm,
                    true,
                ),
    decreases names.len(),
{
    if names.len() > 0 {
        lemma_pass_through_shape(names.drop_last(), parent, deny);
        let init = pass_through(names.drop_last(), parent, deny);
        assert forall|i: int| 0 <= i < pass_through(names, parent, deny).len() implies exists|nm: Seq<char>|
            !deny.contains(nm) && #[trigger] pass_through(names, parent, deny)[i] == OpSpec::Bind(parent + nm, parent + nm, true) by {
            if i < init.len() {
                assert(pass_through(names, parent, deny)[i] == init[i]);
            } else {
                assert(!deny.contains(names.last()));
            }
        }
    }
}

proof fn lemma_existing_ro_shape(paths: Seq<Seq<char>>, host: HostSnapshot)
    ensures
        forall|i: int|
            0 <= i < existing_ro(paths, host).len() ==> exists|j: int|
                0 <= j < paths.len() && #[trigger] existing_ro(paths, host)[i] == OpSpec::Bind(paths[j], paths[j], false),
    decreases paths.len(),
{
    if paths.len() > 0 {
        let init = paths.drop_last();
        lemma_existing_ro_shape(init, host);
        assert forall|i: int| 0 <= i < existing_ro(paths, host).len() implies exists|j: int|
            0 <= j < paths.len() && #[trigger] existing_ro(paths, host)[i] == OpSpec::Bind(paths[j], paths[j], false) by {
            if i < existing_ro(init, host).len() {
                assert(existing_ro(paths, host)[i] == existing_ro(init, host)[i]);
                let j = choose|j: int| 0 <= j < init.len() && existing_ro(init, host)[i] == OpSpec::Bind(init[j], init[j], false);
                assert(paths[j] == init[j]);
            } else {
                assert(existing_ro(paths, host)[i] == OpSpec::Bind(paths[paths.len() - 1], paths[paths.len() - 1], false));
            }
        }
    }
}

proof fn lemma_fixed_bindings_shape(table: Seq<(Seq<char>, Seq<char>, bool)>, host: HostSnapshot)
    ensures
        forall|i: int|
            0 <= i < fixed_bindings(table, host).len() ==> exists|j: int|
                0 <= j < table.len() && #[trigger] fixed_bindings(table, host)[i] == OpSpec::Bind(
                    table[j].0,
                    table[j].1,
                    table[j].2,
                ),
    decreases table.len(),
{
    if table.len() > 0 {
        let init = table.drop_last();
        lemma_fixed_bindings_shape(init, host);
        assert forall|i: int| 0 <= i < fixed_bindings(table, host).len() implies exists|j: int|
            0 <= j < table.len() && #[trigger] fixed_bindings(table, host)[i] == OpSpec::Bind(table[j].0, table[j].1, table[j].2) by {
            if i < fixed_bindings(init, host).len() {
                assert(fixed_bindings(table, host)[i] == fixed_bindings(init, host)[i]);
                let j = choose|j: int| 0 <= j < init.len() && fixed_bindings(init, host)[i] == OpSpec::Bind(init[j].0, init[j].1, init[j].2);
                assert(table[j] == init[j]);
            } else {
                let t = table[table.len() - 1];
                assert(fixed_bindings(table, host)[i] == OpSpec::Bind(t.0, t.1, t.2));
            }
        }
    }
}

proof fn lemma_deny_shape(n: Seq<char>)
    requires
        root_deny_list().contains(n),
    ensures
        3 <= n.len() <= 5,
        n.len() > 3 ==> n[3] != '/',
        n != "dev"@,
{
    reveal_strlit("app");
    reveal_strlit("usr");
    reveal_strlit("run");
    reveal_strlit("etc");
    reveal_strlit("var");
    reveal_strlit("bin");
    reveal_strlit("lib");
    reveal_strlit("lib32");
    reveal_strlit("lib64");
    reveal_strlit("sbin");
    reveal_strlit("dev");
    let k = choose|k: int| 0 <= k < root_deny_list().len() && root_deny_list()[k] == n;
    assert(root_deny_list() == seq!["app"@, "usr"@, "run"@, "etc"@, "var"@, "bin"@, "lib"@, "lib32"@, "lib64"@, "sbin"@]);
    if n == "dev"@ {
        assert(n[0] == 'd');
        assert(false);
    }
}

/// The deny list holds for everything the host lets in: no bind of any
/// kind reads from `/app`, `/usr`, `/run`, `/etc`, `/var`, `/bin`, `/lib`,
/// `/lib32`, `/lib64` or `/sbin`.
pub proof fn lemma_host_never_binds_denied(host: HostSnapshot, n: Seq<char>)
    requires
        root_deny_list().contains(n),
    ensures
        forall|i: int| 0 <= i < host_spec(host).len() ==> bind_source(#[trigger] host_spec(host)[i]) != Some("/"@ + n),
{
    reveal_strlit("/");
    reveal_strlit("/run/");
    reveal_strlit("/dev");
    reveal_strlit("/etc/passwd");
    reveal_strlit("/etc/group");
    reveal_strlit("/etc/shadow");
    reveal_strlit("/usr/share/fonts");
    reveal_strlit("/usr/lib/fontconfig/cache");
    reveal_strlit("/usr/share/icons");
    reveal_strlit("/etc/machine-id");
    reveal_strlit("/var/lib/dbus/machine-id");
    reveal_strlit("dev");
    lemma_deny_shape(n);
    let target = "/"@ + n;
    let roots = pass_through(texts(host.root_entries@), "/"@, root_deny_list());
    let runs = pass_through(texts(host.run_entries@), "/run/"@, run_deny_list());
    let etc = existing_ro(exposed_etc_paths(), host);
    let fixed = fixed_bindings(path_bindings(), host);
    let tail = seq![OpSpec::DevBind("/dev"@, "/dev"@), OpSpec::Symlink("/run"@, "/var/run"@)];
    lemma_pass_through_shape(texts(host.root_entries@), "/"@, root_deny_list());
    lemma_pass_through_shape(texts(host.run_entries@), "/run/"@, run_deny_list());
    lemma_existing_ro_shape(exposed_etc_paths(), host);
    lemma_fixed_bindings_shape(path_bindings(), host);
    let all = host_spec(host);
    assert(all == roots + runs + etc + fixed + tail);
    assert forall|i: int| 0 <= i < all.len() implies bind_source(#[trigger] all[i]) != Some(target) by {
        if i < roots.len() {
            assert(all[i] == roots[i]);
            let nm = choose|nm: Seq<char>| !root_deny_list().contains(nm) && roots[i] == OpSpec::Bind("/"@ + nm, "/"@ + nm, true);
            if "/"@ + nm == target {
                assert(nm =~= ("/"@ + nm).skip(1));
                assert(n =~= target.skip(1));
            }
        } else if i < roots.len() + runs.len() {
            let k = i - roots.len();
            assert(all[i] == runs[k]);
            let nm = choose|nm: Seq<char>| !run_deny_list().contains(nm) && runs[k] == OpSpec::Bind("/run/"@ + nm, "/run/"@ + nm, true);
            let src = "/run/"@ + nm;
            if src == target {
                assert("/run/"@.len() == 5);
                assert(src.len() >= 5);
                assert(src[4] == '/');
                assert(n.len() >= 4);
                assert(target[4] == n[3]);
            }
        } else if i < roots.len() + runs.len() + etc.len() {
            let k = i - roots.len() - runs.len();
            assert(all[i] == etc[k]);
            let j = choose|j: int| 0 <= j < exposed_etc_paths().len() && etc[k] == OpSpec::Bind(exposed_etc_paths()[j], exposed_etc_paths()[j], false);
            assert(exposed_etc_paths()[j].len() >= 10);
        } else if i < roots.len() + runs.len() + etc.len() + fixed.len() {
            let k = i - roots.len() - runs.len() - etc.len();
            assert(all[i] == fixed[k]);
            let j = choose|j: int| 0 <= j < path_bindings().len() && fixed[k] == OpSpec::Bind(path_bindings()[j].0, path_bindings()[j].1, path_bindings()[j].2);
            assert(path_bindings()[j].0.len() == 1 || path_bindings()[j].0.len() >= 14);
        } else {
            let k = i - roots.len() - runs.len() - etc.len() - fixed.len();
            assert(all[i] == tail[k]);
            if k == 0 && "/dev"@ == target {
                assert(n =~= target.skip(1));
                assert("dev"@ =~= "/dev"@.skip(1));
            }
        }
    }
}

} // verus!
