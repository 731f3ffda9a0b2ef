use flatbox::bwrap::MountOp;
use flatbox::compose::{
    app_runtime, compose, contains_substring, install_roots, merge_dir_names, select_target, unsupported_enable_if, wants_unconfined,
    AppImage, SetupError, Target,
};
use flatbox::extension::ExtensionError;
use flatbox::metadata::{parse_keyfile, KeyfileError};
use flatbox::compose::{setup_app_extensions, setup_runtime_extensions};
use flatbox::policy::{host_probe_paths, setup_env, setup_host_root_dirs};
use flatbox::snapshot::{EtcEntry, HostSnapshot};
use flatbox::bwrap::BwrapBuilder;

fn v(items: &[&str]) -> Vec<String> {
    items.iter().map(|x| x.to_string()).collect()
}

fn s(x: &str) -> String {
    x.to_string()
}

const RF: &str = "/inst/runtime/org.test.Platform/x86_64/1/active/files";

fn snapshot() -> HostSnapshot {
    HostSnapshot {
        existing: vec![format!("{RF}/bin"), format!("{RF}/lib"), s("/etc/passwd"), s("/usr/share/fonts")],
        listings: vec![],
        gl_driver: None,
        root_entries: v(&["home", "usr", "etc", "bin", "opt", "tmp", "app", "run", "var", "lib64"]),
        run_entries: v(&["user", "flatpak", "host", "dbus"]),
        runtime_etc: vec![
            EtcEntry { name: s("hosts"), link_target: None },
            EtcEntry { name: s("localtime"), link_target: Some(s("../usr/share/zoneinfo/UTC")) },
        ],
        home: Some(s("/home/u")),
    }
}

const RUNTIME_META: &str = "[Runtime]\nname=org.test.Platform\nruntime=org.test.Platform/x86_64/1\n\n[Environment]\nFOO=bar\nPATH=/custom\n";

#[test]
fn end_to_end_runtime_only() {
    let meta = parse_keyfile(RUNTIME_META).unwrap();
    let b = compose(RF, &meta, None, &vec![], &v(&["/inst"]), &snapshot()).unwrap();
    let ops = b.operations();
    let bind = |a: &str, d: &str, w: bool| MountOp::Bind { source: s(a), dest: s(d), writable: w };
    let expected_head = vec![
        bind(RF, "/usr", false),
        bind(&format!("{RF}/etc/hosts"), "etc/hosts", false),
        MountOp::Symlink { target: s("../usr/share/zoneinfo/UTC"), link: s("etc/localtime") },
        MountOp::Symlink { target: s("/usr/bin"), link: s("bin") },
        MountOp::Symlink { target: s("/usr/lib"), link: s("lib") },
        MountOp::VirtualFile { path: s("/.flatpak-info"), contents: s("") },
        bind("/home", "/home", true),
        bind("/opt", "/opt", true),
        bind("/tmp", "/tmp", true),
        bind("/run/user", "/run/user", true),
        bind("/run/dbus", "/run/dbus", true),
        bind("/etc/passwd", "/etc/passwd", false),
        bind("/usr/share/fonts", "/run/host/fonts", false),
        MountOp::DevBind { source: s("/dev"), dest: s("/dev") },
        MountOp::Symlink { target: s("/run"), link: s("/var/run") },
        MountOp::VirtualFile {
            path: s("/etc/ld.so.conf"),
            contents: s("include /run/flatpak/ld.so.conf.d/app-*.conf\ninclude /app/etc/ld.so.conf\n/app/lib\ninclude /run/flatpak/ld.so.conf.d/runtime-*.conf\n"),
        },
    ];
    assert_eq!(&ops[..16], &expected_head[..]);
    assert_eq!(ops.len(), 16 + 44 + 2);
    assert_eq!(ops[16], MountOp::SetEnv { key: s("FLATBOX_ENV"), value: s("1") });
    assert_eq!(ops[17], MountOp::SetEnv { key: s("PATH"), value: s("/app/bin:/usr/bin") });
    assert_eq!(ops[18], MountOp::UnsetEnv { key: s("LD_LIBRARY_PATH") });
    assert_eq!(ops[16 + 43], MountOp::UnsetEnv { key: s("__EGL_VENDOR_LIBRARY_FILENAMES") });
    assert_eq!(ops[60], MountOp::SetEnv { key: s("FOO"), value: s("bar") });
    assert_eq!(ops[61], MountOp::SetEnv { key: s("PATH"), value: s("/custom") });
}

#[test]
fn composition_is_repeatable() {
    let meta = parse_keyfile(RUNTIME_META).unwrap();
    let h = snapshot();
    let a = compose(RF, &meta, None, &vec![], &v(&["/inst"]), &h).unwrap();
    let b = compose(RF, &meta, None, &vec![], &v(&["/inst"]), &h).unwrap();
    assert_eq!(a.operations(), b.operations());
    let argv_a = a.finish(&v(&["/tmp/one/tempfile-0", "/tmp/one/tempfile-1"]));
    let argv_b = b.finish(&v(&["/tmp/two/tempfile-0", "/tmp/two/tempfile-1"]));
    assert_eq!(argv_a.len(), argv_b.len());
    let differing: Vec<usize> = (0..argv_a.len()).filter(|&i| argv_a[i] != argv_b[i]).collect();
    assert_eq!(differing.len(), 2);
    for i in differing {
        assert!(argv_a[i].starts_with("/tmp/one/") && argv_b[i].starts_with("/tmp/two/"));
    }
}

#[test]
fn app_gets_its_tree_extensions_and_xdg_dirs() {
    let meta = parse_keyfile(RUNTIME_META).unwrap();
    let app_meta = parse_keyfile(
        "[Application]\nname=org.example.App\nruntime=org.test.Platform/x86_64/1\n\n[Extension org.example.App.Plugin]\ndirectory=plugins\n",
    )
    .unwrap();
    let app = AppImage { id: s("org.example.App"), files: s("/inst/app/org.example.App/current/active/files"), metadata: app_meta };
    let mut h = snapshot();
    h.existing.push(s("/inst/runtime/org.example.App.Plugin.foo/x86_64/1/active/files"));
    let b = compose(RF, &meta, Some(&app), &v(&["org.example.App.Plugin.foo"]), &v(&["/inst"]), &h).unwrap();
    let ops = b.operations();
    assert_eq!(ops[1], MountOp::Bind { source: s("/inst/app/org.example.App/current/active/files"), dest: s("/app"), writable: false });
    assert!(ops.contains(&MountOp::Tmpfs { path: s("/app/plugins") }));
    assert!(ops.contains(&MountOp::Bind {
        source: s("/inst/runtime/org.example.App.Plugin.foo/x86_64/1/active/files"),
        dest: s("/app/plugins/foo"),
        writable: false
    }));
    let ext_at = ops.iter().position(|o| *o == MountOp::Tmpfs { path: s("/app/plugins") }).unwrap();
    let host_at = ops.iter().position(|o| *o == MountOp::Bind { source: s("/home"), dest: s("/home"), writable: true }).unwrap();
    assert!(ext_at < host_at);
    let n = ops.len();
    assert_eq!(ops[n - 4], MountOp::SetEnv { key: s("XDG_DATA_HOME"), value: s("/home/u/.var/app/org.example.App/data") });
    assert_eq!(ops[n - 3], MountOp::SetEnv { key: s("XDG_CONFIG_HOME"), value: s("/home/u/.var/app/org.example.App/config") });
    assert_eq!(ops[n - 2], MountOp::SetEnv { key: s("XDG_CACHE_HOME"), value: s("/home/u/.var/app/org.example.App/cache") });
    assert_eq!(ops[n - 1], MountOp::SetEnv { key: s("XDG_STATE_HOME"), value: s("/home/u/.var/app/org.example.App/.local/state") });
}

#[test]
fn runtime_id_without_version_is_refused() {
    let meta = parse_keyfile("[Runtime]\nruntime=org.test.Platform/x86_64\n").unwrap();
    assert_eq!(compose(RF, &meta, None, &vec![], &vec![], &snapshot()).err(), Some(SetupError::MissingVersion));
    let meta = parse_keyfile("[Runtime]\nruntime=org.test.Platform\n").unwrap();
    assert_eq!(compose(RF, &meta, None, &vec![], &vec![], &snapshot()).err(), Some(SetupError::MissingArch));
    let meta = parse_keyfile("[Runtime]\nname=x\n").unwrap();
    assert_eq!(compose(RF, &meta, None, &vec![], &vec![], &snapshot()).err(), Some(SetupError::MissingRuntimeSpec));
}

#[test]
fn bad_extension_names_the_extension() {
    let meta = parse_keyfile("[Runtime]\nruntime=org.test.Platform/x86_64/1\n[Extension org.broken]\nversion=1\n").unwrap();
    assert_eq!(
        compose(RF, &meta, None, &vec![], &vec![], &snapshot()).err(),
        Some(SetupError::Extension { name: s("org.broken"), error: ExtensionError::MissingDirectory })
    );
}

#[test]
fn target_selection() {
    let a = s("org.example.App");
    let r = s("org.test.Platform/x86_64/1");
    assert_eq!(select_target(Some(&a), None), Ok(Target::App(a.clone())));
    assert_eq!(select_target(None, Some(&r)), Ok(Target::Runtime(r.clone())));
    assert_eq!(select_target(Some(&a), Some(&r)), Err(SetupError::AppAndRuntime));
    assert_eq!(select_target(None, None), Err(SetupError::NoAppOrRuntime));
}

#[test]
fn app_runtime_is_read_from_metadata() {
    let meta = parse_keyfile("[Application]\nruntime=org.test.Platform/x86_64/1\n").unwrap();
    assert_eq!(app_runtime(&meta), Ok(s("org.test.Platform/x86_64/1")));
    let meta = parse_keyfile("[Application]\nname=x\n").unwrap();
    assert_eq!(app_runtime(&meta), Err(SetupError::MissingAppRuntime));
}

#[test]
fn install_roots_order() {
    assert_eq!(install_roots(Some("/home/u/.local/share/flatpak"), &v(&["/x"])), v(&["/var/lib/flatpak", "/home/u/.local/share/flatpak", "/x"]));
    assert_eq!(install_roots(None, &vec![]), v(&["/var/lib/flatpak"]));
}

#[test]
fn unconfined_only_when_asked_and_present() {
    assert!(wants_unconfined(true, Some("foo (enforce)\nunconfined (unconfined)\n")));
    assert!(!wants_unconfined(false, Some("unconfined (unconfined)")));
    assert!(!wants_unconfined(true, Some("foo (enforce)")));
    assert!(!wants_unconfined(true, None));
    assert!(contains_substring("abc", ""));
    assert!(!contains_substring("", "a"));
}

#[test]
fn keyfile_groups_and_errors() {
    let meta = parse_keyfile("# comment\n[A]\nk=v=w\nk2=\n\n[B]\nx=1\n[A]\nk=z\n").unwrap();
    assert_eq!(meta.len(), 2);
    assert_eq!(meta.get_index(0).unwrap().0, "A");
    assert_eq!(meta["A"].len(), 1);
    assert_eq!(meta["A"]["k"], "z");
    assert_eq!(meta["B"]["x"], "1");
    assert_eq!(parse_keyfile("k=v\n").err(), Some(KeyfileError::EntryOutsideGroup { line: 0 }));
    assert_eq!(parse_keyfile("[A]\njunk\n").err(), Some(KeyfileError::InvalidLine { line: 1 }));
}

#[test]
fn keyfile_values_keep_equals_signs() {
    let meta = parse_keyfile("[A]\nk=v=w\nk2=\n").unwrap();
    assert_eq!(meta["A"]["k"], "v=w");
    assert_eq!(meta["A"]["k2"], "");
}

#[test]
fn host_deny_lists_hold() {
    let mut b = BwrapBuilder::new();
    let mut h = snapshot();
    h.root_entries = v(&["app", "usr", "run", "etc", "var", "bin", "lib", "lib32", "lib64", "sbin", "srv"]);
    h.run_entries = v(&["flatpak", "host"]);
    h.existing = vec![];
    setup_host_root_dirs(&mut b, &h);
    assert_eq!(
        b.operations(),
        &vec![
            MountOp::Bind { source: s("/srv"), dest: s("/srv"), writable: true },
            MountOp::DevBind { source: s("/dev"), dest: s("/dev") },
            MountOp::Symlink { target: s("/run"), link: s("/var/run") },
        ]
    );
}

#[test]
fn host_root_is_exposed_when_present() {
    let mut b = BwrapBuilder::new();
    let mut h = snapshot();
    h.root_entries = vec![];
    h.run_entries = vec![];
    h.existing = v(&["/", "/etc/machine-id"]);
    setup_host_root_dirs(&mut b, &h);
    assert_eq!(b.operations()[0], MountOp::Bind { source: s("/"), dest: s("/run/host/root"), writable: true });
    assert_eq!(b.operations()[1], MountOp::Bind { source: s("/etc/machine-id"), dest: s("/etc/machine-id"), writable: false });
}

#[test]
fn env_without_home_has_no_xdg_dirs() {
    let mut b = BwrapBuilder::new();
    setup_env(&mut b, None, Some("org.example.App"), None);
    assert_eq!(b.operations().len(), 44);
}

#[test]
fn probe_paths_list() {
    let p = host_probe_paths("/rt");
    assert_eq!(p[0], "/rt/bin");
    assert_eq!(p[4], "/rt/sbin");
    assert_eq!(p[5], "/etc/passwd");
    assert_eq!(p.len(), 5 + 3 + 6);
    assert_eq!(p[8], "/");
}

#[test]
fn unknown_predicates_are_reported() {
    let meta = parse_keyfile(
        "[Runtime]\nruntime=a/b/c\n[Extension org.gl]\nenable-if=active-gl-driver\n[Extension org.x]\nenable-if=have-intel-gpu\nmerge-dirs=vulkan/icd.d;glvnd\n",
    )
    .unwrap();
    assert_eq!(unsupported_enable_if(&meta), vec![(s("org.x"), s("have-intel-gpu"))]);
    assert_eq!(merge_dir_names(&meta), v(&["vulkan/icd.d", "glvnd"]));
}

#[test]
fn app_extension_falls_back_to_runtime_version() {
    let app_meta = parse_keyfile(
        "[Application]\nruntime=org.test.Platform/x86_64/23.08\n[Extension org.p]\ndirectory=p\n",
    )
    .unwrap();
    let mut h = snapshot();
    h.existing = v(&[
        "/inst/runtime/org.p.x/x86_64/23.08/active/files",
        "/inst/runtime/org.p.y/x86_64/master/active/files",
    ]);
    let mut b = BwrapBuilder::new();
    let r = setup_app_extensions(&mut b, &app_meta, &v(&["org.p.x", "org.p.y"]), &v(&["/inst"]), &h);
    assert_eq!(r, Ok(()));
    assert_eq!(
        b.operations(),
        &vec![
            MountOp::Tmpfs { path: s("/app/p") },
            MountOp::Bind { source: s("/inst/runtime/org.p.x/x86_64/23.08/active/files"), dest: s("/app/p/x"), writable: false },
        ]
    );
}

#[test]
fn id_errors_leave_the_builder_unchanged() {
    let h = snapshot();
    let mut b = BwrapBuilder::new();
    b.tmpfs("/keep");
    let meta = parse_keyfile("[Application]\nruntime=org.test.Platform/x86_64\n[Extension org.p]\ndirectory=p\n").unwrap();
    assert_eq!(setup_app_extensions(&mut b, &meta, &vec![], &vec![], &h), Err(SetupError::MissingVersion));
    let meta = parse_keyfile("[Runtime]\nname=x\n[Extension org.p]\ndirectory=p\n").unwrap();
    assert_eq!(setup_runtime_extensions(&mut b, &meta, &vec![], &vec![], &h), Err(SetupError::MissingRuntimeSpec));
    assert_eq!(b.operations(), &vec![MountOp::Tmpfs { path: s("/keep") }]);
}

#[test]
fn failing_extension_keeps_earlier_ones() {
    let h = snapshot();
    let meta = parse_keyfile("[Runtime]\nruntime=a/x86_64/1\n[Extension org.ok]\ndirectory=ok\n[Extension org.bad]\nversion=1\n[Extension org.late]\ndirectory=late\n").unwrap();
    let mut b = BwrapBuilder::new();
    assert_eq!(
        setup_runtime_extensions(&mut b, &meta, &vec![], &vec![], &h),
        Err(SetupError::Extension { name: s("org.bad"), error: ExtensionError::MissingDirectory })
    );
    assert_eq!(b.operations(), &vec![MountOp::Tmpfs { path: s("/usr/ok") }]);
}
