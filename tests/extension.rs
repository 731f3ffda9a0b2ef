use flatbox::bwrap::{BwrapBuilder, MountOp};
use flatbox::extension::{extension_enabled, gl_driver_tag, replace_dots, setup_extension, ExtensionError};
use flatbox::metadata::{parse_keyfile, Group};
use flatbox::snapshot::{DirListing, HostSnapshot};

fn v(items: &[&str]) -> Vec<String> {
    items.iter().map(|x| x.to_string()).collect()
}

fn s(x: &str) -> String {
    x.to_string()
}

fn host(existing: &[&str], listings: Vec<DirListing>, gl: Option<&str>) -> HostSnapshot {
    HostSnapshot {
        existing: v(existing),
        listings,
        gl_driver: gl.map(|x| x.to_string()),
        root_entries: vec![],
        run_entries: vec![],
        runtime_etc: vec![],
        home: None,
    }
}

fn decl(text: &str) -> Group {
    let meta = parse_keyfile(text).unwrap();
    meta.get_index(0).unwrap().1.clone()
}

fn run(decl: &Group, name: &str, avail: &[&str], h: &HostSnapshot) -> (Result<(), ExtensionError>, Vec<MountOp>) {
    let mut b = BwrapBuilder::new();
    let r = setup_extension(decl, &mut b, name, "x86_64", "23.08", &v(avail), &v(&["/inst"]), "/usr", "runtime", h);
    (r, b.operations().clone())
}

#[test]
fn versions_are_tried_in_declared_order() {
    let d = decl("[Extension org.test.Ext]\ndirectory=ext\nversions=2;1\n");
    let h = host(
        &["/inst/runtime/org.test.Ext.impl/x86_64/1/active/files", "/inst/runtime/org.test.Ext.impl/x86_64/2/active/files"],
        vec![],
        None,
    );
    let (r, ops) = run(&d, "org.test.Ext", &["org.test.Ext.impl"], &h);
    assert_eq!(r, Ok(()));
    assert_eq!(
        ops,
        vec![
            MountOp::Tmpfs { path: s("/usr/ext") },
            MountOp::Bind {
                source: s("/inst/runtime/org.test.Ext.impl/x86_64/2/active/files"),
                dest: s("/usr/ext/impl"),
                writable: false
            },
        ]
    );
}

#[test]
fn later_version_used_when_earlier_is_missing() {
    let d = decl("[Extension org.test.Ext]\ndirectory=ext\nversions=2;1\n");
    let h = host(&["/inst/runtime/org.test.Ext.impl/x86_64/1/active/files"], vec![], None);
    let (_, ops) = run(&d, "org.test.Ext", &["org.test.Ext.impl", "org.other.Thing"], &h);
    assert_eq!(ops.len(), 2);
    assert_eq!(
        ops[1],
        MountOp::Bind { source: s("/inst/runtime/org.test.Ext.impl/x86_64/1/active/files"), dest: s("/usr/ext/impl"), writable: false }
    );
}

#[test]
fn runtime_version_is_the_fallback() {
    let d = decl("[Extension org.test.Ext]\ndirectory=ext\n");
    let h = host(&["/inst/runtime/org.test.Ext.impl/x86_64/23.08/active/files"], vec![], None);
    let (_, ops) = run(&d, "org.test.Ext", &["org.test.Ext.impl"], &h);
    assert_eq!(ops.len(), 2);
}

#[test]
fn gl_driver_selects_matching_nvidia_only() {
    let d = decl("[Extension org.gl]\ndirectory=lib/gl\nversion=1.4\nenable-if=active-gl-driver\n");
    let h = host(
        &[
            "/inst/runtime/org.gl.default/x86_64/1.4/active/files",
            "/inst/runtime/org.gl.nvidia-550-100/x86_64/1.4/active/files",
            "/inst/runtime/org.gl.nvidia-470-1/x86_64/1.4/active/files",
            "/inst/runtime/org.gl.mesa/x86_64/1.4/active/files",
        ],
        vec![],
        Some("550.100\n"),
    );
    let (_, ops) = run(&d, "org.gl", &["org.gl.default", "org.gl.nvidia-470-1", "org.gl.nvidia-550-100", "org.gl.mesa"], &h);
    let dests: Vec<String> = ops
        .iter()
        .filter_map(|o| match o {
            MountOp::Bind { dest, .. } => Some(dest.clone()),
            _ => None,
        })
        .collect();
    assert_eq!(dests, v(&["/usr/lib/gl/default", "/usr/lib/gl/nvidia-550-100"]));
}

#[test]
fn driver_tag_trims_and_dashes() {
    assert_eq!(gl_driver_tag("  550.100\n"), s("550-100"));
    assert_eq!(replace_dots("1.2.3"), s("1-2-3"));
}

#[test]
fn enablement_rules() {
    let gl = s("active-gl-driver");
    let tag = s("550-100");
    assert!(extension_enabled(None, "anything", None));
    assert!(extension_enabled(Some(&gl), "host", None));
    assert!(extension_enabled(Some(&gl), "default", None));
    assert!(extension_enabled(Some(&gl), "nvidia-550-100", Some(&tag)));
    assert!(!extension_enabled(Some(&gl), "nvidia-550-101", Some(&tag)));
    assert!(!extension_enabled(Some(&gl), "nvidia-550-100", None));
    let other = s("on-xdg-desktop");
    assert!(!extension_enabled(Some(&other), "default", None));
}

#[test]
fn unknown_enable_if_disables_the_extension() {
    let d = decl("[Extension org.x]\ndirectory=x\nenable-if=have-intel-gpu\n");
    let h = host(&["/inst/runtime/org.x.default/x86_64/23.08/active/files"], vec![], None);
    let (r, ops) = run(&d, "org.x", &["org.x.default"], &h);
    assert_eq!(r, Ok(()));
    assert_eq!(ops, vec![MountOp::Tmpfs { path: s("/usr/x") }]);
}

#[test]
fn merge_dirs_first_implementation_wins() {
    let d = decl("[Extension org.test.GL]\ndirectory=GL\nmerge-dirs=lib\n");
    let a = "/inst/runtime/org.test.GL.a/x86_64/23.08/active/files";
    let b = "/inst/runtime/org.test.GL.b/x86_64/23.08/active/files";
    let h = host(
        &[a, b],
        vec![
            DirListing { path: format!("{a}/lib"), files: v(&["foo.so", "a.so"]) },
            DirListing { path: format!("{b}/lib"), files: v(&["foo.so", "b.so"]) },
        ],
        None,
    );
    let (r, ops) = run(&d, "org.test.GL", &["org.test.GL.a", "org.test.GL.b"], &h);
    assert_eq!(r, Ok(()));
    assert_eq!(
        ops,
        vec![
            MountOp::Tmpfs { path: s("/usr/GL") },
            MountOp::Bind { source: s(a), dest: s("/usr/GL/a"), writable: false },
            MountOp::Bind { source: s(b), dest: s("/usr/GL/b"), writable: false },
            MountOp::Symlink { target: s("/usr/GL/a/lib/foo.so"), link: s("/usr/GL/lib/foo.so") },
            MountOp::Symlink { target: s("/usr/GL/a/lib/a.so"), link: s("/usr/GL/lib/a.so") },
            MountOp::Symlink { target: s("/usr/GL/b/lib/b.so"), link: s("/usr/GL/lib/b.so") },
        ]
    );
    let links = ops.iter().filter(|o| matches!(o, MountOp::Symlink { link, .. } if link == "/usr/GL/lib/foo.so")).count();
    assert_eq!(links, 1);
}

#[test]
fn ld_path_writes_one_conf_per_mount() {
    let d = decl("[Extension org.test.GL]\ndirectory=GL\nadd-ld-path=lib\n");
    let a = "/inst/runtime/org.test.GL.a/x86_64/23.08/active/files";
    let h = host(&[a], vec![], None);
    let (_, ops) = run(&d, "org.test.GL", &["org.test.GL.a"], &h);
    assert_eq!(
        ops[2],
        MountOp::VirtualFile {
            path: s("/run/flatpak/ld.so.conf.d/runtime-org.test.GL.a.conf"),
            contents: s("/usr/GL/a/lib\n")
        }
    );
}

#[test]
fn missing_directory_is_an_error() {
    let d = decl("[Extension org.x]\nversion=1\n");
    let h = host(&[], vec![], None);
    let (r, ops) = run(&d, "org.x", &[], &h);
    assert_eq!(r, Err(ExtensionError::MissingDirectory));
    assert!(ops.is_empty());
}

#[test]
fn absolute_directory_is_an_error() {
    let h = host(&[], vec![], None);
    let (r, _) = run(&decl("[Extension org.x]\ndirectory=/etc\n"), "org.x", &[], &h);
    assert_eq!(r, Err(ExtensionError::AbsolutePath));
    let (r, _) = run(&decl("[Extension org.x]\ndirectory=x\nmerge-dirs=lib;/abs\n"), "org.x", &[], &h);
    assert_eq!(r, Err(ExtensionError::AbsolutePath));
}
