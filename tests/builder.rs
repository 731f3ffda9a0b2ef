use flatbox::bwrap::{BwrapBuilder, MountOp};

fn s(v: &str) -> String {
    v.to_string()
}

#[test]
fn builder_keeps_call_order() {
    let mut b = BwrapBuilder::new();
    b.tmpfs("/usr/ext");
    b.bind("/home", "/home");
    b.ro_bind("/a", "/b");
    b.symlink("/run", "/var/run");
    b.set_env("K", "V");
    b.unset_env("LD_PRELOAD");
    b.dev_bind("/dev", "/dev");
    b.ro_bind_data("/etc/x", "data");
    assert_eq!(
        b.operations(),
        &vec![
            MountOp::Tmpfs { path: s("/usr/ext") },
            MountOp::Bind { source: s("/home"), dest: s("/home"), writable: true },
            MountOp::Bind { source: s("/a"), dest: s("/b"), writable: false },
            MountOp::Symlink { target: s("/run"), link: s("/var/run") },
            MountOp::SetEnv { key: s("K"), value: s("V") },
            MountOp::UnsetEnv { key: s("LD_PRELOAD") },
            MountOp::DevBind { source: s("/dev"), dest: s("/dev") },
            MountOp::VirtualFile { path: s("/etc/x"), contents: s("data") },
        ]
    );
    assert_eq!(b.virtual_files(), vec![s("data")]);
}

#[test]
fn finish_renders_bwrap_arguments() {
    let mut b = BwrapBuilder::new();
    b.tmpfs("/t");
    b.ro_bind_data("/.flatpak-info", "");
    b.bind("/x", "/y");
    b.ro_bind_data("/etc/ld.so.conf", "abc");
    b.unset_env("TMP");
    let argv = b.finish(&vec![s("/tmp/d/tempfile-0"), s("/tmp/d/tempfile-1")]);
    let expected: Vec<String> = [
        "bwrap", "--tmpfs", "/t", "--ro-bind", "/tmp/d/tempfile-0", "/.flatpak-info", "--bind", "/x", "/y",
        "--ro-bind", "/tmp/d/tempfile-1", "/etc/ld.so.conf", "--unsetenv", "TMP",
    ]
    .iter()
    .map(|x| x.to_string())
    .collect();
    assert_eq!(argv, expected);
}

#[test]
fn unconfined_wrap_goes_through_aa_exec() {
    let mut b = BwrapBuilder::new();
    b.symlink("/usr/bin", "bin");
    let b = b.wrap_apparmor_unconfined();
    let argv = b.finish(&vec![]);
    let expected: Vec<String> = ["aa-exec", "-p", "unconfined", "bwrap", "--symlink", "/usr/bin", "bin"]
        .iter()
        .map(|x| x.to_string())
        .collect();
    assert_eq!(argv, expected);
}

#[test]
fn builder_calls_chain() {
    let mut b = BwrapBuilder::new();
    b.tmpfs("/t").bind("/x", "/y").unset_env("TMP");
    assert_eq!(b.operations().len(), 3);
    assert_eq!(b.operations()[1], MountOp::Bind { source: s("/x"), dest: s("/y"), writable: true });
}
