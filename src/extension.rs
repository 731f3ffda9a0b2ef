//! Resolution of one extension declaration into sandbox operations: which
//! implementations are enabled, which installed version each one uses, and
//! the binds, merged-directory symlinks and linker configuration that make
//! them visible under the extension's mount point.

use crate::bwrap::{BwrapBuilder, OpSpec};
use crate::install::{find_install_path, install_lookup};
use crate::metadata::{group_entries, group_get, lookup, Group};
use crate::snapshot::HostSnapshot;
use crate::text::{contains_text, join, join_spec, same_text, split_on, split_spec, strip_prefix, texts};
use vstd::prelude::*;

verus! {

/// The characters with the Unicode `White_Space` property.
pub open spec fn is_white_space(c: char) -> bool {
    let u = c as u32;
    (0x9 <= u <= 0xd) || u == 0x20 || u == 0x85 || u == 0xa0 || u == 0x1680 || (0x2000 <= u <= 0x200a)
        || u == 0x2028 || u == 0x2029 || u == 0x202f || u == 0x205f || u == 0x3000
}

/// `s` without its leading white space.
pub open spec fn trim_start_spec(s: Seq<char>) -> Seq<char>
    decreases s.len(),
{
    if s.len() > 0 && is_white_space(s[0]) {
        trim_start_spec(s.skip(1))
    } else {
        s
    }
}

/// `s` without its trailing white space.
pub open spec fn trim_end_spec(s: Seq<char>) -> Seq<char>
    decreases s.len(),
{
    if s.len() > 0 && is_white_space(s.last()) {
        trim_end_spec(s.drop_last())
    } else {
        s
    }
}

/// `s` without white space at either end.
pub open spec fn trimmed(s: Seq<char>) -> Seq<char> {
    trim_end_spec(trim_start_spec(s))
}

/// Relies on `str::trim`, which removes leading and trailing characters with
/// the Unicode `White_Space` property.
#[verifier::external_body]
fn trim_text(s: &str) -> (r: String)
    ensures
        r@ == trimmed(s@),
{
    s.trim().to_owned()
}

/// Every `.` replaced by `-`.
pub open spec fn dashes(s: Seq<char>) -> Seq<char> {
    s.map_values(|c: char| if c == '.' { '-' } else { c })
}

/// The driver version in the form implementation names use: `550.100\n`
/// becomes `550-100`.
pub open spec fn driver_tag(raw: Seq<char>) -> Seq<char> {
    dashes(trimmed(raw))
}

/// Turns the content of the host driver version file into the form that
/// implementation names carry.
pub fn gl_driver_tag(raw: &str) -> (r: String)
    ensures
        r@ == driver_tag(raw@),
{
    let t = trim_text(raw);
    replace_dots(t.as_str())
}

/// `s` with every `.` replaced by `-`.
pub fn replace_dots(s: &str) -> (r: String)
    ensures
        r@ == dashes(s@),
{
    let n = s.unicode_len();
    let mut out = String::new();
    let mut start: usize = 0;
    let mut i: usize = 0;
    proof {
        reveal_strlit("-");
    }
    while i < n
        invariant
            n == s@.len(),
            start <= i <= n,
            out@ + s@.subrange(start as int, i as int) == dashes(s@.subrange(0, i as int)),
            "-"@ == seq!['-'],
        decreases n - i,
    {
        let c = s.get_char(i);
        assert(s@.subrange(0, i + 1) == s@.subrange(0, i as int).push(c));
        assert(dashes(s@.subrange(0, i + 1)) == dashes(s@.subrange(0, i as int)).push(
            if c == '.' { '-' } else { c },
        ));
        if c == '.' {
            let piece = s.substring_char(start, i);
            out.append(piece);
            out.append("-");
            start = i + 1;
            assert(s@.subrange(start as int, i + 1) == Seq::<char>::empty());
        } else {
            assert(s@.subrange(start as int, i + 1) == s@.subrange(start as int, i as int).push(c));
        }
        i = i + 1;
    }
    let piece = s.substring_char(start, n);
    out.append(piece);
    assert(s@.subrange(0, n as int) == s@);
    out
}

/// Whether implementation `impl_name` is enabled under the declaration's
/// `enable-if` value; `gl_tag` is the host driver version, in tag form.
pub open spec fn impl_enabled(
    enable_if: Option<Seq<char>>,
    impl_name: Seq<char>,
    gl_tag: Option<Seq<char>>,
) -> bool {
    match enable_if {
        None => true,
        Some(e) => e == "active-gl-driver"@ && (impl_name == "default"@ || impl_name == "host"@
            || ("nvidia-"@.is_prefix_of(impl_name) && gl_tag == Some(
            impl_name.skip("nvidia-"@.len() as int),
        ))),
    }
}

/// Decides whether an implementation is enabled; unknown `enable-if` values
/// disable it.
pub fn extension_enabled(
    enable_if: Option<&String>,
    impl_name: &str,
    gl_tag: Option<&String>,
) -> (r: bool)
    ensures
        r == impl_enabled(
            match enable_if {
                Some(e) => Some(e@),
                None => None,
            },
            impl_name@,
            match gl_tag {
                Some(t) => Some(t@),
                None => None,
            },
        ),
{
    match enable_if {
        None => true,
        Some(e) => {
            if !same_text(e.as_str(), "active-gl-driver") {
                return false;
            }
            if same_text(impl_name, "default") || same_text(impl_name, "host") {
                return true;
            }
            match strip_prefix(impl_name, "nvidia-") {
                Some(ver) => match gl_tag {
                    Some(t) => same_text(t.as_str(), ver.as_str()),
                    None => false,
                },
                None => false,
            }
        },
    }
}

/// Where version `version` of extension image `id` keeps its files, relative
/// to the runtime directory of an install root.
pub open spec fn ext_files_path(id: Seq<char>, arch: Seq<char>, version: Seq<char>) -> Seq<char> {
    join_spec(join_spec(join_spec(join_spec(id, arch), version), "active"@), "files"@)
}

/// The installed files of the first version, in declared order, that resolves
/// under some install root.
pub open spec fn first_installed(
    versions: Seq<Seq<char>>,
    id: Seq<char>,
    arch: Seq<char>,
    dirs: Seq<Seq<char>>,
    existing: Seq<Seq<char>>,
) -> Option<Seq<char>>
    decreases versions.len(),
{
    if versions.len() == 0 {
        None
    } else {
        match install_lookup(dirs, false, ext_files_path(id, arch, versions[0]), existing) {
            Some(p) => Some(p),
            None => first_installed(versions.skip(1), id, arch, dirs, existing),
        }
    }
}

/// Tries the candidate versions in order and stops at the first that is installed.
pub fn find_first_installed(
    versions: &Vec<String>,
    id: &str,
    arch: &str,
    install_dirs: &Vec<String>,
    existing: &Vec<String>,
) -> (r: Option<String>)
    ensures
        match r {
            Some(p) => first_installed(texts(versions@), id@, arch@, texts(install_dirs@), texts(existing@)) == Some(p@),
            None => first_installed(texts(versions@), id@, arch@, texts(install_dirs@), texts(existing@)) is None,
        },
{
    let ghost vs = texts(versions@);
    proof {
        reveal_strlit("active");
        reveal_strlit("files");
    }
    let mut i: usize = 0;
    assert(vs.skip(0) == vs);
    while i < versions.len()
        invariant
            i <= versions@.len(),
            vs == texts(versions@),
            first_installed(vs, id@, arch@, texts(install_dirs@), texts(existing@))
                == first_installed(vs.skip(i as int), id@, arch@, texts(install_dirs@), texts(existing@)),
        decreases versions@.len() - i,
    {
        let rel = join(join(join(join(id, arch).as_str(), versions[i].as_str()).as_str(), "active").as_str(), "files");
        assert(vs.skip(i as int)[0] == versions@[i as int]@);
        assert(vs.skip(i as int).skip(1) == vs.skip(i + 1));
        match find_install_path(rel.as_str(), false, install_dirs, existing) {
            Some(p) => {
                return Some(p);
            },
            None => {},
        }
        i = i + 1;
    }
    None
}

/// An enabled implementation that resolved: its installed files, the path it
/// is mounted at, and its name.
#[derive(Debug, Clone, PartialEq, Eq)]
pub struct Mount {
    pub source: String,
    pub target: String,
    pub impl_name: String,
}

pub open spec fn mounts_view(ms: Seq<Mount>) -> Seq<(Seq<char>, Seq<char>, Seq<char>)> {
    ms.map_values(|m: Mount| (m.source@, m.target@, m.impl_name@))
}

/// What the resolution of one declaration depends on.
pub ghost struct ExtInputs {
    /// The declaration's entries.
    pub decl: Seq<(Seq<char>, Seq<char>)>,
    /// The extension's name.
    pub name: Seq<char>,
    pub arch: Seq<char>,
    /// The candidate versions, in declared order.
    pub versions: Seq<Seq<char>>,
    pub dirs: Seq<Seq<char>>,
    pub existing: Seq<Seq<char>>,
    pub gl_tag: Option<Seq<char>>,
    /// The extension's mount point.
    pub base: Seq<char>,
}

/// The candidate versions: the declaration's `versions`, else its `version`,
/// else the fallback, split at `;`.
pub open spec fn allowed_versions(decl: Seq<(Seq<char>, Seq<char>)>, fallback: Seq<char>) -> Seq<Seq<char>> {
    split_spec(
        match lookup(decl, "versions"@) {
            Some(v) => v,
            None => match lookup(decl, "version"@) {
                Some(v) => v,
                None => fallback,
            },
        },
        ';',
    )
}

/// The mount that installed image `id` contributes, if it implements the
/// extension, is enabled, and one of the candidate versions is installed.
pub open spec fn mount_for(id: Seq<char>, inp: ExtInputs) -> Option<(Seq<char>, Seq<char>, Seq<char>)> {
    let prefix = inp.name + "."@;
    if !prefix.is_prefix_of(id) {
        None
    } else {
        let impl_name = id.skip(prefix.len() as int);
        if !impl_enabled(lookup(inp.decl, "enable-if"@), impl_name, inp.gl_tag) {
            None
        } else {
            match first_installed(inp.versions, id, inp.arch, inp.dirs, inp.existing) {
                Some(p) => Some((p, join_spec(inp.base, impl_name), impl_name)),
                None => None,
            }
        }
    }
}

/// The mounts of all installed images, in the order they are listed.
pub open spec fn mounts_spec(avail: Seq<Seq<char>>, inp: ExtInputs) -> Seq<(Seq<char>, Seq<char>, Seq<char>)>
    decreases avail.len(),
{
    if avail.len() == 0 {
        Seq::empty()
    } else {
        let init = mounts_spec(avail.drop_last(), inp);
        match mount_for(avail.last(), inp) {
            Some(m) => init.push(m),
            None => init,
        }
    }
}

/// A read-only bind for each mount.
pub open spec fn bind_ops(ms: Seq<(Seq<char>, Seq<char>, Seq<char>)>) -> Seq<OpSpec> {
    ms.map_values(|m: (Seq<char>, Seq<char>, Seq<char>)| OpSpec::Bind(m.0, m.1, false))
}

/// Operations emitted so far, source paths processed for the current mount,
/// and symlink paths claimed by any mount.
pub type MergeState = (Seq<OpSpec>, Seq<Seq<char>>, Seq<Seq<char>>);

/// Links each file of a merged directory into the shared directory, unless its
/// source was already processed for this mount or its link path is claimed.
pub open spec fn merge_files(
    files: Seq<Seq<char>>,
    sdir: Seq<char>,
    ldir: Seq<char>,
    ddir: Seq<char>,
    st: MergeState,
) -> MergeState
    decreases files.len(),
{
    if files.len() == 0 {
        st
    } else {
        let s = merge_files(files.drop_last(), sdir, ldir, ddir, st);
        let f = files.last();
        let src = join_spec(sdir, f);
        let dst = join_spec(ddir, f);
        if s.1.contains(src) {
            s
        } else if s.2.contains(dst) {
            (s.0, s.1.push(src), s.2)
        } else {
            (s.0.push(OpSpec::Symlink(join_spec(ldir, f), dst)), s.1.push(src), s.2.push(dst))
        }
    }
}

/// The merge pass for one mount over the declared merge directories; a
/// directory that is absent contributes nothing.
pub open spec fn merge_mount(
    mds: Seq<Seq<char>>,
    src: Seq<char>,
    tgt: Seq<char>,
    base: Seq<char>,
    listings: Seq<(Seq<char>, Seq<Seq<char>>)>,
    st: MergeState,
) -> MergeState
    decreases mds.len(),
{
    if mds.len() == 0 {
        st
    } else {
        let s = merge_mount(mds.drop_last(), src, tgt, base, listings, st);
        let md = mds.last();
        match lookup(listings, join_spec(src, md)) {
            None => s,
            Some(files) => merge_files(files, join_spec(src, md), join_spec(tgt, md), join_spec(base, md), s),
        }
    }
}

/// Where the linker configuration of one implementation is placed.
pub open spec fn ld_conf_path(prefix: Seq<char>, name: Seq<char>, impl_name: Seq<char>) -> Seq<char> {
    "/run/flatpak/ld.so.conf.d/"@ + prefix + "-"@ + name + "."@ + impl_name + ".conf"@
}

/// The linker configuration file of one implementation.
pub open spec fn ld_conf_op(prefix: Seq<char>, name: Seq<char>, impl_name: Seq<char>, dir: Seq<char>) -> OpSpec {
    OpSpec::VirtualFile(ld_conf_path(prefix, name, impl_name), dir + "\n"@)
}

/// The operations after the binds: per mount, its merged-directory symlinks,
/// then its linker configuration; with the symlink paths claimed so far.
pub open spec fn post_mounts(
    ms: Seq<(Seq<char>, Seq<char>, Seq<char>)>,
    mds: Seq<Seq<char>>,
    ld: Option<Seq<char>>,
    name: Seq<char>,
    prefix: Seq<char>,
    base: Seq<char>,
    listings: Seq<(Seq<char>, Seq<Seq<char>>)>,
) -> (Seq<OpSpec>, Seq<Seq<char>>)
    decreases ms.len(),
{
    if ms.len() == 0 {
        (Seq::empty(), Seq::empty())
    } else {
        let prev = post_mounts(ms.drop_last(), mds, ld, name, prefix, base, listings);
        let m = ms.last();
        let s = merge_mount(mds, m.0, m.1, base, listings, (prev.0, Seq::empty(), prev.1));
        match ld {
            Some(l) => (s.0.push(ld_conf_op(prefix, name, m.2, join_spec(m.1, l))), s.2),
            None => (s.0, s.2),
        }
    }
}

#[derive(Debug, Clone, PartialEq, Eq)]
pub enum ExtensionError {
    /// The declaration has no `directory`.
    MissingDirectory,
    /// `directory`, a merge directory or `add-ld-path` is an absolute path.
    AbsolutePath,
}

pub open spec fn is_absolute(p: Seq<char>) -> bool {
    p.len() > 0 && p[0] == '/'
}

/// The merge directories the declaration names.
pub open spec fn merge_dirs_of(decl: Seq<(Seq<char>, Seq<char>)>) -> Seq<Seq<char>> {
    match lookup(decl, "merge-dirs"@) {
        Some(m) => split_spec(m, ';'),
        None => Seq::empty(),
    }
}

/// Whether every path the declaration joins onto a mount is relative.
pub open spec fn decl_relative(decl: Seq<(Seq<char>, Seq<char>)>) -> bool {
    &&& lookup(decl, "directory"@) matches Some(d) && !is_absolute(d)
    &&& forall|i: int| 0 <= i < merge_dirs_of(decl).len() ==> !is_absolute(#[trigger] merge_dirs_of(decl)[i])
    &&& !(lookup(decl, "add-ld-path"@) matches Some(l) && is_absolute(l))
}

pub open spec fn gl_tag_of(host: HostSnapshot) -> Option<Seq<char>> {
    match host.gl_driver {
        Some(s) => Some(driver_tag(s@)),
        None => None,
    }
}

/// The operations that one extension declaration adds, or why it is refused.
pub open spec fn extension_spec(
    decl: Seq<(Seq<char>, Seq<char>)>,
    name: Seq<char>,
    arch: Seq<char>,
    fallback_version: Seq<char>,
    avail: Seq<Seq<char>>,
    dirs: Seq<Seq<char>>,
    host: HostSnapshot,
    base_path: Seq<char>,
    ld_prefix: Seq<char>,
) -> Result<Seq<OpSpec>, ExtensionError> {
    match lookup(decl, "directory"@) {
        None => Err(ExtensionError::MissingDirectory),
        Some(d) => if !decl_relative(decl) {
            Err(ExtensionError::AbsolutePath)
        } else {
            let base = join_spec(base_path, d);
            let inp = ExtInputs {
                decl,
                name,
                arch,
                versions: allowed_versions(decl, fallback_version),
                dirs,
                existing: texts(host.existing@),
                gl_tag: gl_tag_of(host),
                base,
            };
            let ms = mounts_spec(avail, inp);
            Ok(seq![OpSpec::Tmpfs(base)] + bind_ops(ms) + post_mounts(
                ms,
                merge_dirs_of(decl),
                lookup(decl, "add-ld-path"@),
                name,
                ld_prefix,
                base,
                crate::snapshot::listings_view(host.listings@),
            ).0)
        },
    }
}

pub open spec fn opt_text(o: Option<String>) -> Option<Seq<char>> {
    match o {
        Some(s) => Some(s@),
        None => None,
    }
}

/// The mount that installed image `id` contributes to the extension, if any.
fn resolve_mount(
    id: &str,
    decl: &Group,
    name_dot: &str,
    arch: &str,
    versions: &Vec<String>,
    install_dirs: &Vec<String>,
    host: &HostSnapshot,
    gl_tag: &Option<String>,
    base: &str,
    Ghost(inp): Ghost<ExtInputs>,
) -> (r: Option<Mount>)
    requires
        inp.decl == group_entries(*decl),
        name_dot@ == inp.name + "."@,
        arch@ == inp.arch,
        texts(versions@) == inp.versions,
        texts(install_dirs@) == inp.dirs,
        texts(host.existing@) == inp.existing,
        opt_text(*gl_tag) == inp.gl_tag,
        base@ == inp.base,
    ensures
        match r {
            Some(m) => mount_for(id@, inp) == Some((m.source@, m.target@, m.impl_name@)),
            None => mount_for(id@, inp) is None,
        },
{
    let impl_name = match strip_prefix(id, name_dot) {
        Some(n) => n,
        None => return None,
    };
    let enable_if = group_get(decl, "enable-if");
    if !extension_enabled(enable_if, impl_name.as_str(), gl_tag.as_ref()) {
        return None;
    }
    match find_first_installed(versions, id, arch, install_dirs, &host.existing) {
        Some(p) => {
            let target = join(base, impl_name.as_str());
            Some(Mount { source: p, target, impl_name })
        },
        None => None,
    }
}

fn merge_files_exec(
    files: &Vec<String>,
    sdir: &str,
    ldir: &str,
    ddir: &str,
    bwrap: &mut BwrapBuilder,
    processed: &mut Vec<String>,
    claimed: &mut Vec<String>,
    Ghost(head): Ghost<Seq<OpSpec>>,
    Ghost(st): Ghost<MergeState>,
)
    requires
        old(bwrap)@ == head + st.0,
        texts(old(processed)@) == st.1,
        texts(old(claimed)@) == st.2,
    ensures
        final(bwrap)@ == head + merge_files(texts(files@), sdir@, ldir@, ddir@, st).0,
        texts(final(processed)@) == merge_files(texts(files@), sdir@, ldir@, ddir@, st).1,
        texts(final(claimed)@) == merge_files(texts(files@), sdir@, ldir@, ddir@, st).2,
        final(bwrap).wrapped() == old(bwrap).wrapped(),
{
    let ghost fs = texts(files@);
    let mut i: usize = 0;
    assert(fs.take(0).len() == 0);
    while i < files.len()
        invariant
            i <= files@.len(),
            fs == texts(files@),
            bwrap@ == head + merge_files(fs.take(i as int), sdir@, ldir@, ddir@, st).0,
            texts(processed@) == merge_files(fs.take(i as int), sdir@, ldir@, ddir@, st).1,
            texts(claimed@) == merge_files(fs.take(i as int), sdir@, ldir@, ddir@, st).2,
            bwrap.wrapped() == old(bwrap).wrapped(),
        decreases files@.len() - i,
    {
        let ghost prev = merge_files(fs.take(i as int), sdir@, ldir@, ddir@, st);
        assert(fs.take(i + 1).drop_last() == fs.take(i as int));
        assert(fs.take(i + 1).last() == files@[i as int]@);
        let f = files[i].as_str();
        let src = join(sdir, f);
        if !contains_text(processed, src.as_str()) {
            let ghost proc0 = processed@;
            processed.push(src);
            assert(texts(processed@) == texts(proc0).push(join_spec(sdir@, f@)));
            let dst = join(ddir, f);
            if !contains_text(claimed, dst.as_str()) {
                let link_src = join(ldir, f);
                bwrap.symlink(link_src.as_str(), dst.as_str());
                let ghost c0 = claimed@;
                claimed.push(dst);
                assert(texts(claimed@) == texts(c0).push(join_spec(ddir@, f@)));
                assert(bwrap@ == head + prev.0.push(OpSpec::Symlink(join_spec(ldir@, f@), join_spec(ddir@, f@))));
            }
        }
        i = i + 1;
    }
    assert(fs.take(i as int) == fs);
}

fn merge_mount_exec(
    mds: &Vec<String>,
    src: &str,
    tgt: &str,
    base: &str,
    host: &HostSnapshot,
    bwrap: &mut BwrapBuilder,
    processed: &mut Vec<String>,
    claimed: &mut Vec<String>,
    Ghost(head): Ghost<Seq<OpSpec>>,
    Ghost(st): Ghost<MergeState>,
)
    requires
        old(bwrap)@ == head + st.0,
        texts(old(processed)@) == st.1,
        texts(old(claimed)@) == st.2,
    ensures
        final(bwrap)@ == head + merge_mount(texts(mds@), src@, tgt@, base@, crate::snapshot::listings_view(host.listings@), st).0,
        texts(final(processed)@) == merge_mount(texts(mds@), src@, tgt@, base@, crate::snapshot::listings_view(host.listings@), st).1,
        texts(final(claimed)@) == merge_mount(texts(mds@), src@, tgt@, base@, crate::snapshot::listings_view(host.listings@), st).2,
        final(bwrap).wrapped() == old(bwrap).wrapped(),
{
    let ghost ds = texts(mds@);
    let ghost ls = crate::snapshot::listings_view(host.listings@);
    let mut i: usize = 0;
    assert(ds.take(0).len() == 0);
    while i < mds.len()
        invariant
            i <= mds@.len(),
            ds == texts(mds@),
            ls == crate::snapshot::listings_view(host.listings@),
            bwrap@ == head + merge_mount(ds.take(i as int), src@, tgt@, base@, ls, st).0,
            texts(processed@) == merge_mount(ds.take(i as int), src@, tgt@, base@, ls, st).1,
            texts(claimed@) == merge_mount(ds.take(i as int), src@, tgt@, base@, ls, st).2,
            bwrap.wrapped() == old(bwrap).wrapped(),
        decreases mds@.len() - i,
    {
        let ghost prev = merge_mount(ds.take(i as int), src@, tgt@, base@, ls, st);
        assert(ds.take(i + 1).drop_last() == ds.take(i as int));
        assert(ds.take(i + 1).last() == mds@[i as int]@);
        let md = mds[i].as_str();
        let sdir = join(src, md);
        match host.find_listing(sdir.as_str()) {
            Some(files) => {
                let ldir = join(tgt, md);
                let ddir = join(base, md);
                merge_files_exec(files, sdir.as_str(), ldir.as_str(), ddir.as_str(), bwrap, processed, claimed, Ghost(head), Ghost(prev));
            },
            None => {},
        }
        i = i + 1;
    }
    assert(ds.take(i as int) == ds);
}

fn absolute_text(s: &str) -> (r: bool)
    ensures
        r == is_absolute(s@),
{
    s.unicode_len() > 0 && s.get_char(0) == '/'
}

fn any_absolute(v: &Vec<String>) -> (r: bool)
    ensures
        r == exists|i: int| 0 <= i < v@.len() && is_absolute(#[trigger] texts(v@)[i]),
{
    let mut i: usize = 0;
    while i < v.len()
        invariant
            i <= v@.len(),
            forall|j: int| 0 <= j < i ==> !is_absolute(#[trigger] texts(v@)[j]),
        decreases v@.len() - i,
    {
        assert(texts(v@)[i as int] == v@[i as int]@);
        if absolute_text(v[i].as_str()) {
            return true;
        }
        i = i + 1;
    }
    false
}

fn ld_conf_file(prefix: &str, name: &str, impl_name: &str) -> (r: String)
    ensures
        r@ == ld_conf_path(prefix@, name@, impl_name@),
{
    let mut r = "/run/flatpak/ld.so.conf.d/".to_owned();
    r.append(prefix);
    r.append("-");
    r.append(name);
    r.append(".");
    r.append(impl_name);
    r.append(".conf");
    r
}

/// Resolves one extension declaration and appends its operations: a tmpfs at
/// `base_path/directory`, a read-only bind per enabled implementation whose
/// first installed candidate version was found, then per mount its
/// merged-directory symlinks and its linker configuration file, named with
/// `ld_prefix`. `fallback_version` stands in for a missing `versions` and
/// `version`.
pub fn setup_extension(
    extension_metadata: &Group,
    bwrap: &mut BwrapBuilder,
    name: &str,
    arch: &str,
    fallback_version: &str,
    available_runtimes: &Vec<String>,
    install_dirs: &Vec<String>,
    base_path: &str,
    ld_prefix: &str,
    host: &HostSnapshot,
) -> (r: Result<(), ExtensionError>)
    ensures
        match extension_spec(
            group_entries(*extension_metadata),
            name@,
            arch@,
            fallback_version@,
            texts(available_runtimes@),
            texts(install_dirs@),
            *host,
            base_path@,
            ld_prefix@,
        ) {
            Ok(ops) => r is Ok && final(bwrap)@ == old(bwrap)@ + ops,
            Err(e) => r == Err::<(), ExtensionError>(e) && final(bwrap)@ == old(bwrap)@,
        },
        final(bwrap).wrapped() == old(bwrap).wrapped(),
{
    let ghost decl = group_entries(*extension_metadata);
    let directory = match group_get(extension_metadata, "directory") {
        Some(d) => d,
        None => return Err(ExtensionError::MissingDirectory),
    };
    let merge_dirs: Vec<String> = match group_get(extension_metadata, "merge-dirs") {
        Some(m) => split_on(m.as_str(), ';'),
        None => Vec::new(),
    };
    assert(texts(merge_dirs@) =~= merge_dirs_of(decl));
    let ld = group_get(extension_metadata, "add-ld-path");
    let ld_absolute = match ld {
        Some(l) => absolute_text(l.as_str()),
        None => false,
    };
    if absolute_text(directory.as_str()) || any_absolute(&merge_dirs) || ld_absolute {
        return Err(ExtensionError::AbsolutePath);
    }
    assert(decl_relative(decl));
    let base = join(base_path, directory.as_str());
    let allowed = match group_get(extension_metadata, "versions") {
        Some(v) => v.clone(),
        None => match group_get(extension_metadata, "version") {
            Some(v) => v.clone(),
            None => fallback_version.to_owned(),
        },
    };
    let versions = split_on(allowed.as_str(), ';');
    assert(texts(versions@) =~= allowed_versions(decl, fallback_version@));
    let gl_tag: Option<String> = match &host.gl_driver {
        Some(raw) => Some(gl_driver_tag(raw.as_str())),
        None => None,
    };
    let mut name_dot = name.to_owned();
    name_dot.append(".");
    let ghost inp = ExtInputs {
        decl,
        name: name@,
        arch: arch@,
        versions: allowed_versions(decl, fallback_version@),
        dirs: texts(install_dirs@),
        existing: texts(host.existing@),
        gl_tag: gl_tag_of(*host),
        base: base@,
    };
    let ghost avail = texts(available_runtimes@);
    let ghost start = old(bwrap)@.push(OpSpec::Tmpfs(base@));
    bwrap.tmpfs(base.as_str());
    let mut mounts: Vec<Mount> = Vec::new();
    let mut i: usize = 0;
    assert(avail.take(0).len() == 0);
    assert(mounts_view(mounts@) =~= Seq::<(Seq<char>, Seq<char>, Seq<char>)>::empty());
    assert(bind_ops(mounts_view(mounts@)) =~= Seq::<OpSpec>::empty());
    while i < available_runtimes.len()
        invariant
            i <= available_runtimes@.len(),
            avail == texts(available_runtimes@),
            inp.decl == group_entries(*extension_metadata),
            name_dot@ == inp.name + "."@,
            arch@ == inp.arch,
            texts(versions@) == inp.versions,
            texts(install_dirs@) == inp.dirs,
            texts(host.existing@) == inp.existing,
            opt_text(gl_tag) == inp.gl_tag,
            base@ == inp.base,
            mounts_view(mounts@) == mounts_spec(avail.take(i as int), inp),
            bwrap@ == start + bind_ops(mounts_view(mounts@)),
            bwrap.wrapped() == old(bwrap).wrapped(),
        decreases available_runtimes@.len() - i,
    {
        assert(avail.take(i + 1).drop_last() == avail.take(i as int));
        assert(avail.take(i + 1).last() == available_runtimes@[i as int]@);
        let found = resolve_mount(
            available_runtimes[i].as_str(),
            extension_metadata,
            name_dot.as_str(),
            arch,
            &versions,
            install_dirs,
            host,
            &gl_tag,
            base.as_str(),
            Ghost(inp),
        );
        match found {
            Some(m) => {
                bwrap.ro_bind(m.source.as_str(), m.target.as_str());
                let ghost m0 = mounts@;
                mounts.push(m);
                assert(mounts_view(mounts@) =~= mounts_view(m0).push((m.source@, m.target@, m.impl_name@)));
                assert(bind_ops(mounts_view(mounts@)) =~= bind_ops(mounts_view(m0)).push(OpSpec::Bind(m.source@, m.target@, false)));
            },
            None => {},
        }
        i = i + 1;
    }
    assert(avail.take(i as int) == avail);
    let ghost ms = mounts_view(mounts@);
    let ghost head = bwrap@;
    let ghost ls = crate::snapshot::listings_view(host.listings@);
    let ghost mds = merge_dirs_of(decl);
    let ghost ldv = lookup(decl, "add-ld-path"@);
    let mut claimed: Vec<String> = Vec::new();
    let mut j: usize = 0;
    assert(ms.take(0).len() == 0);
    assert(bwrap@ == head + Seq::<OpSpec>::empty());
    assert(texts(claimed@) =~= Seq::<Seq<char>>::empty());
    while j < mounts.len()
        invariant
            j <= mounts@.len(),
            ms == mounts_view(mounts@),
            texts(merge_dirs@) == mds,
            ls == crate::snapshot::listings_view(host.listings@),
            ldv == (match ld {
                Some(l) => Some(l@),
                None => None,
            }),
            bwrap@ == head + post_mounts(ms.take(j as int), mds, ldv, name@, ld_prefix@, base@, ls).0,
            texts(claimed@) == post_mounts(ms.take(j as int), mds, ldv, name@, ld_prefix@, base@, ls).1,
            bwrap.wrapped() == old(bwrap).wrapped(),
        decreases mounts@.len() - j,
    {
        let ghost prev = post_mounts(ms.take(j as int), mds, ldv, name@, ld_prefix@, base@, ls);
        assert(ms.take(j + 1).drop_last() == ms.take(j as int));
        assert(ms.take(j + 1).last() == (mounts@[j as int].source@, mounts@[j as int].target@, mounts@[j as int].impl_name@));
        let m = &mounts[j];
        let mut processed: Vec<String> = Vec::new();
        assert(texts(processed@) =~= Seq::<Seq<char>>::empty());
        merge_mount_exec(
            &merge_dirs,
            m.source.as_str(),
            m.target.as_str(),
            base.as_str(),
            host,
            bwrap,
            &mut processed,
            &mut claimed,
            Ghost(head),
            Ghost((prev.0, Seq::<Seq<char>>::empty(), prev.1)),
        );
        let ghost s = merge_mount(mds, m.source@, m.target@, base@, ls, (prev.0, Seq::<Seq<char>>::empty(), prev.1));
        assert(bwrap@ == head + s.0);
        match ld {
            Some(l) => {
                let mut contents = join(m.target.as_str(), l.as_str());
                contents.append("\n");
                let path = ld_conf_file(ld_prefix, name, m.impl_name.as_str());
                bwrap.ro_bind_data(path.as_str(), contents.as_str());
                assert(bwrap@ == head + s.0.push(ld_conf_op(ld_prefix@, name@, m.impl_name@, join_spec(m.target@, l@))));
            },
            None => {},
        }
        j = j + 1;
    }
    assert(ms.take(j as int) == ms);
    Ok(())
}

/// Candidate versions are tried in declared order: when version `k` is the
/// first that is installed, it is the one used, whatever later versions are
/// installed too.
pub proof fn lemma_versions_in_declared_order(
    versions: Seq<Seq<char>>,
    id: Seq<char>,
    arch: Seq<char>,
    dirs: Seq<Seq<char>>,
    existing: Seq<Seq<char>>,
    k: int,
)
    requires
        0 <= k < versions.len(),
        install_lookup(dirs, false, ext_files_path(id, arch, versions[k]), existing) is Some,
        forall|j: int|
            0 <= j < k ==> (#[trigger] install_lookup(dirs, false, ext_files_path(id, arch, versions[j]), existing)) is None,
    ensures
        first_installed(versions, id, arch, dirs, existing) == install_lookup(
            dirs,
            false,
            ext_files_path(id, arch, versions[k]),
            existing,
        ),
    decreases k,
{
    if k > 0 {
        let rest = versions.skip(1);
        assert(install_lookup(dirs, false, ext_files_path(id, arch, versions[0]), existing) is None);
        assert forall|j: int| 0 <= j < k - 1 implies (#[trigger] install_lookup(dirs, false, ext_files_path(id, arch, rest[j]), existing)) is None by {
            assert(rest[j] == versions[j + 1]);
        }
        assert(rest[k - 1] == versions[k]);
        lemma_versions_in_declared_order(rest, id, arch, dirs, existing, k - 1);
    }
}

/// Under `enable-if = active-gl-driver`, with the host driver version file
/// holding `raw`, exactly the implementations `default`, `host` and
/// `nvidia-<tag>` are enabled, where `<tag>` is the trimmed version with dots
/// turned into dashes; every other `nvidia-*` implementation is disabled.
pub proof fn lemma_gl_driver_enablement(impl_name: Seq<char>, raw: Seq<char>)
    ensures
        impl_enabled(Some("active-gl-driver"@), impl_name, Some(driver_tag(raw))) <==> (impl_name
            == "default"@ || impl_name == "host"@ || impl_name == "nvidia-"@ + driver_tag(raw)),
{
    reveal_strlit("nvidia-");
    let p = "nvidia-"@;
    let t = driver_tag(raw);
    if impl_name == p + t {
        assert(p.is_prefix_of(impl_name)) by {
            assert(impl_name.subrange(0, p.len() as int) =~= p);
        }
        assert(impl_name.skip(p.len() as int) =~= t);
    }
    if p.is_prefix_of(impl_name) && t == impl_name.skip(p.len() as int) {
        assert(impl_name =~= p + t);
    }
}

/// The link path an operation creates, if it is a symlink.
pub open spec fn link_of(op: OpSpec) -> Option<Seq<char>> {
    match op {
        OpSpec::Symlink(_, l) => Some(l),
        _ => None,
    }
}

/// No two symlinks among `ops` create the same link path.
pub open spec fn links_distinct(ops: Seq<OpSpec>) -> bool {
    forall|i: int, j: int|
        0 <= i < ops.len() && 0 <= j < ops.len() && i != j && #[trigger] link_of(ops[i]) is Some
            ==> link_of(ops[i]) != #[trigger] link_of(ops[j])
}

/// The claimed link paths are exactly those of the symlinks among `ops`.
pub open spec fn claims_match(ops: Seq<OpSpec>, claimed: Seq<Seq<char>>) -> bool {
    forall|d: Seq<char>|
        #![trigger claimed.contains(d)]
        claimed.contains(d) <==> exists|i: int| 0 <= i < ops.len() && link_of(ops[i]) == Some(d)
}

proof fn lemma_join_injective(a: Seq<char>, b1: Seq<char>, b2: Seq<char>)
    requires
        !is_absolute(b1),
        !is_absolute(b2),
        join_spec(a, b1) == join_spec(a, b2),
    ensures
        b1 == b2,
{
    if a.len() == 0 || a.last() == '/' {
        assert(b1 =~= join_spec(a, b1).skip(a.len() as int));
        assert(b2 =~= join_spec(a, b2).skip(a.len() as int));
    } else {
        assert(b1 =~= join_spec(a, b1).skip(a.len() as int + 1));
        assert(b2 =~= join_spec(a, b2).skip(a.len() as int + 1));
    }
}

proof fn lemma_merge_files_invariant(
    files: Seq<Seq<char>>,
    sdir: Seq<char>,
    ldir: Seq<char>,
    ddir: Seq<char>,
    st: MergeState,
)
    requires
        links_distinct(st.0),
        claims_match(st.0, st.2),
    ensures
        links_distinct(merge_files(files, sdir, ldir, ddir, st).0),
        claims_match(merge_files(files, sdir, ldir, ddir, st).0, merge_files(files, sdir, ldir, ddir, st).2),
        merge_files(files, sdir, ldir, ddir, st).0.len() >= st.0.len(),
        forall|k: int| 0 <= k < st.0.len() ==> #[trigger] merge_files(files, sdir, ldir, ddir, st).0[k] == st.0[k],
        forall|k: int|
            st.0.len() <= k < merge_files(files, sdir, ldir, ddir, st).0.len() ==> exists|g: Seq<char>|
                files.contains(g) && #[trigger] merge_files(files, sdir, ldir, ddir, st).0[k]
                    == OpSpec::Symlink(join_spec(ldir, g), join_spec(ddir, g)),
    decreases files.len(),
{
    if files.len() > 0 {
        let init = files.drop_last();
        lemma_merge_files_invariant(init, sdir, ldir, ddir, st);
        let s = merge_files(init, sdir, ldir, ddir, st);
        let r = merge_files(files, sdir, ldir, ddir, st);
        let g = files.last();
        assert(files.contains(g)) by {
            assert(files[files.len() - 1] == g);
        }
        assert forall|h: Seq<char>| init.contains(h) implies files.contains(h) by {
            let k = choose|k: int| 0 <= k < init.len() && init[k] == h;
            assert(files[k] == h);
        }
        let src = join_spec(sdir, g);
        let dst = join_spec(ddir, g);
        if !s.1.contains(src) && !s.2.contains(dst) {
            let op = OpSpec::Symlink(join_spec(ldir, g), dst);
            assert(r.0 == s.0.push(op));
            assert(r.2 == s.2.push(dst));
            assert forall|i: int| 0 <= i < s.0.len() implies link_of(s.0[i]) != Some(dst) by {
                if link_of(s.0[i]) == Some(dst) {
                    assert(s.2.contains(dst));
                }
            }
            assert forall|i: int, j: int|
                0 <= i < r.0.len() && 0 <= j < r.0.len() && i != j && #[trigger] link_of(r.0[i]) is Some
                    implies link_of(r.0[i]) != #[trigger] link_of(r.0[j]) by {
                if i < s.0.len() && j < s.0.len() {
                    assert(r.0[i] == s.0[i] && r.0[j] == s.0[j]);
                } else if i == s.0.len() {
                    assert(r.0[j] == s.0[j]);
                } else {
                    assert(r.0[i] == s.0[i]);
                }
            }
            assert forall|d: Seq<char>| #![trigger r.2.contains(d)]
                r.2.contains(d) <==> exists|i: int| 0 <= i < r.0.len() && link_of(r.0[i]) == Some(d) by {
                if r.2.contains(d) {
                    if d == dst {
                        assert(link_of(r.0[s.0.len() as int]) == Some(d));
                    } else {
                        let k = choose|k: int| 0 <= k < r.2.len() && r.2[k] == d;
                        assert(k < s.2.len());
                        assert(s.2[k] == d);
                        assert(s.2.contains(d));
                        let i = choose|i: int| 0 <= i < s.0.len() && link_of(s.0[i]) == Some(d);
                        assert(r.0[i] == s.0[i]);
                    }
                }
                if exists|i: int| 0 <= i < r.0.len() && link_of(r.0[i]) == Some(d) {
                    let i = choose|i: int| 0 <= i < r.0.len() && link_of(r.0[i]) == Some(d);
                    if i < s.0.len() {
                        assert(r.0[i] == s.0[i]);
                        assert(s.2.contains(d));
                        let k = choose|k: int| 0 <= k < s.2.len() && s.2[k] == d;
                        assert(r.2[k] == d);
                    } else {
                        assert(r.2[s.2.len() as int] == d);
                    }
                }
            }
            assert forall|k: int| st.0.len() <= k < r.0.len() implies exists|h: Seq<char>|
                files.contains(h) && #[trigger] r.0[k] == OpSpec::Symlink(join_spec(ldir, h), join_spec(ddir, h)) by {
                if k < s.0.len() {
                    assert(r.0[k] == s.0[k]);
                    let h = choose|h: Seq<char>| init.contains(h) && s.0[k] == OpSpec::Symlink(join_spec(ldir, h), join_spec(ddir, h));
                    assert(files.contains(h));
                } else {
                    assert(r.0[k] == op);
                }
            }
        } else if !s.1.contains(src) {
            assert(r.0 == s.0);
            assert(r.2 == s.2);
        } else {
            assert(r == s);
        }
        assert forall|k: int| st.0.len() <= k < r.0.len() implies exists|h: Seq<char>|
            files.contains(h) && #[trigger] r.0[k] == OpSpec::Symlink(join_spec(ldir, h), join_spec(ddir, h)) by {
            if k < s.0.len() {
                assert(r.0[k] == s.0[k]);
                let h = choose|h: Seq<char>| init.contains(h) && s.0[k] == OpSpec::Symlink(join_spec(ldir, h), join_spec(ddir, h));
                assert(files.contains(h));
            }
        }
    }
}

proof fn lemma_merge_files_claims(
    files: Seq<Seq<char>>,
    sdir: Seq<char>,
    ldir: Seq<char>,
    ddir: Seq<char>,
    st: MergeState,
)
    requires
        st.1.len() == 0,
        forall|i: int| 0 <= i < files.len() ==> !is_absolute(#[trigger] files[i]),
    ensures
        forall|x: Seq<char>|
            merge_files(files, sdir, ldir, ddir, st).1.contains(x) ==> exists|g: Seq<char>|
                files.contains(g) && x == #[trigger] join_spec(sdir, g),
        forall|g: Seq<char>|
            files.contains(g) ==> merge_files(files, sdir, ldir, ddir, st).2.contains(
                #[trigger] join_spec(ddir, g),
            ),
        forall|d: Seq<char>| st.2.contains(d) ==> merge_files(files, sdir, ldir, ddir, st).2.contains(d),
    decreases files.len(),
{
    if files.len() > 0 {
        let init = files.drop_last();
        assert forall|i: int| 0 <= i < init.len() implies !is_absolute(#[trigger] init[i]) by {
            assert(init[i] == files[i]);
        }
        lemma_merge_files_claims(init, sdir, ldir, ddir, st);
        let s = merge_files(init, sdir, ldir, ddir, st);
        let r = merge_files(files, sdir, ldir, ddir, st);
        let g = files.last();
        assert(!is_absolute(files[files.len() - 1]));
        assert forall|h: Seq<char>| init.contains(h) implies files.contains(h) by {
            let k = choose|k: int| 0 <= k < init.len() && init[k] == h;
            assert(files[k] == h);
        }
        assert forall|h: Seq<char>| files.contains(h) implies h == g || init.contains(h) by {
            let k = choose|k: int| 0 <= k < files.len() && files[k] == h;
            if k < files.len() - 1 {
                assert(init[k] == h);
            }
        }
        let src = join_spec(sdir, g);
        let dst = join_spec(ddir, g);
        if s.1.contains(src) {
            let g2 = choose|g2: Seq<char>| init.contains(g2) && src == join_spec(sdir, g2);
            let k = choose|k: int| 0 <= k < init.len() && init[k] == g2;
            assert(!is_absolute(init[k]));
            lemma_join_injective(sdir, g, g2);
            assert(r == s);
        } else if s.2.contains(dst) {
            assert(r.1 == s.1.push(src));
            assert(r.2 == s.2);
            assert forall|x: Seq<char>| r.1.contains(x) implies exists|h: Seq<char>|
                files.contains(h) && x == #[trigger] join_spec(sdir, h) by {
                let k = choose|k: int| 0 <= k < r.1.len() && r.1[k] == x;
                if k < s.1.len() {
                    assert(s.1[k] == x);
                    assert(s.1.contains(x));
                } else {
                    assert(files.contains(g) && x == join_spec(sdir, g));
                }
            }
        } else {
            assert(r.1 == s.1.push(src));
            assert(r.2 == s.2.push(dst));
            assert forall|x: Seq<char>| r.1.contains(x) implies exists|h: Seq<char>|
                files.contains(h) && x == #[trigger] join_spec(sdir, h) by {
                let k = choose|k: int| 0 <= k < r.1.len() && r.1[k] == x;
                if k < s.1.len() {
                    assert(s.1[k] == x);
                    assert(s.1.contains(x));
                } else {
                    assert(files.contains(g) && x == join_spec(sdir, g));
                }
            }
            assert forall|d: Seq<char>| s.2.contains(d) implies r.2.contains(d) by {
                let k = choose|k: int| 0 <= k < s.2.len() && s.2[k] == d;
                assert(r.2[k] == d);
            }
            assert(r.2[s.2.len() as int] == dst);
        }
    }
}

/// Merged directories, first registered implementation wins: when two mounted
/// implementations both hold file `f` in merge directory `md`, the merge pass
/// creates exactly one symlink at the shared path of `f`, and it points into
/// the implementation processed first.
pub proof fn lemma_merge_first_wins(
    a: (Seq<char>, Seq<char>, Seq<char>),
    b: (Seq<char>, Seq<char>, Seq<char>),
    md: Seq<char>,
    f: Seq<char>,
    ld: Option<Seq<char>>,
    name: Seq<char>,
    prefix: Seq<char>,
    base: Seq<char>,
    listings: Seq<(Seq<char>, Seq<Seq<char>>)>,
)
    requires
        lookup(listings, join_spec(a.0, md)) matches Some(fa) && fa.contains(f) && forall|i: int|
            0 <= i < fa.len() ==> !is_absolute(#[trigger] fa[i]),
        lookup(listings, join_spec(b.0, md)) matches Some(fb) && forall|i: int|
            0 <= i < fb.len() ==> !is_absolute(#[trigger] fb[i]),
    ensures
        ({
            let ops = post_mounts(seq![a, b], seq![md], ld, name, prefix, base, listings).0;
            let dst = join_spec(join_spec(base, md), f);
            exists|i: int|
                0 <= i < ops.len() && ops[i] == OpSpec::Symlink(join_spec(join_spec(a.1, md), f), dst)
                    && forall|j: int| 0 <= j < ops.len() && j != i ==> link_of(#[trigger] ops[j]) != Some(dst)
        }),
{
    let ms = seq![a, b];
    let mds = seq![md];
    let empty_ops = Seq::<OpSpec>::empty();
    let empty_names = Seq::<Seq<char>>::empty();
    let fa = lookup(listings, join_spec(a.0, md))->Some_0;
    let fb = lookup(listings, join_spec(b.0, md))->Some_0;
    let dd = join_spec(base, md);
    let dst = join_spec(dd, f);
    assert(ms.drop_last() == seq![a]);
    assert(seq![a].drop_last() == Seq::<(Seq<char>, Seq<char>, Seq<char>)>::empty());
    assert(mds.drop_last() == empty_names);
    let before = post_mounts(seq![a].drop_last(), mds, ld, name, prefix, base, listings);
    assert(before == (empty_ops, empty_names));
    let st_a = (empty_ops, empty_names, empty_names);
    let sa = merge_files(fa, join_spec(a.0, md), join_spec(a.1, md), dd, st_a);
    assert(mds.last() == md);
    assert(merge_mount(empty_names, a.0, a.1, base, listings, st_a) == st_a);
    assert(merge_mount(mds, a.0, a.1, base, listings, st_a) == sa);
    lemma_merge_files_invariant(fa, join_spec(a.0, md), join_spec(a.1, md), dd, st_a);
    lemma_merge_files_claims(fa, join_spec(a.0, md), join_spec(a.1, md), dd, st_a);
    let after_a = post_mounts(seq![a], mds, ld, name, prefix, base, listings);
    assert(sa.2.contains(dst));
    let i = choose|i: int| 0 <= i < sa.0.len() && link_of(sa.0[i]) == Some(dst);
    let g = choose|g: Seq<char>| fa.contains(g) && sa.0[i] == OpSpec::Symlink(join_spec(join_spec(a.1, md), g), join_spec(dd, g));
    let kg = choose|k: int| 0 <= k < fa.len() && fa[k] == g;
    let kf = choose|k: int| 0 <= k < fa.len() && fa[k] == f;
    assert(!is_absolute(fa[kg]));
    assert(!is_absolute(fa[kf]));
    lemma_join_injective(dd, g, f);
    // the linker configuration, if any, adds no symlink
    assert(after_a.1 == sa.2);
    assert(links_distinct(after_a.0) && claims_match(after_a.0, after_a.1) && after_a.0[i] == sa.0[i] && i < after_a.0.len()) by {
        match ld {
            Some(l) => {
                let op = ld_conf_op(prefix, name, a.2, join_spec(a.1, l));
                assert(after_a.0 == sa.0.push(op));
                assert(link_of(op) is None);
                assert forall|x: int, y: int|
                    0 <= x < after_a.0.len() && 0 <= y < after_a.0.len() && x != y && #[trigger] link_of(after_a.0[x]) is Some
                        implies link_of(after_a.0[x]) != #[trigger] link_of(after_a.0[y]) by {
                    if x < sa.0.len() && y < sa.0.len() {
                        assert(after_a.0[x] == sa.0[x] && after_a.0[y] == sa.0[y]);
                    } else if x < sa.0.len() {
                        assert(after_a.0[x] == sa.0[x]);
                    }
                }
                assert forall|d: Seq<char>| #![trigger after_a.1.contains(d)]
                    after_a.1.contains(d) <==> exists|x: int| 0 <= x < after_a.0.len() && link_of(after_a.0[x]) == Some(d) by {
                    if after_a.1.contains(d) {
                        let x = choose|x: int| 0 <= x < sa.0.len() && link_of(sa.0[x]) == Some(d);
                        assert(after_a.0[x] == sa.0[x]);
                    }
                    if exists|x: int| 0 <= x < after_a.0.len() && link_of(after_a.0[x]) == Some(d) {
                        let x = choose|x: int| 0 <= x < after_a.0.len() && link_of(after_a.0[x]) == Some(d);
                        assert(x < sa.0.len());
                        assert(after_a.0[x] == sa.0[x]);
                    }
                }
            },
            None => {
                assert(after_a.0 == sa.0);
            },
        }
    }
    let st_b = (after_a.0, empty_names, after_a.1);
    let sb = merge_files(fb, join_spec(b.0, md), join_spec(b.1, md), dd, st_b);
    assert(merge_mount(empty_names, b.0, b.1, base, listings, st_b) == st_b);
    assert(merge_mount(mds, b.0, b.1, base, listings, st_b) == sb);
    lemma_merge_files_invariant(fb, join_spec(b.0, md), join_spec(b.1, md), dd, st_b);
    let ops = post_mounts(ms, mds, ld, name, prefix, base, listings).0;
    assert(sb.0[i] == after_a.0[i]);
    assert(links_distinct(ops) && ops[i] == sb.0[i] && i < ops.len()) by {
        match ld {
            Some(l) => {
                let op = ld_conf_op(prefix, name, b.2, join_spec(b.1, l));
                assert(ops == sb.0.push(op));
                assert(link_of(op) is None);
                assert forall|x: int, y: int|
                    0 <= x < ops.len() && 0 <= y < ops.len() && x != y && #[trigger] link_of(ops[x]) is Some
                        implies link_of(ops[x]) != #[trigger] link_of(ops[y]) by {
                    if x < sb.0.len() && y < sb.0.len() {
                        assert(ops[x] == sb.0[x] && ops[y] == sb.0[y]);
                    } else if x < sb.0.len() {
                        assert(ops[x] == sb.0[x]);
                    }
                }
            },
            None => {
                assert(ops == sb.0);
            },
        }
    }
    assert(ops[i] == OpSpec::Symlink(join_spec(join_spec(a.1, md), f), dst));
    assert forall|j: int| 0 <= j < ops.len() && j != i implies link_of(#[trigger] ops[j]) != Some(dst) by {
        assert(link_of(ops[i]) is Some);
    }
}

proof fn lemma_impl_id(name: Seq<char>, impl_name: Seq<char>)
    ensures
        (name + "."@).is_prefix_of(name + "."@ + impl_name),
        (name + "."@ + impl_name).skip((name + "."@).len() as int) == impl_name,
{
    let p = name + "."@;
    assert((p + impl_name).subrange(0, p.len() as int) =~= p);
    assert((p + impl_name).skip(p.len() as int) =~= impl_name);
}

/// Declared version order, for one implementation of an extension: when
/// implementation `impl_name` is enabled and candidate version `k` is the
/// first that is installed, the implementation is mounted at
/// `<mount point>/<impl_name>` from the files of version `k`.
pub proof fn lemma_mount_uses_first_installed_version(impl_name: Seq<char>, inp: ExtInputs, k: int)
    requires
        impl_enabled(lookup(inp.decl, "enable-if"@), impl_name, inp.gl_tag),
        0 <= k < inp.versions.len(),
        install_lookup(inp.dirs, false, ext_files_path(inp.name + "."@ + impl_name, inp.arch, inp.versions[k]), inp.existing) is Some,
        forall|j: int|
            0 <= j < k ==> (#[trigger] install_lookup(
                inp.dirs,
                false,
                ext_files_path(inp.name + "."@ + impl_name, inp.arch, inp.versions[j]),
                inp.existing,
            )) is None,
    ensures
        mount_for(inp.name + "."@ + impl_name, inp) == Some(
            (
                install_lookup(
                    inp.dirs,
                    false,
                    ext_files_path(inp.name + "."@ + impl_name, inp.arch, inp.versions[k]),
                    inp.existing,
                )->Some_0,
                join_spec(inp.base, impl_name),
                impl_name,
            ),
        ),
{
    lemma_impl_id(inp.name, impl_name);
    lemma_versions_in_declared_order(inp.versions, inp.name + "."@ + impl_name, inp.arch, inp.dirs, inp.existing, k);
}

/// GPU driver selection, for one implementation of an extension declared with
/// `enable-if = active-gl-driver`, the host driver version file holding `raw`:
/// an implementation other than `default`, `host` and `nvidia-<tag>` (the
/// trimmed version with dots turned into dashes) is never mounted.
pub proof fn lemma_gl_driver_mounts(impl_name: Seq<char>, inp: ExtInputs, raw: Seq<char>)
    requires
        lookup(inp.decl, "enable-if"@) == Some("active-gl-driver"@),
        inp.gl_tag == Some(driver_tag(raw)),
        impl_name != "default"@,
        impl_name != "host"@,
        impl_name != "nvidia-"@ + driver_tag(raw),
    ensures
        mount_for(inp.name + "."@ + impl_name, inp) is None,
{
    lemma_impl_id(inp.name, impl_name);
    lemma_gl_driver_enablement(impl_name, raw);
}

/// Merged directories, first registered implementation wins, for a whole
/// declaration: when it resolves to two mounts, `a` then `b`, with one merge
/// directory `md` in which both hold file `f`, its operations hold exactly
/// one symlink at the shared path of `f`, pointing into `a`.
pub proof fn lemma_extension_merge_first_wins(
    decl: Seq<(Seq<char>, Seq<char>)>,
    name: Seq<char>,
    arch: Seq<char>,
    fallback: Seq<char>,
    avail: Seq<Seq<char>>,
    dirs: Seq<Seq<char>>,
    host: HostSnapshot,
    base_path: Seq<char>,
    ld_prefix: Seq<char>,
    a: (Seq<char>, Seq<char>, Seq<char>),
    b: (Seq<char>, Seq<char>, Seq<char>),
    md: Seq<char>,
    f: Seq<char>,
)
    requires
        extension_spec(decl, name, arch, fallback, avail, dirs, host, base_path, ld_prefix) is Ok,
        mounts_spec(
            avail,
            ExtInputs {
                decl,
                name,
                arch,
                versions: allowed_versions(decl, fallback),
                dirs,
                existing: texts(host.existing@),
                gl_tag: gl_tag_of(host),
                base: join_spec(base_path, lookup(decl, "directory"@)->Some_0),
            },
        ) == seq![a, b],
        merge_dirs_of(decl) == seq![md],
        lookup(crate::snapshot::listings_view(host.listings@), join_spec(a.0, md)) matches Some(fa) && fa.contains(f)
            && forall|i: int| 0 <= i < fa.len() ==> !is_absolute(#[trigger] fa[i]),
        lookup(crate::snapshot::listings_view(host.listings@), join_spec(b.0, md)) matches Some(fb) && forall|i: int|
            0 <= i < fb.len() ==> !is_absolute(#[trigger] fb[i]),
    ensures
        ({
            let ops = extension_spec(decl, name, arch, fallback, avail, dirs, host, base_path, ld_prefix)->Ok_0;
            let base = join_spec(base_path, lookup(decl, "directory"@)->Some_0);
            let dst = join_spec(join_spec(base, md), f);
            exists|i: int|
                0 <= i < ops.len() && ops[i] == OpSpec::Symlink(join_spec(join_spec(a.1, md), f), dst)
                    && forall|j: int| 0 <= j < ops.len() && j != i ==> link_of(#[trigger] ops[j]) != Some(dst)
        }),
{
    let base = join_spec(base_path, lookup(decl, "directory"@)->Some_0);
    let ls = crate::snapshot::listings_view(host.listings@);
    let ld = lookup(decl, "add-ld-path"@);
    let ms = seq![a, b];
    let ops = extension_spec(decl, name, arch, fallback, avail, dirs, host, base_path, ld_prefix)->Ok_0;
    let post = post_mounts(ms, seq![md], ld, name, ld_prefix, base, ls).0;
    let head = seq![OpSpec::Tmpfs(base)] + bind_ops(ms);
    assert(ops == head + post);
    lemma_merge_first_wins(a, b, md, f, ld, name, ld_prefix, base, ls);
    let dst = join_spec(join_spec(base, md), f);
    let k = choose|k: int|
        0 <= k < post.len() && post[k] == OpSpec::Symlink(join_spec(join_spec(a.1, md), f), dst)
            && forall|j: int| 0 <= j < post.len() && j != k ==> link_of(#[trigger] post[j]) != Some(dst);
    assert(head.len() == 3);
    assert(ops[head.len() + k] == post[k]);
    assert forall|j: int| 0 <= j < ops.len() && j != head.len() + k implies link_of(#[trigger] ops[j]) != Some(dst) by {
        if j < head.len() {
            assert(ops[j] == head[j]);
            assert(head[j] is Tmpfs || head[j] is Bind);
        } else {
            assert(ops[j] == post[j - head.len()]);
        }
    }
}

} // verus!
