//! Resolution of images against the ordered list of install roots.

use crate::text::{contains_text, join, join_spec, texts};
use vstd::prelude::*;

verus! {

/// The subdirectory of an install root that holds images of a kind.
pub open spec fn kind_dir(is_app: bool) -> Seq<char> {
    if is_app {
        "app"@
    } else {
        "runtime"@
    }
}

/// Where image `name` of a kind would stand under install root `dir`.
pub open spec fn install_candidate(dir: Seq<char>, is_app: bool, name: Seq<char>) -> Seq<char> {
    join_spec(join_spec(dir, kind_dir(is_app)), name)
}

/// The first root, in order, under which the image exists, as its full path.
pub open spec fn install_lookup(
    dirs: Seq<Seq<char>>,
    is_app: bool,
    name: Seq<char>,
    existing: Seq<Seq<char>>,
) -> Option<Seq<char>>
    decreases dirs.len(),
{
    if dirs.len() == 0 {
        None
    } else if existing.contains(install_candidate(dirs[0], is_app, name)) {
        Some(install_candidate(dirs[0], is_app, name))
    } else {
        install_lookup(dirs.skip(1), is_app, name, existing)
    }
}

/// Finds `<root>/<app|runtime>/<name>` under the first root where it exists;
/// `existing` lists the paths known to exist on the host.
pub fn find_install_path(
    name: &str,
    is_app: bool,
    install_dirs: &Vec<String>,
    existing: &Vec<String>,
) -> (r: Option<String>)
    ensures
        match r {
            Some(p) => install_lookup(texts(install_dirs@), is_app, name@, texts(existing@))
                == Some(p@),
            None => install_lookup(texts(install_dirs@), is_app, name@, texts(existing@)) is None,
        },
{
    let infix = if is_app {
        "app"
    } else {
        "runtime"
    };
    proof {
        reveal_strlit("app");
        reveal_strlit("runtime");
    }
    let ghost dirs = texts(install_dirs@);
    let mut i: usize = 0;
    assert(dirs.skip(0) == dirs);
    while i < install_dirs.len()
        invariant
            i <= install_dirs@.len(),
            dirs == texts(install_dirs@),
            infix@ == kind_dir(is_app),
            install_lookup(dirs, is_app, name@, texts(existing@)) == install_lookup(
                dirs.skip(i as int),
                is_app,
                name@,
                texts(existing@),
            ),
        decreases install_dirs@.len() - i,
    {
        let path = join(join(install_dirs[i].as_str(), infix).as_str(), name);
        assert(dirs.skip(i as int)[0] == install_dirs@[i as int]@);
        assert(dirs.skip(i as int).skip(1) == dirs.skip(i + 1));
        if contains_text(existing, path.as_str()) {
            return Some(path);
        }
        i = i + 1;
    }
    assert(dirs.skip(i as int).len() == 0);
    None
}

/// Resolution against install roots: when the image exists under exactly one
/// root, the result is that root's candidate path wherever the root stands in
/// the list; when it exists under none, there is no result.
pub proof fn lemma_install_lookup_unique(
    dirs: Seq<Seq<char>>,
    is_app: bool,
    name: Seq<char>,
    existing: Seq<Seq<char>>,
    k: int,
)
    requires
        0 <= k < dirs.len(),
        existing.contains(install_candidate(dirs[k], is_app, name)),
        forall|j: int|
            0 <= j < dirs.len() && j != k ==> !existing.contains(
                #[trigger] install_candidate(dirs[j], is_app, name),
            ),
    ensures
        install_lookup(dirs, is_app, name, existing) == Some(install_candidate(dirs[k], is_app, name)),
    decreases dirs.len(),
{
    if k > 0 {
        assert(!existing.contains(install_candidate(dirs[0], is_app, name)));
        let rest = dirs.skip(1);
        assert forall|j: int| 0 <= j < rest.len() && j != k - 1 implies !existing.contains(
            #[trigger] install_candidate(rest[j], is_app, name),
        ) by {
            assert(rest[j] == dirs[j + 1]);
        }
        assert(rest[k - 1] == dirs[k]);
        lemma_install_lookup_unique(rest, is_app, name, existing, k - 1);
    }
}

/// Resolution against install roots finds nothing when the image exists under
/// no root.
pub proof fn lemma_install_lookup_absent(
    dirs: Seq<Seq<char>>,
    is_app: bool,
    name: Seq<char>,
    existing: Seq<Seq<char>>,
)
    requires
        forall|j: int|
            0 <= j < dirs.len() ==> !existing.contains(
                #[trigger] install_candidate(dirs[j], is_app, name),
            ),
    ensures
        install_lookup(dirs, is_app, name, existing) is None,
    decreases dirs.len(),
{
    if dirs.len() > 0 {
        let rest = dirs.skip(1);
        assert forall|j: int| 0 <= j < rest.len() implies !existing.contains(
            #[trigger] install_candidate(rest[j], is_app, name),
        ) by {
            assert(rest[j] == dirs[j + 1]);
        }
        assert(!existing.contains(install_candidate(dirs[0], is_app, name)));
        lemma_install_lookup_absent(rest, is_app, name, existing);
    }
}

/// The installed runtime identifiers of all roots, root by root, keeping
/// duplicates.
pub fn list_available_runtimes(per_root: &Vec<Vec<String>>) -> (r: Vec<String>)
    ensures
        texts(r@) == per_root@.map_values(|v: Vec<String>| texts(v@)).flatten(),
{
    let mut out: Vec<String> = Vec::new();
    let mut i: usize = 0;
    while i < per_root.len()
        invariant
            i <= per_root@.len(),
            texts(out@) == per_root@.take(i as int).map_values(|v: Vec<String>| texts(v@)).flatten(),
        decreases per_root@.len() - i,
    {
        let ghost before = texts(out@);
        let row = &per_root[i];
        let mut j: usize = 0;
        while j < row.len()
            invariant
                j <= row@.len(),
                texts(out@) == before + texts(row@).take(j as int),
            decreases row@.len() - j,
        {
            let ghost prev = out@;
            out.push(row[j].clone());
            assert(texts(out@) == texts(prev).push(row@[j as int]@));
            assert(texts(row@).take(j + 1) == texts(row@).take(j as int).push(row@[j as int]@));
            assert(texts(out@) =~= before + texts(row@).take(j + 1));
            j = j + 1;
        }
        assert(texts(row@).take(j as int) == texts(row@));
        let ghost rows = per_root@.take(i + 1).map_values(|v: Vec<String>| texts(v@));
        assert(rows.drop_last() == per_root@.take(i as int).map_values(|v: Vec<String>| texts(v@)));
        assert(rows.last() == texts(row@));
        proof {
            rows.lemma_flatten_and_flatten_alt_are_equivalent();
            rows.drop_last().lemma_flatten_and_flatten_alt_are_equivalent();
        }
        i = i + 1;
    }
    assert(per_root@.take(i as int) == per_root@);
    out
}

} // verus!
