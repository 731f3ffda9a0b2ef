//! The ordered accumulator of sandbox construction operations, and its
//! rendering into the argument vector of bubblewrap.

use vstd::prelude::*;

verus! {

/// One sandbox construction operation; later ones may shadow earlier ones.
#[derive(Debug, Clone, PartialEq, Eq)]
pub enum MountOp {
    Tmpfs { path: String },
    Bind { source: String, dest: String, writable: bool },
    DevBind { source: String, dest: String },
    Symlink { target: String, link: String },
    SetEnv { key: String, value: String },
    UnsetEnv { key: String },
    /// A file with the given contents, made visible read-only at `path`.
    VirtualFile { path: String, contents: String },
}

/// The mathematical value of a `MountOp`.
pub ghost enum OpSpec {
    Tmpfs(Seq<char>),
    Bind(Seq<char>, Seq<char>, bool),
    DevBind(Seq<char>, Seq<char>),
    Symlink(Seq<char>, Seq<char>),
    SetEnv(Seq<char>, Seq<char>),
    UnsetEnv(Seq<char>),
    VirtualFile(Seq<char>, Seq<char>),
}

impl View for MountOp {
    type V = OpSpec;

    open spec fn view(&self) -> OpSpec {
        match self {
            MountOp::Tmpfs { path } => OpSpec::Tmpfs(path@),
            MountOp::Bind { source, dest, writable } => OpSpec::Bind(source@, dest@, *writable),
            MountOp::DevBind { source, dest } => OpSpec::DevBind(source@, dest@),
            MountOp::Symlink { target, link } => OpSpec::Symlink(target@, link@),
            MountOp::SetEnv { key, value } => OpSpec::SetEnv(key@, value@),
            MountOp::UnsetEnv { key } => OpSpec::UnsetEnv(key@),
            MountOp::VirtualFile { path, contents } => OpSpec::VirtualFile(path@, contents@),
        }
    }
}

pub open spec fn ops_view(ops: Seq<MountOp>) -> Seq<OpSpec> {
    ops.map_values(|o: MountOp| o@)
}

/// Builds the sandbox description one operation at a time, in call order.
pub struct BwrapBuilder {
    ops: Vec<MountOp>,
    apparmor_unconfined: bool,
}

impl View for BwrapBuilder {
    type V = Seq<OpSpec>;

    closed spec fn view(&self) -> Seq<OpSpec> {
        ops_view(self.ops@)
    }
}

impl BwrapBuilder {
    /// Whether the final invocation goes through `aa-exec -p unconfined`.
    pub closed spec fn wrapped(&self) -> bool {
        self.apparmor_unconfined
    }

    pub fn new() -> (r: Self)
        ensures
            r@ == Seq::<OpSpec>::empty(),
            !r.wrapped(),
    {
        BwrapBuilder { ops: Vec::new(), apparmor_unconfined: false }
    }

    fn push(&mut self, op: MountOp)
        ensures
            final(self)@ == old(self)@.push(op@),
            final(self).wrapped() == old(self).wrapped(),
    {
        self.ops.push(op);
        assert(ops_view(self.ops@) == ops_view(old(self).ops@).push(op@));
    }

    pub fn tmpfs(&mut self, path: &str) -> (r: &mut Self)
        ensures
            (*r)@ == old(self)@.push(OpSpec::Tmpfs(path@)),
            (*r).wrapped() == old(self).wrapped(),
            *final(self) == *final(r),
    {
        self.push(MountOp::Tmpfs { path: path.to_owned() });
        self
    }

    pub fn bind(&mut self, source: &str, dest: &str) -> (r: &mut Self)
        ensures
            (*r)@ == old(self)@.push(OpSpec::Bind(source@, dest@, true)),
            (*r).wrapped() == old(self).wrapped(),
            *final(self) == *final(r),
    {
        self.push(MountOp::Bind { source: source.to_owned(), dest: dest.to_owned(), writable: true });
        self
    }

    pub fn ro_bind(&mut self, source: &str, dest: &str) -> (r: &mut Self)
        ensures
            (*r)@ == old(self)@.push(OpSpec::Bind(source@, dest@, false)),
            (*r).wrapped() == old(self).wrapped(),
            *final(self) == *final(r),
    {
        self.push(
            MountOp::Bind { source: source.to_owned(), dest: dest.to_owned(), writable: false },
        );
        self
    }

    pub fn symlink(&mut self, source: &str, dest: &str) -> (r: &mut Self)
        ensures
            (*r)@ == old(self)@.push(OpSpec::Symlink(source@, dest@)),
            (*r).wrapped() == old(self).wrapped(),
            *final(self) == *final(r),
    {
        self.push(MountOp::Symlink { target: source.to_owned(), link: dest.to_owned() });
        self
    }

    pub fn set_env(&mut self, key: &str, value: &str) -> (r: &mut Self)
        ensures
            (*r)@ == old(self)@.push(OpSpec::SetEnv(key@, value@)),
            (*r).wrapped() == old(self).wrapped(),
            *final(self) == *final(r),
    {
        self.push(MountOp::SetEnv { key: key.to_owned(), value: value.to_owned() });
        self
    }

    pub fn unset_env(&mut self, key: &str) -> (r: &mut Self)
        ensures
            (*r)@ == old(self)@.push(OpSpec::UnsetEnv(key@)),
            (*r).wrapped() == old(self).wrapped(),
            *final(self) == *final(r),
    {
        self.push(MountOp::UnsetEnv { key: key.to_owned() });
        self
    }

    pub fn dev_bind(&mut self, source: &str, dest: &str) -> (r: &mut Self)
        ensures
            (*r)@ == old(self)@.push(OpSpec::DevBind(source@, dest@)),
            (*r).wrapped() == old(self).wrapped(),
            *final(self) == *final(r),
    {
        self.push(MountOp::DevBind { source: source.to_owned(), dest: dest.to_owned() });
        self
    }

    /// Makes a file holding `contents` visible read-only at `path`; the file
    /// itself is written to the backing store when the invocation is made.
    pub fn ro_bind_data(&mut self, path: &str, contents: &str) -> (r: &mut Self)
        ensures
            (*r)@ == old(self)@.push(OpSpec::VirtualFile(path@, contents@)),
            (*r).wrapped() == old(self).wrapped(),
            *final(self) == *final(r),
    {
        self.push(MountOp::VirtualFile { path: path.to_owned(), contents: contents.to_owned() });
        self
    }

    /// Runs the final invocation through `aa-exec -p unconfined`.
    pub fn wrap_apparmor_unconfined(self) -> (r: Self)
        ensures
            r@ == self@,
            r.wrapped(),
    {
        BwrapBuilder { ops: self.ops, apparmor_unconfined: true }
    }

    /// The operations in the order they were added.
    pub fn operations(&self) -> (r: &Vec<MountOp>)
        ensures
            ops_view(r@) == self@,
    {
        &self.ops
    }

    /// The contents of every virtual file, in the order they were added; the
    /// backing store writes them and hands their paths to `finish`.
    pub fn virtual_files(&self) -> (r: Vec<String>)
        ensures
            r@.map_values(|s: String| s@) == virtual_contents(self@),
    {
        let mut r: Vec<String> = Vec::new();
        let mut i: usize = 0;
        while i < self.ops.len()
            invariant
                i <= self.ops@.len(),
                r@.map_values(|s: String| s@) == virtual_contents(ops_view(self.ops@.take(i as int))),
            decreases self.ops@.len() - i,
        {
            assert(ops_view(self.ops@.take(i + 1)).drop_last() == ops_view(self.ops@.take(i as int)));
            match &self.ops[i] {
                MountOp::VirtualFile { path: _, contents } => {
                    r.push(contents.clone());
                },
                _ => {},
            }
            assert(r@.map_values(|s: String| s@) == virtual_contents(ops_view(self.ops@.take(i + 1))));
            i = i + 1;
        }
        assert(self.ops@.take(self.ops@.len() as int) == self.ops@);
        r
    }

    /// The full command line, program first, for the operations added so far;
    /// `data_paths[k]` is where the backing store holds the `k`-th virtual file.
    pub fn finish(self, data_paths: &Vec<String>) -> (r: Vec<String>)
        requires
            data_paths@.len() == virtual_contents(self@).len(),
        ensures
            r@.map_values(|s: String| s@) == command_line(
                self@,
                self.wrapped(),
                data_paths@.map_values(|s: String| s@),
            ),
    {
        let mut r: Vec<String> = Vec::new();
        if self.apparmor_unconfined {
            r.push(lit("aa-exec"));
            r.push(lit("-p"));
            r.push(lit("unconfined"));
        }
        r.push(lit("bwrap"));
        let ghost head = r@.map_values(|s: String| s@);
        assert(head == program_prefix(self.apparmor_unconfined));
        let ghost paths = data_paths@.map_values(|s: String| s@);
        let n_paths = data_paths.len();
        let mut k: usize = 0;
        let mut i: usize = 0;
        while i < self.ops.len()
            invariant
                n_paths == paths.len(),
                i <= self.ops@.len(),
                paths == data_paths@.map_values(|s: String| s@),
                paths.len() == virtual_contents(ops_view(self.ops@)).len(),
                k == virtual_contents(ops_view(self.ops@.take(i as int))).len(),
                r@.map_values(|s: String| s@) == head + op_args(ops_view(self.ops@.take(i as int)), paths),
            decreases self.ops@.len() - i,
        {
            let ghost pre = ops_view(self.ops@.take(i as int));
            let ghost cur = ops_view(self.ops@.take(i + 1));
            assert(cur.drop_last() == pre);
            assert(cur.last() == self.ops@[i as int]@);
            let ghost old_r = r@.map_values(|s: String| s@);
            let ghost kk = k as int;
            assert(pre == ops_view(self.ops@).take(i as int));
            assert(ops_view(self.ops@)[i as int] == self.ops@[i as int]@);
            proof {
                lemma_virtual_prefix(ops_view(self.ops@), i as int);
            }
            match &self.ops[i] {
                MountOp::Tmpfs { path } => {
                    r.push(lit("--tmpfs"));
                    r.push(path.clone());
                },
                MountOp::Bind { source, dest, writable } => {
                    if *writable {
                        r.push(lit("--bind"));
                    } else {
                        r.push(lit("--ro-bind"));
                    }
                    r.push(source.clone());
                    r.push(dest.clone());
                },
                MountOp::DevBind { source, dest } => {
                    r.push(lit("--dev-bind"));
                    r.push(source.clone());
                    r.push(dest.clone());
                },
                MountOp::Symlink { target, link } => {
                    r.push(lit("--symlink"));
                    r.push(target.clone());
                    r.push(link.clone());
                },
                MountOp::SetEnv { key, value } => {
                    r.push(lit("--setenv"));
                    r.push(key.clone());
                    r.push(value.clone());
                },
                MountOp::UnsetEnv { key } => {
                    r.push(lit("--unsetenv"));
                    r.push(key.clone());
                },
                MountOp::VirtualFile { path, contents: _ } => {
                    r.push(lit("--ro-bind"));
                    assert(k < n_paths);
                    r.push(data_paths[k].clone());
                    r.push(path.clone());
                    k = k + 1;
                },
            }
            assert(r@.map_values(|s: String| s@) =~= old_r + one_op_args(cur.last(), paths[kk]));
            assert(r@.map_values(|s: String| s@) =~= head + op_args(cur, paths));
            i = i + 1;
        }
        assert(self.ops@.take(self.ops@.len() as int) == self.ops@);
        r
    }
}

fn lit(s: &str) -> (r: String)
    ensures
        r@ == s@,
{
    s.to_owned()
}

/// The contents of the virtual files among `ops`, in order.
pub open spec fn virtual_contents(ops: Seq<OpSpec>) -> Seq<Seq<char>>
    decreases ops.len(),
{
    if ops.len() == 0 {
        Seq::empty()
    } else {
        let init = virtual_contents(ops.drop_last());
        match ops.last() {
            OpSpec::VirtualFile(_, c) => init.push(c),
            _ => init,
        }
    }
}

proof fn lemma_virtual_prefix(ops: Seq<OpSpec>, i: int)
    requires
        0 <= i < ops.len(),
    ensures
        virtual_contents(ops.take(i)).len() < virtual_contents(ops).len() || !(
        ops[i] is VirtualFile),
        virtual_contents(ops.take(i)).len() <= virtual_contents(ops).len(),
    decreases ops.len(),
{
    if i == ops.len() - 1 {
        assert(ops.take(i) == ops.drop_last());
    } else {
        assert(ops.drop_last().take(i) == ops.take(i));
        lemma_virtual_prefix(ops.drop_last(), i);
    }
}

/// The program that is started, with the arguments that precede the operations.
pub open spec fn program_prefix(wrapped: bool) -> Seq<Seq<char>> {
    if wrapped {
        seq!["aa-exec"@, "-p"@, "unconfined"@, "bwrap"@]
    } else {
        seq!["bwrap"@]
    }
}

/// The flag and operands of one operation; `data` is where the backing store
/// holds this operation's file, if it is a virtual file.
pub open spec fn one_op_args(op: OpSpec, data: Seq<char>) -> Seq<Seq<char>> {
    match op {
        OpSpec::Tmpfs(p) => seq!["--tmpfs"@, p],
        OpSpec::Bind(s, d, w) => seq![if w { "--bind"@ } else { "--ro-bind"@ }, s, d],
        OpSpec::DevBind(s, d) => seq!["--dev-bind"@, s, d],
        OpSpec::Symlink(t, l) => seq!["--symlink"@, t, l],
        OpSpec::SetEnv(k, v) => seq!["--setenv"@, k, v],
        OpSpec::UnsetEnv(k) => seq!["--unsetenv"@, k],
        OpSpec::VirtualFile(p, _) => seq!["--ro-bind"@, data, p],
    }
}

/// The arguments for `ops`, the `k`-th virtual file being read from `paths[k]`.
pub open spec fn op_args(ops: Seq<OpSpec>, paths: Seq<Seq<char>>) -> Seq<Seq<char>>
    decreases ops.len(),
{
    if ops.len() == 0 {
        Seq::empty()
    } else {
        let k = virtual_contents(ops.drop_last()).len();
        op_args(ops.drop_last(), paths) + one_op_args(ops.last(), paths[k as int])
    }
}

/// The whole command line.
pub open spec fn command_line(ops: Seq<OpSpec>, wrapped: bool, paths: Seq<Seq<char>>) -> Seq<
    Seq<char>,
> {
    program_prefix(wrapped) + op_args(ops, paths)
}

proof fn lemma_op_args_up_to_data(ops: Seq<OpSpec>, pa: Seq<Seq<char>>, pb: Seq<Seq<char>>)
    requires
        virtual_contents(ops).len() <= pa.len(),
        pa.len() == pb.len(),
    ensures
        op_args(ops, pa).len() == op_args(ops, pb).len(),
        forall|k: int|
            0 <= k < op_args(ops, pa).len() ==> #[trigger] op_args(ops, pa)[k] == op_args(ops, pb)[k]
                || exists|j: int| 0 <= j < pa.len() && op_args(ops, pa)[k] == pa[j] && op_args(ops, pb)[k] == pb[j],
    decreases ops.len(),
{
    if ops.len() > 0 {
        let init = ops.drop_last();
        let n = virtual_contents(init).len();
        assert(n <= virtual_contents(ops).len());
        lemma_op_args_up_to_data(init, pa, pb);
        let a1 = op_args(init, pa);
        let a2 = op_args(init, pb);
        let o1 = one_op_args(ops.last(), pa[n as int]);
        let o2 = one_op_args(ops.last(), pb[n as int]);
        assert(op_args(ops, pa) == a1 + o1);
        assert(op_args(ops, pb) == a2 + o2);
        assert forall|k: int| 0 <= k < op_args(ops, pa).len() implies #[trigger] op_args(ops, pa)[k]
            == op_args(ops, pb)[k] || exists|j: int|
            0 <= j < pa.len() && op_args(ops, pa)[k] == pa[j] && op_args(ops, pb)[k] == pb[j] by {
            if k < a1.len() {
                assert(op_args(ops, pa)[k] == a1[k]);
                assert(op_args(ops, pb)[k] == a2[k]);
            } else {
                let m = k - a1.len();
                assert(op_args(ops, pa)[k] == o1[m]);
                assert(op_args(ops, pb)[k] == o2[m]);
                if ops.last() is VirtualFile && m == 1 {
                    assert(n < virtual_contents(ops).len());
                    assert(o1[m] == pa[n as int] && o2[m] == pb[n as int]);
                }
            }
        }
    }
}

/// Repeating a composition repeats its command line: for the same operations,
/// two sets of backing-store paths give command lines of one length that agree
/// everywhere but where each names the backing-store path of a virtual file.
pub proof fn lemma_command_line_up_to_data_paths(
    ops: Seq<OpSpec>,
    wrapped: bool,
    pa: Seq<Seq<char>>,
    pb: Seq<Seq<char>>,
)
    requires
        pa.len() == virtual_contents(ops).len(),
        pb.len() == virtual_contents(ops).len(),
    ensures
        command_line(ops, wrapped, pa).len() == command_line(ops, wrapped, pb).len(),
        forall|k: int|
            0 <= k < command_line(ops, wrapped, pa).len() ==> #[trigger] command_line(ops, wrapped, pa)[k]
                == command_line(ops, wrapped, pb)[k] || exists|j: int|
                0 <= j < pa.len() && command_line(ops, wrapped, pa)[k] == pa[j] && command_line(ops, wrapped, pb)[k]
                    == pb[j],
{
    lemma_op_args_up_to_data(ops, pa, pb);
    let h = program_prefix(wrapped);
    assert forall|k: int| 0 <= k < command_line(ops, wrapped, pa).len() implies #[trigger] command_line(ops, wrapped, pa)[k]
        == command_line(ops, wrapped, pb)[k] || exists|j: int|
        0 <= j < pa.len() && command_line(ops, wrapped, pa)[k] == pa[j] && command_line(ops, wrapped, pb)[k] == pb[j] by {
        if k >= h.len() {
            assert(command_line(ops, wrapped, pa)[k] == op_args(ops, pa)[k - h.len()]);
            assert(command_line(ops, wrapped, pb)[k] == op_args(ops, pb)[k - h.len()]);
        }
    }
}

} // verus!
