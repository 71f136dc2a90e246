//! The command line of one node: which program, which arguments, which
//! environment, and where it runs.
use vstd::prelude::*;
use vstd::string::{StrSliceExecFns, StringExecFns};

verus! {

/// What a list of strings says, string by string.
pub open spec fn strs(v: Seq<String>) -> Seq<Seq<char>> {
    v.map_values(|s: String| s@)
}

/// What a list of environment pairs says.
pub open spec fn env_pairs(v: Seq<(String, String)>) -> Seq<(Seq<char>, Seq<char>)> {
    v.map_values(|p: (String, String)| (p.0@, p.1@))
}

/// `part` placed under the directory `base`, with one `/` between them.
pub open spec fn join_path(base: Seq<char>, part: Seq<char>) -> Seq<char> {
    if base.len() == 0 {
        part
    } else if base.last() == '/' {
        base + part
    } else {
        base + seq!['/'] + part
    }
}

/// The arguments that put a node's data and logs in `dir`.
pub open spec fn dir_args(dir: Seq<char>) -> Seq<Seq<char>> {
    seq!["--root-dir"@, dir, "--log-dir"@, dir]
}

/// The arguments that run the node binary under `cargo flamegraph`, writing the
/// graph for the node `name`.
pub open spec fn flame_args(name: Seq<char>) -> Seq<Seq<char>> {
    seq![
        "flamegraph"@,
        "-o "@ + name + "-flame.svg"@,
        "--root"@,
        "--bin"@,
        "sn_node"@,
        "--"@,
    ]
}

/// The ordered arguments common to every node.
#[derive(Clone, Debug)]
pub struct NodeArgs {
    pub tokens: Vec<String>,
}

impl View for NodeArgs {
    type V = Seq<Seq<char>>;

    open spec fn view(&self) -> Seq<Seq<char>> {
        strs(self.tokens@)
    }
}

/// Appends copies of `src` to `out`.
pub fn append_strings(out: &mut Vec<String>, src: &Vec<String>)
    ensures
        strs(final(out)@) == strs(old(out)@) + strs(src@),
{
    let mut k: usize = 0;
    while k < src.len()
        invariant
            k <= src@.len(),
            strs(out@) == strs(old(out)@) + strs(src@.take(k as int)),
        decreases src@.len() - k,
    {
        let ghost before = out@;
        out.push(src[k].clone());
        proof {
            assert(strs(out@) =~= strs(before).push(src@[k as int]@));
            assert(strs(src@.take(k + 1)) =~= strs(src@.take(k as int)).push(src@[k as int]@));
        }
        k = k + 1;
    }
    proof {
        assert(src@.take(k as int) =~= src@);
    }
}

/// Appends copies of the pairs of `src` to `out`.
fn append_pairs(out: &mut Vec<(String, String)>, src: &Vec<(String, String)>)
    ensures
        env_pairs(final(out)@) == env_pairs(old(out)@) + env_pairs(src@),
{
    let mut k: usize = 0;
    while k < src.len()
        invariant
            k <= src@.len(),
            env_pairs(out@) == env_pairs(old(out)@) + env_pairs(src@.take(k as int)),
        decreases src@.len() - k,
    {
        let ghost before = out@;
        let key = src[k].0.clone();
        let value = src[k].1.clone();
        out.push((key, value));
        proof {
            assert(env_pairs(out@) =~= env_pairs(before).push((src@[k as int].0@, src@[k as int].1@)));
            assert(env_pairs(src@.take(k + 1)) =~= env_pairs(src@.take(k as int)).push(
                (src@[k as int].0@, src@[k as int].1@),
            ));
        }
        k = k + 1;
    }
    proof {
        assert(src@.take(k as int) =~= src@);
    }
}

/// `part` placed under the directory `base`.
pub fn join_dir(base: &str, part: &str) -> (r: String)
    ensures
        r@ == join_path(base@, part@),
{
    proof {
        reveal_strlit("/");
    }
    let n = base.unicode_len();
    let mut r = String::from_str(base);
    if n == 0 {
        return String::from_str(part);
    }
    if base.get_char(n - 1) != '/' {
        r.append("/");
    }
    r.append(part);
    r
}

/// One process to start: its program, arguments and environment, and the
/// directory it runs in (created first) where that is not the current one.
#[derive(Clone, Debug)]
pub struct Invocation {
    pub program: String,
    pub args: Vec<String>,
    pub envs: Vec<(String, String)>,
    pub work_dir: Option<String>,
}

/// How to start the node binary: its path, environment and common arguments.
#[derive(Clone, Debug)]
pub struct NodeCmd {
    pub path: String,
    pub envs: Vec<(String, String)>,
    pub args: NodeArgs,
    /// Run under `cargo flamegraph`.
    pub flame: bool,
}

impl NodeCmd {
    pub fn new(path: String) -> (r: NodeCmd)
        ensures
            r.path@ == path@,
            r.envs@.len() == 0,
            r.args@.len() == 0,
            !r.flame,
    {
        let r = NodeCmd { path, envs: Vec::new(), args: NodeArgs { tokens: Vec::new() }, flame: false };
        assert(r.args@ =~= Seq::<Seq<char>>::empty());
        r
    }

    pub fn path(&self) -> (r: &str)
        ensures
            r@ == self.path@,
    {
        self.path.as_str()
    }

    pub fn set_flame(&mut self, flame: bool)
        ensures
            final(self).flame == flame,
            final(self).path == old(self).path,
            final(self).envs == old(self).envs,
            final(self).args == old(self).args,
    {
        self.flame = flame;
    }

    pub fn gen_flamegraph(&self) -> (r: bool)
        ensures
            r == self.flame,
    {
        self.flame
    }

    pub fn args(&self) -> (r: &NodeArgs)
        ensures
            r == &self.args,
    {
        &self.args
    }

    pub fn push_env(&mut self, key: String, value: String)
        ensures
            env_pairs(final(self).envs@) == env_pairs(old(self).envs@).push((key@, value@)),
            final(self).path == old(self).path,
            final(self).args == old(self).args,
            final(self).flame == old(self).flame,
    {
        let ghost before = self.envs@;
        self.envs.push((key, value));
        assert(env_pairs(self.envs@) =~= env_pairs(before).push((key@, value@)));
    }

    pub fn push_arg(&mut self, arg: String)
        ensures
            final(self).args@ == old(self).args@.push(arg@),
            final(self).path == old(self).path,
            final(self).envs == old(self).envs,
            final(self).flame == old(self).flame,
    {
        let ghost before = self.args.tokens@;
        self.args.tokens.push(arg);
        assert(strs(self.args.tokens@) =~= strs(before).push(arg@));
    }

    /// A copy of this command whose arguments go on with `extra`.
    pub fn with_args(&self, extra: &Vec<String>) -> (r: NodeCmd)
        ensures
            r.path@ == self.path@,
            env_pairs(r.envs@) == env_pairs(self.envs@),
            r.args@ == self.args@ + strs(extra@),
            r.flame == self.flame,
    {
        let mut envs: Vec<(String, String)> = Vec::new();
        append_pairs(&mut envs, &self.envs);
        let mut tokens: Vec<String> = Vec::new();
        append_strings(&mut tokens, &self.args.tokens);
        append_strings(&mut tokens, extra);
        proof {
            assert(env_pairs(envs@) =~= env_pairs(self.envs@));
            assert(strs(tokens@) =~= self.args@ + strs(extra@));
        }
        NodeCmd { path: self.path.clone(), envs, args: NodeArgs { tokens }, flame: self.flame }
    }

    /// The process that starts the node `node_name` with its data and logs in
    /// `nodes_dir/node_name`.
    pub fn invocation(&self, node_name: &str, nodes_dir: &str) -> (r: Invocation)
        ensures
            r.program@ == (if self.flame {
                "cargo"@
            } else {
                self.path@
            }),
            strs(r.args@) == (if self.flame {
                flame_args(node_name@)
            } else {
                Seq::empty()
            }) + self.args@ + dir_args(join_path(nodes_dir@, node_name@)),
            env_pairs(r.envs@) == env_pairs(self.envs@),
            match r.work_dir {
                Some(w) => self.flame && w@ == node_name@,
                None => !self.flame,
            },
    {
        let node_dir = join_dir(nodes_dir, node_name);
        let mut args: Vec<String> = Vec::new();
        if self.flame {
            args.push(String::from_str("flamegraph"));
            let mut graph = String::from_str("-o ");
            graph.append(node_name);
            graph.append("-flame.svg");
            args.push(graph);
            args.push(String::from_str("--root"));
            args.push(String::from_str("--bin"));
            args.push(String::from_str("sn_node"));
            args.push(String::from_str("--"));
        }
        let ghost head = strs(args@);
        append_strings(&mut args, &self.args.tokens);
        let ghost mid = strs(args@);
        args.push(String::from_str("--root-dir"));
        args.push(node_dir.clone());
        args.push(String::from_str("--log-dir"));
        args.push(node_dir);
        proof {
            if self.flame {
                assert(head =~= flame_args(node_name@));
            } else {
                assert(head =~= Seq::<Seq<char>>::empty());
            }
            assert(strs(args@) =~= mid + dir_args(join_path(nodes_dir@, node_name@)));
        }
        let mut envs: Vec<(String, String)> = Vec::new();
        append_pairs(&mut envs, &self.envs);
        assert(env_pairs(envs@) =~= env_pairs(self.envs@));
        let program = if self.flame {
            String::from_str("cargo")
        } else {
            self.path.clone()
        };
        let work_dir = if self.flame {
            Some(String::from_str(node_name))
        } else {
            None
        };
        Invocation { program, args, envs, work_dir }
    }
}

} // verus!
