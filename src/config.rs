//! The settings of a launch or a join, and how they turn into node commands.
use vstd::prelude::*;
use vstd::string::StringExecFns;

use crate::command::{dir_args, env_pairs, flame_args, join_dir, join_path, strs, Invocation, NodeCmd};
use crate::decimal::{decimal, decimal_string};
use crate::endpoint::{endpoint_text, Endpoint};
use crate::orchestrator::{Action, Failure, NodeRole, Orchestrator};
use crate::registry::{distinct_endpoints, registry_text, same_members, serialize_contacts};

verus! {

/// The log filter handed to nodes when none is given.
pub const DEFAULT_RUST_LOG: &'static str = "safe_network=debug";

/// The node binary's file name.
pub const NODE_EXECUTABLE: &'static str = "sn_node";

/// The node binary's file name on Windows.
pub const NODE_EXECUTABLE_WINDOWS: &'static str = "sn_node.exe";

/// The verbosity flag for nodes: `-vv`, one more `v` for each extra level, so
/// that nodes log at least at INFO level (the genesis node logs its contact
/// information at that level).
pub open spec fn verbosity_flag(extra: u8) -> Seq<char> {
    seq!['-'] + Seq::new(2 + extra as nat, |i: int| 'v')
}

/// `[flag, value]` where a value is given.
pub open spec fn opt_number_args(flag: Seq<char>, v: Option<u64>) -> Seq<Seq<char>> {
    match v {
        Some(x) => seq![flag, decimal(x as nat)],
        None => Seq::empty(),
    }
}

/// `[flag]` where `on` holds.
pub open spec fn switch_args(flag: Seq<char>, on: bool) -> Seq<Seq<char>> {
    if on {
        seq![flag]
    } else {
        Seq::empty()
    }
}

/// Settings shared by launches and joins.
#[derive(Clone, Debug)]
pub struct CommonArgs {
    /// The node binary; by default `~/.safe/node/sn_node`.
    pub node_path: Option<String>,
    /// Extra verbosity levels for node logs.
    pub nodes_verbosity: u8,
    /// The log filter for nodes.
    pub rust_log: Option<String>,
    /// Nodes log in JSON.
    pub json_logs: bool,
    /// Nodes listen on the loopback address.
    pub is_local: bool,
    /// Nodes run under `cargo flamegraph`.
    pub flame: bool,
}

/// The log filter: the one given, else the environment's, else the default.
pub open spec fn rust_log_of(c: CommonArgs, env_rust_log: Option<&str>) -> Seq<char> {
    match c.rust_log {
        Some(f) => f@,
        None => match env_rust_log {
            Some(e) => e@,
            None => DEFAULT_RUST_LOG@,
        },
    }
}

/// The node binary: the one given, else under the home directory.
pub open spec fn binary_of(c: CommonArgs, home: Option<&str>, windows: bool) -> Option<Seq<char>> {
    match c.node_path {
        Some(p) => Some(p@),
        None => match home {
            Some(h) => Some(
                join_path(
                    join_path(h@, ".safe/node"@),
                    if windows {
                        NODE_EXECUTABLE_WINDOWS@
                    } else {
                        NODE_EXECUTABLE@
                    },
                ),
            ),
            None => None,
        },
    }
}

/// The arguments every node gets from the common settings.
pub open spec fn common_args(c: CommonArgs) -> Seq<Seq<char>> {
    seq![verbosity_flag(c.nodes_verbosity)] + switch_args("--json-logs"@, c.json_logs)
}

/// `cmd` is the base command of the common settings.
pub open spec fn is_base_cmd(
    cmd: NodeCmd,
    c: CommonArgs,
    home: Option<&str>,
    env_rust_log: Option<&str>,
    windows: bool,
) -> bool {
    &&& binary_of(c, home, windows) == Some(cmd.path@)
    &&& env_pairs(cmd.envs@) == seq![("RUST_LOG"@, rust_log_of(c, env_rust_log))]
    &&& cmd.flame == c.flame
}

/// `r` starts `cmd` with `extra` after its arguments, for the node `name`
/// under `nodes_dir`.
pub open spec fn runs(
    r: Invocation,
    cmd: NodeCmd,
    extra: Seq<Seq<char>>,
    name: Seq<char>,
    nodes_dir: Seq<char>,
) -> bool {
    &&& r.program@ == (if cmd.flame {
        "cargo"@
    } else {
        cmd.path@
    })
    &&& strs(r.args@) == (if cmd.flame {
        flame_args(name)
    } else {
        Seq::empty()
    }) + cmd.args@ + extra + dir_args(join_path(nodes_dir, name))
    &&& env_pairs(r.envs@) == env_pairs(cmd.envs@)
    &&& match r.work_dir {
        Some(w) => cmd.flame && w@ == name,
        None => !cmd.flame,
    }
}

/// `-vv...`
pub fn verbosity_arg(extra: u8) -> (r: String)
    ensures
        r@ == verbosity_flag(extra),
{
    proof {
        reveal_strlit("-");
        reveal_strlit("v");
    }
    let mut r = String::from_str("-");
    let n: u32 = 2 + extra as u32;
    let mut k: u32 = 0;
    while k < n
        invariant
            k <= n,
            n == 2 + extra as u32,
            r@ == seq!['-'] + Seq::new(k as nat, |i: int| 'v'),
        decreases n - k,
    {
        proof {
            reveal_strlit("v");
        }
        r.append("v");
        k = k + 1;
        assert(r@ =~= seq!['-'] + Seq::new(k as nat, |i: int| 'v'));
    }
    r
}

impl CommonArgs {
    /// The log filter for nodes, given the environment's where it has one.
    pub fn rust_log(&self, env_rust_log: Option<&str>) -> (r: String)
        ensures
            r@ == rust_log_of(*self, env_rust_log),
    {
        match &self.rust_log {
            Some(f) => f.clone(),
            None => match env_rust_log {
                Some(e) => String::from_str(e),
                None => String::from_str(DEFAULT_RUST_LOG),
            },
        }
    }

    /// The node binary, given the home directory where it is known.
    pub fn node_binary(&self, home: Option<&str>, windows: bool) -> (r: Result<String, Failure>)
        ensures
            match r {
                Ok(p) => binary_of(*self, home, windows) == Some(p@),
                Err(f) => f == Failure::HomeDirNotFound && binary_of(*self, home, windows) is None,
            },
    {
        match &self.node_path {
            Some(p) => Ok(p.clone()),
            None => match home {
                Some(h) => {
                    let dir = join_dir(h, ".safe/node");
                    let exe = if windows {
                        NODE_EXECUTABLE_WINDOWS
                    } else {
                        NODE_EXECUTABLE
                    };
                    Ok(join_dir(dir.as_str(), exe))
                },
                None => Err(Failure::HomeDirNotFound),
            },
        }
    }

    /// The command every node starts from: the binary, the log filter in its
    /// environment, the verbosity flag, JSON logs and profiling as asked.
    pub fn node_cmd(&self, home: Option<&str>, env_rust_log: Option<&str>, windows: bool) -> (r:
        Result<NodeCmd, Failure>)
        ensures
            match r {
                Ok(cmd) => is_base_cmd(cmd, *self, home, env_rust_log, windows) && cmd.args@
                    == common_args(*self),
                Err(f) => f == Failure::HomeDirNotFound && binary_of(*self, home, windows) is None,
            },
    {
        let path = match self.node_binary(home, windows) {
            Ok(p) => p,
            Err(f) => return Err(f),
        };
        let mut cmd = NodeCmd::new(path);
        cmd.push_env(String::from_str("RUST_LOG"), self.rust_log(env_rust_log));
        cmd.push_arg(verbosity_arg(self.nodes_verbosity));
        if self.json_logs {
            cmd.push_arg(String::from_str("--json-logs"));
        }
        if self.flame {
            cmd.set_flame(self.flame);
        }
        proof {
            assert(env_pairs(cmd.envs@) =~= seq![("RUST_LOG"@, rust_log_of(*self, env_rust_log))]);
            assert(cmd.args@ =~= common_args(*self));
        }
        Ok(cmd)
    }
}

/// Settings of a local network launch.
#[derive(Clone, Debug)]
pub struct Launch {
    pub common: CommonArgs,
    /// Pause after each launch, in milliseconds.
    pub interval: u64,
    /// Idle time before a peer is deemed gone, in milliseconds.
    pub idle_timeout_msec: Option<u64>,
    /// Interval between keep-alive messages, in milliseconds.
    pub keep_alive_interval_msec: Option<u64>,
    /// Where the nodes' directories are.
    pub nodes_dir: String,
    /// How many nodes to launch besides the genesis node, or to add.
    pub num_nodes: usize,
    /// The address nodes listen on.
    pub ip: Option<String>,
    /// Add nodes to the network already in `nodes_dir` instead of starting one.
    pub add_nodes_to_existing_network: bool,
}

/// The listening address arguments of a launch.
pub open spec fn launch_addr_args(ip: Option<String>, is_local: bool) -> Seq<Seq<char>> {
    match ip {
        Some(a) => seq!["--local-addr"@, a@ + ":0"@],
        None => if is_local {
            seq!["--local-addr"@, "127.0.0.1:0"@]
        } else {
            Seq::empty()
        },
    }
}

/// The arguments every node of a launch gets after the common ones.
pub open spec fn launch_args(l: Launch) -> Seq<Seq<char>> {
    opt_number_args("--idle-timeout-msec"@, l.idle_timeout_msec) + opt_number_args(
        "--keep-alive-interval-msec"@,
        l.keep_alive_interval_msec,
    ) + launch_addr_args(l.ip, l.common.is_local)
}

/// The directory name of a node.
pub open spec fn node_name(r: NodeRole) -> Seq<char> {
    match r {
        NodeRole::Genesis => "sn-node-genesis"@,
        NodeRole::Joining(i) => "sn-node-"@ + decimal(i as nat),
    }
}

/// The contact registry file that the genesis node writes.
pub open spec fn contacts_file_of(nodes_dir: Seq<char>) -> Seq<char> {
    join_path(join_path(nodes_dir, "sn-node-genesis"@), "section_tree"@)
}

/// The arguments that set a node's role: the genesis marker, or where to find
/// the contacts to bootstrap from.
pub open spec fn role_args(r: NodeRole, nodes_dir: Seq<char>) -> Seq<Seq<char>> {
    match r {
        NodeRole::Genesis => seq!["--first"@],
        NodeRole::Joining(_) => seq!["--network-contacts-file"@, contacts_file_of(nodes_dir)],
    }
}

/// Appends `[flag, value]` where a value is given.
fn push_opt_number(args: &mut Vec<String>, flag: &str, v: Option<u64>)
    ensures
        strs(final(args)@) == strs(old(args)@) + opt_number_args(flag@, v),
{
    let ghost before = strs(args@);
    if let Some(x) = v {
        args.push(String::from_str(flag));
        args.push(decimal_string(x));
    }
    assert(strs(args@) =~= before + opt_number_args(flag@, v));
}

impl Launch {
    /// The command every node of this launch starts from.
    pub fn node_cmd(&self, home: Option<&str>, env_rust_log: Option<&str>, windows: bool) -> (r:
        Result<NodeCmd, Failure>)
        ensures
            match r {
                Ok(cmd) => is_base_cmd(cmd, self.common, home, env_rust_log, windows) && cmd.args@
                    == common_args(self.common) + launch_args(*self),
                Err(f) => f == Failure::HomeDirNotFound && binary_of(self.common, home, windows)
                    is None,
            },
    {
        let base = match self.common.node_cmd(home, env_rust_log, windows) {
            Ok(c) => c,
            Err(f) => return Err(f),
        };
        let mut extra: Vec<String> = Vec::new();
        push_opt_number(&mut extra, "--idle-timeout-msec", self.idle_timeout_msec);
        push_opt_number(&mut extra, "--keep-alive-interval-msec", self.keep_alive_interval_msec);
        let ghost before = strs(extra@);
        match &self.ip {
            Some(ip) => {
                extra.push(String::from_str("--local-addr"));
                let mut a = ip.clone();
                a.append(":0");
                extra.push(a);
            },
            None => {
                if self.common.is_local {
                    extra.push(String::from_str("--local-addr"));
                    extra.push(String::from_str("127.0.0.1:0"));
                }
            },
        }
        proof {
            assert(strs(extra@) =~= before + launch_addr_args(self.ip, self.common.is_local));
            assert(strs(extra@) =~= launch_args(*self));
        }
        Ok(base.with_args(&extra))
    }

    /// The contact registry file of the network in `nodes_dir`.
    pub fn contacts_file(&self) -> (r: String)
        ensures
            r@ == contacts_file_of(self.nodes_dir@),
    {
        let genesis_dir = join_dir(self.nodes_dir.as_str(), "sn-node-genesis");
        join_dir(genesis_dir.as_str(), "section_tree")
    }

    /// The process that starts the node `role` from the base command `base`.
    pub fn command_for(&self, base: &NodeCmd, role: NodeRole) -> (r: Invocation)
        ensures
            runs(r, *base, role_args(role, self.nodes_dir@), node_name(role), self.nodes_dir@),
    {
        let mut extra: Vec<String> = Vec::new();
        let name = match role {
            NodeRole::Genesis => {
                extra.push(String::from_str("--first"));
                String::from_str("sn-node-genesis")
            },
            NodeRole::Joining(i) => {
                extra.push(String::from_str("--network-contacts-file"));
                extra.push(self.contacts_file());
                let mut n = String::from_str("sn-node-");
                let d = decimal_string(i as u64);
                n.append(d.as_str());
                n
            },
        };
        proof {
            assert(strs(extra@) =~= role_args(role, self.nodes_dir@));
            assert(name@ =~= node_name(role));
        }
        let cmd = base.with_args(&extra);
        let r = cmd.invocation(name.as_str(), self.nodes_dir.as_str());
        proof {
            let prefix = if base.flame {
                flame_args(name@)
            } else {
                Seq::empty()
            };
            let dirs = dir_args(join_path(self.nodes_dir@, name@));
            assert(strs(r.args@) =~= prefix + base.args@ + strs(extra@) + dirs);
        }
        r
    }

    /// The state machine of this launch, and its first action.
    pub fn orchestrator(&self) -> (r: (Orchestrator, Action))
        ensures
            r.0.requested == self.num_nodes,
            r.0.extend == self.add_nodes_to_existing_network,
            r.0.interval_ms == self.interval,
            r.0.inv(),
            r.0.phase == crate::orchestrator::start(self.num_nodes, self.add_nodes_to_existing_network).0,
            r.1 == crate::orchestrator::start(self.num_nodes, self.add_nodes_to_existing_network).3,
    {
        Orchestrator::new(self.num_nodes, self.add_nodes_to_existing_network, self.interval)
    }
}

/// Settings of a single node joining a known network.
#[derive(Clone, Debug)]
pub struct Join {
    pub common: CommonArgs,
    /// Where the node's data and logs go.
    pub nodes_dir: String,
    /// The most storage the node may use.
    pub max_capacity: Option<u64>,
    /// The node's local address.
    pub local_addr: Option<Endpoint>,
    /// The node's public address.
    pub public_addr: Option<Endpoint>,
    /// Clear the data that an earlier run left in the node's directory.
    pub clear_data: bool,
    /// The addresses of the network to join.
    pub contacts: Vec<Endpoint>,
}

/// `[flag, address]` where an address is given.
pub open spec fn opt_endpoint_args(flag: Seq<char>, e: Option<Endpoint>) -> Seq<Seq<char>> {
    match e {
        Some(x) => seq![flag, endpoint_text(x)],
        None => Seq::empty(),
    }
}

/// The arguments of a joining node after the common ones, `u` being the
/// contacts it bootstraps from.
pub open spec fn join_args(j: Join, u: Seq<Endpoint>) -> Seq<Seq<char>> {
    opt_number_args("--max-capacity"@, j.max_capacity) + (if j.local_addr is None
        && j.common.is_local {
        seq!["--local-addr"@, "127.0.0.1:0"@]
    } else {
        opt_endpoint_args("--local-addr"@, j.local_addr)
    }) + opt_endpoint_args("--public-addr"@, j.public_addr) + switch_args(
        "--clear-data"@,
        j.clear_data,
    ) + seq!["--hard-coded-contacts"@, registry_text(u)]
}

/// Appends `[flag, address]` where an address is given.
fn push_opt_endpoint(args: &mut Vec<String>, flag: &str, e: Option<Endpoint>)
    ensures
        strs(final(args)@) == strs(old(args)@) + opt_endpoint_args(flag@, e),
{
    let ghost before = strs(args@);
    if let Some(x) = e {
        args.push(String::from_str(flag));
        args.push(x.to_text());
    }
    assert(strs(args@) =~= before + opt_endpoint_args(flag@, e));
}

impl Join {
    /// The one process to start, or `None` where there is no contact to join
    /// through: then nothing is to be done.
    pub fn command(&self, home: Option<&str>, env_rust_log: Option<&str>, windows: bool) -> (r:
        Result<Option<Invocation>, Failure>)
        ensures
            self.contacts@.len() == 0 ==> r == Ok::<Option<Invocation>, Failure>(None),
            self.contacts@.len() > 0 ==> match r {
                Ok(Some(inv)) => exists|cmd: NodeCmd, u: Seq<Endpoint>|
                    {
                        &&& is_base_cmd(cmd, self.common, home, env_rust_log, windows)
                        &&& cmd.args@ == common_args(self.common)
                        &&& u.no_duplicates()
                        &&& same_members(u, self.contacts@)
                        &&& runs(inv, cmd, join_args(*self, u), Seq::empty(), self.nodes_dir@)
                    },
                Ok(None) => false,
                Err(f) => f == Failure::HomeDirNotFound && binary_of(self.common, home, windows)
                    is None,
            },
    {
        if self.contacts.len() == 0 {
            return Ok(None);
        }
        let base = match self.common.node_cmd(home, env_rust_log, windows) {
            Ok(c) => c,
            Err(f) => return Err(f),
        };
        let mut extra: Vec<String> = Vec::new();
        push_opt_number(&mut extra, "--max-capacity", self.max_capacity);
        let ghost s1 = strs(extra@);
        if self.local_addr.is_none() && self.common.is_local {
            extra.push(String::from_str("--local-addr"));
            extra.push(String::from_str("127.0.0.1:0"));
        } else {
            push_opt_endpoint(&mut extra, "--local-addr", self.local_addr);
        }
        let ghost s2 = strs(extra@);
        push_opt_endpoint(&mut extra, "--public-addr", self.public_addr);
        let ghost s3 = strs(extra@);
        if self.clear_data {
            extra.push(String::from_str("--clear-data"));
        }
        let ghost s4 = strs(extra@);
        let unique = distinct_endpoints(&self.contacts);
        extra.push(String::from_str("--hard-coded-contacts"));
        extra.push(serialize_contacts(&unique));
        proof {
            if self.local_addr is None && self.common.is_local {
                assert(s2 =~= s1 + seq!["--local-addr"@, "127.0.0.1:0"@]);
            }
            assert(s4 =~= s3 + switch_args("--clear-data"@, self.clear_data));
            assert(strs(extra@) =~= s4 + seq!["--hard-coded-contacts"@, registry_text(unique@)]);
            assert(strs(extra@) =~= join_args(*self, unique@));
        }
        let cmd = base.with_args(&extra);
        let empty = String::new();
        let inv = cmd.invocation(empty.as_str(), self.nodes_dir.as_str());
        proof {
            let prefix = if base.flame {
                flame_args(Seq::empty())
            } else {
                Seq::empty()
            };
            let dirs = dir_args(join_path(self.nodes_dir@, Seq::empty()));
            assert(empty@ =~= Seq::<char>::empty());
            assert(strs(inv.args@) =~= prefix + base.args@ + strs(extra@) + dirs);
            assert(runs(inv, base, join_args(*self, unique@), Seq::empty(), self.nodes_dir@));
        }
        Ok(Some(inv))
    }
}

} // verus!
