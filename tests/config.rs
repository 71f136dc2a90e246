use sn_launch_tool::command::join_dir;
use sn_launch_tool::config::verbosity_arg;
use sn_launch_tool::{
    parse_contacts, CommonArgs, Endpoint, Failure, Join, Launch, NodeCmd, NodeRole,
};

fn common() -> CommonArgs {
    CommonArgs {
        node_path: Some("/bin/sn_node".to_string()),
        nodes_verbosity: 0,
        rust_log: None,
        json_logs: false,
        is_local: false,
        flame: false,
    }
}

fn launch() -> Launch {
    Launch {
        common: common(),
        interval: 100,
        idle_timeout_msec: None,
        keep_alive_interval_msec: None,
        nodes_dir: "./nodes".to_string(),
        num_nodes: 15,
        ip: None,
        add_nodes_to_existing_network: false,
    }
}

fn join(contacts: Vec<Endpoint>) -> Join {
    Join {
        common: common(),
        nodes_dir: "./nodes".to_string(),
        max_capacity: None,
        local_addr: None,
        public_addr: None,
        clear_data: false,
        contacts,
    }
}

fn strings(v: &[&str]) -> Vec<String> {
    v.iter().map(|s| s.to_string()).collect()
}

#[test]
fn paths_join_with_one_slash() {
    assert_eq!(join_dir("./nodes", "sn-node-1"), "./nodes/sn-node-1");
    assert_eq!(join_dir("./nodes/", "sn-node-1"), "./nodes/sn-node-1");
    assert_eq!(join_dir("", "sn-node-1"), "sn-node-1");
    assert_eq!(join_dir("nodes", ""), "nodes/");
}

#[test]
fn verbosity_starts_at_two() {
    assert_eq!(verbosity_arg(0), "-vv");
    assert_eq!(verbosity_arg(3), "-vvvvv");
}

#[test]
fn rust_log_flag_then_environment_then_default() {
    let mut c = common();
    assert_eq!(c.rust_log(None), "safe_network=debug");
    assert_eq!(c.rust_log(Some("info")), "info");
    c.rust_log = Some("trace".to_string());
    assert_eq!(c.rust_log(Some("info")), "trace");
}

#[test]
fn node_binary_defaults_under_home() {
    let mut c = common();
    assert_eq!(c.node_binary(None, false).unwrap(), "/bin/sn_node");
    c.node_path = None;
    assert_eq!(
        c.node_binary(Some("/home/u"), false).unwrap(),
        "/home/u/.safe/node/sn_node"
    );
    assert_eq!(
        c.node_binary(Some("/home/u"), true).unwrap(),
        "/home/u/.safe/node/sn_node.exe"
    );
    assert_eq!(c.node_binary(None, false).unwrap_err(), Failure::HomeDirNotFound);
    assert_eq!(c.node_cmd(None, None, false).unwrap_err(), Failure::HomeDirNotFound);
}

#[test]
fn node_cmd_sets_log_filter_and_flags() {
    let mut c = common();
    c.nodes_verbosity = 1;
    c.json_logs = true;
    let cmd = c.node_cmd(None, Some("warn"), false).unwrap();
    assert_eq!(cmd.path(), "/bin/sn_node");
    assert_eq!(cmd.envs, vec![("RUST_LOG".to_string(), "warn".to_string())]);
    assert_eq!(cmd.args().tokens, strings(&["-vvv", "--json-logs"]));
    assert!(!cmd.gen_flamegraph());
}

#[test]
fn launch_args_carry_timeouts_and_address() {
    let mut l = launch();
    l.idle_timeout_msec = Some(5000);
    l.keep_alive_interval_msec = Some(700);
    l.ip = Some("10.0.0.9".to_string());
    let cmd = l.node_cmd(None, None, false).unwrap();
    assert_eq!(
        cmd.args.tokens,
        strings(&[
            "-vv",
            "--idle-timeout-msec",
            "5000",
            "--keep-alive-interval-msec",
            "700",
            "--local-addr",
            "10.0.0.9:0"
        ])
    );
    let mut l = launch();
    l.common.is_local = true;
    let cmd = l.node_cmd(None, None, false).unwrap();
    assert_eq!(cmd.args.tokens, strings(&["-vv", "--local-addr", "127.0.0.1:0"]));
}

#[test]
fn genesis_command() {
    let l = launch();
    let base = l.node_cmd(None, None, false).unwrap();
    let inv = l.command_for(&base, NodeRole::Genesis);
    assert_eq!(inv.program, "/bin/sn_node");
    assert_eq!(
        inv.args,
        strings(&[
            "-vv",
            "--first",
            "--root-dir",
            "./nodes/sn-node-genesis",
            "--log-dir",
            "./nodes/sn-node-genesis"
        ])
    );
    assert_eq!(inv.envs, vec![("RUST_LOG".to_string(), "safe_network=debug".to_string())]);
    assert_eq!(inv.work_dir, None);
}

#[test]
fn joining_node_command() {
    let l = launch();
    let base = l.node_cmd(None, None, false).unwrap();
    assert_eq!(l.contacts_file(), "./nodes/sn-node-genesis/section_tree");
    let inv = l.command_for(&base, NodeRole::Joining(12));
    assert_eq!(
        inv.args,
        strings(&[
            "-vv",
            "--network-contacts-file",
            "./nodes/sn-node-genesis/section_tree",
            "--root-dir",
            "./nodes/sn-node-12",
            "--log-dir",
            "./nodes/sn-node-12"
        ])
    );
}

#[test]
fn flamegraph_command_runs_cargo_in_node_dir() {
    let mut l = launch();
    l.common.flame = true;
    let base = l.node_cmd(None, None, false).unwrap();
    assert!(base.gen_flamegraph());
    let inv = l.command_for(&base, NodeRole::Joining(2));
    assert_eq!(inv.program, "cargo");
    assert_eq!(inv.work_dir, Some("sn-node-2".to_string()));
    assert_eq!(
        inv.args[..6].to_vec(),
        strings(&["flamegraph", "-o sn-node-2-flame.svg", "--root", "--bin", "sn_node", "--"])
    );
    assert_eq!(inv.args[6], "-vv");
}

#[test]
fn node_cmd_builder() {
    let mut cmd = NodeCmd::new("bin".to_string());
    cmd.push_arg("a".to_string());
    cmd.push_env("K".to_string(), "V".to_string());
    cmd.set_flame(true);
    let more = cmd.with_args(&strings(&["b"]));
    assert_eq!(more.args.tokens, strings(&["a", "b"]));
    assert_eq!(more.envs, vec![("K".to_string(), "V".to_string())]);
    assert!(more.flame);
    let inv = cmd.invocation("n", "d");
    assert_eq!(inv.args[7..].to_vec(), strings(&["--root-dir", "d/n", "--log-dir", "d/n"]));
}

#[test]
fn launch_orchestrator_follows_settings() {
    let mut l = launch();
    l.num_nodes = 2;
    l.add_nodes_to_existing_network = true;
    let (o, first) = l.orchestrator();
    assert_eq!(first, sn_launch_tool::Action::ScanNodesDir);
    assert_eq!(o.requested, 2);
    assert_eq!(o.interval_ms, 100);
}

#[test]
fn join_with_no_contacts_does_nothing() {
    let j = join(vec![]);
    assert!(j.command(None, None, false).unwrap().is_none());
    let mut j = join(vec![]);
    j.common.node_path = None;
    assert!(j.command(None, None, false).unwrap().is_none());
}

#[test]
fn join_passes_each_contact_once() {
    let a = Endpoint::new(10, 0, 0, 1, 12000);
    let b = Endpoint::new(10, 0, 0, 2, 12000);
    let j = join(vec![a, b, a, a]);
    let inv = j.command(None, None, false).unwrap().unwrap();
    let at = inv
        .args
        .iter()
        .position(|s| s == "--hard-coded-contacts")
        .unwrap();
    assert_eq!(
        inv.args.iter().filter(|s| *s == "--hard-coded-contacts").count(),
        1
    );
    let listed = parse_contacts(&inv.args[at + 1]).unwrap();
    assert_eq!(listed.len(), 2);
    assert!(listed.contains(&a) && listed.contains(&b));
    assert_eq!(inv.args[at + 2..].to_vec(), strings(&["--root-dir", "./nodes/", "--log-dir", "./nodes/"]));
}

#[test]
fn join_args_carry_addresses_and_capacity() {
    let mut j = join(vec![Endpoint::localhost(1)]);
    j.max_capacity = Some(1024);
    j.local_addr = Some(Endpoint::new(192, 168, 1, 100, 12000));
    j.public_addr = Some(Endpoint::new(8, 8, 4, 4, 443));
    j.clear_data = true;
    let inv = j.command(None, None, false).unwrap().unwrap();
    assert_eq!(
        inv.args,
        strings(&[
            "-vv",
            "--max-capacity",
            "1024",
            "--local-addr",
            "192.168.1.100:12000",
            "--public-addr",
            "8.8.4.4:443",
            "--clear-data",
            "--hard-coded-contacts",
            "[\"127.0.0.1:1\"]",
            "--root-dir",
            "./nodes/",
            "--log-dir",
            "./nodes/"
        ])
    );
    let mut j = join(vec![Endpoint::localhost(1)]);
    j.common.is_local = true;
    let inv = j.command(None, None, false).unwrap().unwrap();
    assert_eq!(inv.args[1..3].to_vec(), strings(&["--local-addr", "127.0.0.1:0"]));
}

#[test]
fn join_without_binary_or_home_fails() {
    let mut j = join(vec![Endpoint::localhost(1)]);
    j.common.node_path = None;
    assert_eq!(j.command(None, None, false).unwrap_err(), Failure::HomeDirNotFound);
}
