use vm_inventory::execute::CommandResult;
use vm_inventory::vm::{Observation, Vm, VmError, VmState, MAC_COLUMN, MAC_MARK};

fn ok(stdout: &str) -> CommandResult {
    CommandResult { stdout: stdout.to_string(), stderr: String::new(), status: 0 }
}

fn failed(stderr: &str) -> CommandResult {
    CommandResult { stdout: String::new(), stderr: stderr.to_string(), status: 1 }
}

fn strings(items: &[&str]) -> Vec<String> {
    items.iter().map(|s| s.to_string()).collect()
}

const INTERFACES: &str = " Interface   Type      Source    Model    MAC\n-------------------------------------------------------------\n vnet0       network   default   virtio   52:54:00:aa:bb:cc\n vnet1       bridge    br0       virtio   52:54:00:dd:ee:ff\n\n";

const ADDRESSES: &str = " Name       MAC address          Protocol     Address\n-------------------------------------------------------------------------------\n vnet0      52:54:00:aa:bb:cc    ipv4         192.168.122.45/24\n";

const NO_ADDRESSES: &str = " Name       MAC address          Protocol     Address\n-------------------------------------------------------------------------------\n\n";

const CONFIG: &str = "<domain type='kvm'>\n  <interface type='network'>\n    <ip address='10.1.2.3' prefix='24'/>\n  </interface>\n</domain>\n";

const DISKS: &str = " Target   Source\n------------------\n vda  /path/a.img\n vdb  /path/b.img";

fn seen() -> Observation {
    Observation {
        privilege: ok("0\n"),
        interfaces: ok(INTERFACES),
        neighbors: vec![ok("192.168.122.45 dev virbr0 lladdr 52:54:00:aa:bb:cc REACHABLE\n"), ok("")],
        addresses: CommandResult::empty(),
        interface_config: CommandResult::empty(),
        disks: ok(DISKS),
        config: ok(CONFIG),
        artifact_written: true,
        state: ok("running\n"),
    }
}

#[test]
fn new_observation_holds_nothing() {
    let o = Observation::new();
    assert_eq!(o.privilege, CommandResult::empty());
    assert_eq!(o.interfaces, CommandResult::empty());
    assert!(o.neighbors.is_empty());
    assert_eq!(o.addresses, CommandResult::empty());
    assert_eq!(o.interface_config, CommandResult::empty());
    assert_eq!(o.disks, CommandResult::empty());
    assert_eq!(o.config, CommandResult::empty());
    assert!(!o.artifact_written);
    assert_eq!(o.state, CommandResult::empty());
}

#[test]
fn new_makes_the_whole_record() {
    let vm = Vm::new("web-1".to_string(), &seen()).unwrap();
    assert_eq!(
        vm,
        Vm {
            name: "web-1".to_string(),
            vnet: "vnet0".to_string(),
            ips: strings(&["192.168.122.45"]),
            disk: "/path/a.img, /path/b.img".to_string(),
            macs: strings(&["52:54:00:aa:bb:cc", "52:54:00:dd:ee:ff"]),
            config_xml_file: "/tmp/web-1_config.xml".to_string(),
            raw_output: INTERFACES.to_string(),
            state: VmState::Up,
        }
    );
}

#[test]
fn new_fails_without_privilege() {
    let mut o = seen();
    o.privilege = ok("1000\n");
    assert_eq!(Vm::new("web-1".to_string(), &o), Err(VmError::InsufficientPrivilege));
    o.privilege = failed("id: not found");
    assert_eq!(Vm::new("web-1".to_string(), &o), Err(VmError::InsufficientPrivilege));
    o.privilege = ok("root\n");
    assert_eq!(Vm::new("web-1".to_string(), &o), Err(VmError::InsufficientPrivilege));
}

#[test]
fn new_fails_when_the_copy_was_not_written() {
    let mut o = seen();
    o.artifact_written = false;
    assert_eq!(Vm::new("web-1".to_string(), &o), Err(VmError::ArtifactWriteFailed));
}

#[test]
fn new_reports_the_missing_privilege_first() {
    let mut o = seen();
    o.artifact_written = false;
    o.privilege = ok("12\n");
    assert_eq!(Vm::new("web-1".to_string(), &o), Err(VmError::InsufficientPrivilege));
}

#[test]
fn new_goes_on_with_defaults_where_commands_failed() {
    let o = Observation {
        privilege: ok("0"),
        interfaces: failed("error: failed to get domain"),
        neighbors: Vec::new(),
        addresses: failed("error"),
        interface_config: failed("error"),
        disks: failed("error"),
        config: failed("error"),
        artifact_written: true,
        state: failed("error"),
    };
    let vm = Vm::new("gone".to_string(), &o).unwrap();
    assert_eq!(vm.vnet, "unknown");
    assert_eq!(vm.macs, Vec::<String>::new());
    assert_eq!(vm.ips, strings(&["no_ip_found"]));
    assert_eq!(vm.disk, "no_disk_found");
    assert_eq!(vm.config_xml_file, "/tmp/gone_config.xml");
    assert_eq!(vm.state, VmState::Unknown);
    assert_eq!(vm.raw_output, "");
}

#[test]
fn ips_are_never_empty() {
    let replies = [ok(""), ok("\n"), ok("fe80::1 dev x\n"), ok("10.0.0.1 dev x\n"), failed("e")];
    for a in &replies {
        for b in &replies {
            for c in &replies {
                let ips = Vm::get_ips(&vec![a.clone()], b, c);
                assert!(!ips.is_empty());
                let mut o = seen();
                o.neighbors = vec![a.clone()];
                o.addresses = b.clone();
                o.interface_config = c.clone();
                assert!(!Vm::new("m".to_string(), &o).unwrap().ips.is_empty());
            }
        }
    }
    assert_eq!(Vm::get_ips(&Vec::new(), &ok(""), &ok("")), strings(&["no_ip_found"]));
}

#[test]
fn get_vm_info_is_the_output() {
    assert_eq!(Vm::get_vm_info(&ok(INTERFACES)), INTERFACES);
    assert_eq!(Vm::get_vm_info(&failed("e")), "");
}

#[test]
fn get_vnet_reads_the_interface_column() {
    let mut vm = Vm::new("web-1".to_string(), &seen()).unwrap();
    assert_eq!(vm.get_vnet(), "vnet0");
    vm.raw_output = " Type Interface\n---\n\n bridge vnet7\n".to_string();
    assert_eq!(vm.get_vnet(), "vnet7");
    vm.raw_output = " Type Source\n---\n bridge br0\n".to_string();
    assert_eq!(vm.get_vnet(), "unknown");
    vm.raw_output = String::new();
    assert_eq!(vm.get_vnet(), "unknown");
}

#[test]
fn get_macs_reads_the_fifth_word_of_every_line() {
    assert_eq!(MAC_COLUMN, 4);
    assert_eq!(MAC_MARK, ':');
    let mut vm = Vm::new("web-1".to_string(), &seen()).unwrap();
    assert_eq!(vm.get_macs(), strings(&["52:54:00:aa:bb:cc", "52:54:00:dd:ee:ff"]));
    vm.raw_output = "a b c d e:0\n- - - - -\n1 2 3 4:4 5\n1 2 3 4 5:5 6:6\n".to_string();
    assert_eq!(vm.get_macs(), strings(&["e:0", "5:5"]));
    vm.raw_output = String::new();
    assert_eq!(vm.get_macs(), Vec::<String>::new());
}

#[test]
fn get_ips_stops_at_a_usable_neighbor_result() {
    let neighbors = vec![ok("fe80::1 dev x\n"), ok("192.168.122.45 dev x\n")];
    assert_eq!(
        Vm::get_ips(&neighbors, &ok(ADDRESSES), &ok(CONFIG)),
        strings(&["fe80::1", "192.168.122.45"])
    );
}

#[test]
fn get_ips_goes_on_to_the_address_table_after_link_local_neighbors() {
    let neighbors = vec![ok("fe80::1 dev x\n"), ok("fe80::2 dev x\n")];
    assert_eq!(
        Vm::get_ips(&neighbors, &ok(ADDRESSES), &ok(CONFIG)),
        strings(&["192.168.122.45"])
    );
    assert_eq!(
        Vm::get_ips(&Vec::new(), &ok(ADDRESSES), &ok(CONFIG)),
        strings(&["192.168.122.45"])
    );
}

#[test]
fn get_ips_goes_on_to_the_configuration_after_an_empty_address_table() {
    let neighbors = vec![ok("fe80::1 dev x\n")];
    assert_eq!(
        Vm::get_ips(&neighbors, &ok(NO_ADDRESSES), &ok(CONFIG)),
        strings(&["10.1.2.3"])
    );
    assert_eq!(Vm::get_ips(&Vec::new(), &failed("e"), &ok(CONFIG)), strings(&["10.1.2.3"]));
}

#[test]
fn get_ips_with_all_three_sources_empty_is_no_ip_found() {
    assert_eq!(
        Vm::get_ips(&vec![ok(""), ok("")], &ok(NO_ADDRESSES), &ok("<domain/>\n")),
        strings(&["no_ip_found"])
    );
    assert_eq!(Vm::get_ips(&Vec::new(), &ok(""), &ok("")), strings(&["no_ip_found"]));
}

#[test]
fn get_ips_with_link_local_neighbors_and_nothing_else_is_no_ip_found() {
    let neighbors = vec![ok("fe80::1 dev x\nfe80::2 dev y\n")];
    assert_eq!(
        Vm::get_ips(&neighbors, &ok(NO_ADDRESSES), &ok("")),
        strings(&["no_ip_found"])
    );
    assert_eq!(
        Vm::get_ips(&vec![ok("fe80::1\n")], &ok(""), &ok("")),
        strings(&["no_ip_found"])
    );
    assert_eq!(
        Vm::get_ips(&vec![ok("fe80::1\n")], &ok("h\n-\n a b c fe80::2/64\n"), &ok("<interface>\n<ip address='fe80::3'/>\n")),
        strings(&["no_ip_found"])
    );
}

#[test]
fn get_ips_goes_on_after_link_local_neighbors_and_a_blank_line() {
    assert_eq!(
        Vm::get_ips(&vec![ok("fe80::1\n\n")], &ok(""), &ok("")),
        strings(&["no_ip_found"])
    );
    assert_eq!(
        Vm::get_ips(&vec![ok("fe80::1\n\n")], &ok(ADDRESSES), &ok("")),
        strings(&["192.168.122.45"])
    );
}

#[test]
fn get_ips_returns_a_usable_list_whole() {
    let neighbors = vec![ok("fe80::1\n10.0.0.1\nfe80::2\n")];
    assert_eq!(
        Vm::get_ips(&neighbors, &ok(""), &ok("")),
        strings(&["fe80::1", "10.0.0.1", "fe80::2"])
    );
}

#[test]
fn first_two_sources_prefers_the_neighbor_table() {
    let give = |n: &str, a: &str| -> Vec<String> {
        Vm::first_two_sources(&vec![ok(n)], &ok(a))
            .iter()
            .map(|ip| ip.iter().collect())
            .collect()
    };
    assert_eq!(give("10.0.0.1 dev x\n", ADDRESSES), strings(&["10.0.0.1"]));
    assert_eq!(give("fe80::1 dev x\n", ADDRESSES), strings(&["192.168.122.45"]));
    assert_eq!(give("fe80::1 dev x\n", NO_ADDRESSES), strings(&["fe80::1"]));
    assert_eq!(give("", NO_ADDRESSES), Vec::<String>::new());
}

#[test]
fn get_disk_joins_the_second_column() {
    assert_eq!(Vm::get_disk(&ok(DISKS)), "/path/a.img, /path/b.img");
    let table = "Target Source\n------\nvda  /path/a.img\nvdb  /path/b.img\n";
    assert_eq!(Vm::get_disk(&ok(table)), "/path/a.img, /path/b.img");
}

#[test]
fn get_disk_takes_no_device_from_a_row_without_a_second_word() {
    let table = format!("{}\n\n", DISKS);
    assert_eq!(Vm::get_disk(&ok(&table)), "/path/a.img, /path/b.img");
    assert_eq!(
        Vm::get_disk(&ok("Target   Source\n------------------------\nvda  /path/a.img\n\n")),
        "/path/a.img"
    );
    assert_eq!(Vm::get_disk(&ok("h\n-\nsda\nsdb /b\n")), "/b");
    assert_eq!(Vm::get_disk(&ok("h\n-\n\n\n")), "no_disk_found");
    assert_eq!(Vm::get_disk(&ok("h\n-\nvda\n  \nvdb\n")), "no_disk_found");
}

#[test]
fn get_disk_without_devices_is_no_disk_found() {
    assert_eq!(Vm::get_disk(&ok("")), "no_disk_found");
    assert_eq!(Vm::get_disk(&ok(" Target   Source\n------------------\n")), "no_disk_found");
    assert_eq!(Vm::get_disk(&ok(" Target   Source\n------------------\n\n")), "no_disk_found");
    assert_eq!(Vm::get_disk(&ok("vda /path/a.img\nvdb /path/b.img\n")), "no_disk_found");
    assert_eq!(Vm::get_disk(&failed("error")), "no_disk_found");
}

#[test]
fn get_xml_file_is_named_after_the_machine() {
    let vm = Vm::new("db-1".to_string(), &seen()).unwrap();
    assert_eq!(vm.get_xml_file(), "/tmp/db-1_config.xml");
}

#[test]
fn get_state_maps_the_english_names() {
    assert_eq!(Vm::get_state(&ok("running\n")), VmState::Up);
    assert_eq!(Vm::get_state(&ok("running")), VmState::Up);
    assert_eq!(Vm::get_state(&ok("  running \n\n")), VmState::Up);
    assert_eq!(Vm::get_state(&ok("shut off\n")), VmState::Down);
}

#[test]
fn get_state_maps_the_french_names() {
    assert_eq!(Vm::get_state(&ok("en cours d\u{2019}ex\u{e9}cution\n")), VmState::Up);
    assert_eq!(Vm::get_state(&ok("arr\u{ea}t\u{e9}\n")), VmState::Down);
    assert_eq!(Vm::get_state(&ok("ferm\u{e9}\n")), VmState::Down);
}

#[test]
fn get_state_of_any_other_text_is_unknown() {
    for text in ["paused\n", "Running\n", "shut  off\n", "shutoff", "", "\n", "en cours d'ex\u{e9}cution", "arrete", "running now"] {
        assert_eq!(Vm::get_state(&ok(text)), VmState::Unknown, "{:?}", text);
    }
}

#[test]
fn get_state_of_a_complaining_command_is_unknown() {
    let reply = CommandResult { stdout: "running\n".to_string(), stderr: "warning\n".to_string(), status: 0 };
    assert_eq!(Vm::get_state(&reply), VmState::Unknown);
    assert_eq!(Vm::get_state(&failed("error: failed to get domain 'x'")), VmState::Unknown);
}

#[test]
fn state_warning_names_the_unexpected_state() {
    assert_eq!(Vm::state_warning(&ok("paused\n")), Some("Unexpected VM state: paused".to_string()));
    assert_eq!(Vm::state_warning(&ok("")), Some("Unexpected VM state: ".to_string()));
    assert_eq!(
        Vm::state_warning(&ok(" in shutdown \n")),
        Some("Unexpected VM state: in shutdown".to_string())
    );
}

#[test]
fn state_warning_quotes_the_complaint() {
    let reply = CommandResult { stdout: "running\n".to_string(), stderr: "oops\n".to_string(), status: 0 };
    assert_eq!(
        Vm::state_warning(&reply),
        Some("Error executing domstate command: oops\n".to_string())
    );
}

#[test]
fn state_warning_is_silent_for_known_states() {
    for text in ["running\n", "shut off\n", "en cours d\u{2019}ex\u{e9}cution", "arr\u{ea}t\u{e9}", "ferm\u{e9}\n"] {
        assert_eq!(Vm::state_warning(&ok(text)), None, "{:?}", text);
    }
}

#[test]
fn state_labels() {
    assert_eq!(VmState::Up.label(), "up");
    assert_eq!(VmState::Down.label(), "down");
    assert_eq!(VmState::Unknown.label(), "unknown");
}
