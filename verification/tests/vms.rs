use vm_inventory::execute::CommandResult;
use vm_inventory::vm::{Observation, VmError, VmState};
use vm_inventory::vms::{find_pattern, Vms};

fn ok(stdout: &str) -> CommandResult {
    CommandResult { stdout: stdout.to_string(), stderr: String::new(), status: 0 }
}

fn strings(items: &[&str]) -> Vec<String> {
    items.iter().map(|s| s.to_string()).collect()
}

fn seen(euid: &str, state: &str, written: bool) -> Observation {
    Observation {
        privilege: ok(euid),
        interfaces: ok(" Interface Type Source Model MAC\n----\n vnet3 network default virtio 52:54:00:00:00:03\n"),
        neighbors: vec![ok("10.0.0.3 dev virbr0\n")],
        addresses: CommandResult::empty(),
        interface_config: CommandResult::empty(),
        disks: ok(" Target Source\n----\n vda /img/a\n"),
        config: ok("<domain/>\n"),
        artifact_written: written,
        state: ok(state),
    }
}

const LISTING: &str = "web-1\ndb-1\nweb-2\n\n";

#[test]
fn new_inventory_is_empty() {
    let vms = Vms::new();
    assert!(vms.vm.is_empty());
    assert_eq!(vms.number, 0);
}

#[test]
fn describe_gives_the_count() {
    let mut vms = Vms::new();
    assert_eq!(vms.describe(), "number of vms: 0");
    vms.number = 12;
    assert_eq!(vms.describe(), "number of vms: 12");
    vms.number = -3;
    assert_eq!(vms.describe(), "number of vms: -3");
    vms.number = i32::MIN;
    assert_eq!(vms.describe(), "number of vms: -2147483648");
}

#[test]
fn names_are_the_lines_that_are_not_blank() {
    assert_eq!(Vms::names(&ok(LISTING)), strings(&["web-1", "db-1", "web-2"]));
    assert_eq!(Vms::names(&ok("  a  \n\n \t\nb\r\n c d \n")), strings(&["a", "b", "c d"]));
    assert_eq!(Vms::names(&ok("")), Vec::<String>::new());
    assert_eq!(Vms::names(&ok("\n\n")), Vec::<String>::new());
    assert_eq!(Vms::names(&ok("last")), strings(&["last"]));
}

#[test]
fn get_vm_builds_one_record_per_name_in_order() {
    let mut vms = Vms::new();
    let observations =
        vec![seen("0\n", "running\n", true), seen("0\n", "shut off\n", true), seen("0\n", "?\n", true)];
    let names = vms.get_vm(&ok(LISTING), &observations).unwrap();
    assert_eq!(names, strings(&["web-1", "db-1", "web-2"]));
    assert_eq!(vms.number, 3);
    assert_eq!(vms.vm.len(), 3);
    assert_eq!(vms.vm[0].name, "web-1");
    assert_eq!(vms.vm[1].name, "db-1");
    assert_eq!(vms.vm[2].name, "web-2");
    assert_eq!(vms.vm[0].state, VmState::Up);
    assert_eq!(vms.vm[1].state, VmState::Down);
    assert_eq!(vms.vm[2].state, VmState::Unknown);
    assert_eq!(vms.vm[1].ips, strings(&["10.0.0.3"]));
    assert_eq!(vms.vm[1].config_xml_file, "/tmp/db-1_config.xml");
    assert_eq!(vms.describe(), "number of vms: 3");
}

#[test]
fn get_vm_starts_from_scratch_each_time() {
    let mut vms = Vms::new();
    let three =
        vec![seen("0\n", "running\n", true), seen("0\n", "running\n", true), seen("0\n", "running\n", true)];
    vms.get_vm(&ok(LISTING), &three).unwrap();
    let names = vms.get_vm(&ok("only\n"), &vec![seen("0\n", "shut off\n", true)]).unwrap();
    assert_eq!(names, strings(&["only"]));
    assert_eq!(vms.number, 1);
    assert_eq!(vms.vm.len(), 1);
    assert_eq!(vms.vm[0].name, "only");
    let names = vms.get_vm(&ok(""), &Vec::new()).unwrap();
    assert_eq!(names, Vec::<String>::new());
    assert_eq!(vms.number, 0);
    assert!(vms.vm.is_empty());
}

#[test]
fn get_running_vm_builds_one_record_per_name_in_order() {
    let mut vms = Vms::new();
    let observations = vec![seen("0\n", "running\n", true), seen("0\n", "running\n", true)];
    let names = vms.get_running_vm(&ok("web-1\nweb-2\n"), &observations).unwrap();
    assert_eq!(names, strings(&["web-1", "web-2"]));
    assert_eq!(vms.number, 2);
    assert_eq!(vms.vm[0].name, "web-1");
    assert_eq!(vms.vm[1].name, "web-2");
}

#[test]
fn enumeration_fails_with_the_first_record_that_cannot_be_made() {
    let mut vms = Vms::new();
    let observations =
        vec![seen("0\n", "running\n", true), seen("0\n", "running\n", false), seen("1\n", "running\n", true)];
    assert_eq!(vms.get_vm(&ok(LISTING), &observations), Err(VmError::ArtifactWriteFailed));
    assert_eq!(vms.number, 0);
    assert!(vms.vm.is_empty());
    let observations =
        vec![seen("0\n", "running\n", true), seen("7\n", "running\n", false), seen("0\n", "running\n", false)];
    assert_eq!(
        vms.get_running_vm(&ok(LISTING), &observations),
        Err(VmError::InsufficientPrivilege)
    );
    assert_eq!(vms.number, 0);
    assert!(vms.vm.is_empty());
}

#[test]
fn enumeration_fails_without_one_observation_per_name() {
    let mut vms = Vms::new();
    let two = vec![seen("0\n", "running\n", true), seen("0\n", "running\n", true)];
    assert_eq!(vms.get_vm(&ok(LISTING), &two), Err(VmError::MissingObservation));
    assert_eq!(vms.get_vm(&ok("a\n"), &two), Err(VmError::MissingObservation));
    assert_eq!(vms.get_running_vm(&ok(""), &two), Err(VmError::MissingObservation));
    assert_eq!(vms.number, 0);
    assert!(vms.vm.is_empty());
}

#[test]
fn a_failed_enumeration_empties_the_inventory() {
    let mut vms = Vms::new();
    vms.get_vm(&ok("a\n"), &vec![seen("0\n", "running\n", true)]).unwrap();
    assert_eq!(vms.number, 1);
    assert_eq!(vms.get_vm(&ok("a\nb\n"), &Vec::new()), Err(VmError::MissingObservation));
    assert_eq!(vms.number, 0);
    assert!(vms.vm.is_empty());
}

#[test]
fn find_pattern_wraps_a_plain_filter() {
    assert_eq!(find_pattern("web"), ".*web.*");
    assert_eq!(find_pattern(""), ".*.*");
    assert_eq!(find_pattern("a$"), ".*a$.*");
    assert_eq!(find_pattern("a^"), ".*a^.*");
}

#[test]
fn find_pattern_passes_a_pattern_through() {
    assert_eq!(find_pattern("^db"), "^db");
    assert_eq!(find_pattern("web*"), "web*");
    assert_eq!(find_pattern("*"), "*");
    assert_eq!(find_pattern("^"), "^");
    assert_eq!(find_pattern("w.*1"), "w.*1");
}

#[test]
fn find_vms_by_substring() {
    let vms = Vms::new();
    assert_eq!(vms.find_vms("web", &ok("web-1\ndb-1\nweb-2\n")), strings(&["web-1", "web-2"]));
    assert_eq!(vms.find_vms("-1", &ok(LISTING)), strings(&["web-1", "db-1"]));
    assert_eq!(vms.find_vms("b", &ok(LISTING)), strings(&["web-1", "db-1", "web-2"]));
    assert_eq!(vms.find_vms("", &ok(LISTING)), strings(&["web-1", "db-1", "web-2"]));
    assert_eq!(vms.find_vms("mail", &ok(LISTING)), Vec::<String>::new());
}

#[test]
fn find_vms_by_pattern() {
    let vms = Vms::new();
    assert_eq!(vms.find_vms("^db", &ok("web-1\ndb-1\nweb-2\n")), strings(&["db-1"]));
    assert_eq!(vms.find_vms("^b", &ok(LISTING)), Vec::<String>::new());
    assert_eq!(vms.find_vms("^web-.$", &ok(LISTING)), strings(&["web-1", "web-2"]));
    assert_eq!(vms.find_vms("w.*2", &ok(LISTING)), strings(&["web-2"]));
    assert_eq!(vms.find_vms("e*b-1", &ok(LISTING)), strings(&["web-1", "db-1"]));
}

#[test]
fn find_vms_treats_a_plain_filter_as_a_pattern_too() {
    let vms = Vms::new();
    assert_eq!(vms.find_vms("web.1", &ok(LISTING)), strings(&["web-1"]));
    assert_eq!(vms.find_vms("we+b", &ok("wb\nweb\nweeb\n")), strings(&["web", "weeb"]));
    assert_eq!(vms.find_vms("1$", &ok(LISTING)), strings(&["web-1", "db-1"]));
}

#[test]
fn find_vms_with_sets_groups_and_branches() {
    let vms = Vms::new();
    let listing = ok("web-1\nweb-2\nweb-3\ndb-1\nmail-1\n");
    assert_eq!(vms.find_vms("^web-[12]$", &listing), strings(&["web-1", "web-2"]));
    assert_eq!(vms.find_vms("^(web|db)", &listing), strings(&["web-1", "web-2", "web-3", "db-1"]));
    assert_eq!(vms.find_vms("db|mail", &listing), strings(&["db-1", "mail-1"]));
    assert_eq!(vms.find_vms("^[a-z]{2}-", &listing), strings(&["db-1"]));
    assert_eq!(vms.find_vms("[23]", &listing), strings(&["web-2", "web-3"]));
}

#[test]
fn find_vms_with_what_is_no_pattern_finds_nothing() {
    let vms = Vms::new();
    assert_eq!(vms.find_vms("web(", &ok(LISTING)), Vec::<String>::new());
    assert_eq!(vms.find_vms("^web)", &ok(LISTING)), Vec::<String>::new());
    assert_eq!(vms.find_vms("[web", &ok(LISTING)), Vec::<String>::new());
}

#[test]
fn find_vms_with_a_plain_filter_is_a_search_for_the_filter() {
    let vms = Vms::new();
    let names = ["web-1", "db-1", "web-2", "my_web", "w", "e-b", "a]b", "a}b", "10", "x y"];
    let listing = ok(&names.join("\n"));
    for filter in ["web", "w", "-", "-1", "b-", "eb", "]", "}", "a]", "1", "01", " ", "x y", "", "web-10", "_"] {
        let expected: Vec<String> =
            names.iter().filter(|n| n.contains(filter)).map(|n| n.to_string()).collect();
        assert_eq!(vms.find_vms(filter, &listing), expected, "{:?}", filter);
    }
}

#[test]
fn find_vms_leaves_the_inventory_alone() {
    let mut vms = Vms::new();
    vms.get_vm(&ok("a\n"), &vec![seen("0\n", "running\n", true)]).unwrap();
    assert_eq!(vms.find_vms("web", &ok(LISTING)), strings(&["web-1", "web-2"]));
    assert_eq!(vms.number, 1);
    assert_eq!(vms.vm[0].name, "a");
}
