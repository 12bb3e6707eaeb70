use vm_inventory::address::{
    address_ips, any_usable, config_ips, keep_routable, link_local, neighbor_ips, neighbor_source,
};
use vm_inventory::execute::CommandResult;

fn chars(s: &str) -> Vec<char> {
    s.chars().collect()
}

fn list(items: &[&str]) -> Vec<Vec<char>> {
    items.iter().map(|s| s.chars().collect()).collect()
}

fn ok(stdout: &str) -> CommandResult {
    CommandResult { stdout: stdout.to_string(), stderr: String::new(), status: 0 }
}

fn failed(stdout: &str, status: i32) -> CommandResult {
    CommandResult { stdout: stdout.to_string(), stderr: "failed".to_string(), status }
}

const ADDRESSES: &str = " Name       MAC address          Protocol     Address\n-------------------------------------------------------------------------------\n vnet0      52:54:00:aa:bb:cc    ipv4         192.168.122.45/24\n vnet0      52:54:00:aa:bb:cc    ipv6         fe80::5054:ff:feaa:bbcc/64\n vnet1      52:54:00:dd:ee:ff    ipv6         2001:db8::7/64\n";

const NO_ADDRESSES: &str = " Name       MAC address          Protocol     Address\n-------------------------------------------------------------------------------\n\n";

const CONFIG: &str = "<domain type='kvm'>\n  <name>web-1</name>\n  <devices>\n    <ip address='10.9.9.9'/>\n    <interface type='network'>\n      <mac address='52:54:00:aa:bb:cc'/>\n      <ip address='192.168.1.5' prefix='24'/>\n      <ip address='fe80::1' prefix='64'/>\n    </interface>\n    <ip address='10.0.0.1'/>\n    <interface type='bridge'>\n      <ip address=\"no-single-quote\"/>\n      <ip address='172.16.0.9'\n    </interface>\n  </devices>\n</domain>\n";

#[test]
fn link_local_means_the_fe80_prefix() {
    assert!(link_local(&chars("fe80::1")));
    assert!(link_local(&chars("fe80::")));
    assert!(!link_local(&chars("fe80:")));
    assert!(!link_local(&chars("FE80::1")));
    assert!(!link_local(&chars("192.168.1.1")));
    assert!(!link_local(&chars("")));
    assert!(!link_local(&chars(" fe80::1")));
}

#[test]
fn any_usable_wants_one_address_that_is_not_link_local() {
    assert!(!any_usable(&list(&[])));
    assert!(!any_usable(&list(&["fe80::1", "fe80::2"])));
    assert!(any_usable(&list(&["fe80::1", "10.0.0.1"])));
    assert!(!any_usable(&list(&[""])));
    assert!(!any_usable(&list(&["fe80::1", ""])));
}

#[test]
fn keep_routable_drops_link_local_addresses() {
    assert_eq!(
        keep_routable(&list(&["fe80::1", "10.0.0.1", "fe80::2", "", "2001:db8::1"])),
        list(&["10.0.0.1", "2001:db8::1"])
    );
    assert_eq!(keep_routable(&list(&["fe80::1"])), list(&[]));
}

#[test]
fn neighbor_ips_takes_the_first_word_of_each_row() {
    let reply = ok("192.168.122.45 dev virbr0 lladdr 52:54:00:aa:bb:cc REACHABLE\nfe80::5054:ff:feaa:bbcc dev virbr0 lladdr 52:54:00:aa:bb:cc STALE\n");
    assert_eq!(neighbor_ips(&reply), list(&["192.168.122.45", "fe80::5054:ff:feaa:bbcc"]));
    assert_eq!(neighbor_ips(&ok("10.0.0.7\n")), list(&["10.0.0.7"]));
    assert_eq!(neighbor_ips(&ok("  10.0.0.7  \n\n10.0.0.8")), list(&["10.0.0.7", "10.0.0.8"]));
    assert_eq!(neighbor_ips(&ok("fe80::1\n\n")), list(&["fe80::1"]));
}

#[test]
fn neighbor_ips_of_a_failed_or_blank_reply_is_empty() {
    assert_eq!(neighbor_ips(&failed("10.0.0.7 dev virbr0\n", 1)), list(&[]));
    assert_eq!(neighbor_ips(&ok("")), list(&[]));
    assert_eq!(neighbor_ips(&ok(" \n\n")), list(&[]));
}

#[test]
fn neighbor_source_keeps_the_order_of_the_replies() {
    let replies = vec![ok("10.0.0.1 dev a\n"), failed("10.0.0.2 dev b\n", 1), ok("fe80::3 dev c\n10.0.0.4 dev d\n")];
    assert_eq!(neighbor_source(&replies), list(&["10.0.0.1", "fe80::3", "10.0.0.4"]));
    assert_eq!(neighbor_source(&Vec::new()), list(&[]));
}

#[test]
fn address_ips_reads_the_fourth_column_without_the_prefix_length() {
    assert_eq!(address_ips(&ok(ADDRESSES)), list(&["192.168.122.45", "2001:db8::7"]));
}

#[test]
fn address_ips_takes_no_entry_from_a_short_row() {
    let table = format!("{}\n", ADDRESSES);
    assert_eq!(address_ips(&ok(&table)), list(&["192.168.122.45", "2001:db8::7"]));
    let table = "h\n-\n a b c\n a b c 10.0.0.1/8\n\n a b c /8\n a b c 10.0.0.2\n";
    assert_eq!(address_ips(&ok(table)), list(&["10.0.0.1", "10.0.0.2"]));
}

#[test]
fn address_ips_without_any_address_is_empty() {
    assert_eq!(address_ips(&ok(NO_ADDRESSES)), list(&[]));
    assert_eq!(address_ips(&ok("")), list(&[]));
    assert_eq!(address_ips(&ok("h1\nh2\n")), list(&[]));
    assert_eq!(address_ips(&ok("a b c 10.0.0.1/8\n- - - 10.0.0.2/8\n")), list(&[]));
    assert_eq!(address_ips(&failed(ADDRESSES, 1)), list(&[]));
}

#[test]
fn address_ips_with_link_local_addresses_only_is_empty() {
    let table = "h\n-\n vnet0 52:54:00:aa:bb:cc ipv6 fe80::1/64\n";
    assert_eq!(address_ips(&ok(table)), list(&[]));
}

#[test]
fn config_ips_reads_interface_blocks_only() {
    assert_eq!(config_ips(&ok(CONFIG)), list(&["192.168.1.5", "172.16.0.9"]));
}

#[test]
fn config_ips_of_a_failed_reply_or_without_blocks_is_empty() {
    assert_eq!(config_ips(&failed(CONFIG, 1)), list(&[]));
    assert_eq!(config_ips(&ok("")), list(&[]));
    assert_eq!(config_ips(&ok("<domain>\n<ip address='10.0.0.1'/>\n</domain>\n")), list(&[]));
}

#[test]
fn config_ips_reads_the_opening_and_the_closing_line_too() {
    let doc = "<interface><ip address='10.0.0.1'/>\n</interface><ip address='10.0.0.2'/>\n<ip address='10.0.0.3'/>\n";
    assert_eq!(config_ips(&ok(doc)), list(&["10.0.0.1", "10.0.0.2"]));
}

#[test]
fn config_ips_takes_what_follows_the_first_quote() {
    let doc = "<interface>\n<ip address='10.0.0.1\n<ip family='ipv4' address='10.0.0.2'/>\n";
    assert_eq!(config_ips(&ok(doc)), list(&["10.0.0.1"]));
    let doc = "<interface>\n<ip address='10.0.0.1\n<ip address='' x='10.0.0.2'/>\n";
    assert_eq!(config_ips(&ok(doc)), list(&["10.0.0.1"]));
}
