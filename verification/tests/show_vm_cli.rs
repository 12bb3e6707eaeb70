use vm_inventory::show_vm_cli::{highlight, show_vm, show_vm_args, show_vm_full, Highlight};
use vm_inventory::vm::{Vm, VmState};

fn vm(ips: &[&str], macs: &[&str], state: VmState) -> Vm {
    Vm {
        name: "web-1".to_string(),
        vnet: "vnet0".to_string(),
        ips: ips.iter().map(|s| s.to_string()).collect(),
        disk: "/path/a.img, /path/b.img".to_string(),
        macs: macs.iter().map(|s| s.to_string()).collect(),
        config_xml_file: "/tmp/web-1_config.xml".to_string(),
        raw_output: String::new(),
        state,
    }
}

#[test]
fn show_vm_with_one_address() {
    assert_eq!(
        show_vm(&vm(&["192.168.122.45"], &[], VmState::Up)),
        "> web-1 : vnet0 <> 192.168.122.45 up"
    );
}

#[test]
fn show_vm_with_several_addresses() {
    assert_eq!(
        show_vm(&vm(&["192.168.122.45", "2001:db8::7", ""], &[], VmState::Down)),
        "> web-1 : vnet0 <> [192.168.122.45, 2001:db8::7, ] down"
    );
}

#[test]
fn show_vm_without_addresses() {
    assert_eq!(show_vm(&vm(&[], &[], VmState::Unknown)), "> web-1 : vnet0 <> no_ip_found unknown");
    assert_eq!(
        show_vm(&vm(&["no_ip_found"], &[], VmState::Unknown)),
        "> web-1 : vnet0 <> no_ip_found unknown"
    );
}

#[test]
fn show_vm_full_lists_every_field() {
    assert_eq!(
        show_vm_full(&vm(
            &["192.168.122.45", "2001:db8::7"],
            &["52:54:00:aa:bb:cc", "52:54:00:dd:ee:ff"],
            VmState::Up
        )),
        "> web-1 :\n- vnet: vnet0\n- ip:\n  192.168.122.45\n  2001:db8::7\n- disk: /path/a.img, /path/b.img\n- mac:\n  52:54:00:aa:bb:cc\n  52:54:00:dd:ee:ff\n- config_xml_file: /tmp/web-1_config.xml\n- state: up"
    );
}

#[test]
fn show_vm_full_with_empty_lists() {
    assert_eq!(
        show_vm_full(&vm(&[], &[], VmState::Unknown)),
        "> web-1 :\n- vnet: vnet0\n- ip:\n  \n- disk: /path/a.img, /path/b.img\n- mac:\n  \n- config_xml_file: /tmp/web-1_config.xml\n- state: unknown"
    );
}

#[test]
fn show_vm_args_picks_the_form() {
    let v = vm(&["10.0.0.1"], &["52:54:00:aa:bb:cc"], VmState::Down);
    assert_eq!(show_vm_args(&v, false), format!("{}\n", show_vm(&v)));
    assert_eq!(show_vm_args(&v, true), format!("{}\n\n", show_vm_full(&v)));
    assert_eq!(show_vm_args(&v, false), "> web-1 : vnet0 <> 10.0.0.1 down\n");
}

#[test]
fn highlight_is_green_for_up_and_red_for_down() {
    assert_eq!(highlight(VmState::Up), Some(Highlight::Green));
    assert_eq!(highlight(VmState::Down), Some(Highlight::Red));
    assert_eq!(highlight(VmState::Unknown), None);
}
