//! A machine's record as text for a terminal: one line, or the full list of its fields.

use crate::text::{join, joined};
use crate::vm::{Record, Vm, VmState};
use vstd::prelude::*;

verus! {

/// How a list of addresses is shown on one line: several between square brackets and
/// separated by `", "`, a single one as it is, none as `no_ip_found`.
pub open spec fn ip_display(ips: Seq<Seq<char>>) -> Seq<char> {
    if ips.len() > 1 {
        "["@ + joined(ips, ", "@) + "]"@
    } else if ips.len() == 1 {
        ips[0]
    } else {
        "no_ip_found"@
    }
}

/// The one-line form of a record: `> name : interface <> addresses state`.
pub open spec fn summary(vm: Record) -> Seq<char> {
    "> "@ + vm.name + " : "@ + vm.vnet + " <> "@ + ip_display(vm.ips) + " "@
        + vm.state.label_text()
}

/// The full form of a record: one field per line, each address on a line of its own.
pub open spec fn details(vm: Record) -> Seq<char> {
    "> "@ + vm.name + " :\n- vnet: "@ + vm.vnet + "\n- ip:\n  "@ + joined(vm.ips, "\n  "@)
        + "\n- disk: "@ + vm.disk + "\n- mac:\n  "@ + joined(vm.macs, "\n  "@)
        + "\n- config_xml_file: "@ + vm.config_xml_file + "\n- state: "@ + vm.state.label_text()
}

/// What is printed for a record: the full form and an empty line after it, or the one-line
/// form; each line ends with a line feed.
pub open spec fn printed(vm: Record, full: bool) -> Seq<char> {
    if full {
        details(vm) + "\n\n"@
    } else {
        summary(vm) + "\n"@
    }
}

/// The one-line form of `vm`.
pub fn show_vm(vm: &Vm) -> (r: String)
    ensures
        r@ == summary(vm@),
{
    let ip_display = if vm.ips.len() > 1 {
        let mut shown = String::from_str("[");
        shown.append(join(&vm.ips, ", ").as_str());
        shown.append("]");
        shown
    } else if vm.ips.len() == 1 {
        vm.ips[0].clone()
    } else {
        String::from_str("no_ip_found")
    };
    let mut r = String::from_str("> ");
    r.append(vm.name.as_str());
    r.append(" : ");
    r.append(vm.vnet.as_str());
    r.append(" <> ");
    r.append(ip_display.as_str());
    r.append(" ");
    r.append(vm.state.label().as_str());
    r
}

/// The full form of `vm`.
pub fn show_vm_full(vm: &Vm) -> (r: String)
    ensures
        r@ == details(vm@),
{
    let ip_display = join(&vm.ips, "\n  ");
    let mac_display = join(&vm.macs, "\n  ");
    let mut r = String::from_str("> ");
    r.append(vm.name.as_str());
    r.append(" :\n- vnet: ");
    r.append(vm.vnet.as_str());
    r.append("\n- ip:\n  ");
    r.append(ip_display.as_str());
    r.append("\n- disk: ");
    r.append(vm.disk.as_str());
    r.append("\n- mac:\n  ");
    r.append(mac_display.as_str());
    r.append("\n- config_xml_file: ");
    r.append(vm.config_xml_file.as_str());
    r.append("\n- state: ");
    r.append(vm.state.label().as_str());
    r
}

/// What is to be printed for `vm`: its full form if `full` is set, else its one-line form.
pub fn show_vm_args(vm: &Vm, full: bool) -> (r: String)
    ensures
        r@ == printed(vm@, full),
{
    if full {
        let mut r = show_vm_full(vm);
        r.append("\n\n");
        r
    } else {
        let mut r = show_vm(vm);
        r.append("\n");
        r
    }
}

/// A color for a state's name.
#[derive(Clone, Copy, Debug, PartialEq, Eq, Structural)]
pub enum Highlight {
    Green,
    Red,
}

/// The color in which the full form names a state: green for `Up`, red for `Down`, none
/// for `Unknown`.
pub open spec fn highlight_of(state: VmState) -> Option<Highlight> {
    match state {
        VmState::Up => Some(Highlight::Green),
        VmState::Down => Some(Highlight::Red),
        VmState::Unknown => None,
    }
}

/// The color in which the full form names `state`.
pub fn highlight(state: VmState) -> (r: Option<Highlight>)
    ensures
        r == highlight_of(state),
{
    match state {
        VmState::Up => Some(Highlight::Green),
        VmState::Down => Some(Highlight::Red),
        VmState::Unknown => None,
    }
}

} // verus!
