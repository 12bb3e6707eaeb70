//! The command lines whose output the inventory is read from. Each is handed to a shell as
//! it stands; a machine's name and a hardware address are put in unchanged.

use vstd::prelude::*;

verus! {

/// The command that prints the caller's effective user id.
pub open spec fn privilege_probe_text() -> Seq<char> {
    "id -u"@
}

/// The command that prints the name of every machine, one per line.
pub open spec fn list_all_text() -> Seq<char> {
    "virsh list --all --name"@
}

/// The command that prints the name of every running machine, one per line.
pub open spec fn list_running_text() -> Seq<char> {
    "virsh list --state-running --name"@
}

/// The command that prints the table of a machine's network interfaces.
pub open spec fn interface_table_text(name: Seq<char>) -> Seq<char> {
    "virsh domiflist "@ + name
}

/// The command that prints, of each row of the kernel's neighbor table that holds the
/// hardware address `mac`, the first column: the address of the neighbor.
pub open spec fn neighbor_table_text(mac: Seq<char>) -> Seq<char> {
    "ip neigh show | grep '"@ + mac + "' | awk '{print $1}'"@
}

/// The command that prints the table of the addresses of a machine's interfaces.
pub open spec fn interface_addresses_text(name: Seq<char>) -> Seq<char> {
    "virsh domifaddr "@ + name
}

/// The command that prints a machine's configuration document.
pub open spec fn full_config_text(name: Seq<char>) -> Seq<char> {
    "virsh dumpxml "@ + name
}

/// The command that prints the table of a machine's block devices.
pub open spec fn disk_table_text(name: Seq<char>) -> Seq<char> {
    "virsh domblklist "@ + name
}

/// The command that prints a machine's power state.
pub open spec fn power_state_text(name: Seq<char>) -> Seq<char> {
    "virsh domstate "@ + name
}

/// The file that keeps a copy of a machine's configuration document.
pub open spec fn artifact_path_text(name: Seq<char>) -> Seq<char> {
    "/tmp/"@ + name + "_config.xml"@
}

/// The command that prints the caller's effective user id.
pub fn privilege_probe() -> (r: String)
    ensures
        r@ == privilege_probe_text(),
{
    String::from_str("id -u")
}

/// The command that prints the name of every machine.
pub fn list_all() -> (r: String)
    ensures
        r@ == list_all_text(),
{
    String::from_str("virsh list --all --name")
}

/// The command that prints the name of every running machine.
pub fn list_running() -> (r: String)
    ensures
        r@ == list_running_text(),
{
    String::from_str("virsh list --state-running --name")
}

/// The command that prints the table of the network interfaces of the machine `name`.
pub fn interface_table(name: &str) -> (r: String)
    ensures
        r@ == interface_table_text(name@),
{
    let mut r = String::from_str("virsh domiflist ");
    r.append(name);
    r
}

/// The command that prints the neighbors with the hardware address `mac`.
pub fn neighbor_table(mac: &str) -> (r: String)
    ensures
        r@ == neighbor_table_text(mac@),
{
    let mut r = String::from_str("ip neigh show | grep '");
    r.append(mac);
    r.append("' | awk '{print $1}'");
    r
}

/// The command that prints the table of the interface addresses of the machine `name`.
pub fn interface_addresses(name: &str) -> (r: String)
    ensures
        r@ == interface_addresses_text(name@),
{
    let mut r = String::from_str("virsh domifaddr ");
    r.append(name);
    r
}

/// The command that prints the configuration document of the machine `name`.
pub fn full_config(name: &str) -> (r: String)
    ensures
        r@ == full_config_text(name@),
{
    let mut r = String::from_str("virsh dumpxml ");
    r.append(name);
    r
}

/// The command that prints the table of the block devices of the machine `name`.
pub fn disk_table(name: &str) -> (r: String)
    ensures
        r@ == disk_table_text(name@),
{
    let mut r = String::from_str("virsh domblklist ");
    r.append(name);
    r
}

/// The command that prints the power state of the machine `name`.
pub fn power_state(name: &str) -> (r: String)
    ensures
        r@ == power_state_text(name@),
{
    let mut r = String::from_str("virsh domstate ");
    r.append(name);
    r
}

/// The file that keeps a copy of the configuration document of the machine `name`.
pub fn artifact_path(name: &str) -> (r: String)
    ensures
        r@ == artifact_path_text(name@),
{
    let mut r = String::from_str("/tmp/");
    r.append(name);
    r.append("_config.xml");
    r
}

} // verus!
