//! One machine's record, and the rules that make it from what the commands printed.

use crate::address::{
    address_column, address_ips, address_stage, any_usable, config_addresses, config_ips,
    config_stage, lemma_routable, neighbor_source, neighbor_stage, usable,
};
use crate::commands::{artifact_path, artifact_path_text};
use crate::execute::{get_permission_valid, outputs, permitted, CommandResult, Output};
use crate::table::{
    column_of, column_value, column_words, data_rows, extract_column, extract_rows,
    marked_values, rows_start,
};
use crate::text::{
    from_chars, join, joined, lines, lines_of, rows, same, text_of, texts, to_chars, to_strings,
    trim, trimmed,
};
use vstd::prelude::*;

verus! {

/// A machine's power state.
#[derive(Clone, Copy, Debug, PartialEq, Eq, Structural)]
pub enum VmState {
    Up,
    Down,
    Unknown,
}

/// Why no record could be made.
#[derive(Clone, Copy, Debug, PartialEq, Eq, Structural)]
pub enum VmError {
    /// The privilege probe does not show the caller to be the superuser.
    InsufficientPrivilege,
    /// The copy of the configuration document could not be written.
    ArtifactWriteFailed,
    /// An inventory was asked for without one observation for each machine listed.
    MissingObservation,
}

/// All that was seen of one machine: the result of each command, in the order in which
/// they are run, and whether the copy of the configuration document was written. A command
/// that was not run is stood for by a result with no output.
#[derive(Debug)]
pub struct Observation {
    /// The privilege probe.
    pub privilege: CommandResult,
    /// The table of network interfaces.
    pub interfaces: CommandResult,
    /// The neighbor table's rows, once for each hardware address of the machine.
    pub neighbors: Vec<CommandResult>,
    /// The table of interface addresses.
    pub addresses: CommandResult,
    /// The configuration document, as read for its addresses.
    pub interface_config: CommandResult,
    /// The table of block devices.
    pub disks: CommandResult,
    /// The configuration document, as read for the copy.
    pub config: CommandResult,
    /// Whether the copy was written.
    pub artifact_written: bool,
    /// The power state.
    pub state: CommandResult,
}

/// An [`Observation`] as plain values.
pub struct Observed {
    pub privilege: Output,
    pub interfaces: Output,
    pub neighbors: Seq<Output>,
    pub addresses: Output,
    pub interface_config: Output,
    pub disks: Output,
    pub config: Output,
    pub artifact_written: bool,
    pub state: Output,
}

impl View for Observation {
    type V = Observed;

    open spec fn view(&self) -> Observed {
        Observed {
            privilege: self.privilege@,
            interfaces: self.interfaces@,
            neighbors: outputs(self.neighbors@),
            addresses: self.addresses@,
            interface_config: self.interface_config@,
            disks: self.disks@,
            config: self.config@,
            artifact_written: self.artifact_written,
            state: self.state@,
        }
    }
}

impl Observation {
    /// The observation in which no command was run and nothing was written.
    pub fn new() -> (r: Observation)
        ensures
            r@ == nothing_seen(),
    {
        let r = Observation {
            privilege: CommandResult::empty(),
            interfaces: CommandResult::empty(),
            neighbors: Vec::new(),
            addresses: CommandResult::empty(),
            interface_config: CommandResult::empty(),
            disks: CommandResult::empty(),
            config: CommandResult::empty(),
            artifact_written: false,
            state: CommandResult::empty(),
        };
        assert(outputs(r.neighbors@) =~= Seq::<Output>::empty());
        r
    }
}

/// A result with no output and status 0.
pub open spec fn silent() -> Output {
    Output { stdout: Seq::empty(), stderr: Seq::empty(), status: 0 }
}

/// The observation in which no command was run and nothing was written.
pub open spec fn nothing_seen() -> Observed {
    Observed {
        privilege: silent(),
        interfaces: silent(),
        neighbors: Seq::empty(),
        addresses: silent(),
        interface_config: silent(),
        disks: silent(),
        config: silent(),
        artifact_written: false,
        state: silent(),
    }
}

/// One machine as it was seen when its record was made.
#[derive(Debug, PartialEq, Eq)]
pub struct Vm {
    /// The machine's name, as the listing gave it.
    pub name: String,
    /// The name of its network interface, or `"unknown"`.
    pub vnet: String,
    /// Its addresses; never empty: `"no_ip_found"` alone stands for none that is usable.
    pub ips: Vec<String>,
    /// Its block devices, separated by `", "`, or `"no_disk_found"`.
    pub disk: String,
    /// The hardware addresses of its interfaces.
    pub macs: Vec<String>,
    /// The file that holds the copy of its configuration document.
    pub config_xml_file: String,
    /// The table of network interfaces that `vnet` and `macs` were read from.
    pub raw_output: String,
    /// Its power state.
    pub state: VmState,
}

/// A [`Vm`] as plain values.
pub struct Record {
    pub name: Seq<char>,
    pub vnet: Seq<char>,
    pub ips: Seq<Seq<char>>,
    pub disk: Seq<char>,
    pub macs: Seq<Seq<char>>,
    pub config_xml_file: Seq<char>,
    pub raw_output: Seq<char>,
    pub state: VmState,
}

impl View for Vm {
    type V = Record;

    open spec fn view(&self) -> Record {
        Record {
            name: self.name@,
            vnet: self.vnet@,
            ips: texts(self.ips@),
            disk: self.disk@,
            macs: texts(self.macs@),
            config_xml_file: self.config_xml_file@,
            raw_output: self.raw_output@,
            state: self.state,
        }
    }
}

/// The header of the column that names a machine's network interface.
pub open spec fn interface_header() -> Seq<char> {
    "Interface"@
}

/// The column, counted from 0, that holds an interface's hardware address.
pub const MAC_COLUMN: usize = 4;

/// The character that marks a word as a hardware address.
pub const MAC_MARK: char = ':';

/// The hardware addresses in a table of network interfaces: the fifth word of every line
/// whose fifth word holds a colon.
pub open spec fn macs_of(table: Seq<char>) -> Seq<Seq<char>> {
    marked_values(lines_of(table), MAC_COLUMN as int, MAC_MARK)
}

/// The address that stands for "none found".
pub open spec fn no_ip_found() -> Seq<char> {
    "no_ip_found"@
}

/// `found` if it holds anything, else `so_far`: a source that gives nothing changes nothing.
pub open spec fn taken_over(found: Seq<Seq<char>>, so_far: Seq<Seq<char>>) -> Seq<Seq<char>> {
    if found.len() > 0 {
        found
    } else {
        so_far
    }
}

/// The addresses after the neighbor table and the table of interface addresses. The
/// second is consulted only where the first gave no address that is not link-local.
pub open spec fn after_addresses(neighbors: Seq<Output>, addresses: Output) -> Seq<Seq<char>> {
    let first = neighbor_stage(neighbors);
    if usable(first) {
        first
    } else {
        taken_over(address_stage(addresses), first)
    }
}

/// The addresses after all three sources. The configuration document is consulted only
/// where the first two gave no address that is not link-local.
pub open spec fn after_config(neighbors: Seq<Output>, addresses: Output, config: Output) -> Seq<
    Seq<char>,
> {
    let second = after_addresses(neighbors, addresses);
    if usable(second) {
        second
    } else {
        taken_over(config_stage(config), second)
    }
}

/// A machine's addresses: what the three sources gave, if that holds a usable address,
/// one that is not link-local; else the single entry `no_ip_found()`. A list that is taken
/// is taken whole, its link-local entries too.
pub open spec fn resolved(neighbors: Seq<Output>, addresses: Output, config: Output) -> Seq<
    Seq<char>,
> {
    let found = after_config(neighbors, addresses, config);
    if usable(found) {
        found
    } else {
        seq![no_ip_found()]
    }
}

/// The value that stands for "no block device".
pub open spec fn no_disk_found() -> Seq<char> {
    "no_disk_found"@
}

/// The second word of each line that has one, in the order of the lines. A line with
/// fewer than two words names no device.
pub open spec fn second_words(lines: Seq<Seq<char>>) -> Seq<Seq<char>> {
    column_words(lines, 1)
}

/// A machine's block devices: the second word of each row of the table that has one,
/// separated by `", "`; `no_disk_found()` where no row has one.
pub open spec fn disks_of(table: Seq<char>) -> Seq<char> {
    let devices = second_words(data_rows(lines_of(table)));
    if devices.len() == 0 {
        no_disk_found()
    } else {
        joined(devices, ", "@)
    }
}

/// Whether `text` is one of the ways in which the tool says that a machine runs.
pub open spec fn says_running(text: Seq<char>) -> bool {
    text == "running"@ || text == "en cours d\u{2019}ex\u{e9}cution"@
}

/// Whether `text` is one of the ways in which the tool says that a machine is shut off.
pub open spec fn says_shut_off(text: Seq<char>) -> bool {
    text == "shut off"@ || text == "arr\u{ea}t\u{e9}"@ || text == "ferm\u{e9}"@
}

/// The state that `text` names: `Up` for "running", `Down` for "shut off", each in English
/// or French, `Unknown` for every other text.
pub open spec fn state_named(text: Seq<char>) -> VmState {
    if says_running(text) {
        VmState::Up
    } else if says_shut_off(text) {
        VmState::Down
    } else {
        VmState::Unknown
    }
}

/// The state that the reply of the power-state command shows: `Unknown` where the command
/// complained, else what its output names, white space around it aside.
pub open spec fn state_of(reply: Output) -> VmState {
    if reply.stderr.len() > 0 {
        VmState::Unknown
    } else {
        state_named(trimmed(reply.stdout))
    }
}

/// What is to be reported of the reply of the power-state command: what the command
/// complained of, or else a state that is named in no known way; nothing where the state is
/// `Up` or `Down`.
pub open spec fn state_warning_of(reply: Output) -> Option<Seq<char>> {
    if reply.stderr.len() > 0 {
        Some("Error executing domstate command: "@ + reply.stderr)
    } else if state_named(trimmed(reply.stdout)) == VmState::Unknown {
        Some("Unexpected VM state: "@ + trimmed(reply.stdout))
    } else {
        None
    }
}

/// The record of the machine `name` that `seen` gives.
pub open spec fn record_of(name: Seq<char>, seen: Observed) -> Record {
    Record {
        name,
        vnet: column_value(seen.interfaces.stdout, interface_header()),
        ips: resolved(seen.neighbors, seen.addresses, seen.interface_config),
        disk: disks_of(seen.disks.stdout),
        macs: macs_of(seen.interfaces.stdout),
        config_xml_file: artifact_path_text(name),
        raw_output: seen.interfaces.stdout,
        state: state_of(seen.state),
    }
}

/// What making a record from `seen` comes to: the record, or the reason why there is none.
/// Only two things stand in the way: a privilege probe that does not show the superuser,
/// and, after that, a copy that was not written.
pub open spec fn outcome(name: Seq<char>, seen: Observed) -> Result<Record, VmError> {
    if !permitted(seen.privilege) {
        Err(VmError::InsufficientPrivilege)
    } else if !seen.artifact_written {
        Err(VmError::ArtifactWriteFailed)
    } else {
        Ok(record_of(name, seen))
    }
}

impl VmState {
    /// The state's name in lower case.
    pub open spec fn label_text(self) -> Seq<char> {
        match self {
            VmState::Up => "up"@,
            VmState::Down => "down"@,
            VmState::Unknown => "unknown"@,
        }
    }

    /// The state's name in lower case: `"up"`, `"down"` or `"unknown"`.
    pub fn label(&self) -> (r: String)
        ensures
            r@ == self.label_text(),
    {
        match self {
            VmState::Up => String::from_str("up"),
            VmState::Down => String::from_str("down"),
            VmState::Unknown => String::from_str("unknown"),
        }
    }
}

impl Vm {
    /// What holds of every record that [`Vm::new`] makes: it has at least one address.
    pub open spec fn wf(&self) -> bool {
        self.ips@.len() > 0
    }

    /// The record of the machine `vm_name`, made from what was seen of it.
    pub fn new(vm_name: String, seen: &Observation) -> (r: Result<Vm, VmError>)
        ensures
            match r {
                Ok(vm) => outcome(vm_name@, seen@) == Ok::<Record, VmError>(vm@) && vm.wf(),
                Err(e) => outcome(vm_name@, seen@) == Err::<Record, VmError>(e),
            },
    {
        let mut vm_instance = Vm {
            name: vm_name,
            vnet: String::new(),
            ips: Vec::new(),
            disk: String::new(),
            macs: Vec::new(),
            config_xml_file: String::new(),
            raw_output: String::new(),
            state: VmState::Unknown,
        };
        if !Self::check_requirements(&seen.privilege) {
            return Err(VmError::InsufficientPrivilege);
        }
        vm_instance.raw_output = Self::get_vm_info(&seen.interfaces);
        vm_instance.vnet = vm_instance.get_vnet();
        vm_instance.macs = vm_instance.get_macs();
        vm_instance.ips = Self::get_ips(&seen.neighbors, &seen.addresses, &seen.interface_config);
        vm_instance.disk = Self::get_disk(&seen.disks);
        vm_instance.config_xml_file = vm_instance.get_xml_file();
        if !seen.artifact_written {
            return Err(VmError::ArtifactWriteFailed);
        }
        vm_instance.state = Self::get_state(&seen.state);
        proof {
            lemma_resolved_not_empty(
                seen@.neighbors,
                seen@.addresses,
                seen@.interface_config,
            );
        }
        Ok(vm_instance)
    }

    /// The table of network interfaces: the output of the command that lists them.
    pub fn get_vm_info(result: &CommandResult) -> (r: String)
        ensures
            r@ == result@.stdout,
    {
        result.stdout.clone()
    }

    /// The name of the machine's network interface: the `Interface` column of the table
    /// that the record holds.
    pub fn get_vnet(&self) -> (r: String)
        ensures
            r@ == column_value(self.raw_output@, interface_header()),
    {
        self.parse_result("Interface")
    }

    /// The hardware addresses in the table that the record holds.
    pub fn get_macs(&self) -> (r: Vec<String>)
        ensures
            texts(r@) == macs_of(self.raw_output@),
    {
        extract_rows(self.raw_output.as_str(), MAC_COLUMN, MAC_MARK)
    }

    /// The machine's addresses, from the replies of the three sources. `neighbors` holds
    /// one reply of the neighbor table for each hardware address. A source that was not
    /// asked is stood for by a reply with no output.
    pub fn get_ips(
        neighbors: &Vec<CommandResult>,
        addresses: &CommandResult,
        config: &CommandResult,
    ) -> (r: Vec<String>)
        ensures
            texts(r@) == resolved(outputs(neighbors@), addresses@, config@),
            r.len() > 0,
    {
        let mut ips = Self::first_two_sources(neighbors, addresses);
        if !any_usable(&ips) {
            let found = config_ips(config);
            if found.len() > 0 {
                ips = found;
            }
        }
        if any_usable(&ips) {
            to_strings(&ips)
        } else {
            let mut out: Vec<String> = Vec::new();
            out.push(String::from_str("no_ip_found"));
            assert(texts(out@) =~= seq![no_ip_found()]);
            out
        }
    }

    /// The machine's block devices, from the table that lists them.
    pub fn get_disk(result: &CommandResult) -> (r: String)
        ensures
            r@ == disks_of(result@.stdout),
    {
        let text = to_chars(result.stdout.as_str());
        let all = lines(&text);
        let start = rows_start(all.len());
        assert(rows(all@).skip(start as int) =~= data_rows(rows(all@)));
        let devices = to_strings(&column_of(&all, start, 1));
        if devices.len() == 0 {
            String::from_str("no_disk_found")
        } else {
            join(&devices, ", ")
        }
    }

    /// The file that holds the copy of the machine's configuration document.
    pub fn get_xml_file(&self) -> (r: String)
        ensures
            r@ == artifact_path_text(self.name@),
    {
        artifact_path(self.name.as_str())
    }

    /// The machine's power state, from the reply of the command that prints it.
    pub fn get_state(result: &CommandResult) -> (r: VmState)
        ensures
            r == state_of(result@),
    {
        if !result.stderr.as_str().is_empty() {
            return VmState::Unknown;
        }
        let text = to_chars(result.stdout.as_str());
        let state = trim(&text);
        if same(&state, &to_chars("running")) || same(
            &state,
            &to_chars("en cours d\u{2019}ex\u{e9}cution"),
        ) {
            VmState::Up
        } else if same(&state, &to_chars("shut off")) || same(
            &state,
            &to_chars("arr\u{ea}t\u{e9}"),
        ) || same(&state, &to_chars("ferm\u{e9}")) {
            VmState::Down
        } else {
            VmState::Unknown
        }
    }

    /// What is to be reported of the reply of the power-state command, if anything.
    pub fn state_warning(result: &CommandResult) -> (r: Option<String>)
        ensures
            text_of(r) == state_warning_of(result@),
    {
        if !result.stderr.as_str().is_empty() {
            let mut r = String::from_str("Error executing domstate command: ");
            r.append(result.stderr.as_str());
            return Some(r);
        }
        match Self::get_state(result) {
            VmState::Unknown => {
                let text = to_chars(result.stdout.as_str());
                let mut r = String::from_str("Unexpected VM state: ");
                r.append(from_chars(&trim(&text)).as_str());
                Some(r)
            },
            _ => None,
        }
    }

    /// The addresses after the first two sources.
    pub fn first_two_sources(neighbors: &Vec<CommandResult>, addresses: &CommandResult) -> (r:
        Vec<Vec<char>>)
        ensures
            rows(r@) == after_addresses(outputs(neighbors@), addresses@),
    {
        let first = neighbor_source(neighbors);
        if any_usable(&first) {
            first
        } else {
            let found = address_ips(addresses);
            if found.len() > 0 {
                found
            } else {
                first
            }
        }
    }

    /// Whether the privilege probe allows a record to be made.
    fn check_requirements(probe: &CommandResult) -> (r: bool)
        ensures
            r == permitted(probe@),
    {
        get_permission_valid(probe)
    }

    /// The value of the column named `header` in the table that the record holds.
    fn parse_result(&self, header: &str) -> (r: String)
        ensures
            r@ == column_value(self.raw_output@, header@),
    {
        extract_column(self.raw_output.as_str(), header)
    }
}

/// A machine always has at least one address: where the sources give none that is not
/// link-local, the list holds `no_ip_found()`.
pub proof fn lemma_resolved_not_empty(neighbors: Seq<Output>, addresses: Output, config: Output)
    ensures
        resolved(neighbors, addresses, config).len() > 0,
{
}

/// A neighbor table that gives an address which is not link-local settles the addresses:
/// they are what it gave, whatever the other two sources would say.
pub proof fn lemma_neighbors_suffice(neighbors: Seq<Output>, addresses: Output, config: Output)
    requires
        usable(neighbor_stage(neighbors)),
    ensures
        resolved(neighbors, addresses, config) == neighbor_stage(neighbors),
{
}

/// Where the neighbor table gives no address, or link-local ones only, and the table of
/// interface addresses gives some, the addresses are those of that table, whatever the
/// configuration document would say.
pub proof fn lemma_addresses_take_over(neighbors: Seq<Output>, addresses: Output, config: Output)
    requires
        !usable(neighbor_stage(neighbors)),
        address_stage(addresses).len() > 0,
    ensures
        resolved(neighbors, addresses, config) == address_stage(addresses),
{
    lemma_routable(address_column(data_rows(lines_of(addresses.stdout))));
}

/// Where neither the neighbor table nor the table of interface addresses gives an address
/// that is not link-local, and the configuration document gives some, the addresses are
/// those of the document.
pub proof fn lemma_config_takes_over(neighbors: Seq<Output>, addresses: Output, config: Output)
    requires
        !usable(neighbor_stage(neighbors)),
        address_stage(addresses).len() == 0,
        config_stage(config).len() > 0,
    ensures
        resolved(neighbors, addresses, config) == config_stage(config),
{
    lemma_routable(config_addresses(lines_of(config.stdout)));
    lemma_routable(address_column(data_rows(lines_of(addresses.stdout))));
}

/// Where no source gives an address that is not link-local, the addresses are the single
/// entry `no_ip_found()`: link-local addresses from the neighbor table are not kept.
pub proof fn lemma_no_usable_address(neighbors: Seq<Output>, addresses: Output, config: Output)
    requires
        !usable(neighbor_stage(neighbors)),
        address_stage(addresses).len() == 0,
        config_stage(config).len() == 0,
    ensures
        resolved(neighbors, addresses, config) == seq![no_ip_found()],
{
}

/// The addresses are either the sentinel alone or a list with an address that is not
/// link-local.
pub proof fn lemma_resolved_is_usable_or_sentinel(
    neighbors: Seq<Output>,
    addresses: Output,
    config: Output,
)
    ensures
        resolved(neighbors, addresses, config) == seq![no_ip_found()] || usable(
            resolved(neighbors, addresses, config),
        ),
{
}

/// Where all three sources give nothing, the addresses are the single entry
/// `no_ip_found()`.
pub proof fn lemma_nothing_found(neighbors: Seq<Output>, addresses: Output, config: Output)
    requires
        neighbor_stage(neighbors).len() == 0,
        address_stage(addresses).len() == 0,
        config_stage(config).len() == 0,
    ensures
        resolved(neighbors, addresses, config) == seq![no_ip_found()],
{
}

/// The five names that the tool has for a state: two say `Up`, three say `Down`.
pub proof fn lemma_known_states()
    ensures
        state_named("running"@) == VmState::Up,
        state_named("en cours d\u{2019}ex\u{e9}cution"@) == VmState::Up,
        state_named("shut off"@) == VmState::Down,
        state_named("arr\u{ea}t\u{e9}"@) == VmState::Down,
        state_named("ferm\u{e9}"@) == VmState::Down,
{
    reveal_strlit("running");
    reveal_strlit("en cours d\u{2019}ex\u{e9}cution");
    reveal_strlit("shut off");
    reveal_strlit("arr\u{ea}t\u{e9}");
    reveal_strlit("ferm\u{e9}");
    assert("shut off"@.len() == 8);
    assert("arr\u{ea}t\u{e9}"@.len() == 6);
    assert("ferm\u{e9}"@.len() == 5);
}

/// A reply without complaint whose output is none of the five names gives `Unknown`, and
/// the unexpected name is reported.
pub proof fn lemma_unknown_state(reply: Output)
    requires
        reply.stderr.len() == 0,
        !says_running(trimmed(reply.stdout)),
        !says_shut_off(trimmed(reply.stdout)),
    ensures
        state_of(reply) == VmState::Unknown,
        state_warning_of(reply) == Some("Unexpected VM state: "@ + trimmed(reply.stdout)),
{
}

/// Nothing is reported of a state that is `Up` or `Down`.
pub proof fn lemma_known_state_is_silent(reply: Output)
    requires
        state_of(reply) != VmState::Unknown,
    ensures
        state_warning_of(reply) is None,
{
}

} // verus!
