//! The order in which a machine is asked about. A [`Survey`] says what is to be done
//! next, takes what came of it, and decides from that what is wanted after. The caller
//! runs the commands and writes the file; when the survey is done it holds the
//! [`Observation`] that the machine's record is made from.

use crate::address::{
    any_usable, lemma_usable_concat, neighbor_ips, neighbor_source, neighbor_stage, usable,
};
use crate::commands::{
    artifact_path, artifact_path_text, disk_table, disk_table_text, full_config,
    full_config_text, interface_addresses, interface_addresses_text, interface_table,
    interface_table_text, neighbor_table, neighbor_table_text, power_state, power_state_text,
    privilege_probe, privilege_probe_text,
};
use crate::execute::{
    complaint_of, get_permission_valid, outputs, permitted, CommandResult, Output,
};
use crate::table::extract_rows;
use crate::text::{rows, text_of, texts};
use crate::vm::{
    after_addresses, macs_of, nothing_seen, state_warning_of, Observation, Observed, Vm,
    MAC_COLUMN, MAC_MARK,
};
use vstd::prelude::*;

verus! {

/// What a survey is waiting for.
#[derive(Clone, Copy, Debug, PartialEq, Eq, Structural)]
pub enum Stage {
    /// The privilege probe.
    Privilege,
    /// The table of network interfaces.
    Interfaces,
    /// The neighbor table's rows for the next hardware address.
    Neighbors,
    /// The table of interface addresses.
    Addresses,
    /// The configuration document, to read addresses from.
    InterfaceConfig,
    /// The table of block devices.
    Disks,
    /// The configuration document, to copy.
    Config,
    /// Whether the copy was written.
    Artifact,
    /// The power state.
    State,
    /// Nothing: the survey is over.
    Done,
}

/// What the caller is to do next.
#[derive(Debug, PartialEq, Eq)]
pub enum Request {
    /// Run this command line in a shell and answer with its result.
    Run(String),
    /// Write `content` to the file `path`, replacing what the file held, and answer whether
    /// that worked.
    Write { path: String, content: String },
    /// Nothing more.
    Done,
}

/// A [`Request`] as plain text.
pub enum Wanted {
    Run(Seq<char>),
    Write { path: Seq<char>, content: Seq<char> },
    Done,
}

impl View for Request {
    type V = Wanted;

    open spec fn view(&self) -> Wanted {
        match self {
            Request::Run(command) => Wanted::Run(command@),
            Request::Write { path, content } => Wanted::Write { path: path@, content: content@ },
            Request::Done => Wanted::Done,
        }
    }
}

/// What came of a request.
#[derive(Debug)]
pub enum Reply {
    /// The result of the command that was to be run.
    Output(CommandResult),
    /// Whether the file was written.
    Written(bool),
}

/// A [`Reply`] as plain values.
pub enum Heard {
    Output(Output),
    Written(bool),
}

impl View for Reply {
    type V = Heard;

    open spec fn view(&self) -> Heard {
        match self {
            Reply::Output(output) => Heard::Output(output@),
            Reply::Written(done) => Heard::Written(*done),
        }
    }
}

/// How far the survey of one machine has come.
#[derive(Debug)]
pub struct Survey {
    name: String,
    stage: Stage,
    seen: Observation,
}

/// A [`Survey`] as plain values: the machine's name, what the survey is waiting for, and
/// what it has seen so far.
pub struct Progress {
    pub name: Seq<char>,
    pub stage: Stage,
    pub seen: Observed,
}

/// What every survey keeps to: before the table of network interfaces is in, no neighbor
/// reply is; and while neighbor replies are awaited, a hardware address is left to ask
/// about.
pub open spec fn consistent(p: Progress) -> bool {
    &&& p.stage == Stage::Privilege || p.stage == Stage::Interfaces ==> p.seen.neighbors.len()
        == 0
    &&& p.stage == Stage::Neighbors ==> p.seen.neighbors.len() < macs_of(
        p.seen.interfaces.stdout,
    ).len()
}

/// What the caller is to do at this point of the survey.
pub open spec fn wanted(p: Progress) -> Wanted {
    match p.stage {
        Stage::Privilege => Wanted::Run(privilege_probe_text()),
        Stage::Interfaces => Wanted::Run(interface_table_text(p.name)),
        Stage::Neighbors => Wanted::Run(
            neighbor_table_text(macs_of(p.seen.interfaces.stdout)[p.seen.neighbors.len() as int]),
        ),
        Stage::Addresses => Wanted::Run(interface_addresses_text(p.name)),
        Stage::InterfaceConfig => Wanted::Run(full_config_text(p.name)),
        Stage::Disks => Wanted::Run(disk_table_text(p.name)),
        Stage::Config => Wanted::Run(full_config_text(p.name)),
        Stage::Artifact => Wanted::Write {
            path: artifact_path_text(p.name),
            content: p.seen.config.stdout,
        },
        Stage::State => Wanted::Run(power_state_text(p.name)),
        Stage::Done => Wanted::Done,
    }
}

/// The stage that follows the neighbor table: the block devices where it gave an address
/// that is not link-local, else the table of interface addresses.
pub open spec fn after_neighbors(neighbors: Seq<Output>) -> Stage {
    if usable(neighbor_stage(neighbors)) {
        Stage::Disks
    } else {
        Stage::Addresses
    }
}

/// The stage that follows the table of interface addresses: the block devices where an
/// address that is not link-local is known by now, else the configuration document.
pub open spec fn after_address_table(neighbors: Seq<Output>, addresses: Output) -> Stage {
    if usable(after_addresses(neighbors, addresses)) {
        Stage::Disks
    } else {
        Stage::InterfaceConfig
    }
}

/// The survey after the result `reply` of the command that it asked for.
pub open spec fn after_output(p: Progress, reply: Output) -> Progress {
    match p.stage {
        Stage::Privilege => Progress {
            stage: if permitted(reply) {
                Stage::Interfaces
            } else {
                Stage::Done
            },
            seen: Observed { privilege: reply, ..p.seen },
            ..p
        },
        Stage::Interfaces => Progress {
            stage: if macs_of(reply.stdout).len() > 0 {
                Stage::Neighbors
            } else {
                after_neighbors(p.seen.neighbors)
            },
            seen: Observed { interfaces: reply, ..p.seen },
            ..p
        },
        Stage::Neighbors => {
            let neighbors = p.seen.neighbors.push(reply);
            Progress {
                stage: if neighbors.len() < macs_of(p.seen.interfaces.stdout).len() {
                    Stage::Neighbors
                } else {
                    after_neighbors(neighbors)
                },
                seen: Observed { neighbors, ..p.seen },
                ..p
            }
        },
        Stage::Addresses => Progress {
            stage: after_address_table(p.seen.neighbors, reply),
            seen: Observed { addresses: reply, ..p.seen },
            ..p
        },
        Stage::InterfaceConfig => Progress {
            stage: Stage::Disks,
            seen: Observed { interface_config: reply, ..p.seen },
            ..p
        },
        Stage::Disks => Progress {
            stage: Stage::Config,
            seen: Observed { disks: reply, ..p.seen },
            ..p
        },
        Stage::Config => Progress {
            stage: Stage::Artifact,
            seen: Observed { config: reply, ..p.seen },
            ..p
        },
        Stage::State => Progress {
            stage: Stage::Done,
            seen: Observed { state: reply, ..p.seen },
            ..p
        },
        Stage::Artifact => p,
        Stage::Done => p,
    }
}

/// The survey after `reply`. A reply of the kind that the survey did not ask for changes
/// nothing, and neither does any reply once the survey is over. A privilege probe that
/// does not show the superuser ends the survey, and so does a copy that could not be
/// written.
pub open spec fn heard(p: Progress, reply: Heard) -> Progress {
    match reply {
        Heard::Output(output) => after_output(p, output),
        Heard::Written(done) => if p.stage == Stage::Artifact {
            Progress {
                stage: if done {
                    Stage::State
                } else {
                    Stage::Done
                },
                seen: Observed { artifact_written: done, ..p.seen },
                ..p
            }
        } else {
            p
        },
    }
}

/// What is to be reported of a reply that came at `stage`: of a command that tells about
/// the machine, what it wrote to its error stream; of the power state also a state that is
/// named in no known way; nothing of the privilege probe, of the copy, or of a reply that
/// was not asked for.
pub open spec fn warning(stage: Stage, reply: Heard) -> Option<Seq<char>> {
    match reply {
        Heard::Output(output) => match stage {
            Stage::Privilege | Stage::Artifact | Stage::Done => None,
            Stage::State => state_warning_of(output),
            _ => complaint_of(output),
        },
        Heard::Written(_) => None,
    }
}

impl View for Survey {
    type V = Progress;

    closed spec fn view(&self) -> Progress {
        Progress { name: self.name@, stage: self.stage, seen: self.seen@ }
    }
}

impl Survey {
    #[verifier::type_invariant]
    spec fn holds(&self) -> bool {
        consistent(self@)
    }

    /// A survey of the machine `name`, with nothing seen yet.
    pub fn new(name: String) -> (r: Survey)
        ensures
            r@ == (Progress { name: name@, stage: Stage::Privilege, seen: nothing_seen() }),
    {
        Survey { name, stage: Stage::Privilege, seen: Observation::new() }
    }

    /// What the caller is to do next.
    pub fn request(&self) -> (r: Request)
        ensures
            r@ == wanted(self@),
            consistent(self@),
    {
        proof {
            use_type_invariant(self);
        }
        let name = self.name.as_str();
        match self.stage {
            Stage::Privilege => Request::Run(privilege_probe()),
            Stage::Interfaces => Request::Run(interface_table(name)),
            Stage::Neighbors => {
                let macs = extract_rows(self.seen.interfaces.stdout.as_str(), MAC_COLUMN, MAC_MARK);
                let mac = &macs[self.seen.neighbors.len()];
                Request::Run(neighbor_table(mac.as_str()))
            },
            Stage::Addresses => Request::Run(interface_addresses(name)),
            Stage::InterfaceConfig => Request::Run(full_config(name)),
            Stage::Disks => Request::Run(disk_table(name)),
            Stage::Config => Request::Run(full_config(name)),
            Stage::Artifact => Request::Write {
                path: artifact_path(name),
                content: self.seen.config.stdout.clone(),
            },
            Stage::State => Request::Run(power_state(name)),
            Stage::Done => Request::Done,
        }
    }

    /// Whether the survey is over.
    pub fn is_done(&self) -> (r: bool)
        ensures
            r == (self@.stage == Stage::Done),
    {
        match self.stage {
            Stage::Done => true,
            _ => false,
        }
    }

    /// Takes what came of the last request and moves on. Returns what is to be reported
    /// of it, if anything.
    pub fn answer(&mut self, reply: Reply) -> (r: Option<String>)
        ensures
            final(self)@ == heard(old(self)@, reply@),
            text_of(r) == warning(old(self)@.stage, reply@),
            consistent(old(self)@) && consistent(final(self)@),
    {
        proof {
            use_type_invariant(&*self);
        }
        let stage = self.stage;
        match reply {
            Reply::Output(output) => match stage {
                Stage::Privilege => {
                    let next = if get_permission_valid(&output) {
                        Stage::Interfaces
                    } else {
                        Stage::Done
                    };
                    self.seen.privilege = output;
                    self.stage = next;
                    None
                },
                Stage::Interfaces => {
                    let warning = output.complaint();
                    let macs = extract_rows(output.stdout.as_str(), MAC_COLUMN, MAC_MARK);
                    let next = if macs.len() > 0 {
                        Stage::Neighbors
                    } else {
                        Stage::Addresses
                    };
                    self.seen.interfaces = output;
                    self.stage = next;
                    warning
                },
                Stage::Neighbors => {
                    let warning = output.complaint();
                    let macs = extract_rows(
                        self.seen.interfaces.stdout.as_str(),
                        MAC_COLUMN,
                        MAC_MARK,
                    );
                    assert(texts(macs@).len() == macs.len());
                    let ghost before = outputs(self.seen.neighbors@);
                    if self.seen.neighbors.len() + 1 >= macs.len() {
                        let earlier = neighbor_source(&self.seen.neighbors);
                        let latest = neighbor_ips(&output);
                        let next = if any_usable(&earlier) || any_usable(&latest) {
                            Stage::Disks
                        } else {
                            Stage::Addresses
                        };
                        proof {
                            let now = before.push(output@);
                            assert(now.drop_last() =~= before);
                            lemma_usable_concat(rows(earlier@), rows(latest@));
                        }
                        self.stage = next;
                    }
                    let mut neighbors: Vec<CommandResult> = Vec::new();
                    core::mem::swap(&mut self.seen.neighbors, &mut neighbors);
                    neighbors.push(output);
                    assert(outputs(neighbors@) =~= before.push(output@));
                    self.seen.neighbors = neighbors;
                    warning
                },
                Stage::Addresses => {
                    let warning = output.complaint();
                    let known = Vm::first_two_sources(&self.seen.neighbors, &output);
                    let next = if any_usable(&known) {
                        Stage::Disks
                    } else {
                        Stage::InterfaceConfig
                    };
                    self.seen.addresses = output;
                    self.stage = next;
                    warning
                },
                Stage::InterfaceConfig => {
                    let warning = output.complaint();
                    self.seen.interface_config = output;
                    self.stage = Stage::Disks;
                    warning
                },
                Stage::Disks => {
                    let warning = output.complaint();
                    self.seen.disks = output;
                    self.stage = Stage::Config;
                    warning
                },
                Stage::Config => {
                    let warning = output.complaint();
                    self.seen.config = output;
                    self.stage = Stage::Artifact;
                    warning
                },
                Stage::State => {
                    let warning = Vm::state_warning(&output);
                    self.seen.state = output;
                    self.stage = Stage::Done;
                    warning
                },
                Stage::Artifact => None,
                Stage::Done => None,
            },
            Reply::Written(done) => {
                match stage {
                    Stage::Artifact => {
                        self.seen.artifact_written = done;
                        self.stage = if done {
                            Stage::State
                        } else {
                            Stage::Done
                        };
                    },
                    _ => {},
                }
                None
            },
        }
    }

    /// What was seen, once the survey is over; nothing before that.
    pub fn finish(self) -> (r: Option<Observation>)
        ensures
            match r {
                Some(seen) => self@.stage == Stage::Done && seen@ == self@.seen,
                None => self@.stage != Stage::Done,
            },
    {
        match self.stage {
            Stage::Done => Some(self.seen),
            _ => None,
        }
    }
}

/// Where the neighbor table has been asked about every hardware address and has given no
/// address that is not link-local, the table of interface addresses is asked for next.
pub proof fn lemma_proceeds_to_addresses(p: Progress, reply: Output)
    requires
        p.stage == Stage::Neighbors,
        p.seen.neighbors.len() + 1 == macs_of(p.seen.interfaces.stdout).len(),
        !usable(neighbor_stage(p.seen.neighbors.push(reply))),
    ensures
        heard(p, Heard::Output(reply)).stage == Stage::Addresses,
        wanted(heard(p, Heard::Output(reply))) == Wanted::Run(interface_addresses_text(p.name)),
{
}

/// Where the table of interface addresses leaves the survey without an address that is not
/// link-local, the configuration document is asked for next.
pub proof fn lemma_proceeds_to_config(p: Progress, reply: Output)
    requires
        p.stage == Stage::Addresses,
        !usable(after_addresses(p.seen.neighbors, reply)),
    ensures
        heard(p, Heard::Output(reply)).stage == Stage::InterfaceConfig,
        wanted(heard(p, Heard::Output(reply))) == Wanted::Run(full_config_text(p.name)),
{
}

/// A source that gives an address which is not link-local ends the search for addresses:
/// the block devices are asked for next.
pub proof fn lemma_search_ends(p: Progress, reply: Output)
    requires
        p.stage == Stage::Neighbors && p.seen.neighbors.len() + 1 == macs_of(
            p.seen.interfaces.stdout,
        ).len() && usable(neighbor_stage(p.seen.neighbors.push(reply))) || p.stage
            == Stage::Addresses && usable(after_addresses(p.seen.neighbors, reply)),
    ensures
        heard(p, Heard::Output(reply)).stage == Stage::Disks,
{
}

/// A privilege probe that does not show the superuser ends the survey at once, and so
/// does a copy that could not be written: nothing more is asked for.
pub proof fn lemma_refusal_ends(p: Progress, reply: Heard)
    requires
        match reply {
            Heard::Output(probe) => p.stage == Stage::Privilege && !permitted(probe),
            Heard::Written(done) => p.stage == Stage::Artifact && !done,
        },
    ensures
        wanted(heard(p, reply)) == Wanted::Done,
{
}

/// Every reply that is asked for keeps a survey consistent.
pub proof fn lemma_stays_consistent(p: Progress, reply: Heard)
    requires
        consistent(p),
    ensures
        consistent(heard(p, reply)),
{
}

} // verus!
