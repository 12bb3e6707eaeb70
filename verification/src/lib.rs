//! Inventory of the virtual machines that a hypervisor's command-line tools
//! report: the text each tool prints is parsed into one record per machine.
//!
//! Nothing here runs a command or touches a file. The caller runs what a
//! [`survey::Survey`] asks for and hands the results back; a machine's record
//! ([`vm::Vm`]) and the inventory ([`vms::Vms`]) are functions of those results
//! alone.
//!
//! - [`text`]: lines, words, trimming, searching and decimal numbers
//! - [`execute`]: the result of a command, and the privilege probe
//! - [`commands`]: the command lines to run
//! - [`table`]: the tool's tables of columns
//! - [`address`]: the three sources of a machine's addresses
//! - [`vm`]: one machine's record
//! - [`survey`]: the order in which a machine is asked about
//! - [`pattern`]: the patterns by which machines are looked up
//! - [`vms`]: the inventory
//! - [`show_vm_cli`]: a record as text for a terminal

pub mod text;
pub mod execute;
pub mod commands;
pub mod table;
pub mod address;
pub mod vm;
pub mod survey;
pub mod pattern;
pub mod vms;
pub mod show_vm_cli;
