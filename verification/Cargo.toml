[package]
name = "vm_inventory"
version = "0.1.0"
edition = "2021"
publish = false

[dependencies]
clap = "4"
termcolor = "1"
