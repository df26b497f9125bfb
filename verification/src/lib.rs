//! A privilege-isolation launcher for package managers, as a library of
//! decisions.
//!
//! The launcher runs an untrusted program inside a filesystem jail: a
//! directory into which `/proc`, `/dev`, `/sys` and the directories that the
//! user names are bind-mounted. It drops to an unprivileged user before it
//! executes the program, and it takes the jail down again when the program
//! has ended.
//!
//! This crate holds every rule of that procedure and performs none of it.
//! It parses the directive lines ([`directive`]), resolves their options
//! ([`options`]), computes the mount operations that build the jail
//! ([`mounts`]) and the order in which it is taken down ([`unmount`]), merges
//! configurations ([`config`]) and steers the launch as a state machine
//! ([`launch`]) that hands out one action at a time. The caller performs the
//! actions and reports their outcome. All that the crate itself asks of the
//! system is the identity of the process, once, when a launch is prepared.

pub mod config;
pub mod directive;
pub mod launch;
pub mod mounts;
pub mod options;
pub mod sorting;
pub mod text;
pub mod unmount;

pub use crate::config::Config;
pub use crate::directive::{parse_bm_directive, BMDirective};
pub use crate::launch::{chroot, drop_privs, exec_pm, exec_pm_as, Action, Event, Launcher};
pub use crate::mounts::{bind_mounts, mount_dev_proc_sys, rbind_make_rslave, MountOp};
pub use crate::options::{resolve, MountOptions};
pub use crate::unmount::{mount_points, recursive_umount, unbind_mounts, unmount_dev_proc_sys};
