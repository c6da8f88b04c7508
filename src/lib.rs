//! Discovery and enforcement of least-privilege execution policies.
//!
//! The library holds the decision logic: the access and policy model with its
//! merge algebra, identity derivation, the capability prober's state, the
//! convergence state machine and the read-modify-write logic of the ACL,
//! D-Bus and polkit policy stores. Reading and writing the stores, running the
//! tracer and changing credentials are left to the caller.

pub mod access;
pub mod account;
pub mod acl;
pub mod assoc;
pub mod caps;
pub mod config;
pub mod dbus;
pub mod discovery;
pub mod identity;
pub mod policy;
pub mod polkit;
pub mod prober;
