//! Decision logic of the bridgething daemon and companion, verified with Verus.
//!
//! Every module here is plain data in, plain data out: the parts of the daemon
//! that touch sockets, files, timers or the browser live in `app/` and hand the
//! values they read to these functions.

pub mod peers;
pub mod text;
pub mod companion;
pub mod keyed;
pub mod pathname;
pub mod names;
pub mod webapps;
pub mod bundles;
pub mod bundle_hash;
pub mod sorting;
pub mod gateway_msgs;
pub mod webapp_handler;
pub mod chrome;
pub mod als;
pub mod rotation;
pub mod input;
pub mod net;
pub mod screenshot;
