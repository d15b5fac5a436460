//! Verified building blocks of a handful of small systems programs.
//!
//! * `balancebeam`: the core of a reverse-proxy load balancer: the HTTP/1.1
//!   message codec, the pool of upstream servers and the protocol of one
//!   client connection.
//! * `inspect_fds`: what `/proc`, `ps` and `pgrep` tell of the open files of
//!   a process.
//! * `deet`: the commands of a debugger.
//! * `linked_list`: a singly linked list.
//! * `hangman`, `rwc`, `warmup`: a word game, a word count and exercises
//!   on vectors.
//! * `text`, `random`: what the others share.
//!
//! Every function is verified against its contract, but for the few that
//! call into other crates: those say in their comments what is believed of
//! them.

pub mod balancebeam;
pub mod deet;
pub mod hangman;
pub mod inspect_fds;
pub mod linked_list;
pub mod random;
pub mod rwc;
pub mod text;
pub mod warmup;
