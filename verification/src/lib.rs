//! Post-quantum cryptography survey of captured SSH and TLS traffic.
//!
//! The library reads SSH key-exchange announcements out of captured packets,
//! keeps what each host offered and what each session agreed on, and sums the
//! findings up for a report.

pub mod capture;
pub mod catalog;
pub mod kexinit;
pub mod layers;
pub mod packet;
pub mod report;
pub mod ssh;
pub mod ssh_laws;
pub mod summary;
pub mod table;
pub mod text;
pub mod tls_report;
