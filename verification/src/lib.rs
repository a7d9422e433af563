//! Input parsing, output rendering and result-row logic for the RDAP tools.

pub mod text;
pub mod output;
pub mod input;
pub mod rdap;
pub mod report;
pub mod ip_networks;
pub mod protected_domains;
pub mod nameserver_networks;
