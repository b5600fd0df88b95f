//! Discovery of mining devices on a network: which addresses to scan, in which
//! stages, and how the answers of a host decide which firmware it runs.
//!
//! The crate holds the decisions. It queues addresses from subnets, octet
//! selectors and range strings ([`factory`]), and it drives a scan as a state
//! machine ([`scan`], [`probe`], [`discovery`]) that says which hosts to contact
//! next and what to report. Sockets, timers and firmware drivers stay with the
//! caller.

pub mod address;
pub mod credentials;
pub mod discovery;
pub mod error;
pub mod factory;
pub mod identify;
pub mod limits;
pub mod nofile;
pub mod octets;
pub mod probe;
pub mod registry;
pub mod scan;
pub mod subnet;
pub mod text;
pub mod time;
