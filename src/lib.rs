//! Locating an application's configuration files and pointing their
//! `endpoint` elements at another server, with every other byte of the
//! document kept as the XML reader gave it.

mod bytes;
pub mod config_editor;
pub mod products;
pub mod rewrite_laws;
pub mod servers;
pub mod url_host;
pub mod xml;
