//! The package constants.

use quanttide_work::{DOMAIN, VERSION};

#[test]
fn domain_name() {
    assert_eq!(DOMAIN, "knowledge-work");
}

#[test]
fn version_is_the_package_version() {
    assert_eq!(VERSION, "0.1.0");
}
