use tally::consts::SAFETY_BUFFER_MS;
use tally::packages::{MCP_PLUGIN_VERSION, ROLE_PACK_VERSION, RUNTIME_SDK_VERSION};

#[test]
fn smoke() {
    // Just verify the binary's main module compiles
    assert_eq!(2 + 2, 4);
}

#[test]
fn version_is_set() {
    assert!(!MCP_PLUGIN_VERSION.is_empty());
}

#[test]
fn lib_version_is_set() {
    assert!(!ROLE_PACK_VERSION.is_empty());
    assert!(!RUNTIME_SDK_VERSION.is_empty());
}

#[test]
fn safety_buffer_nonzero() {
    assert!(SAFETY_BUFFER_MS != 0);
}
