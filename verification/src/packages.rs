//! Versions of the packages distributed alongside the runtime: the MCP
//! plugin, the role-pack format library and the runtime SDK.

use vstd::prelude::*;

verus! {

/// Version of the MCP plugin.
pub const MCP_PLUGIN_VERSION: &'static str = "0.1.0";

/// Version of the role-pack format library.
pub const ROLE_PACK_VERSION: &'static str = "0.1.0";

/// Version of the runtime SDK.
pub const RUNTIME_SDK_VERSION: &'static str = "0.1.0";

} // verus!
