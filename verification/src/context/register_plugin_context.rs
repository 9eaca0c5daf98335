//! What a manager is given when a plugin is registered.

use vstd::prelude::*;
use crate::bundle::Bundle;

verus! {

/// The path of the plugin and the bundle read from its name.
pub struct RegisterPluginContext<'a> {
    pub path: &'a str,
    pub bundle: &'a Bundle,
}

} // verus!
