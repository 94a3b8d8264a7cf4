//! What `render` needs decided before it scans, pairs and streams.
use vstd::prelude::*;
use vstd::string::*;

use crate::flags::{timeout_spec, timeout_secs, Flags};
use crate::paths::{opt_chars, pairings_path, pairings_path_spec};

verus! {

/// The settings `render` runs with.
pub struct RenderPlan {
    /// The receiver to look for: an id, or a part of a name.
    pub want: String,
    /// Seconds to wait for discovery.
    pub timeout_secs: u64,
    /// The PIN for a first pairing, if given.
    pub pin: Option<String>,
    /// The file that holds the pairing keys.
    pub store_path: String,
}

/// The error when `render` is given no `--device`.
pub open spec fn device_required_msg() -> Seq<char> {
    "render: --device <id|name-substring> is required"@
}

/// Decides the settings of `render` from its flags and the home directory:
/// the receiver to look for is required; the timeout defaults to five
/// seconds; the pairing store defaults as `pairings_path` says.
pub fn plan_render(flags: &Flags, home: Option<&str>) -> (r: Result<RenderPlan, String>)
    ensures
        r is Err <==> flags@.device is None,
        r matches Err(e) ==> e@ == device_required_msg() && e@
            == "render: --device <id|name-substring> is required"@,
        r matches Ok(p) ==> {
            &&& flags@.device == Some(p.want@)
            &&& p.timeout_secs == timeout_spec(flags@)
            &&& p.pin.deep_view() == flags@.pin
            &&& p.store_path@ == pairings_path_spec(flags@.store, opt_chars(home))
        },
{
    let want = match &flags.device {
        Some(d) => d.clone(),
        None => {
            return Err(String::from_str("render: --device <id|name-substring> is required"));
        },
    };
    let timeout = timeout_secs(flags);
    let pin = match &flags.pin {
        Some(p) => Some(p.clone()),
        None => None,
    };
    let store: Option<&str> = match &flags.store {
        Some(s) => Some(s.as_str()),
        None => None,
    };
    let store_path = pairings_path(store, home);
    Ok(RenderPlan { want, timeout_secs: timeout, pin, store_path })
}

} // verus!
