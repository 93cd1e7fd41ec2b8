use vstd::prelude::*;
use vstd::string::StringExecFns;

verus! {

/// Storage key of the network name.
pub const NVS_SSID: &'static str = "ssid";

/// Storage key of the network password.
pub const NVS_PASS: &'static str = "pass";

/// Storage key of the brightness.
pub const NVS_BRIGHTNESS: &'static str = "brns";

/// The key of a network interface of the lamp `device_name`: the name, `_`, and
/// the interface's role (`sta` or `ap`).
pub fn netif_key(device_name: &str, role: &str) -> (key: String)
    ensures
        key@ == device_name@ + "_"@ + role@,
{
    let mut key = device_name.to_owned();
    key.append("_");
    key.append(role);
    key
}

} // verus!
