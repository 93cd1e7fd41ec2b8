use vstd::prelude::*;
use vstd::string::StringExecFns;

use crate::text::{chars_eq, chars_of, decimal, push_decimal, replace, replace_spec, string_of};

verus! {

/// The dotted-decimal text of an IPv4 address, as `Ipv4Addr`'s `Display` writes it.
pub open spec fn ip_text(ip: Seq<u8>) -> Seq<char> {
    decimal(ip[0] as nat).push('.') + decimal(ip[1] as nat).push('.') + decimal(ip[2] as nat).push(
        '.',
    ) + decimal(ip[3] as nat)
}

/// The dotted-decimal text of an IPv4 address.
pub fn format_ip(ip: [u8; 4]) -> (s: String)
    ensures
        s@ == ip_text(ip@),
{
    let mut s = String::new();
    push_decimal(&mut s, ip[0] as u32);
    s.append(".");
    push_decimal(&mut s, ip[1] as u32);
    s.append(".");
    push_decimal(&mut s, ip[2] as u32);
    s.append(".");
    push_decimal(&mut s, ip[3] as u32);
    proof {
        reveal_strlit(".");
        assert(s@ == ip_text(ip@));
    }
    s
}

/// Whether the station has an address: its text is not `0.0.0.0`.
pub fn is_connected(ip: [u8; 4]) -> (connected: bool)
    ensures
        connected == (ip_text(ip@) != "0.0.0.0"@),
        connected == !(ip@[0] == 0 && ip@[1] == 0 && ip@[2] == 0 && ip@[3] == 0),
{
    proof {
        lemma_ip_text_zero(ip@);
    }
    let text = format_ip(ip);
    let t = chars_of(text.as_str());
    let zero = chars_of("0.0.0.0");
    !chars_eq(&t, &zero)
}

/// How the station authenticates to the access point.
#[derive(Clone, Copy, Debug, PartialEq, Eq, Structural)]
pub enum AuthChoice {
    /// An open network.
    Open,
    /// WPA2 with a pre-shared key.
    WPA2Personal,
}

/// Open network for an empty password, WPA2 otherwise.
pub fn auth_method(pass: &str) -> (m: AuthChoice)
    ensures
        m == (if pass@.len() == 0 {
            AuthChoice::Open
        } else {
            AuthChoice::WPA2Personal
        }),
{
    if pass.is_empty() {
        AuthChoice::Open
    } else {
        AuthChoice::WPA2Personal
    }
}

/// The network name as typed in the form: each `+` stands for a space.
pub fn normalize_ssid(ssid: &str) -> (s: String)
    ensures
        s@ == replace_spec(ssid@, seq!['+'], seq![' ']),
        !s@.contains('+'),
        s@.len() == ssid@.len(),
{
    proof {
        assert(!seq![' '].contains('+')) by {
            if seq![' '].contains('+') {
                let k = choose|k: int| 0 <= k < 1 && seq![' '][k] == '+';
                assert(seq![' '][k] == ' ');
            }
        }
        crate::text::lemma_replace_char(ssid@, '+', seq![' ']);
    }
    let chars = chars_of(ssid);
    let mut plus: Vec<char> = Vec::new();
    plus.push('+');
    let mut space: Vec<char> = Vec::new();
    space.push(' ');
    let out = replace(&chars, &plus, &space);
    string_of(&out)
}

/// An access point seen in a scan.
#[derive(Debug)]
pub struct AccessPoint {
    pub ssid: String,
    pub channel: u8,
}

/// The channel of the first access point in the scan whose name is `ssid`.
pub fn find_channel(aps: &Vec<AccessPoint>, ssid: &str) -> (channel: Option<u8>)
    ensures
        channel is Some <==> exists|i: int| 0 <= i < aps@.len() && (#[trigger] aps@[i]).ssid@ == ssid@,
        channel matches Some(ch) ==> exists|i: int|
            0 <= i < aps@.len() && (#[trigger] aps@[i]).ssid@ == ssid@ && aps@[i].channel == ch
                && forall|j: int| 0 <= j < i ==> (#[trigger] aps@[j]).ssid@ != ssid@,
{
    let wanted = ssid.to_owned();
    let mut i: usize = 0;
    while i < aps.len()
        invariant
            i <= aps@.len(),
            wanted@ == ssid@,
            forall|j: int| 0 <= j < i ==> (#[trigger] aps@[j]).ssid@ != ssid@,
        decreases aps.len() - i,
    {
        if aps[i].ssid == wanted {
            return Some(aps[i].channel);
        }
        i = i + 1;
    }
    None
}

} // verus!

verus! {

/// A decimal text is the single digit `0` exactly for zero.
proof fn lemma_decimal_is_zero(n: nat)
    ensures
        decimal(n).len() >= 1,
        (decimal(n).len() == 1 && decimal(n)[0] == '0') <==> n == 0,
{
    crate::text::lemma_decimal_digits(n);
    if n >= 10 {
        crate::text::lemma_decimal_digits(n / 10);
        assert(decimal(n).len() == decimal(n / 10).len() + 1);
    } else {
        assert((n + 48) as char as int == n + 48);
        assert('0' as int == 48);
    }
}

/// The text of an address is `0.0.0.0` exactly for the all-zero address, so
/// comparing the text is comparing the octets.
pub proof fn lemma_ip_text_zero(ip: Seq<u8>)
    requires
        ip.len() == 4,
    ensures
        (ip_text(ip) == "0.0.0.0"@) <==> (ip[0] == 0 && ip[1] == 0 && ip[2] == 0 && ip[3] == 0),
{
    reveal_strlit("0.0.0.0");
    let d0 = decimal(ip[0] as nat);
    let d1 = decimal(ip[1] as nat);
    let d2 = decimal(ip[2] as nat);
    let d3 = decimal(ip[3] as nat);
    lemma_decimal_is_zero(ip[0] as nat);
    lemma_decimal_is_zero(ip[1] as nat);
    lemma_decimal_is_zero(ip[2] as nat);
    lemma_decimal_is_zero(ip[3] as nat);
    let t = ip_text(ip);
    assert(t == d0.push('.') + d1.push('.') + d2.push('.') + d3);
    if t == "0.0.0.0"@ {
        assert(t.len() == 7);
        assert(d0.len() == 1 && d1.len() == 1 && d2.len() == 1 && d3.len() == 1);
        assert(t[0] == d0[0]);
        assert(t[2] == d1[0]);
        assert(t[4] == d2[0]);
        assert(t[6] == d3[0]);
    }
    if ip[0] == 0 && ip[1] == 0 && ip[2] == 0 && ip[3] == 0 {
        assert(d0 == seq!['0']);
        assert(d1 == seq!['0']);
        assert(d2 == seq!['0']);
        assert(d3 == seq!['0']);
        assert(t == "0.0.0.0"@);
    }
}

} // verus!
