//! Devices found on the network: naming, formatting, and merging discovery results.

use vstd::prelude::*;
use crate::text::{chars_of, decimal, decimal_chars, find_char, first_index, lemma_first_index, push_chars, push_str, slice_chars, string_of};

verus! {

/// A MeshNet node that discovery found, or that the user named by address.
#[derive(Clone, Debug)]
pub struct FoundDevice {
    pub name: String,
    pub ip: String,
    pub port: u16,
    pub os: String,
}

/// An IP address, as far as subnet scanning reads it.
#[derive(Clone, Copy, Debug)]
pub enum IpAddress {
    V4(u8, u8, u8, u8),
    V6,
}

/// The part of `raw` before its first `.` (all of `raw` when it has none): an mDNS
/// full name such as `laptop-ab12._meshnet._tcp.local.` shortened to `laptop-ab12`.
pub open spec fn clean_name_spec(raw: Seq<char>) -> Seq<char> {
    let k = first_index(raw, '.');
    if k >= 0 {
        raw.take(k)
    } else {
        raw
    }
}

/// Shortens an mDNS instance name to the part before the first `.`.
pub fn clean_name(raw: &str) -> (r: String)
    ensures
        r@ == clean_name_spec(raw@),
{
    let v = chars_of(raw);
    match find_char(&v, '.') {
        Some(k) => {
            let w = slice_chars(&v, 0, k);
            string_of(&w)
        },
        None => string_of(&v),
    }
}

/// A shortened name holds no `.`, is a prefix of the raw name, and shortening
/// it again changes nothing.
pub proof fn lemma_clean_name(raw: Seq<char>)
    ensures
        first_index(clean_name_spec(raw), '.') == -1,
        raw.take(clean_name_spec(raw).len() as int) == clean_name_spec(raw),
        clean_name_spec(clean_name_spec(raw)) == clean_name_spec(raw),
{
    lemma_first_index(raw, '.');
    let c = clean_name_spec(raw);
    lemma_first_index(c, '.');
    if first_index(c, '.') >= 0 {
        assert(c[first_index(c, '.')] == raw[first_index(c, '.')]);
    }
    assert(raw.take(c.len() as int) =~= c);
}

/// `ip:port`, the form in which devices are shown and addressed.
pub open spec fn address_text(ip: Seq<char>, port: u16) -> Seq<char> {
    ip + seq![':'] + decimal(port as nat)
}

/// How a device is shown in a selection list (the `Display` form of a device):
/// `name  (ip:port)` when its system is unknown, else `name  [os]  ip:port`.
pub open spec fn device_label(name: Seq<char>, ip: Seq<char>, port: u16, os: Seq<char>) -> Seq<char> {
    let label = clean_name_spec(name);
    if os.len() == 0 {
        label + seq![' ', ' ', '('] + address_text(ip, port) + seq![')']
    } else {
        label + seq![' ', ' ', '['] + os + seq![']', ' ', ' '] + address_text(ip, port)
    }
}

/// The line that `meshnet list` prints for a device: `    ●  name  [os]  ip:port`,
/// with `?` for an unknown system.
pub open spec fn device_list_line(name: Seq<char>, ip: Seq<char>, port: u16, os: Seq<char>) -> Seq<char> {
    let tag = if os.len() == 0 { seq!['?'] } else { os };
    seq![' ', ' ', ' ', ' ', '●', ' ', ' '] + clean_name_spec(name) + seq![' ', ' ', '['] + tag
        + seq![']', ' ', ' '] + address_text(ip, port)
}

/// Appends `ip:port` to `v`.
fn push_address(v: &mut Vec<char>, ip: &String, port: u16)
    ensures
        final(v)@ == old(v)@ + address_text(ip@, port),
{
    let ghost v0 = v@;
    push_str(v, ip.as_str());
    v.push(':');
    let d = decimal_chars(port as u64);
    push_chars(v, &d);
    assert(v@ =~= v0 + address_text(ip@, port));
}

/// `ip:port` as text.
pub fn socket_address(ip: &String, port: u16) -> (r: String)
    ensures
        r@ == address_text(ip@, port),
{
    let mut v: Vec<char> = Vec::new();
    push_address(&mut v, ip, port);
    assert(v@ =~= address_text(ip@, port));
    string_of(&v)
}

/// `http://ip:port` followed by `path`.
pub open spec fn http_url(ip: Seq<char>, port: u16, path: Seq<char>) -> Seq<char> {
    seq!['h', 't', 't', 'p', ':', '/', '/'] + address_text(ip, port) + path
}

/// The URL of a device's HTTP endpoint `path` (such as `/ping` or `/upload`).
pub fn endpoint_url(ip: &String, port: u16, path: &str) -> (r: String)
    ensures
        r@ == http_url(ip@, port, path@),
{
    let mut v: Vec<char> = Vec::new();
    v.push('h');
    v.push('t');
    v.push('t');
    v.push('p');
    v.push(':');
    v.push('/');
    v.push('/');
    let ghost v0 = v@;
    assert(v0 =~= seq!['h', 't', 't', 'p', ':', '/', '/']);
    push_address(&mut v, ip, port);
    push_str(&mut v, path);
    assert(v@ =~= http_url(ip@, port, path@));
    string_of(&v)
}

impl FoundDevice {
    /// The text of the device as a selection list shows it.
    pub fn label(&self) -> (r: String)
        ensures
            r@ == device_label(self.name@, self.ip@, self.port, self.os@),
    {
        let short = clean_name(self.name.as_str());
        let mut v = chars_of(short.as_str());
        let ghost l = v@;
        if self.os.as_str().is_empty() {
            v.push(' ');
            v.push(' ');
            v.push('(');
            push_address(&mut v, &self.ip, self.port);
            v.push(')');
        } else {
            v.push(' ');
            v.push(' ');
            v.push('[');
            push_str(&mut v, self.os.as_str());
            v.push(']');
            v.push(' ');
            v.push(' ');
            push_address(&mut v, &self.ip, self.port);
        }
        assert(v@ =~= device_label(self.name@, self.ip@, self.port, self.os@));
        string_of(&v)
    }

    /// The line that `meshnet list` prints for the device.
    pub fn list_line(&self) -> (r: String)
        ensures
            r@ == device_list_line(self.name@, self.ip@, self.port, self.os@),
    {
        let mut v: Vec<char> = Vec::new();
        push_str(&mut v, "    ●  ");
        proof {
            reveal_strlit("    ●  ");
        }
        let short = clean_name(self.name.as_str());
        push_str(&mut v, short.as_str());
        v.push(' ');
        v.push(' ');
        v.push('[');
        if self.os.as_str().is_empty() {
            v.push('?');
        } else {
            push_str(&mut v, self.os.as_str());
        }
        v.push(']');
        v.push(' ');
        v.push(' ');
        push_address(&mut v, &self.ip, self.port);
        assert(v@ =~= device_list_line(self.name@, self.ip@, self.port, self.os@));
        string_of(&v)
    }
}

/// A field-by-field copy of `d`.
pub fn copy_device(d: &FoundDevice) -> (r: FoundDevice)
    ensures
        r == *d,
{
    FoundDevice { name: d.name.clone(), ip: d.ip.clone(), port: d.port, os: d.os.clone() }
}

/// Whether some device in `s` has the address `ip`.
pub open spec fn has_ip(s: Seq<FoundDevice>, ip: Seq<char>) -> bool {
    exists|i: int| 0 <= i < s.len() && (#[trigger] s[i]).ip@ == ip
}

/// The devices of an mDNS browse followed by those of a subnet scan whose address
/// no device before them has.
pub open spec fn merged(mdns: Seq<FoundDevice>, subnet: Seq<FoundDevice>) -> Seq<FoundDevice>
    decreases subnet.len(),
{
    if subnet.len() == 0 {
        mdns
    } else {
        let acc = merged(mdns, subnet.drop_last());
        if has_ip(acc, subnet.last().ip@) {
            acc
        } else {
            acc.push(subnet.last())
        }
    }
}

fn has_ip_exec(s: &Vec<FoundDevice>, ip: &String) -> (b: bool)
    ensures
        b == has_ip(s@, ip@),
{
    let mut i: usize = 0;
    while i < s.len()
        invariant
            i <= s.len(),
            forall|j: int| 0 <= j < i ==> s@[j].ip@ != ip@,
        decreases s.len() - i,
    {
        if s[i].ip == *ip {
            return true;
        }
        i = i + 1;
    }
    false
}

/// Combines the two discovery results as `scan_all` does: every mDNS device, in
/// order, then each subnet device whose address is not yet in the list.
pub fn merge_discovered(mdns: Vec<FoundDevice>, subnet: &Vec<FoundDevice>) -> (r: Vec<FoundDevice>)
    ensures
        r@ == merged(mdns@, subnet@),
{
    let mut devices = mdns;
    let ghost m = devices@;
    assert(subnet@.take(0) =~= Seq::<FoundDevice>::empty());
    for i in 0..subnet.len()
        invariant
            devices@ == merged(m, subnet@.take(i as int)),
    {
        assert(subnet@.take(i + 1).drop_last() =~= subnet@.take(i as int));
        if !has_ip_exec(&devices, &subnet[i].ip) {
            devices.push(copy_device(&subnet[i]));
        }
    }
    assert(subnet@.take(subnet.len() as int) =~= subnet@);
    devices
}

/// What a merge keeps: the mDNS list stays in front unchanged; each later device
/// comes from the subnet scan and has an address that no device before it has;
/// every subnet address ends up in the list; and nothing else is added.
pub proof fn lemma_merged(mdns: Seq<FoundDevice>, subnet: Seq<FoundDevice>)
    ensures
        merged(mdns, subnet).len() >= mdns.len(),
        merged(mdns, subnet).take(mdns.len() as int) == mdns,
        forall|i: int|
            mdns.len() <= i < merged(mdns, subnet).len() ==> subnet.contains(
                #[trigger] merged(mdns, subnet)[i],
            ) && !has_ip(merged(mdns, subnet).take(i), merged(mdns, subnet)[i].ip@),
        forall|j: int| 0 <= j < subnet.len() ==> has_ip(merged(mdns, subnet), (#[trigger] subnet[j]).ip@),
    decreases subnet.len(),
{
    if subnet.len() == 0 {
        assert(mdns.take(mdns.len() as int) =~= mdns);
    } else {
        let s0 = subnet.drop_last();
        lemma_merged(mdns, s0);
        let acc = merged(mdns, s0);
        let d = subnet.last();
        let r = merged(mdns, subnet);
        assert forall|i: int| mdns.len() <= i < r.len() implies subnet.contains(#[trigger] r[i])
            && !has_ip(r.take(i), r[i].ip@) by {
            if i < acc.len() {
                assert(r[i] == acc[i]);
                assert(s0.contains(acc[i]));
                let k = choose|k: int| 0 <= k < s0.len() && s0[k] == acc[i];
                assert(subnet[k] == s0[k]);
                assert(r.take(i) =~= acc.take(i));
            } else {
                assert(r[i] == d);
                assert(subnet[subnet.len() - 1] == d);
                assert(r.take(i) =~= acc);
            }
        }
        assert forall|j: int| 0 <= j < subnet.len() implies has_ip(r, (#[trigger] subnet[j]).ip@) by {
            if j < s0.len() {
                assert(subnet[j] == s0[j]);
                assert(has_ip(acc, s0[j].ip@));
                let k = choose|k: int| 0 <= k < acc.len() && (#[trigger] acc[k]).ip@ == s0[j].ip@;
                assert(r[k] == acc[k]);
            } else {
                if !has_ip(acc, d.ip@) {
                    assert(r[acc.len() as int] == d);
                }
            }
        }
        assert(r.take(mdns.len() as int) =~= acc.take(mdns.len() as int));
    }
}

/// The devices in `results`, in order, skipping the addresses that gave nothing.
pub open spec fn found_only(results: Seq<Option<FoundDevice>>) -> Seq<FoundDevice>
    decreases results.len(),
{
    if results.len() == 0 {
        Seq::empty()
    } else {
        let acc = found_only(results.drop_last());
        match results.last() {
            Some(d) => acc.push(d),
            None => acc,
        }
    }
}

/// Collects the answers of a subnet probe, in the order of the probed addresses.
pub fn collect_found(results: Vec<Option<FoundDevice>>) -> (r: Vec<FoundDevice>)
    ensures
        r@ == found_only(results@),
{
    let mut found: Vec<FoundDevice> = Vec::new();
    assert(results@.take(0) =~= Seq::<Option<FoundDevice>>::empty());
    for i in 0..results.len()
        invariant
            found@ == found_only(results@.take(i as int)),
    {
        assert(results@.take(i + 1).drop_last() =~= results@.take(i as int));
        match &results[i] {
            Some(d) => found.push(copy_device(d)),
            None => {},
        }
    }
    assert(results@.take(results.len() as int) =~= results@);
    found
}

/// The first three octets of an IPv4 address, `a.b.c`.
pub open spec fn subnet_prefix_spec(a: u8, b: u8, c: u8) -> Seq<char> {
    decimal(a as nat) + seq!['.'] + decimal(b as nat) + seq!['.'] + decimal(c as nat)
}

/// The `/24` prefix that the subnet scan walks: `a.b.c` for an IPv4 address
/// `a.b.c.d`, nothing for IPv6.
pub fn subnet_prefix(ip: &IpAddress) -> (r: Option<String>)
    ensures
        match *ip {
            IpAddress::V4(a, b, c, _) => r is Some && r->0@ == subnet_prefix_spec(a, b, c),
            IpAddress::V6 => r is None,
        },
{
    match ip {
        IpAddress::V4(a, b, c, _) => {
            let mut v = decimal_chars(*a as u64);
            v.push('.');
            let w = decimal_chars(*b as u64);
            push_chars(&mut v, &w);
            v.push('.');
            let x = decimal_chars(*c as u64);
            push_chars(&mut v, &x);
            assert(v@ =~= subnet_prefix_spec(*a, *b, *c));
            Some(string_of(&v))
        },
        IpAddress::V6 => None,
    }
}

/// The addresses that the subnet scan probes: `prefix.1` through `prefix.254`.
pub fn subnet_hosts(prefix: &str) -> (r: Vec<String>)
    ensures
        r.len() == 254,
        forall|k: int|
            0 <= k < 254 ==> (#[trigger] r[k])@ == prefix@ + seq!['.'] + decimal((k + 1) as nat),
{
    let p = chars_of(prefix);
    let mut hosts: Vec<String> = Vec::new();
    let mut i: u64 = 1;
    while i <= 254
        invariant
            1 <= i <= 255,
            hosts.len() == i - 1,
            p@ == prefix@,
            forall|k: int|
                0 <= k < i - 1 ==> (#[trigger] hosts[k])@ == prefix@ + seq!['.'] + decimal(
                    (k + 1) as nat,
                ),
        decreases 255 - i,
    {
        let mut v: Vec<char> = Vec::new();
        push_chars(&mut v, &p);
        v.push('.');
        let d = decimal_chars(i);
        push_chars(&mut v, &d);
        assert(v@ =~= prefix@ + seq!['.'] + decimal(i as nat));
        hosts.push(string_of(&v));
        i = i + 1;
    }
    hosts
}


/// The heading of a scan that found `count` devices: `  Found <count> device(s):`
/// and an empty line.
pub fn found_summary(count: usize) -> (r: String)
    ensures
        r@ == "  Found "@ + decimal(count as nat) + " device(s):\n"@,
{
    let mut v: Vec<char> = Vec::new();
    push_str(&mut v, "  Found ");
    let d = decimal_chars(count as u64);
    push_chars(&mut v, &d);
    push_str(&mut v, " device(s):\n");
    string_of(&v)
}


/// How long an mDNS browse waits for answers, in seconds.
pub const MDNS_BROWSE_SECS: u64 = 2;

/// What an mDNS browse reported, as far as the scan reads it.
pub enum MdnsEvent {
    /// A service instance was resolved: its full name, its first address (if it has
    /// any) and its port.
    Resolved { fullname: String, first_address: Option<String>, port: u16 },
    /// Any other browse event (search started, service found or removed, ...).
    Other,
    /// The event channel failed.
    Closed,
    /// The browse time ran out.
    Deadline,
}

/// Takes in one event of an mDNS browse: a resolved service with an address becomes
/// a device (named by its full name, at its first address and port, system
/// unknown); the browse goes on after a resolved service or another event, and
/// stops when the channel fails or the time runs out.
pub fn mdns_step(found: &mut Vec<FoundDevice>, event: MdnsEvent) -> (keep_going: bool)
    ensures
        keep_going == (event is Resolved || event is Other),
        match event {
            MdnsEvent::Resolved { fullname, first_address, port } => match first_address {
                Some(ip) => final(found)@.len() == old(found)@.len() + 1
                    && final(found)@.take(old(found)@.len() as int) == old(found)@
                    && final(found)@.last().name == fullname && final(found)@.last().ip == ip
                    && final(found)@.last().port == port && final(found)@.last().os@.len() == 0,
                None => final(found)@ == old(found)@,
            },
            _ => final(found)@ == old(found)@,
        },
{
    match event {
        MdnsEvent::Resolved { fullname, first_address, port } => {
            match first_address {
                Some(ip) => {
                    let ghost before = found@;
                    found.push(FoundDevice { name: fullname, ip, port, os: String::new() });
                    assert(found@.take(before.len() as int) =~= before);
                },
                None => {},
            }
            true
        },
        MdnsEvent::Other => true,
        MdnsEvent::Closed => false,
        MdnsEvent::Deadline => false,
    }
}

} // verus!
