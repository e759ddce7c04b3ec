//! `guest-network-get-interfaces`.
//!
//! Lists interfaces with their hardware address and unicast IP addresses.
//! Loopback interfaces (by flag and by address, `127/8` and `::1`) and
//! link-local addresses (`169.254/16`, `fe80::/10`) are filtered out. An
//! interface whose only addresses were link-local is still listed, with no
//! addresses.
//!
//! Output is deterministic: interfaces are sorted by name; addresses keep the
//! order the kernel reported them in.

use vstd::prelude::*;
use vstd::string::*;

use crate::audit::hex_text;
use crate::audit;
use crate::handlers::bounded_reply;
use crate::handlers;
use crate::json::{list, member, object, string, Json, Member};
use crate::json;
use crate::proto::Error;
use crate::proto;
use crate::text::same_text;

verus! {

/// An IP address: its bits, the first octet highest.
#[derive(Debug, Clone, Copy, PartialEq, Eq, Structural)]
pub enum IpAddr {
    V4(u32),
    V6(u128),
}

/// An IP address with its text.
#[derive(Debug, Clone, PartialEq, Eq)]
pub struct Address {
    pub ip: IpAddr,
    /// The textual address.
    pub text: String,
}

/// One record from the kernel, before filtering: an interface name with either
/// a link-layer address or one IP address and its netmask.
#[derive(Debug, Clone, PartialEq, Eq)]
pub struct RawAddr {
    /// Interface name.
    pub ifname: String,
    /// The interface is a loopback.
    pub loopback: bool,
    /// Link-layer address of six bytes, if this record holds one.
    pub mac: Option<[u8; 6]>,
    /// IP address, if this record holds one.
    pub addr: Option<Address>,
    /// Netmask for `addr`.
    pub netmask: Option<IpAddr>,
}

/// One `GuestIpAddress`.
#[derive(Debug, Clone, PartialEq, Eq)]
pub struct IpAddress {
    /// Textual address.
    pub ip_address: String,
    /// `"ipv4"` or `"ipv6"`.
    pub ip_address_type: &'static str,
    /// Prefix length derived from the netmask.
    pub prefix: u8,
}

/// One `GuestNetworkInterface`.
#[derive(Debug, Clone, PartialEq, Eq)]
pub struct Interface {
    /// Interface name.
    pub name: String,
    /// Lowercase colon-separated MAC, absent when the interface has none.
    pub hardware_address: Option<String>,
    /// Unicast addresses after filtering (may be empty).
    pub ip_addresses: Vec<IpAddress>,
}

/// The addresses the host must not see: loopback and link-local.
pub open spec fn filtered(ip: IpAddr) -> bool {
    match ip {
        // 127.0.0.0/8 and 169.254.0.0/16.
        IpAddr::V4(bits) => bits / 0x100_0000 == 127 || bits / 0x1_0000 == 0xA9FE,
        // ::1 and fe80::/10.
        IpAddr::V6(bits) => bits == 1 || bits as int / vstd::arithmetic::power2::pow2(118) as int == 0x3FA,
    }
}

/// `true` for addresses the host must not see: loopback and link-local.
pub fn is_filtered(ip: &IpAddr) -> (yes: bool)
    ensures
        yes == filtered(*ip),
{
    match ip {
        IpAddr::V4(bits) => *bits / 0x100_0000 == 127 || *bits / 0x1_0000 == 0xA9FE,
        IpAddr::V6(bits) => {
            proof {
                lemma_pow2_118();
            }
            *bits == 1 || *bits / 332_306_998_946_228_968_225_951_765_070_086_144 == 0x3FA
        },
    }
}

proof fn lemma_pow2_118()
    ensures
        vstd::arithmetic::power2::pow2(118) == 332_306_998_946_228_968_225_951_765_070_086_144,
        vstd::arithmetic::power2::pow2(127) == 170_141_183_460_469_231_731_687_303_715_884_105_728,
        vstd::arithmetic::power2::pow2(32) == 4_294_967_296,
        vstd::arithmetic::power2::pow2(128) == 340_282_366_920_938_463_463_374_607_431_768_211_456,
{
    vstd::arithmetic::power2::lemma2_to64();
    vstd::arithmetic::power2::lemma2_to64_rest();
    vstd::arithmetic::power2::lemma_pow2_adds(59, 59);
    vstd::arithmetic::power2::lemma_pow2_adds(63, 64);
    vstd::arithmetic::power2::lemma_pow2_adds(64, 64);
    assert(vstd::arithmetic::power2::pow2(118) == vstd::arithmetic::power2::pow2(59)
        * vstd::arithmetic::power2::pow2(59));
    assert(vstd::arithmetic::power2::pow2(127) == vstd::arithmetic::power2::pow2(63)
        * vstd::arithmetic::power2::pow2(64));
    assert(vstd::arithmetic::power2::pow2(128) == vstd::arithmetic::power2::pow2(64)
        * vstd::arithmetic::power2::pow2(64));
}

/// The width of an address in bits.
pub open spec fn width(ip: IpAddr) -> nat {
    match ip {
        IpAddr::V4(_) => 32,
        IpAddr::V6(_) => 128,
    }
}

/// The bits of an address.
pub open spec fn bits_of(ip: IpAddr) -> nat {
    match ip {
        IpAddr::V4(bits) => bits as nat,
        IpAddr::V6(bits) => bits as nat,
    }
}

/// A mask of `ones` ones followed by zeros.
pub open spec fn mask(width: nat, ones: nat) -> nat {
    (vstd::arithmetic::power2::pow2(width) - vstd::arithmetic::power2::pow2((width - ones) as nat)) as nat
}

/// The number of ones of a mask, from `ones` on.
pub open spec fn ones_from(width: nat, bits: nat, ones: nat) -> Option<nat>
    decreases width + 1 - ones,
{
    if ones > width {
        None
    } else if bits == mask(width, ones) {
        Some(ones)
    } else {
        ones_from(width, bits, ones + 1)
    }
}

/// Prefix length of a netmask, if it is contiguous.
pub open spec fn prefix(netmask: IpAddr) -> Option<nat> {
    ones_from(width(netmask), bits_of(netmask), 0)
}

/// Prefix length of a netmask; `None` when the mask is not contiguous.
pub fn prefix_len(netmask: &IpAddr) -> (ones: Option<u8>)
    ensures
        match ones {
            Some(n) => prefix(*netmask) == Some(n as nat) && n <= width(*netmask),
            None => prefix(*netmask) is None,
        },
{
    proof {
        lemma_pow2_118();
    }
    match netmask {
        IpAddr::V4(bits) => prefix_of(*bits as u128, 32),
        IpAddr::V6(bits) => prefix_of(*bits, 128),
    }
}

/// The number of leading ones of a mask of `width` bits.
fn prefix_of(bits: u128, width: u8) -> (ones: Option<u8>)
    requires
        width == 32 || width == 128,
        bits < vstd::arithmetic::power2::pow2(width as nat),
    ensures
        match ones {
            Some(n) => ones_from(width as nat, bits as nat, 0) == Some(n as nat) && n <= width,
            None => ones_from(width as nat, bits as nat, 0) is None,
        },
{
    proof {
        lemma_pow2_118();
    }
    // The bits that a mask lacks to `2^width`: a power of two. For a mask of
    // no ones that is `2^width` itself.
    if bits == 0 {
        return Some(0);
    }
    let top: u128 = if width == 32 {
        0x8000_0000
    } else {
        170_141_183_460_469_231_731_687_303_715_884_105_728
    };
    proof {
        vstd::arithmetic::power2::lemma_pow2_unfold(width as nat);
        assert(vstd::arithmetic::power2::pow2(width as nat) == 2
            * vstd::arithmetic::power2::pow2((width - 1) as nat));
        assert(top == vstd::arithmetic::power2::pow2((width - 1) as nat));
    }
    // `all + 1 == 2^width`.
    let all: u128 = (top - 1) + top;
    let mut n: u8 = 1;
    let mut rest: u128 = top;
    proof {
        assert(bits as nat != mask(width as nat, 0));
    }
    while n < width
        invariant
            width == 32 || width == 128,
            1 <= n <= width,
            bits > 0,
            all + 1 == vstd::arithmetic::power2::pow2(width as nat),
            bits <= all,
            rest == vstd::arithmetic::power2::pow2((width - n) as nat),
            rest >= 1,
            rest <= all,
            ones_from(width as nat, bits as nat, 0) == ones_from(
                width as nat,
                bits as nat,
                n as nat,
            ),
        decreases width - n,
    {
        if bits == all - (rest - 1) {
            return Some(n);
        }
        proof {
            assert(bits as nat != mask(width as nat, n as nat));
            vstd::arithmetic::power2::lemma_pow2_unfold((width - n) as nat);
            assert(vstd::arithmetic::power2::pow2((width - n) as nat) == 2
                * vstd::arithmetic::power2::pow2((width - n - 1) as nat));
            vstd::arithmetic::power2::lemma_pow2_pos((width - n - 1) as nat);
        }
        rest = rest / 2;
        n = n + 1;
    }
    proof {
        vstd::arithmetic::power2::lemma2_to64();
    }
    if bits == all - (rest - 1) {
        return Some(n);
    }
    proof {
        assert(ones_from(width as nat, bits as nat, (width + 1) as nat) is None);
    }
    None
}

/// Two hexadecimal digits for each byte, with colons between.
pub open spec fn mac_text(mac: Seq<u8>) -> Seq<char>
    decreases mac.len(),
{
    if mac.len() == 0 {
        Seq::empty()
    } else if mac.len() == 1 {
        audit::hex(mac)
    } else {
        mac_text(mac.drop_last()) + ":"@ + audit::hex(seq![mac.last()])
    }
}

/// Formats a MAC as lowercase colon-separated hex.
pub fn format_mac(mac: &[u8; 6]) -> (text: String)
    ensures
        text@ == mac_text(mac@),
{
    let mut text = String::new();
    for i in 0..6usize
        invariant
            text@ == mac_text(mac@.take(i as int)),
            mac@.len() == 6,
    {
        if i > 0 {
            text.append(":");
        }
        let mut byte: Vec<u8> = Vec::new();
        byte.push(mac[i]);
        text.append(hex_text(byte.as_slice()).as_str());
        proof {
            assert(mac@.take(i + 1).drop_last() =~= mac@.take(i as int));
            assert(byte@ =~= seq![mac@[i as int]]);
            if i == 0 {
                assert(mac@.take(1) =~= byte@);
                assert(text@ =~= audit::hex(byte@));
            }
        }
    }
    proof {
        assert(mac@.take(6) =~= mac@);
    }
    text
}

/// Convenience: a plain IPv4 address.
pub fn v4(a: u8, b: u8, c: u8, d: u8) -> (ip: IpAddr)
    ensures
        ip == IpAddr::V4((a * 0x100_0000 + b * 0x1_0000 + c * 0x100 + d) as u32),
{
    IpAddr::V4(a as u32 * 0x100_0000 + b as u32 * 0x1_0000 + c as u32 * 0x100 + d as u32)
}

// ---------------------------------------------------------------------------
// Grouping
// ---------------------------------------------------------------------------

/// An address of the reply, as a mathematical value.
#[verifier::ext_equal]
pub ghost struct IpAddressView {
    pub ip_address: Seq<char>,
    pub ip_address_type: Seq<char>,
    pub prefix: nat,
}

impl View for IpAddress {
    type V = IpAddressView;

    open spec fn view(&self) -> IpAddressView {
        IpAddressView {
            ip_address: self.ip_address@,
            ip_address_type: self.ip_address_type@,
            prefix: self.prefix as nat,
        }
    }
}

/// An interface of the reply, as a mathematical value.
#[verifier::ext_equal]
pub ghost struct InterfaceView {
    pub name: Seq<char>,
    pub hardware_address: Option<Seq<char>>,
    pub ip_addresses: Seq<IpAddressView>,
}

/// Addresses, each taken by its view.
pub open spec fn addresses_view(addresses: Seq<IpAddress>) -> Seq<IpAddressView> {
    Seq::new(addresses.len(), |i: int| addresses[i]@)
}

impl View for Interface {
    type V = InterfaceView;

    open spec fn view(&self) -> InterfaceView {
        InterfaceView {
            name: self.name@,
            hardware_address: match self.hardware_address {
                Some(text) => Some(text@),
                None => None,
            },
            ip_addresses: addresses_view(self.ip_addresses@),
        }
    }
}

/// The address that a record adds to its interface, if any. A missing or
/// malformed mask counts as that of a single host.
pub open spec fn shown(record: RawAddr) -> Option<IpAddressView> {
    match record.addr {
        Some(addr) => if filtered(addr.ip) {
            None
        } else {
            Some(
                IpAddressView {
                    ip_address: addr.text@,
                    ip_address_type: match addr.ip {
                        IpAddr::V4(_) => "ipv4"@,
                        IpAddr::V6(_) => "ipv6"@,
                    },
                    prefix: match record.netmask {
                        Some(netmask) => match prefix(netmask) {
                            Some(n) => n,
                            None => width(addr.ip),
                        },
                        None => width(addr.ip),
                    },
                },
            )
        },
        None => None,
    }
}

/// The interface `name` as the records tell it: its last hardware address and
/// its addresses, in order.
pub open spec fn told(records: Seq<RawAddr>, name: Seq<char>) -> InterfaceView
    decreases records.len(),
{
    if records.len() == 0 {
        InterfaceView { name, hardware_address: None, ip_addresses: Seq::empty() }
    } else {
        let before = told(records.drop_last(), name);
        let record = records.last();
        if record.ifname@ != name {
            before
        } else {
            InterfaceView {
                name,
                hardware_address: match record.mac {
                    Some(mac) => Some(mac_text(mac@)),
                    None => before.hardware_address,
                },
                ip_addresses: match shown(record) {
                    Some(address) => before.ip_addresses.push(address),
                    None => before.ip_addresses,
                },
            }
        }
    }
}

/// A record names the interface.
pub open spec fn named(records: Seq<RawAddr>, name: Seq<char>) -> bool {
    exists|i: int| 0 <= i < records.len() && (#[trigger] records[i]).ifname@ == name
}

/// A record says that the interface is a loopback.
pub open spec fn is_loopback(records: Seq<RawAddr>, name: Seq<char>) -> bool {
    exists|i: int|
        0 <= i < records.len() && (#[trigger] records[i]).ifname@ == name && records[i].loopback
}

/// Bytes in lexicographic order.
pub open spec fn bytes_less(a: Seq<u8>, b: Seq<u8>) -> bool
    decreases a.len(),
{
    if b.len() == 0 {
        false
    } else if a.len() == 0 {
        true
    } else {
        a[0] < b[0] || (a[0] == b[0] && bytes_less(a.skip(1), b.skip(1)))
    }
}

/// Names in the order of their bytes.
pub open spec fn name_less(a: Seq<char>, b: Seq<char>) -> bool {
    bytes_less(vstd::utf8::encode_utf8(a), vstd::utf8::encode_utf8(b))
}

proof fn lemma_less_transitive(a: Seq<u8>, b: Seq<u8>, c: Seq<u8>)
    requires
        bytes_less(a, b),
        bytes_less(b, c),
    ensures
        bytes_less(a, c),
    decreases a.len(),
{
    if a.len() > 0 && a[0] == b[0] && b[0] == c[0] {
        lemma_less_transitive(a.skip(1), b.skip(1), c.skip(1));
    }
}

proof fn lemma_less_total(a: Seq<u8>, b: Seq<u8>)
    ensures
        a != b ==> bytes_less(a, b) || bytes_less(b, a),
        a == b ==> !bytes_less(a, b),
    decreases a.len(),
{
    if a.len() > 0 && b.len() > 0 {
        lemma_less_total(a.skip(1), b.skip(1));
        if a[0] == b[0] && a.skip(1) == b.skip(1) {
            assert(a =~= seq![a[0]] + a.skip(1));
            assert(b =~= seq![b[0]] + b.skip(1));
        }
    } else if a.len() == 0 && b.len() == 0 {
        assert(a =~= b);
    }
}

/// Two names in order, or the same.
proof fn lemma_names_total(a: Seq<char>, b: Seq<char>)
    ensures
        a != b ==> name_less(a, b) || name_less(b, a),
        a == b ==> !name_less(a, b),
{
    vstd::utf8::encode_utf8_decode_utf8(a);
    vstd::utf8::encode_utf8_decode_utf8(b);
    lemma_less_total(vstd::utf8::encode_utf8(a), vstd::utf8::encode_utf8(b));
}

proof fn lemma_names_transitive(a: Seq<char>, b: Seq<char>, c: Seq<char>)
    requires
        name_less(a, b),
        name_less(b, c),
    ensures
        name_less(a, c),
{
    lemma_less_transitive(
        vstd::utf8::encode_utf8(a),
        vstd::utf8::encode_utf8(b),
        vstd::utf8::encode_utf8(c),
    );
}

fn is_less(a: &[u8], b: &[u8]) -> (less: bool)
    ensures
        less == bytes_less(a@, b@),
{
    let mut i: usize = 0;
    proof {
        assert(a@.skip(0) =~= a@);
        assert(b@.skip(0) =~= b@);
    }
    while i < a.len() && i < b.len() && a[i] == b[i]
        invariant
            i <= a@.len(),
            i <= b@.len(),
            bytes_less(a@, b@) == bytes_less(a@.skip(i as int), b@.skip(i as int)),
        decreases a.len() - i,
    {
        proof {
            assert(a@.skip(i as int).skip(1) =~= a@.skip(i + 1));
            assert(b@.skip(i as int).skip(1) =~= b@.skip(i + 1));
        }
        i = i + 1;
    }
    if i >= b.len() {
        false
    } else if i >= a.len() {
        true
    } else {
        a[i] < b[i]
    }
}

/// An interface being put together.
struct Slot {
    iface: Interface,
    loopback: bool,
}

/// The slots are sorted by name.
spec fn sorted(slots: Seq<Slot>) -> bool {
    forall|i: int, j: int|
        0 <= i < j < slots.len() ==> name_less(
            (#[trigger] slots[i]).iface.name@,
            (#[trigger] slots[j]).iface.name@,
        )
}

/// The slots are what the records tell.
spec fn tells(slots: Seq<Slot>, records: Seq<RawAddr>) -> bool {
    &&& sorted(slots)
    &&& forall|i: int|
        0 <= i < slots.len() ==> {
            let name = (#[trigger] slots[i]).iface.name@;
            &&& slots[i].iface@ == told(records, name)
            &&& slots[i].loopback == is_loopback(records, name)
            &&& named(records, name)
        }
    &&& forall|k: int|
        0 <= k < records.len() ==> has_slot(slots, (#[trigger] records[k]).ifname@)
}

spec fn has_slot(slots: Seq<Slot>, name: Seq<char>) -> bool {
    exists|i: int| 0 <= i < slots.len() && (#[trigger] slots[i]).iface.name@ == name
}

/// The place of a name among sorted slots: that of its slot, or where it would
/// go.
fn place_of(slots: &Vec<Slot>, name: &String) -> (place: (usize, bool))
    requires
        sorted(slots@),
    ensures
        place.0 <= slots@.len(),
        place.1 ==> place.0 < slots@.len() && slots@[place.0 as int].iface.name@ == name@,
        !place.1 ==> !has_slot(slots@, name@),
        forall|j: int| 0 <= j < place.0 ==> name_less((#[trigger] slots@[j]).iface.name@, name@),
        forall|j: int|
            place.0 <= j < slots@.len() && !(place.1 && j == place.0) ==> name_less(
                name@,
                (#[trigger] slots@[j]).iface.name@,
            ),
{
    let mut at: usize = 0;
    while at < slots.len() && is_less(
        slots[at].iface.name.as_str().as_bytes(),
        name.as_str().as_bytes(),
    )
        invariant
            at <= slots@.len(),
            forall|j: int| 0 <= j < at ==> name_less((#[trigger] slots@[j]).iface.name@, name@),
        decreases slots.len() - at,
    {
        at = at + 1;
    }
    let found = at < slots.len() && same_text(slots[at].iface.name.as_str(), name.as_str());
    proof {
        if at < slots@.len() {
            lemma_names_total(slots@[at as int].iface.name@, name@);
            assert forall|j: int|
                at <= j < slots@.len() && !(found && j == at) implies name_less(
                name@,
                (#[trigger] slots@[j]).iface.name@,
            ) by {
                if j > at {
                    assert(name_less(
                        slots@[at as int].iface.name@,
                        slots@[j].iface.name@,
                    ));
                    if !found {
                        lemma_names_transitive(
                            name@,
                            slots@[at as int].iface.name@,
                            slots@[j].iface.name@,
                        );
                    }
                }
            }
        }
        if !found && has_slot(slots@, name@) {
            let i = choose|i: int| 0 <= i < slots@.len() && (#[trigger] slots@[i]).iface.name@ == name@;
            lemma_names_total(name@, name@);
        }
    }
    (at, found)
}

/// A slot after one more record of its interface.
fn absorb(slot: Slot, record: &RawAddr) -> (after: Slot)
    ensures
        after.iface.name == slot.iface.name,
        after.loopback == (slot.loopback || record.loopback),
        after.iface@.hardware_address == match record.mac {
            Some(mac) => Some(mac_text(mac@)),
            None => slot.iface@.hardware_address,
        },
        after.iface@.ip_addresses == match shown(*record) {
            Some(address) => slot.iface@.ip_addresses.push(address),
            None => slot.iface@.ip_addresses,
        },
{
    let mut slot = slot;
    let ghost before = slot.iface@.ip_addresses;
    if record.loopback {
        slot.loopback = true;
    }
    if let Some(mac) = &record.mac {
        slot.iface.hardware_address = Some(format_mac(mac));
    }
    if let Some(addr) = &record.addr {
        if !is_filtered(&addr.ip) {
            let found = match &record.netmask {
                Some(netmask) => prefix_len(netmask),
                None => None,
            };
            let (host, kind): (u8, &'static str) = match addr.ip {
                IpAddr::V4(_) => (32, "ipv4"),
                IpAddr::V6(_) => (128, "ipv6"),
            };
            let prefix: u8 = match found {
                Some(n) => n,
                None => host,
            };
            slot.iface.ip_addresses.push(
                IpAddress { ip_address: addr.text.clone(), ip_address_type: kind, prefix },
            );
        }
    }
    proof {
        assert(slot.iface@.ip_addresses =~= match shown(*record) {
            Some(address) => before.push(address),
            None => before,
        });
    }
    slot
}

/// What the records before the last tell of other interfaces, all tell.
proof fn lemma_told_other(records: Seq<RawAddr>, name: Seq<char>)
    requires
        records.len() > 0,
        records.last().ifname@ != name,
    ensures
        told(records, name) == told(records.drop_last(), name),
        is_loopback(records, name) == is_loopback(records.drop_last(), name),
        named(records, name) == named(records.drop_last(), name),
{
    let front = records.drop_last();
    if named(records, name) {
        let i = choose|i: int| 0 <= i < records.len() && (#[trigger] records[i]).ifname@ == name;
        assert(front[i].ifname@ == name);
    }
    if named(front, name) {
        let i = choose|i: int| 0 <= i < front.len() && (#[trigger] front[i]).ifname@ == name;
        assert(records[i].ifname@ == name);
    }
    if is_loopback(records, name) {
        let i = choose|i: int|
            0 <= i < records.len() && (#[trigger] records[i]).ifname@ == name
                && records[i].loopback;
        assert(front[i].ifname@ == name && front[i].loopback);
    }
    if is_loopback(front, name) {
        let i = choose|i: int|
            0 <= i < front.len() && (#[trigger] front[i]).ifname@ == name && front[i].loopback;
        assert(records[i].ifname@ == name && records[i].loopback);
    }
}

/// What the last record adds to its own interface.
proof fn lemma_told_own(records: Seq<RawAddr>)
    requires
        records.len() > 0,
    ensures
        ({
            let name = records.last().ifname@;
            let front = records.drop_last();
            &&& is_loopback(records, name) == (is_loopback(front, name)
                || records.last().loopback)
            &&& named(records, name)
        }),
{
    let name = records.last().ifname@;
    let front = records.drop_last();
    assert(records[records.len() - 1].ifname@ == name);
    if is_loopback(front, name) {
        let i = choose|i: int|
            0 <= i < front.len() && (#[trigger] front[i]).ifname@ == name && front[i].loopback;
        assert(records[i].ifname@ == name && records[i].loopback);
    }
    if is_loopback(records, name) && !records.last().loopback {
        let i = choose|i: int|
            0 <= i < records.len() && (#[trigger] records[i]).ifname@ == name
                && records[i].loopback;
        assert(front[i].ifname@ == name && front[i].loopback);
    }
}

/// Nothing is told of an interface that no record names.
proof fn lemma_told_unnamed(records: Seq<RawAddr>, name: Seq<char>)
    requires
        !named(records, name),
    ensures
        told(records, name) == (InterfaceView {
            name,
            hardware_address: None,
            ip_addresses: Seq::empty(),
        }),
        !is_loopback(records, name),
    decreases records.len(),
{
    if records.len() > 0 {
        assert(records[records.len() - 1].ifname@ != name);
        lemma_told_other(records, name);
        lemma_told_unnamed(records.drop_last(), name);
    }
}

/// The interfaces that are listed: those that a record names and none says is a
/// loopback, as the records tell them, sorted by name.
pub open spec fn lists(interfaces: Seq<Interface>, records: Seq<RawAddr>) -> bool {
    &&& forall|i: int, j: int|
        0 <= i < j < interfaces.len() ==> name_less(
            (#[trigger] interfaces[i]).name@,
            (#[trigger] interfaces[j]).name@,
        )
    &&& forall|i: int|
        0 <= i < interfaces.len() ==> {
            let name = (#[trigger] interfaces[i]).name@;
            &&& interfaces[i]@ == told(records, name)
            &&& named(records, name)
            &&& !is_loopback(records, name)
        }
    &&& forall|k: int|
        0 <= k < records.len() && !is_loopback(records, (#[trigger] records[k]).ifname@)
            ==> is_listed(interfaces, records[k].ifname@)
}

/// An interface is listed.
pub open spec fn is_listed(interfaces: Seq<Interface>, name: Seq<char>) -> bool {
    exists|i: int| 0 <= i < interfaces.len() && (#[trigger] interfaces[i]).name@ == name
}

/// The slots with that of one record put in its place, or put in.
spec fn placed(before: Seq<Slot>, at: int, found: bool, slot: Slot) -> Seq<Slot> {
    if found {
        before.update(at, slot)
    } else {
        before.insert(at, slot)
    }
}

/// Where slot `i` was before.
spec fn was(at: int, found: bool, i: int) -> int {
    if i < at || found {
        i
    } else {
        i - 1
    }
}

proof fn lemma_placed_sorted(before: Seq<Slot>, at: int, found: bool, slot: Slot)
    requires
        sorted(before),
        0 <= at <= before.len(),
        found ==> at < before.len(),
        forall|j: int|
            0 <= j < at ==> name_less((#[trigger] before[j]).iface.name@, slot.iface.name@),
        forall|j: int|
            at <= j < before.len() && !(found && j == at) ==> name_less(
                slot.iface.name@,
                (#[trigger] before[j]).iface.name@,
            ),
    ensures
        sorted(placed(before, at, found, slot)),
{
    let after = placed(before, at, found, slot);
    assert forall|i: int, j: int| 0 <= i < j < after.len() implies name_less(
        (#[trigger] after[i]).iface.name@,
        (#[trigger] after[j]).iface.name@,
    ) by {
        let oi = was(at, found, i);
        let oj = was(at, found, j);
        if i == at {
            assert(after[j] == before[oj]);
        } else if j == at {
            assert(after[i] == before[oi]);
        } else {
            assert(after[i] == before[oi]);
            assert(after[j] == before[oj]);
        }
    }
}

proof fn lemma_placed_tells(
    before: Seq<Slot>,
    at: int,
    found: bool,
    slot: Slot,
    records: Seq<RawAddr>,
)
    requires
        records.len() > 0,
        tells(before, records.drop_last()),
        sorted(placed(before, at, found, slot)),
        0 <= at <= before.len(),
        found ==> at < before.len() && before[at].iface.name@ == slot.iface.name@,
        slot.iface.name@ == records.last().ifname@,
        slot.iface@ == told(records, slot.iface.name@),
        slot.loopback == is_loopback(records, slot.iface.name@),
    ensures
        tells(placed(before, at, found, slot), records),
{
    let after = placed(before, at, found, slot);
    let front = records.drop_last();
    let name = slot.iface.name@;
    lemma_told_own(records);
    lemma_names_total(name, name);
    assert forall|i: int| 0 <= i < after.len() implies {
        let name = (#[trigger] after[i]).iface.name@;
        &&& after[i].iface@ == told(records, name)
        &&& after[i].loopback == is_loopback(records, name)
        &&& named(records, name)
    } by {
        if i != at {
            let oi = was(at, found, i);
            assert(after[i] == before[oi]);
            assert(after[at] == slot);
            if i < at {
                assert(name_less(after[i].iface.name@, after[at].iface.name@));
            } else {
                assert(name_less(after[at].iface.name@, after[i].iface.name@));
            }
            lemma_told_other(records, before[oi].iface.name@);
        }
    }
    assert forall|r: int| 0 <= r < records.len() implies has_slot(
        after,
        (#[trigger] records[r]).ifname@,
    ) by {
        if r == records.len() - 1 {
            assert(after[at].iface.name@ == name);
        } else {
            assert(records[r] == front[r]);
            assert(has_slot(before, front[r].ifname@));
            let oi = choose|oi: int|
                0 <= oi < before.len() && (#[trigger] before[oi]).iface.name@ == front[r].ifname@;
            let i = if oi < at || found {
                oi
            } else {
                oi + 1
            };
            if found && oi == at {
                assert(after[at].iface.name@ == before[oi].iface.name@);
            } else {
                assert(after[i] == before[oi]);
            }
        }
    }
}

/// Puts what one more record tells into the slots.
fn add_record(slots: &mut Vec<Slot>, record: &RawAddr, records: Ghost<Seq<RawAddr>>)
    requires
        records@.len() > 0,
        records@.last() == *record,
        tells(old(slots)@, records@.drop_last()),
    ensures
        tells(final(slots)@, records@),
{
    let ghost before = slots@;
    let ghost front = records@.drop_last();
    let ghost name = record.ifname@;
    let (at, found) = place_of(slots, &record.ifname);
    let slot = if found {
        slots.remove(at)
    } else {
        Slot {
            iface: Interface {
                name: record.ifname.clone(),
                hardware_address: None,
                ip_addresses: Vec::new(),
            },
            loopback: false,
        }
    };
    proof {
        lemma_told_own(records@);
        if !found {
            if named(front, name) {
                let i = choose|i: int|
                    0 <= i < front.len() && (#[trigger] front[i]).ifname@ == name;
                assert(has_slot(before, front[i].ifname@));
            }
            lemma_told_unnamed(front, name);
            assert(slot.iface@.ip_addresses =~= Seq::<IpAddressView>::empty());
            assert(slot.iface@ =~= told(front, name));
        }
    }
    let slot = absorb(slot, record);
    proof {
        assert(slot.iface@ =~= told(records@, name));
        lemma_placed_sorted(before, at as int, found, slot);
        lemma_placed_tells(before, at as int, found, slot, records@);
    }
    slots.insert(at, slot);
    proof {
        assert(slots@ =~= placed(before, at as int, found, slot));
    }
}

/// Groups, filters and sorts raw records into the reply.
pub fn collect(records: Vec<RawAddr>) -> (interfaces: Vec<Interface>)
    ensures
        lists(interfaces@, records@),
{
    let mut slots: Vec<Slot> = Vec::new();
    for k in 0..records.len()
        invariant
            tells(slots@, records@.take(k as int)),
    {
        proof {
            assert(records@.take(k + 1).drop_last() =~= records@.take(k as int));
        }
        add_record(&mut slots, &records[k], Ghost(records@.take(k + 1)));
    }
    proof {
        assert(records@.take(records@.len() as int) =~= records@);
    }
    let ghost all = slots@;
    let mut interfaces: Vec<Interface> = Vec::new();
    let ghost mut taken: int = 0;
    while slots.len() > 0
        invariant
            tells(all, records@),
            0 <= taken <= all.len(),
            slots@ == all.skip(taken),
            forall|i: int, j: int|
                0 <= i < j < interfaces@.len() ==> name_less(
                    (#[trigger] interfaces@[i]).name@,
                    (#[trigger] interfaces@[j]).name@,
                ),
            forall|i: int|
                0 <= i < interfaces@.len() ==> {
                    let name = (#[trigger] interfaces@[i]).name@;
                    &&& interfaces@[i]@ == told(records@, name)
                    &&& named(records@, name)
                    &&& !is_loopback(records@, name)
                },
            forall|i: int, j: int|
                0 <= i < interfaces@.len() && taken <= j < all.len() ==> name_less(
                    (#[trigger] interfaces@[i]).name@,
                    (#[trigger] all[j]).iface.name@,
                ),
            forall|j: int|
                0 <= j < taken && !(#[trigger] all[j]).loopback ==> is_listed(
                    interfaces@,
                    all[j].iface.name@,
                ),
        decreases slots.len(),
    {
        let ghost before = interfaces@;
        proof {
            assert(slots@[0] == all[taken]);
            assert(all.skip(taken).remove(0) =~= all.skip(taken + 1));
        }
        let slot = slots.remove(0);
        if !slot.loopback {
            interfaces.push(slot.iface);
        }
        proof {
            assert forall|j: int|
                0 <= j < taken + 1 && !(#[trigger] all[j]).loopback implies is_listed(
                interfaces@,
                all[j].iface.name@,
            ) by {
                if j == taken {
                    assert(interfaces@[interfaces@.len() - 1].name@ == all[j].iface.name@);
                } else {
                    assert(is_listed(before, all[j].iface.name@));
                    let i = choose|i: int|
                        0 <= i < before.len() && (#[trigger] before[i]).name@
                            == all[j].iface.name@;
                    assert(interfaces@[i].name@ == all[j].iface.name@);
                }
            }
            taken = taken + 1;
        }
    }
    proof {
        assert forall|k: int|
            0 <= k < records@.len() && !is_loopback(
                records@,
                (#[trigger] records@[k]).ifname@,
            ) implies is_listed(interfaces@, records@[k].ifname@) by {
            assert(has_slot(all, records@[k].ifname@));
            let j = choose|j: int|
                0 <= j < all.len() && (#[trigger] all[j]).iface.name@ == records@[k].ifname@;
            assert(!all[j].loopback);
            assert(is_listed(interfaces@, all[j].iface.name@));
        }
    }
    interfaces
}

/// A listed interface never shows an address that is filtered, nor is it a
/// loopback: what is shown comes from a record with an address that passes.
pub proof fn law_nothing_filtered_is_shown(records: Seq<RawAddr>, name: Seq<char>, i: int)
    requires
        0 <= i < told(records, name).ip_addresses.len(),
    ensures
        exists|k: int|
            0 <= k < records.len() && (#[trigger] records[k]).ifname@ == name && shown(records[k])
                == Some(told(records, name).ip_addresses[i]) && !filtered(
                records[k].addr->0.ip,
            ),
    decreases records.len(),
{
    let front = records.drop_last();
    let before = told(front, name).ip_addresses;
    let last = records.len() - 1;
    if i < before.len() && told(records, name).ip_addresses[i] == before[i] {
        law_nothing_filtered_is_shown(front, name, i);
        let k = choose|k: int|
            0 <= k < front.len() && (#[trigger] front[k]).ifname@ == name && shown(front[k])
                == Some(before[i]) && !filtered(front[k].addr->0.ip);
        assert(records[k] == front[k]);
    } else {
        assert(records[last] == records.last());
    }
}

// ---------------------------------------------------------------------------
// The reply
// ---------------------------------------------------------------------------

/// Bound on the encoded reply: a guest with more interfaces and addresses than
/// fit is answered with an explicit error, never a truncated list.
pub const MAX_INTERFACES_REPLY_BYTES: usize = 262_144;

/// An address of the reply, its members ordered by name.
pub open spec fn address_json(address: IpAddressView) -> json::JsonView {
    json::JsonView::Object(
        seq![
            json::MemberView {
                name: "ip-address"@,
                value: json::JsonView::Text(address.ip_address),
            },
            json::MemberView {
                name: "ip-address-type"@,
                value: json::JsonView::Text(address.ip_address_type),
            },
            json::MemberView {
                name: "prefix"@,
                value: json::JsonView::Int(address.prefix as int),
            },
        ],
    )
}

/// An interface of the reply, its members ordered by name.
pub open spec fn interface_json(interface: InterfaceView) -> json::JsonView {
    json::JsonView::Object(
        (match interface.hardware_address {
            Some(mac) => seq![
                json::MemberView { name: "hardware-address"@, value: json::JsonView::Text(mac) },
            ],
            None => Seq::empty(),
        }) + seq![
            json::MemberView {
                name: "ip-addresses"@,
                value: json::JsonView::List(
                    Seq::new(
                        interface.ip_addresses.len(),
                        |i: int| address_json(interface.ip_addresses[i]),
                    ),
                ),
            },
            json::MemberView { name: "name"@, value: json::JsonView::Text(interface.name) },
        ],
    )
}

/// The list of interfaces.
pub open spec fn list_json(interfaces: Seq<Interface>) -> json::JsonView {
    json::JsonView::List(Seq::new(interfaces.len(), |i: int| interface_json(interfaces[i]@)))
}

fn address_to_json(address: &IpAddress) -> (value: Json)
    ensures
        value@ == address_json(address@),
{
    let mut members: Vec<Member> = Vec::new();
    members.push(member("ip-address", string(address.ip_address.as_str())));
    members.push(member("ip-address-type", string(address.ip_address_type)));
    members.push(member("prefix", Json::Uint(address.prefix as u64)));
    proof {
        assert(json::members_view(members@) =~= address_json(address@)->Object_0);
    }
    object(members)
}

impl Interface {
    /// The interface as the reply shows it.
    pub fn to_json(&self) -> (value: Json)
        ensures
            value@ == interface_json(self@),
    {
        let mut addresses: Vec<Json> = Vec::new();
        for i in 0..self.ip_addresses.len()
            invariant
                addresses@.len() == i,
                forall|j: int|
                    0 <= j < i ==> (#[trigger] addresses@[j])@ == address_json(
                        self.ip_addresses@[j]@,
                    ),
        {
            addresses.push(address_to_json(&self.ip_addresses[i]));
        }
        let mut members: Vec<Member> = Vec::new();
        if let Some(mac) = &self.hardware_address {
            members.push(member("hardware-address", string(mac.as_str())));
        }
        proof {
            assert(json::items_view(addresses@) =~= Seq::new(
                self@.ip_addresses.len(),
                |i: int| address_json(self@.ip_addresses[i]),
            ));
        }
        members.push(member("ip-addresses", list(addresses)));
        members.push(member("name", string(self.name.as_str())));
        proof {
            assert(json::members_view(members@) =~= interface_json(self@)->Object_0);
        }
        object(members)
    }
}

/// The interfaces as the reply shows them.
pub fn to_json(interfaces: &Vec<Interface>) -> (value: Json)
    ensures
        value@ == list_json(interfaces@),
{
    let mut items: Vec<Json> = Vec::new();
    for i in 0..interfaces.len()
        invariant
            items@.len() == i,
            forall|j: int|
                0 <= j < i ==> (#[trigger] items@[j])@ == interface_json(interfaces@[j]@),
    {
        items.push(interfaces[i].to_json());
    }
    proof {
        assert(json::items_view(items@) =~= list_json(interfaces@)->List_0);
    }
    list(items)
}

/// `guest-network-get-interfaces`: the reply to the records, or why there is
/// none.
pub fn handle(records: Result<Vec<RawAddr>, Error>) -> (reply: Result<Json, Error>)
    ensures
        match (records, reply) {
            (Err(err), Err(said)) => said == err,
            (Ok(records), Ok(value)) => exists|interfaces: Seq<Interface>|
                {
                    &&& #[trigger] lists(interfaces, records@)
                    &&& value@ == list_json(interfaces)
                    &&& handlers::wire_len(handlers::value_bytes(value@).len())
                        <= MAX_INTERFACES_REPLY_BYTES
                },
            (Ok(records), Err(err)) => exists|interfaces: Seq<Interface>|
                {
                    let len = handlers::value_bytes(list_json(interfaces)).len();
                    &&& #[trigger] lists(interfaces, records@)
                    &&& handlers::wire_len(len) > MAX_INTERFACES_REPLY_BYTES
                    &&& err@ == proto::ErrorView::Internal(
                        handlers::over_text(
                            "interfaces"@,
                            len,
                            MAX_INTERFACES_REPLY_BYTES as nat,
                        ),
                    )
                },
            _ => false,
        },
{
    match records {
        Err(err) => Err(err),
        Ok(records) => {
            let interfaces = collect(records);
            let value = to_json(&interfaces);
            bounded_reply("interfaces", value, MAX_INTERFACES_REPLY_BYTES)
        },
    }
}

// ---------------------------------------------------------------------------
// Laws
// ---------------------------------------------------------------------------

/// An IPv4 address is hidden exactly when it is in `127.0.0.0/8` or in
/// `169.254.0.0/16`.
pub proof fn law_hidden_ipv4_addresses(a: u8, b: u8, c: u8, d: u8)
    ensures
        filtered(IpAddr::V4((a * 0x100_0000 + b * 0x1_0000 + c * 0x100 + d) as u32)) <==> (a == 127
            || (a == 169 && b == 254)),
{
    let bits = a * 0x100_0000 + b * 0x1_0000 + c * 0x100 + d;
    assert(bits / 0x100_0000 == a);
    assert(bits / 0x1_0000 == a * 0x100 + b);
}

/// An IPv6 address is hidden exactly when it is `::1` or in `fe80::/10`, from
/// `fe80::` to `febf:ffff:ffff:ffff:ffff:ffff:ffff:ffff`.
pub proof fn law_hidden_ipv6_addresses(bits: u128)
    ensures
        filtered(IpAddr::V6(bits)) <==> (bits == 1 || 0xFE80_0000_0000_0000_0000_0000_0000_0000
            <= bits <= 0xFEBF_FFFF_FFFF_FFFF_FFFF_FFFF_FFFF_FFFF),
{
    lemma_pow2_118();
    let unit: int = 332_306_998_946_228_968_225_951_765_070_086_144;
    assert(0xFE80_0000_0000_0000_0000_0000_0000_0000 == 0x3FA * unit);
    assert(0xFEBF_FFFF_FFFF_FFFF_FFFF_FFFF_FFFF_FFFF == 0x3FB * unit - 1);
}

/// A netmask's prefix length is its number of leading ones: `n` for the mask
/// that lacks `2^(width - n)` to `2^width`, and nothing for any other.
pub proof fn law_prefix_lengths(netmask: IpAddr, n: nat)
    ensures
        prefix(netmask) == Some(n) <==> match netmask {
            IpAddr::V4(bits) => n <= 32 && bits + vstd::arithmetic::power2::pow2((32 - n) as nat)
                == 0x1_0000_0000,
            IpAddr::V6(bits) => n <= 128 && bits + vstd::arithmetic::power2::pow2((128 - n) as nat)
                == vstd::arithmetic::power2::pow2(128),
        },
{
    lemma_pow2_118();
    let w = width(netmask);
    lemma_ones(w, bits_of(netmask), 0, n);
    if n <= w {
        lemma_pow2_fits(w, (w - n) as nat);
    }
}

proof fn lemma_pow2_fits(w: nat, k: nat)
    requires
        k <= w,
    ensures
        vstd::arithmetic::power2::pow2(k) <= vstd::arithmetic::power2::pow2(w),
{
    if k < w {
        vstd::arithmetic::power2::lemma_pow2_strictly_increases(k, w);
    }
}

proof fn lemma_ones(w: nat, bits: nat, from: nat, n: nat)
    ensures
        ones_from(w, bits, from) == Some(n) <==> from <= n <= w && bits == mask(w, n),
    decreases w + 1 - from,
{
    if from <= w {
        if bits == mask(w, from) {
            if from < n <= w {
                vstd::arithmetic::power2::lemma_pow2_strictly_increases(
                    (w - n) as nat,
                    (w - from) as nat,
                );
                lemma_pow2_fits(w, (w - n) as nat);
                lemma_pow2_fits(w, (w - from) as nat);
            }
        } else {
            lemma_ones(w, bits, from + 1, n);
        }
    }
}

/// The records of an interface that carry an address that the host may see: all
/// but loopback and link-local ones.
pub open spec fn visible(records: Seq<RawAddr>, name: Seq<char>) -> Seq<RawAddr> {
    records.filter(
        |r: RawAddr|
            r.ifname@ == name && (r.addr matches Some(address) && match address.ip {
                IpAddr::V4(bits) => bits / 0x100_0000 != 127 && bits / 0x1_0000 != 169 * 256 + 254,
                IpAddr::V6(bits) => bits != 1 && !(0xFE80_0000_0000_0000_0000_0000_0000_0000 <= bits
                    <= 0xFEBF_FFFF_FFFF_FFFF_FFFF_FFFF_FFFF_FFFF),
            }),
    )
}

proof fn lemma_visible(records: Seq<RawAddr>, name: Seq<char>)
    ensures
        visible(records, name).len() == told(records, name).ip_addresses.len(),
        forall|i: int|
            0 <= i < visible(records, name).len() ==> shown(#[trigger] visible(records, name)[i])
                == Some(told(records, name).ip_addresses[i]),
        forall|i: int|
            0 <= i < visible(records, name).len() ==> (#[trigger] visible(
                records,
                name,
            )[i]).addr is Some,
    decreases records.len(),
{
    reveal(Seq::filter);
    if records.len() > 0 {
        lemma_visible(records.drop_last(), name);
        if let Some(address) = records.last().addr {
            if let IpAddr::V6(bits) = address.ip {
                law_hidden_ipv6_addresses(bits);
            }
        }
    }
}

/// A listed interface shows every address that the host may see, in the order
/// of the records, each with its family and its prefix: the netmask's, or the
/// whole width where there is no contiguous mask.
pub proof fn law_every_visible_address_is_shown(
    interfaces: Seq<Interface>,
    records: Seq<RawAddr>,
    i: int,
)
    requires
        lists(interfaces, records),
        0 <= i < interfaces.len(),
    ensures
        ({
            let seen = visible(records, interfaces[i].name@);
            let addresses = interfaces[i].ip_addresses@;
            &&& addresses.len() == seen.len()
            &&& forall|k: int|
                0 <= k < seen.len() ==> {
                    let r = #[trigger] seen[k];
                    &&& addresses[k].ip_address@ == r.addr->0.text@
                    &&& r.addr->0.ip is V4 ==> addresses[k].ip_address_type@ == "ipv4"@
                    &&& r.addr->0.ip is V6 ==> addresses[k].ip_address_type@ == "ipv6"@
                    &&& (r.netmask matches Some(mask) && prefix(mask) is Some)
                        ==> addresses[k].prefix == prefix(r.netmask->0)->0
                    &&& !(r.netmask matches Some(mask) && prefix(mask) is Some) && r.addr->0.ip is V4
                        ==> addresses[k].prefix == 32
                    &&& !(r.netmask matches Some(mask) && prefix(mask) is Some) && r.addr->0.ip is V6
                        ==> addresses[k].prefix == 128
                }
        }),
{
    let name = interfaces[i].name@;
    lemma_visible(records, name);
    let seen = visible(records, name);
    assert(interfaces[i]@ == told(records, name));
    assert(interfaces[i]@.ip_addresses == addresses_view(interfaces[i].ip_addresses@));
    assert forall|k: int| 0 <= k < seen.len() implies shown(#[trigger] seen[k]) == Some(
        interfaces[i].ip_addresses@[k]@,
    ) by {
        assert(addresses_view(interfaces[i].ip_addresses@)[k] == interfaces[i].ip_addresses@[k]@);
    }
}

/// Exactly the interfaces that some record names and none calls a loopback are
/// listed, each once.
pub proof fn law_every_interface_but_loopbacks_is_listed(
    interfaces: Seq<Interface>,
    records: Seq<RawAddr>,
    name: Seq<char>,
)
    requires
        lists(interfaces, records),
    ensures
        (exists|i: int| 0 <= i < interfaces.len() && (#[trigger] interfaces[i]).name@ == name) <==> {
            &&& exists|k: int| 0 <= k < records.len() && (#[trigger] records[k]).ifname@ == name
            &&& forall|k: int|
                0 <= k < records.len() && (#[trigger] records[k]).ifname@ == name
                    ==> !records[k].loopback
        },
        forall|i: int, j: int|
            0 <= i < j < interfaces.len() ==> (#[trigger] interfaces[i]).name@ != (
            #[trigger] interfaces[j]).name@,
{
    if is_listed(interfaces, name) {
        let i = choose|i: int| 0 <= i < interfaces.len() && (#[trigger] interfaces[i]).name@ == name;
        assert(named(records, interfaces[i].name@));
        assert(!is_loopback(records, interfaces[i].name@));
    }
    if exists|k: int| 0 <= k < records.len() && (#[trigger] records[k]).ifname@ == name {
        let k = choose|k: int| 0 <= k < records.len() && (#[trigger] records[k]).ifname@ == name;
        if !is_loopback(records, name) {
            assert(is_listed(interfaces, records[k].ifname@));
        }
    }
    assert forall|i: int, j: int| 0 <= i < j < interfaces.len() implies (
    #[trigger] interfaces[i]).name@ != (#[trigger] interfaces[j]).name@ by {
        assert(name_less(interfaces[i].name@, interfaces[j].name@));
        lemma_names_total(interfaces[i].name@, interfaces[j].name@);
    }
}

/// The hardware address of an interface is that of the last of its records that
/// carries one: six pairs of lowercase hexadecimal digits with colons between.
pub proof fn law_hardware_addresses(interfaces: Seq<Interface>, records: Seq<RawAddr>, i: int)
    requires
        lists(interfaces, records),
        0 <= i < interfaces.len(),
    ensures
        ({
            let name = interfaces[i].name@;
            let macs = records.filter(|r: RawAddr| r.ifname@ == name && r.mac is Some);
            match interfaces[i].hardware_address {
                Some(text) => macs.len() > 0 && is_mac_text(text@, macs.last().mac->0@),
                None => macs.len() == 0,
            }
        }),
{
    let name = interfaces[i].name@;
    lemma_last_mac(records, name);
    assert(interfaces[i]@ == told(records, name));
    let macs = records.filter(|r: RawAddr| r.ifname@ == name && r.mac is Some);
    if macs.len() > 0 {
        lemma_mac_text(macs.last().mac->0@);
    }
}

/// A text is six bytes in hexadecimal with colons between.
pub open spec fn is_mac_text(text: Seq<char>, mac: Seq<u8>) -> bool {
    let digits = "0123456789abcdef"@;
    &&& text.len() == 17
    &&& forall|k: int| 0 <= k < 6 ==> text[3 * k] == digits[#[trigger] mac[k] as int / 16]
    &&& forall|k: int| 0 <= k < 6 ==> text[3 * k + 1] == digits[#[trigger] mac[k] as int % 16]
    &&& text[2] == ':' && text[5] == ':' && text[8] == ':' && text[11] == ':' && text[14] == ':'
}

proof fn lemma_last_mac(records: Seq<RawAddr>, name: Seq<char>)
    ensures
        ({
            let macs = records.filter(|r: RawAddr| r.ifname@ == name && r.mac is Some);
            &&& told(records, name).hardware_address == if macs.len() > 0 {
                Some(mac_text(macs.last().mac->0@))
            } else {
                None
            }
            &&& macs.len() > 0 ==> macs.last().mac is Some
        }),
    decreases records.len(),
{
    reveal(Seq::filter);
    if records.len() > 0 {
        lemma_last_mac(records.drop_last(), name);
    }
}

proof fn lemma_mac_text(mac: Seq<u8>)
    requires
        mac.len() == 6,
    ensures
        is_mac_text(mac_text(mac), mac),
{
    reveal_strlit("0123456789abcdef");
    reveal_strlit(":");
    lemma_mac_part(mac, 6);
    let text = mac_text(mac);
    assert(mac.take(6) =~= mac);
}

proof fn lemma_mac_part(mac: Seq<u8>, n: int)
    requires
        0 < n <= mac.len(),
    ensures
        ({
            let digits = "0123456789abcdef"@;
            let text = mac_text(mac.take(n));
            &&& text.len() == 3 * n - 1
            &&& forall|k: int| 0 <= k < n ==> text[3 * k] == digits[#[trigger] mac[k] as int / 16]
            &&& forall|k: int| 0 <= k < n ==> text[3 * k + 1] == digits[#[trigger] mac[k] as int % 16]
            &&& forall|p: int| 0 <= p < text.len() && p % 3 == 2 ==> #[trigger] text[p] == ':'
        }),
    decreases n,
{
    let digits = "0123456789abcdef"@;
    reveal_strlit("0123456789abcdef");
    reveal_strlit(":");
    let part = mac.take(n);
    let text = mac_text(part);
    let pair = audit::hex(seq![part.last()]);
    assert(part.last() == mac[n - 1]);
    assert(pair.len() == 2);
    assert(pair[0] == digits[mac[n - 1] as int / 16]);
    assert(pair[1] == digits[mac[n - 1] as int % 16]);
    if n == 1 {
        assert(part =~= seq![part.last()]);
    } else {
        assert(part.drop_last() =~= mac.take(n - 1));
        lemma_mac_part(mac, n - 1);
        let before = mac_text(mac.take(n - 1));
        assert(text =~= before + ":"@ + pair);
        assert forall|k: int| 0 <= k < n implies text[3 * k] == digits[#[trigger] mac[k] as int
            / 16] by {
            if k < n - 1 {
                assert(before[3 * k] == text[3 * k]);
            }
        }
        assert forall|k: int| 0 <= k < n implies text[3 * k + 1] == digits[#[trigger] mac[k] as int
            % 16] by {
            if k < n - 1 {
                assert(before[3 * k + 1] == text[3 * k + 1]);
            }
        }
        assert forall|p: int| 0 <= p < text.len() && p % 3 == 2 implies #[trigger] text[p]
            == ':' by {
            if p < before.len() {
                assert(before[p] == text[p]);
            }
        }
    }
}

/// Names come in the order of their bytes: of two listed one after the other,
/// the first is a beginning of the second or smaller where they first differ.
pub proof fn law_interfaces_are_sorted_by_name(
    interfaces: Seq<Interface>,
    records: Seq<RawAddr>,
    i: int,
    j: int,
)
    requires
        lists(interfaces, records),
        0 <= i < j < interfaces.len(),
    ensures
        ({
            let a = vstd::utf8::encode_utf8(interfaces[i].name@);
            let b = vstd::utf8::encode_utf8(interfaces[j].name@);
            exists|k: int|
                {
                    &&& 0 <= k <= a.len()
                    &&& k < b.len()
                    &&& #[trigger] a.take(k) == b.take(k)
                    &&& k == a.len() || a[k] < b[k]
                }
        }),
{
    assert(name_less(interfaces[i].name@, interfaces[j].name@));
    lemma_less(
        vstd::utf8::encode_utf8(interfaces[i].name@),
        vstd::utf8::encode_utf8(interfaces[j].name@),
    );
}

proof fn lemma_less(a: Seq<u8>, b: Seq<u8>)
    requires
        bytes_less(a, b),
    ensures
        exists|k: int|
            {
                &&& 0 <= k <= a.len()
                &&& k < b.len()
                &&& #[trigger] a.take(k) == b.take(k)
                &&& k == a.len() || a[k] < b[k]
            },
    decreases a.len(),
{
    if a.len() == 0 || a[0] < b[0] {
        assert(a.take(0) =~= b.take(0));
    } else {
        let x = a.skip(1);
        let y = b.skip(1);
        lemma_less(x, y);
        let k = choose|k: int|
            {
                &&& 0 <= k <= x.len()
                &&& k < y.len()
                &&& #[trigger] x.take(k) == y.take(k)
                &&& k == x.len() || x[k] < y[k]
            };
        assert(a.take(k + 1) =~= seq![a[0]] + x.take(k));
        assert(b.take(k + 1) =~= seq![b[0]] + y.take(k));
        if k < x.len() {
            assert(a[k + 1] == x[k] && b[k + 1] == y[k]);
        }
    }
}

/// An address of the reply says its text, its kind and its prefix, each under
/// its name, and nothing else.
pub proof fn law_an_address_says_its_fields(
    address: IpAddressView,
    name: Seq<char>,
    value: json::JsonView,
)
    ensures
        address_json(address) is Object,
        json::says(address_json(address)->Object_0, name, value) <==> {
            ||| name == "ip-address"@ && value == json::JsonView::Text(address.ip_address)
            ||| name == "ip-address-type"@ && value == json::JsonView::Text(
                address.ip_address_type,
            )
            ||| name == "prefix"@ && value == json::JsonView::Int(address.prefix as int)
        },
{
    let members = address_json(address)->Object_0;
    assert(members[0].name == "ip-address"@);
    assert(members[1].name == "ip-address-type"@);
    assert(members[2].name == "prefix"@);
}

/// An interface of the reply says its name, its addresses and, if it has one,
/// its hardware address, each under its name, and nothing else.
pub proof fn law_an_interface_says_its_fields(
    interface: InterfaceView,
    name: Seq<char>,
    value: json::JsonView,
)
    ensures
        interface_json(interface) is Object,
        json::says(interface_json(interface)->Object_0, name, value) <==> {
            ||| name == "name"@ && value == json::JsonView::Text(interface.name)
            ||| name == "hardware-address"@ && interface.hardware_address is Some && value
                == json::JsonView::Text(interface.hardware_address->0)
            ||| name == "ip-addresses"@ && value is List && value->List_0.len()
                == interface.ip_addresses.len() && (forall|i: int|
                0 <= i < interface.ip_addresses.len() ==> #[trigger] value->List_0[i]
                    == address_json(interface.ip_addresses[i]))
        },
{
    let mac = match interface.hardware_address {
        Some(mac) => seq![
            json::MemberView { name: "hardware-address"@, value: json::JsonView::Text(mac) },
        ],
        None => Seq::empty(),
    };
    let shown = Seq::new(
        interface.ip_addresses.len(),
        |i: int| address_json(interface.ip_addresses[i]),
    );
    let rest = seq![
        json::MemberView { name: "ip-addresses"@, value: json::JsonView::List(shown) },
        json::MemberView { name: "name"@, value: json::JsonView::Text(interface.name) },
    ];
    json::lemma_says_concat(mac, rest, name, value);
    assert(rest[0].name == "ip-addresses"@);
    assert(rest[1].name == "name"@);
    if interface.hardware_address is Some {
        assert(mac[0].name == "hardware-address"@);
    }
    if value is List {
        if value->List_0.len() == interface.ip_addresses.len() && (forall|i: int|
            0 <= i < interface.ip_addresses.len() ==> #[trigger] value->List_0[i] == address_json(
                interface.ip_addresses[i],
            )) {
            assert(value->List_0 =~= shown);
        }
    }
}

/// The reply lists every interface, in order.
pub proof fn law_the_reply_lists_every_interface(interfaces: Seq<Interface>)
    ensures
        list_json(interfaces) is List,
        list_json(interfaces)->List_0.len() == interfaces.len(),
        forall|i: int|
            0 <= i < interfaces.len() ==> #[trigger] list_json(interfaces)->List_0[i]
                == interface_json(interfaces[i]@),
{
}

/// The reply is the whole list, as long as its line, with the longest envelope,
/// is within 262144 bytes; what could not be read is told as it is.
pub proof fn law_the_reply_is_the_whole_list(
    records: Result<Vec<RawAddr>, Error>,
    reply: Result<Json, Error>,
)
    requires
        call_ensures(handle, (records,), reply),
    ensures
        records matches Err(err) ==> reply == Err::<Json, Error>(err),
        records is Ok && reply is Ok ==> exists|interfaces: Seq<Interface>| #[trigger]
            lists(interfaces, records->Ok_0@) && reply->Ok_0@ == list_json(interfaces)
                && handlers::value_bytes(list_json(interfaces)).len() + 38 <= 262_144,
        records is Ok && reply is Err ==> exists|interfaces: Seq<Interface>| #[trigger]
            lists(interfaces, records->Ok_0@) && handlers::value_bytes(
                list_json(interfaces),
            ).len() + 38 > 262_144,
{
}

/// Whether the host sees an IPv4 address is decided by its first two octets
/// alone: it sees every address but those of 127.0.0.0/8 and 169.254.0.0/16.
pub proof fn law_which_ipv4_addresses_the_host_sees(
    a: u8,
    b: u8,
    c: u8,
    d: u8,
    ip: IpAddr,
    hidden: bool,
)
    requires
        call_ensures(v4, (a, b, c, d), ip),
        call_ensures(is_filtered, (&ip,), hidden),
    ensures
        hidden <==> a == 127 || (a == 169 && b == 254),
{
    law_hidden_ipv4_addresses(a, b, c, d);
}

} // verus!
