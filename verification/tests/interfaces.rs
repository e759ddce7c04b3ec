use qeminga::handlers::interfaces::{
    collect, format_mac, handle, is_filtered, prefix_len, to_json, v4, Address, Interface, IpAddr,
    RawAddr,
};
use qeminga::json::to_text;
use qeminga::proto::Error;
use serde_json::Value;

/// An address read from its text.
fn addr(text: &str) -> IpAddr {
    if !text.contains(':') {
        let parts: Vec<u8> = text.split('.').map(|part| part.parse().unwrap()).collect();
        return v4(parts[0], parts[1], parts[2], parts[3]);
    }
    let groups = |list: &str| -> Vec<u16> {
        list.split(':')
            .filter(|group| !group.is_empty())
            .map(|group| u16::from_str_radix(group, 16).unwrap())
            .collect()
    };
    let (head, tail) = match text.split_once("::") {
        Some((head, tail)) => (groups(head), groups(tail)),
        None => (groups(text), vec![]),
    };
    let mut all = head.clone();
    all.resize(8 - tail.len(), 0);
    all.extend(tail);
    IpAddr::V6(all.iter().fold(0, |bits, group| bits * 0x1_0000 + u128::from(*group)))
}

fn link(ifname: &str, loopback: bool, mac: Option<[u8; 6]>) -> RawAddr {
    RawAddr {
        ifname: ifname.into(),
        loopback,
        mac,
        addr: None,
        netmask: None,
    }
}

fn ip(ifname: &str, text: &str, netmask: Option<&str>) -> RawAddr {
    RawAddr {
        ifname: ifname.into(),
        loopback: false,
        mac: None,
        addr: Some(Address {
            ip: addr(text),
            text: text.to_owned(),
        }),
        netmask: netmask.map(addr),
    }
}

fn names(ifaces: &[Interface]) -> Vec<&str> {
    ifaces.iter().map(|i| i.name.as_str()).collect()
}

fn json(interfaces: &Vec<Interface>) -> Value {
    serde_json::from_str(&to_text(&to_json(interfaces))).unwrap()
}

#[test]
fn loopback_interface_is_dropped() {
    // By flag, even though the address itself is not 127/8.
    let out = collect(vec![
        link("lo", true, Some([0; 6])),
        ip("lo", "10.0.0.1", Some("255.0.0.0")),
        link("eth0", false, Some([0xde, 0xad, 0xbe, 0xef, 0, 1])),
        ip("eth0", "192.0.2.10", Some("255.255.255.0")),
    ]);
    assert_eq!(names(&out), ["eth0"]);
    // By address: 127/8 and ::1 on a non-loopback interface are dropped but
    // the interface survives with its other addresses.
    let out = collect(vec![
        ip("dummy0", "127.0.0.2", Some("255.0.0.0")),
        ip(
            "dummy0",
            "::1",
            Some("ffff:ffff:ffff:ffff:ffff:ffff:ffff:ffff"),
        ),
        ip("dummy0", "198.51.100.1", Some("255.255.255.0")),
    ]);
    assert_eq!(names(&out), ["dummy0"]);
    assert_eq!(out[0].ip_addresses.len(), 1);
    assert_eq!(out[0].ip_addresses[0].ip_address, "198.51.100.1");
}

#[test]
fn link_local_addresses_are_dropped() {
    let out = collect(vec![
        ip("eth0", "169.254.7.8", Some("255.255.0.0")),
        ip("eth0", "fe80::1", Some("ffff:ffff:ffff:ffff::")),
        ip("eth0", "febf::1", Some("ffff:ffff:ffff:ffff::")),
        ip("eth0", "2001:db8::1", Some("ffff:ffff:ffff:ffff::")),
        ip("eth0", "10.1.2.3", Some("255.255.255.0")),
        // Only link-local: listed with an empty address list.
        ip("eth1", "169.254.1.1", Some("255.255.0.0")),
        ip("eth1", "fe80::2", Some("ffff:ffff:ffff:ffff::")),
    ]);
    assert_eq!(names(&out), ["eth0", "eth1"]);
    let eth0: Vec<&str> = out[0]
        .ip_addresses
        .iter()
        .map(|a| a.ip_address.as_str())
        .collect();
    assert_eq!(eth0, ["2001:db8::1", "10.1.2.3"]);
    assert!(out[1].ip_addresses.is_empty());
    // fec0::/10 is *not* link-local (site-local, deprecated but routable).
    assert!(!is_filtered(&addr("fec0::1")));
    assert!(is_filtered(&addr("fe80::")));
    assert!(is_filtered(&addr("febf:ffff::1")));
    assert!(!is_filtered(&addr("fe00::1")));
    assert!(!is_filtered(&addr("fc00::1")));
    assert!(is_filtered(&addr("169.254.255.255")));
    assert!(!is_filtered(&addr("169.255.0.1")));
}

#[test]
fn prefix_is_derived_from_netmask() {
    assert_eq!(prefix_len(&v4(255, 255, 255, 0)), Some(24));
    assert_eq!(prefix_len(&v4(255, 255, 255, 255)), Some(32));
    assert_eq!(prefix_len(&v4(0, 0, 0, 0)), Some(0));
    assert_eq!(prefix_len(&v4(255, 255, 0, 255)), None, "non-contiguous");
    assert_eq!(prefix_len(&addr("ffff:ffff:ffff:ffff::")), Some(64));
    assert_eq!(
        prefix_len(&addr("ffff:ffff:ffff:ffff:ffff:ffff:ffff:ffff")),
        Some(128)
    );
    assert_eq!(prefix_len(&addr("::")), Some(0));
    assert_eq!(prefix_len(&addr("ffff::ffff")), None);

    let out = collect(vec![
        ip("eth0", "192.0.2.10", Some("255.255.255.0")),
        ip("eth0", "2001:db8::1", Some("ffff:ffff:ffff:ffff::")),
        ip("eth0", "192.0.2.11", None),
        ip("eth0", "2001:db8::2", None),
        ip("eth0", "192.0.2.12", Some("255.0.255.0")),
    ]);
    let prefixes: Vec<u8> = out[0].ip_addresses.iter().map(|a| a.prefix).collect();
    // Missing or malformed masks fall back to a host prefix.
    assert_eq!(prefixes, [24, 64, 32, 128, 32]);
}

#[test]
fn hardware_address_is_lowercase_colon_hex_and_omitted_when_absent() {
    let out = collect(vec![
        link("eth0", false, Some([0xDE, 0xAD, 0xBE, 0xEF, 0x00, 0x0A])),
        ip("eth0", "192.0.2.10", Some("255.255.255.0")),
        ip("tun0", "10.8.0.2", Some("255.255.255.255")),
    ]);
    assert_eq!(
        out[0].hardware_address.as_deref(),
        Some("de:ad:be:ef:00:0a")
    );
    assert_eq!(out[1].hardware_address, None);
    let value = json(&out);
    assert_eq!(value[0]["hardware-address"], "de:ad:be:ef:00:0a");
    assert!(value[1].get("hardware-address").is_none());
    assert_eq!(
        format_mac(&[0, 1, 2, 0xab, 0xcd, 0xef]),
        "00:01:02:ab:cd:ef"
    );
}

#[test]
fn addresses_are_grouped_by_interface_and_sorted_by_name() {
    let out = collect(vec![
        ip("eth1", "10.0.1.1", Some("255.255.255.0")),
        ip("eth0", "10.0.0.1", Some("255.255.255.0")),
        ip("eth1", "10.0.1.2", Some("255.255.255.0")),
        link("br0", false, Some([1, 2, 3, 4, 5, 6])),
        ip("eth0", "10.0.0.2", Some("255.255.255.0")),
    ]);
    assert_eq!(names(&out), ["br0", "eth0", "eth1"]);
    let eth1: Vec<&str> = out[2]
        .ip_addresses
        .iter()
        .map(|a| a.ip_address.as_str())
        .collect();
    assert_eq!(
        eth1,
        ["10.0.1.1", "10.0.1.2"],
        "kernel order within an interface"
    );
    assert_eq!(out[1].ip_addresses.len(), 2);
    assert!(out[0].ip_addresses.is_empty());
    // Same input in a different order yields the same output.
    let again = collect(vec![
        ip("eth0", "10.0.0.1", Some("255.255.255.0")),
        ip("eth0", "10.0.0.2", Some("255.255.255.0")),
        link("br0", false, Some([1, 2, 3, 4, 5, 6])),
        ip("eth1", "10.0.1.1", Some("255.255.255.0")),
        ip("eth1", "10.0.1.2", Some("255.255.255.0")),
    ]);
    assert_eq!(again, out);
    assert!(collect(Vec::new()).is_empty());
}

#[test]
fn output_uses_qapi_field_names() {
    let out = collect(vec![
        link("eth0", false, Some([1, 2, 3, 4, 5, 6])),
        ip("eth0", "192.0.2.10", Some("255.255.255.0")),
        ip("eth0", "2001:db8::1", Some("ffff:ffff:ffff:ffff::")),
    ]);
    let value = json(&out);
    let iface = &value[0];
    let mut keys: Vec<&str> = iface
        .as_object()
        .unwrap()
        .keys()
        .map(String::as_str)
        .collect();
    keys.sort_unstable();
    assert_eq!(keys, ["hardware-address", "ip-addresses", "name"]);
    let addrs = iface["ip-addresses"].as_array().unwrap();
    for addr in addrs {
        let mut keys: Vec<&str> = addr
            .as_object()
            .unwrap()
            .keys()
            .map(String::as_str)
            .collect();
        keys.sort_unstable();
        assert_eq!(keys, ["ip-address", "ip-address-type", "prefix"]);
    }
    assert_eq!(addrs[0]["ip-address-type"], "ipv4");
    assert_eq!(addrs[0]["prefix"], 24);
    assert_eq!(addrs[1]["ip-address-type"], "ipv6");
    assert_eq!(addrs[1]["ip-address"], "2001:db8::1");
    assert_eq!(addrs[1]["prefix"], 64);
}

#[test]
fn a_reply_beyond_the_bound_is_an_explicit_error_not_a_truncated_list() {
    // Thousands of interfaces with an address each exceed the reply bound; the
    // command fails naming it. A few hundred are answered whole.
    let records = |n: u32| -> Vec<RawAddr> {
        (0..n)
            .flat_map(|i| {
                let name = format!("veth{i:05}");
                let octets = i.to_be_bytes();
                [
                    link(
                        &name,
                        false,
                        Some([2, 0, octets[1], octets[2], octets[3], 1]),
                    ),
                    ip(
                        &name,
                        &format!("10.{}.{}.{}", octets[1], octets[2], octets[3]),
                        Some("255.255.255.0"),
                    ),
                ]
            })
            .collect()
    };
    let text = handle(Ok(records(4_000))).unwrap_err().message();
    assert!(
        text.contains("over the 262144 byte bound") && text.contains("not truncated"),
        "{text}"
    );
    let value: Value =
        serde_json::from_str(&to_text(&handle(Ok(records(500))).unwrap())).unwrap();
    assert_eq!(value.as_array().unwrap().len(), 500);
}

#[test]
fn the_handler_passes_on_why_the_interfaces_could_not_be_listed() {
    let err = handle(Err(Error::Internal("getifaddrs: EPERM".to_owned()))).unwrap_err();
    assert_eq!(err.message(), "getifaddrs: EPERM");
    let value: Value = serde_json::from_str(&to_text(
        &handle(Ok(vec![
            link("lo", true, None),
            ip("lo", "127.0.0.1", Some("255.0.0.0")),
            link("eth0", false, Some([1, 2, 3, 4, 5, 6])),
            ip("eth0", "192.0.2.10", Some("255.255.255.0")),
        ]))
        .unwrap(),
    ))
    .unwrap();
    assert_eq!(value.as_array().unwrap().len(), 1);
    assert_eq!(value[0]["name"], "eth0");
}
