use pocket_relay_plugin::qos::{
    parse_reply, qos_reply, service, AddressLookup, LookupAction, PublicAddrCache,
    ADDR_CACHE_MILLIS, SERVICE_COUNT,
};

#[test]
fn qos_reply_layout() {
    let mut header = [0u8; 20];
    for (i, b) in header.iter_mut().enumerate() {
        *b = i as u8 + 1;
    }
    let reply = qos_reply(&header, [203, 0, 113, 7], 0x1F90);
    assert_eq!(reply.len(), 30);
    assert_eq!(&reply[..20], &header);
    assert_eq!(&reply[20..24], &[203, 0, 113, 7]);
    assert_eq!(&reply[24..26], &0x1F90u16.to_be_bytes());
    assert_eq!(&reply[26..], &[0, 0, 0, 0]);
}

#[test]
fn qos_reply_port_is_big_endian() {
    let reply = qos_reply(&[0u8; 20], [1, 2, 3, 4], 3659);
    assert_eq!(reply[24], 0x0E);
    assert_eq!(reply[25], 0x4B);
}

#[test]
fn cache_answers_until_expiry() {
    let mut cache = PublicAddrCache::new();
    assert_eq!(cache.lookup(0), None);
    cache.store([192, 0, 2, 1], 1_000);
    assert_eq!(cache.lookup(1_000), Some([192, 0, 2, 1]));
    assert_eq!(cache.lookup(1_000 + ADDR_CACHE_MILLIS - 1), Some([192, 0, 2, 1]));
    assert_eq!(cache.lookup(1_000 + ADDR_CACHE_MILLIS), None);
    assert_eq!(cache.lookup(5), Some([192, 0, 2, 1]));
    assert_eq!(ADDR_CACHE_MILLIS, 30 * 60 * 1000);
}

#[test]
fn reply_parsing_cases() {
    let cases: [(&str, Option<[u8; 4]>); 22] = [
        ("203.0.113.7", Some([203, 0, 113, 7])),
        ("203.0.113.7\n", Some([203, 0, 113, 7])),
        ("  203.0.113.7 \r\n", Some([203, 0, 113, 7])),
        ("\u{3000}8.8.8.8\u{a0}", Some([8, 8, 8, 8])),
        ("1.2.\n3.4", Some([1, 2, 3, 4])),
        ("0.0.0.0", Some([0, 0, 0, 0])),
        ("255.255.255.255", Some([255, 255, 255, 255])),
        ("256.1.1.1", None),
        ("01.2.3.4", None),
        ("1.2.3", None),
        ("1.2.3.4.5", None),
        ("1..3.4", None),
        ("", None),
        ("abc", None),
        ("1.2.3.4 x", None),
        ("1.2.3. 4", None),
        ("\u{ff11}.2.3.4", None),
        ("+1.2.3.4", None),
        ("1000.1.1.1", None),
        ("10.0.0.010", None),
        ("\t\n 127.0.0.1\n\n", Some([127, 0, 0, 1])),
        ("::1", None),
    ];
    for (text, expected) in cases {
        assert_eq!(parse_reply(text), expected, "reply {:?}", text);
    }
}

#[test]
fn reply_parsing_examples() {
    assert_eq!(parse_reply("93.184.216.34\n"), Some([93, 184, 216, 34]));
    assert_eq!(parse_reply("<html>"), None);
}

#[test]
fn services_in_order() {
    assert_eq!(SERVICE_COUNT, 2);
    assert_eq!(service(0), "https://api.ipify.org/");
    assert_eq!(service(1), "https://ipv4.icanhazip.com/");
}

#[test]
fn lookup_answers_from_cache() {
    let mut cache = PublicAddrCache::new();
    cache.store([1, 1, 1, 1], 10);
    let (_, action) = AddressLookup::begin(&cache, 20);
    assert!(matches!(action, LookupAction::Answer(Some([1, 1, 1, 1]))));
}

#[test]
fn lookup_uses_first_valid_reply() {
    let mut cache = PublicAddrCache::new();
    let (mut lookup, action) = AddressLookup::begin(&cache, 100);
    assert!(matches!(action, LookupAction::Fetch("https://api.ipify.org/")));
    let action = lookup.on_reply(Some("198.51.100.2\n"), &mut cache, 150);
    assert!(matches!(action, LookupAction::Answer(Some([198, 51, 100, 2]))));
    assert_eq!(cache.lookup(151), Some([198, 51, 100, 2]));
    assert_eq!(cache.lookup(150 + ADDR_CACHE_MILLIS), None);
}

#[test]
fn lookup_tries_next_service_then_local() {
    let mut cache = PublicAddrCache::new();
    let (mut lookup, _) = AddressLookup::begin(&cache, 0);
    let action = lookup.on_reply(None, &mut cache, 1);
    assert!(matches!(action, LookupAction::Fetch("https://ipv4.icanhazip.com/")));
    let action = lookup.on_reply(Some("not an address"), &mut cache, 2);
    assert!(matches!(action, LookupAction::QueryLocal));
    assert_eq!(cache.lookup(3), None);
    let action = lookup.on_local(Some([10, 0, 0, 5]), &mut cache, 4);
    assert!(matches!(action, LookupAction::Answer(Some([10, 0, 0, 5]))));
    assert_eq!(cache.lookup(5), Some([10, 0, 0, 5]));
}

#[test]
fn lookup_without_any_address_leaves_cache() {
    let mut cache = PublicAddrCache::new();
    let (mut lookup, _) = AddressLookup::begin(&cache, 0);
    lookup.on_reply(None, &mut cache, 1);
    lookup.on_reply(None, &mut cache, 2);
    let action = lookup.on_local(None, &mut cache, 3);
    assert!(matches!(action, LookupAction::Answer(None)));
    assert_eq!(cache.lookup(4), None);
}

#[test]
fn expired_cache_starts_a_fetch() {
    let mut cache = PublicAddrCache::new();
    cache.store([1, 2, 3, 4], 0);
    let (_, action) = AddressLookup::begin(&cache, ADDR_CACHE_MILLIS);
    assert!(matches!(action, LookupAction::Fetch("https://api.ipify.org/")));
}

#[test]
fn cache_history_over_two_lookups() {
    let mut cache = PublicAddrCache::new();
    let (mut first, _) = AddressLookup::begin(&cache, 0);
    let action = first.on_reply(Some("192.0.2.9"), &mut cache, 10);
    assert!(matches!(action, LookupAction::Answer(Some([192, 0, 2, 9]))));
    // A second lookup within the cache time asks nothing.
    let (_, action) = AddressLookup::begin(&cache, 10 + ADDR_CACHE_MILLIS - 1);
    assert!(matches!(action, LookupAction::Answer(Some([192, 0, 2, 9]))));
    // After expiry a failed lookup keeps the old entry.
    let (mut second, action) = AddressLookup::begin(&cache, 10 + ADDR_CACHE_MILLIS);
    assert!(matches!(action, LookupAction::Fetch(_)));
    second.on_reply(None, &mut cache, 20 + ADDR_CACHE_MILLIS);
    second.on_reply(None, &mut cache, 30 + ADDR_CACHE_MILLIS);
    second.on_local(None, &mut cache, 40 + ADDR_CACHE_MILLIS);
    assert!(matches!(cache, PublicAddrCache::Known { value: [192, 0, 2, 9], expires } if expires == 10 + ADDR_CACHE_MILLIS));
}
