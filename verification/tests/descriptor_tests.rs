use caravan_rs::descriptor::ExtendedDescriptor;
use caravan_rs::errors::Error;
use caravan_rs::keys::ExtendedKey;
use caravan_rs::network::Network;

const TPUB_A: &str = "tpubD6NzVbkrYhZ4XHndKkuB8FifXm8r5FQHwrN6oZuWCz13qb93rtgKvD4PQsqC4HP4yhV3tA2fqr2RbY5mNXfM7RxXUoeABoDtsFUq2zJq6YK";
const TPUB_B: &str = "tpubD6NzVbkrYhZ4WQdzxL7NmJN7b85ePo4p6RSj9QQHF7te2RR9iUeVSGgnGkoUsB9LBRosgvNbjRv9bcsJgzgBd7QKuxDm23ZewkTRzNSLEDr";

fn two_key_text() -> String {
    format!(
        "wsh(sortedmulti(2,[aabbccdd/48'/1'/0'/2']{}/0/*,{}/0/*))",
        TPUB_A, TPUB_B
    )
}

#[test]
fn descriptor_round_trip_without_checksum() {
    let t = two_key_text();
    let d = ExtendedDescriptor::from_str(&t).unwrap();
    assert_eq!(d.to_text(), t);
}

#[test]
fn descriptor_round_trip_with_checksum() {
    let t = two_key_text();
    let d = ExtendedDescriptor::from_str(&t).unwrap();
    let full = d.to_string();
    assert!(full.starts_with(&t));
    assert_eq!(full.as_bytes()[t.len()], b'#');
    assert_eq!(full.len(), t.len() + 9);
    // The checksummed form parses again, to an equal canonical text.
    let d2 = ExtendedDescriptor::from_str(&full).unwrap();
    assert_eq!(d2.to_text(), t);
    assert_eq!(d2.to_string(), full);
}

#[test]
fn descriptor_checksum_mismatch_is_rejected() {
    let t = two_key_text();
    let full = ExtendedDescriptor::from_str(&t).unwrap().to_string();
    let mut bad = full.clone();
    // Flip the final checksum character to a different checksum character.
    let last = bad.pop().unwrap();
    bad.push(if last == 'q' { 'p' } else { 'q' });
    assert!(matches!(
        ExtendedDescriptor::from_str(&bad),
        Err(Error::ChecksumMismatch)
    ));
}

#[test]
fn descriptor_syntax_errors() {
    for bad in [
        "",
        "wsh(sortedmulti(2))",
        "wsh(sortedmulti(0,tpubAAAAA/0/*))",
        "wsh(sortedmulti(3,tpubAAAAA/0/*,tpubBBBBB/0/*))",
        "pkh(tpubAAAAA/0/*)",
        "wsh(sortedmulti(1,xpub/0/*))",
        "wsh(sortedmulti(1,tpubAAAAA/0/*)",
        "wsh(sortedmulti(1,tpubAAAAA/0/*))trailing",
        "wsh(sortedmulti(01,tpubAAAAA/0/*))",
        "wsh(sortedmulti(1,tpubAAAAA/0'/*))",
        "wsh(sortedmulti(1,tpubAAAAA/0h/*))",
    ] {
        assert!(
            matches!(
                ExtendedDescriptor::from_str(bad),
                Err(Error::DescriptorSyntax { .. })
            ),
            "accepted {:?}",
            bad
        );
    }
}

#[test]
fn descriptor_accepts_all_three_templates_and_multi() {
    for t in [
        format!("sh(sortedmulti(1,{}/0/*))", TPUB_A),
        format!("wsh(multi(1,{}/0/*))", TPUB_A),
        format!("sh(wsh(sortedmulti(1,{}/0/*)))", TPUB_A),
    ] {
        let d = ExtendedDescriptor::from_str(&t).unwrap();
        assert_eq!(d.to_text(), t);
    }
}

#[test]
fn descriptor_address_derivation_testnet() {
    let t = two_key_text();
    let d = ExtendedDescriptor::from_str(&t).unwrap();
    let a0 = d.get_address(0, Network::Testnet).unwrap();
    let a1 = d.get_address(1, Network::Testnet).unwrap();
    assert!(a0.starts_with("tb1"), "not bech32 testnet: {}", a0);
    assert!(a1.starts_with("tb1"));
    assert_ne!(a0, a1);
    // Deterministic: the same index gives the same address.
    assert_eq!(d.get_address(0, Network::Testnet).unwrap(), a0);
}

#[test]
fn descriptor_network_mismatch() {
    let t = two_key_text();
    let d = ExtendedDescriptor::from_str(&t).unwrap();
    assert!(matches!(
        d.get_address(0, Network::Mainnet),
        Err(Error::NetworkMismatch)
    ));
}

#[test]
fn extended_key_parsing() {
    let with_origin = format!("[aabbccdd/48'/1'/0'/2']{}", TPUB_A);
    let k = ExtendedKey::from_str(&with_origin).unwrap();
    assert!(k.origin.is_some());
    let bare = ExtendedKey::from_str(TPUB_A).unwrap();
    assert!(bare.origin.is_none());
    for bad in ["", "tpub", "[zzzz]tpubAAAAA", "[aabbccdd]tpubAAAAA extra"] {
        assert!(matches!(
            ExtendedKey::from_str(bad),
            Err(Error::DescriptorSyntax { .. })
        ));
    }
}

#[test]
fn network_parse_and_format() {
    for (name, n) in [
        ("bitcoin", Network::Mainnet),
        ("testnet", Network::Testnet),
        ("signet", Network::Signet),
        ("regtest", Network::Regtest),
    ] {
        let parsed = Network::from_str(name).unwrap();
        assert_eq!(parsed, n);
        assert_eq!(parsed.to_string(), name);
    }
    assert!(Network::from_str("Testnet").is_err());
    assert!(Network::from_str("mainnet").is_err());
    assert!(Network::from_str("").is_err());
}

#[test]
fn hardened_marker_alias_is_kept() {
    let quote_form = format!("wsh(sortedmulti(1,[aabbccdd/48'/1'/0'/2']{}/0/*))", TPUB_A);
    let h_form = format!("wsh(sortedmulti(1,[aabbccdd/48h/1h/0h/2h]{}/0/*))", TPUB_A);
    let mixed = format!("wsh(sortedmulti(1,[aabbccdd/48h/1'/0h/2']{}/0/*))", TPUB_A);
    for t in [&quote_form, &h_form, &mixed] {
        let d = ExtendedDescriptor::from_str(t).unwrap();
        assert_eq!(&d.to_text(), t);
    }
    // Both spellings derive, and they derive the same address.
    let a = ExtendedDescriptor::from_str(&quote_form)
        .unwrap()
        .get_address(0, Network::Testnet)
        .unwrap();
    let b = ExtendedDescriptor::from_str(&h_form)
        .unwrap()
        .get_address(0, Network::Testnet)
        .unwrap();
    assert_eq!(a, b);
    assert!(a.starts_with("tb1"));
}
