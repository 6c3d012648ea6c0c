use caravan_rs::config::CaravanConfig;
use caravan_rs::config::MultisigWalletConfig;
use caravan_rs::descriptor::ScriptType;
use caravan_rs::errors::Error;
use caravan_rs::keys::ExtendedKey;
use caravan_rs::network::Network;
use caravan_rs::wallet::MultisigWalletSpec;

const TPUB_A: &str = "tpubD6NzVbkrYhZ4XHndKkuB8FifXm8r5FQHwrN6oZuWCz13qb93rtgKvD4PQsqC4HP4yhV3tA2fqr2RbY5mNXfM7RxXUoeABoDtsFUq2zJq6YK";
const TPUB_B: &str = "tpubD6NzVbkrYhZ4WQdzxL7NmJN7b85ePo4p6RSj9QQHF7te2RR9iUeVSGgnGkoUsB9LBRosgvNbjRv9bcsJgzgBd7QKuxDm23ZewkTRzNSLEDr";
const TPUB_C: &str = "tpubD6NzVbkrYhZ4WR7a4vY1VT3khMJMeAxVsfq9TBJyJWrNk247zCJtV7AWf6UJP7rAVsn8NNKdJi3gFyKPTmWZS9iukb91xbn2HbFSMQm2igY";
const XPUB_A: &str = "xpub661MyMwAqRbcFW31YEwpkMuc5THy2PSt5bDMsktWQcFF8syAmRUapSCGu8ED9W6oDMSgv6Zz8idoc4a6mr8BDzTJY47LJhkJ8UB7WEGuduB";

fn three_testnet_keys() -> Vec<ExtendedKey> {
    vec![
        ExtendedKey::from_str(&format!("[aabbccdd/48'/1'/0'/2']{}", TPUB_A)).unwrap(),
        ExtendedKey::from_str(TPUB_B).unwrap(),
        ExtendedKey::from_str(TPUB_C).unwrap(),
    ]
}

#[test]
fn quorum_two_of_three_succeeds() {
    let w = MultisigWalletSpec::new(2, three_testnet_keys(), ScriptType::P2wsh, Network::Testnet);
    assert!(w.is_ok());
}

#[test]
fn quorum_zero_fails() {
    match MultisigWalletSpec::new(0, three_testnet_keys(), ScriptType::P2wsh, Network::Testnet) {
        Err(Error::InvalidQuorum { threshold, keys }) => {
            assert_eq!(threshold, 0);
            assert_eq!(keys, 3);
        },
        other => panic!("expected InvalidQuorum, got {:?}", other.map(|_| ())),
    }
}

#[test]
fn quorum_above_key_count_fails() {
    assert!(matches!(
        MultisigWalletSpec::new(4, three_testnet_keys(), ScriptType::P2wsh, Network::Testnet),
        Err(Error::InvalidQuorum { threshold: 4, keys: 3 })
    ));
}

#[test]
fn mainnet_key_in_testnet_wallet_fails() {
    let keys = vec![
        ExtendedKey::from_str(XPUB_A).unwrap(),
        ExtendedKey::from_str(TPUB_B).unwrap(),
    ];
    assert!(matches!(
        MultisigWalletSpec::new(1, keys, ScriptType::P2wsh, Network::Testnet),
        Err(Error::KeyNetworkMismatch { index: 0 })
    ));
}

#[test]
fn branch_separation() {
    let w = MultisigWalletSpec::new(2, three_testnet_keys(), ScriptType::P2wsh, Network::Testnet)
        .unwrap();
    let e = w.external_descriptor();
    let i = w.internal_descriptor();
    assert_ne!(e.to_text(), i.to_text());
    assert!(e.to_text().contains("/0/*"));
    assert!(i.to_text().contains("/1/*"));
    let ea = e.get_address(3, Network::Testnet).unwrap();
    let ia = i.get_address(3, Network::Testnet).unwrap();
    assert_ne!(ea, ia);
}

#[test]
fn key_order_is_preserved() {
    let w = MultisigWalletSpec::new(2, three_testnet_keys(), ScriptType::P2wsh, Network::Testnet)
        .unwrap();
    let t = w.external_descriptor().to_text();
    let pa = t.find(TPUB_A).unwrap();
    let pb = t.find(TPUB_B).unwrap();
    let pc = t.find(TPUB_C).unwrap();
    assert!(pa < pb && pb < pc);
}

#[test]
fn end_to_end_testnet_wallet() {
    let w = MultisigWalletSpec::new(2, three_testnet_keys(), ScriptType::P2wsh, Network::Testnet)
        .unwrap();
    let a0 = w.external_address(0).unwrap();
    let a1 = w.external_address(1).unwrap();
    let c0 = w.internal_address(0).unwrap();
    assert!(a0.starts_with("tb1"), "not a bech32 testnet address: {}", a0);
    assert!(a1.starts_with("tb1"));
    assert!(c0.starts_with("tb1"));
    assert_ne!(a0, a1);
    assert_ne!(a0, c0);
}

#[test]
fn caravan_config_round_trip() {
    let w = MultisigWalletSpec::new(2, three_testnet_keys(), ScriptType::P2wsh, Network::Testnet)
        .unwrap();
    let c = CaravanConfig::new(
        Network::Testnet,
        w.external_descriptor(),
        w.internal_descriptor(),
        "My Multisig Wallet".to_string(),
        "private".to_string(),
    )
    .unwrap();
    let compact = c.to_string();
    let pretty = c.to_string_pretty();
    assert_ne!(compact, pretty);
    let c2 = CaravanConfig::from_str(&compact).unwrap();
    assert_eq!(c2.to_string(), compact);
    assert_eq!(c2.to_string_pretty(), pretty);
    let c3 = CaravanConfig::from_str(&pretty).unwrap();
    assert_eq!(c3.to_string(), compact);
    assert_eq!(c3.name(), "My Multisig Wallet");
    assert_eq!(c3.address_type(), "P2WSH");
    assert_eq!(c3.network(), Network::Testnet);
}

#[test]
fn caravan_config_addresses_match_wallet() {
    let w = MultisigWalletSpec::new(2, three_testnet_keys(), ScriptType::P2wsh, Network::Testnet)
        .unwrap();
    let c = CaravanConfig::new(
        Network::Testnet,
        w.external_descriptor(),
        w.internal_descriptor(),
        "w".to_string(),
        "public".to_string(),
    )
    .unwrap();
    assert_eq!(c.external_address(0).unwrap(), w.external_address(0).unwrap());
    assert_eq!(c.internal_address(5).unwrap(), w.internal_address(5).unwrap());
    assert_eq!(
        c.external_descriptor().to_string(),
        w.external_descriptor().to_string()
    );
}

#[test]
fn caravan_config_rejects_wrong_network() {
    let w = MultisigWalletSpec::new(2, three_testnet_keys(), ScriptType::P2wsh, Network::Testnet)
        .unwrap();
    assert!(matches!(
        CaravanConfig::new(
            Network::Mainnet,
            w.external_descriptor(),
            w.internal_descriptor(),
            "w".to_string(),
            "public".to_string(),
        ),
        Err(Error::KeyNetworkMismatch { .. })
    ));
}

#[test]
fn caravan_config_name_with_quotes_round_trips() {
    let w = MultisigWalletSpec::new(2, three_testnet_keys(), ScriptType::P2wsh, Network::Testnet)
        .unwrap();
    let name = "a \"quoted\" \\ name";
    let ct = "tag \"x\"";
    let c = CaravanConfig::new(
        Network::Testnet,
        w.external_descriptor(),
        w.internal_descriptor(),
        name.to_string(),
        ct.to_string(),
    )
    .unwrap();
    assert_eq!(c.name(), name);
    let compact = c.to_string();
    assert!(compact.contains("\\\""));
    let c2 = CaravanConfig::from_str(&compact).unwrap();
    assert_eq!(c2.name(), name);
    assert_eq!(c2.to_string(), compact);
    let pretty = c.to_string_pretty();
    let c3 = CaravanConfig::from_str(&pretty).unwrap();
    assert_eq!(c3.name(), name);
    assert_eq!(c3.to_string(), compact);
}

#[test]
fn caravan_config_rejects_malformed_escape() {
    let w = MultisigWalletSpec::new(2, three_testnet_keys(), ScriptType::P2wsh, Network::Testnet)
        .unwrap();
    let c = CaravanConfig::new(
        Network::Testnet,
        w.external_descriptor(),
        w.internal_descriptor(),
        "w".to_string(),
        "public".to_string(),
    )
    .unwrap();
    // A backslash before anything but a quote or a backslash is malformed.
    let bad = c.to_string().replace("{\"name\":\"w\"", "{\"name\":\"\\w\"");
    assert!(matches!(
        CaravanConfig::from_str(&bad),
        Err(Error::ConfigSyntax { .. })
    ));
}

#[test]
fn multisig_wallet_config_round_trip() {
    let w = MultisigWalletSpec::new(2, three_testnet_keys(), ScriptType::P2shP2wsh, Network::Testnet)
        .unwrap();
    let ext = w.external_descriptor().to_text();
    let int = w.internal_descriptor().to_text();
    let text = format!(
        "{{\"network\":\"testnet\",\"external_descriptor\":\"{}\",\"internal_descriptor\":\"{}\"}}",
        ext, int
    );
    let c = MultisigWalletConfig::from_str(&text).unwrap();
    assert_eq!(c.to_string(), text);
    let pretty = c.to_string_pretty();
    let c2 = MultisigWalletConfig::from_str(&pretty).unwrap();
    assert_eq!(c2.to_string(), text);
    assert_eq!(c2.network(), Network::Testnet);
    assert_eq!(c2.external_descriptor().to_text(), ext);
    assert_eq!(c2.internal_descriptor().to_text(), int);
    let a = c.external_address(0).unwrap();
    assert!(a.starts_with('2'), "not a P2SH testnet address: {}", a);
}

#[test]
fn multisig_wallet_config_errors() {
    assert!(matches!(
        MultisigWalletConfig::from_str("{}"),
        Err(Error::ConfigSyntax { .. })
    ));
    // A fault before any descriptor field is structural, not a descriptor error.
    assert!(matches!(
        MultisigWalletConfig::from_str("{\"network\":\"moonnet\",\"external_descriptor\":\"x\"}"),
        Err(Error::ConfigSyntax { .. })
    ));
    let bad_desc =
        "{\"network\":\"testnet\",\"external_descriptor\":\"nope\",\"internal_descriptor\":\"nope\"}";
    assert!(matches!(
        MultisigWalletConfig::from_str(bad_desc),
        Err(Error::DescriptorSyntax { .. })
    ));
    let w = MultisigWalletSpec::new(2, three_testnet_keys(), ScriptType::P2wsh, Network::Testnet)
        .unwrap();
    let mismatched = format!(
        "{{\"network\":\"bitcoin\",\"external_descriptor\":\"{}\",\"internal_descriptor\":\"{}\"}}",
        w.external_descriptor().to_text(),
        w.internal_descriptor().to_text()
    );
    assert!(matches!(
        MultisigWalletConfig::from_str(&mismatched),
        Err(Error::KeyNetworkMismatch { .. })
    ));
}
