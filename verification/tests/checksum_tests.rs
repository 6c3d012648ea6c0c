use caravan_rs::calc_descriptor_checksum;
use caravan_rs::checksum::verify;
use caravan_rs::errors::Error;

const DESC_TPRV: &str = "wpkh(tprv8ZgxMBicQKsPdpkqS7Eair4YxjcuuvDPNYmKX3sCniCf16tHEVrjjiSXEkFRnUH77yXc6ZcwHHcLNfjdi5qUvw3VDfgYiH5mNsj5izuiu2N/1/2/*)";
const DESC_TPUB: &str = "pkh(tpubD6NzVbkrYhZ4XHndKkuB8FifXm8r5FQHwrN6oZuWCz13qb93rtgKvD4PQsqC4HP4yhV3tA2fqr2RbY5mNXfM7RxXUoeABoDtsFUq2zJq6YK/44'/1'/0'/0/*)";

#[test]
fn checksum_known_vectors() {
    assert_eq!(calc_descriptor_checksum(DESC_TPRV).unwrap(), "tqz0nc62");
    assert_eq!(calc_descriptor_checksum(DESC_TPUB).unwrap(), "lasegmfs");
}

#[test]
fn checksum_ignores_existing_suffix() {
    let with = format!("{}#tqz0nc62", DESC_TPRV);
    assert_eq!(calc_descriptor_checksum(&with).unwrap(), "tqz0nc62");
    // A wrong existing checksum is ignored, not validated.
    let wrong = format!("{}#qqqqqqqq", DESC_TPRV);
    assert_eq!(calc_descriptor_checksum(&wrong).unwrap(), "tqz0nc62");
}

#[test]
fn checksum_determinism_and_verify_round_trip() {
    for body in [DESC_TPRV, DESC_TPUB, "wsh(sortedmulti(2,xa,xb))"] {
        let c1 = calc_descriptor_checksum(body).unwrap();
        let c2 = calc_descriptor_checksum(body).unwrap();
        assert_eq!(c1, c2);
        assert_eq!(c1.len(), 8);
        let full = format!("{}#{}", body, c1);
        assert_eq!(verify(&full).unwrap(), true);
    }
}

#[test]
fn checksum_sensitivity_to_single_character_changes() {
    let base = calc_descriptor_checksum(DESC_TPRV).unwrap();
    // Mutate one character at a few positions and expect the checksum to move.
    for pos in [0usize, 5, 17, 40, 77, DESC_TPRV.len() - 2] {
        let mut chars: Vec<char> = DESC_TPRV.chars().collect();
        chars[pos] = if chars[pos] == 'w' { 'v' } else { 'w' };
        let mutated: String = chars.iter().collect();
        let c = calc_descriptor_checksum(&mutated).unwrap();
        assert_ne!(c, base, "mutation at {} kept the checksum", pos);
    }
}

#[test]
fn checksum_verify_detects_mismatch() {
    let full = format!("{}#tqz0nc26", DESC_TPRV); // transposed last two
    assert_eq!(verify(&full).unwrap(), false);
}

#[test]
fn checksum_malformed_input() {
    match calc_descriptor_checksum("not a descriptor!!") {
        Err(Error::MalformedInput { bad }) => assert_eq!(bad, ' '),
        other => panic!("expected MalformedInput, got {:?}", other.map(|_| ())),
    }
}

#[test]
fn checksum_verify_needs_separator_and_eight_chars() {
    assert!(matches!(verify(DESC_TPRV), Err(Error::MalformedInput { .. })));
    let short = format!("{}#abc", DESC_TPRV);
    assert!(matches!(verify(&short), Err(Error::MalformedInput { .. })));
}

#[test]
fn checksum_agrees_with_bdk() {
    for body in [
        DESC_TPRV,
        DESC_TPUB,
        "wsh(sortedmulti(2,tpubA,tpubB,tpubC/0/*))",
        "sh(wsh(multi(1,k)))",
    ] {
        let ours = calc_descriptor_checksum(body).unwrap();
        let theirs = bdk::descriptor::checksum::calc_checksum(body).unwrap();
        assert_eq!(ours, theirs, "checksum differs from bdk on {}", body);
    }
}
