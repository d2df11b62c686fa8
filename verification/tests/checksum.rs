use elements_descriptor::checksum::{desc_checksum, verify_checksum};
use elements_descriptor::error::ChecksumError;

#[test]
fn checksum_of_known_descriptors() {
    assert_eq!(desc_checksum("raw(deadbeef)").unwrap(), "89f8spxm");
    assert_eq!(
        desc_checksum("wpkh(02f9308a019258c31049344f85f89d5229b531c845836f99b08601f113bce036f9)")
            .unwrap(),
        "8zl0zxma"
    );
    assert_eq!(
        desc_checksum("addr(mkmZxiEcEd8ZqjQWVZuC6so5dFMKEFpN2j)").unwrap(),
        "02wpgw69"
    );
    assert_eq!(
        desc_checksum("wpkh(tprv8ZgxMBicQKsPdpkqS7Eair4YxjcuuvDPNYmKX3sCniCf16tHEVrjjiSXEkFRnUH77yXc6ZcwHHcLNfjdi5qUvw3VDfgYiH5mNsj5izuiu2N/1/2/*)").unwrap(),
        "tqz0nc62"
    );
    assert_eq!(
        desc_checksum("pkh(tpubD6NzVbkrYhZ4XHndKkuB8FifXm8r5FQHwrN6oZuWCz13qb93rtgKvD4PQsqC4HP4yhV3tA2fqr2RbY5mNXfM7RxXUoeABoDtsFUq2zJq6YK/44'/1'/0'/0/*)").unwrap(),
        "lasegmfs"
    );
}

#[test]
fn checksum_rejects_foreign_character() {
    assert_eq!(desc_checksum("pk(\u{2764})"), Err(ChecksumError::InvalidCharacter));
}

#[test]
fn verify_accepts_and_strips() {
    assert_eq!(verify_checksum("raw(deadbeef)#89f8spxm"), Ok("raw(deadbeef)"));
}

#[test]
fn verify_rejects_each_fault() {
    assert_eq!(verify_checksum("raw(deadbeef)"), Err(ChecksumError::Missing));
    assert_eq!(verify_checksum("raw(deadbeef)#89f8spx"), Err(ChecksumError::InvalidLength));
    assert_eq!(verify_checksum("raw(deadbeef)#89f8spxmm"), Err(ChecksumError::InvalidLength));
    assert_eq!(verify_checksum("raw(dead\u{e9}beef)#89f8spxm"), Err(ChecksumError::InvalidCharacter));
    assert_eq!(verify_checksum("raw(deadbeef)#89f8spxn"), Err(ChecksumError::Mismatch));
    assert_eq!(verify_checksum("raw(deadbeee)#89f8spxm"), Err(ChecksumError::Mismatch));
    assert_eq!(verify_checksum("raw#deadbeef#89f8spxm"), Err(ChecksumError::InvalidLength));
}

#[test]
fn poly_mod_steps() {
    let poly_mod = elements_descriptor::checksum::poly_mod;
    assert_eq!(poly_mod(1, 0), 32);
    assert_eq!(poly_mod(1, 31), 63);
    assert_eq!(poly_mod(1 << 35, 0), 0xf5dee51989);
    assert_eq!(poly_mod(2 << 35, 0), 0xa9fdca3312);
    assert_eq!(poly_mod(4 << 35, 0), 0x1bab10e32d);
    assert_eq!(poly_mod(8 << 35, 0), 0x3706b1677a);
    assert_eq!(poly_mod(16 << 35, 0), 0x644d626ffd);
    assert_eq!(poly_mod(3 << 35, 5), 0xf5dee51989 ^ 0xa9fdca3312 ^ 5);
    assert_eq!(poly_mod(0x7_ffff_ffff, 0), 0x7_ffff_ffff << 5);
}

#[test]
fn character_positions() {
    let pos = elements_descriptor::checksum::char_position;
    assert_eq!(pos('0'), Some(0));
    assert_eq!(pos('('), Some(10));
    assert_eq!(pos('a'), Some(18));
    assert_eq!(pos('I'), Some(32));
    assert_eq!(pos('i'), Some(64));
    assert_eq!(pos('#'), Some(91));
    assert_eq!(pos(' '), Some(94));
    assert_eq!(pos('\n'), None);
    assert_eq!(pos('\u{e9}'), None);
}

#[test]
fn checksum_on_characters() {
    let body: Vec<char> = "raw(deadbeef)".chars().collect();
    let sum: String = elements_descriptor::checksum::checksum_chars(&body)
        .unwrap()
        .into_iter()
        .collect();
    assert_eq!(sum, "89f8spxm");
    assert_eq!(
        elements_descriptor::checksum::append_checksum(body.clone()).unwrap(),
        "raw(deadbeef)#89f8spxm"
    );
    let text: Vec<char> = "raw(deadbeef)#89f8spxm".chars().collect();
    assert_eq!(elements_descriptor::checksum::verify_checksum_chars(&text), Ok(13));
    assert_eq!(
        elements_descriptor::checksum::append_checksum(vec!['\u{e9}']),
        Err(ChecksumError::InvalidCharacter)
    );
}

#[test]
fn checksum_of_empty_and_short_bodies() {
    // the pending groups of one and of two characters are fed at the end
    assert_eq!(desc_checksum("").unwrap().len(), 8);
    let a = desc_checksum("a").unwrap();
    let ab = desc_checksum("ab").unwrap();
    let abc = desc_checksum("abc").unwrap();
    assert!(a != ab && ab != abc && a != abc);
    assert_eq!(verify_checksum(&format!("#{}", desc_checksum("").unwrap())), Ok(""));
    assert_eq!(verify_checksum(&format!("ab#{}", ab)), Ok("ab"));
}

#[test]
fn every_single_substitution_is_rejected() {
    let alphabet = "0123456789()[],'/*abcdefgh@:$%{}IJKLMNOPQRSTUVWXYZ&+-.;<=>?!^_|~ijklmnopqrstuvwxyzABCDEFGH`#\"\\ ";
    let body = "raw(deadbeef)";
    let sum = desc_checksum(body).unwrap();
    for i in 0..body.len() {
        for ch in alphabet.chars() {
            if body.as_bytes()[i] as char == ch {
                continue;
            }
            let mut altered: Vec<char> = body.chars().collect();
            altered[i] = ch;
            let altered: String = altered.into_iter().collect();
            assert!(verify_checksum(&format!("{}#{}", altered, sum)).is_err());
            if ch != '#' {
                assert_ne!(desc_checksum(&altered).unwrap(), sum);
            }
        }
    }
}
