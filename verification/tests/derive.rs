use anspass::asymmetric_numeral_system::ANSDecode;
use anspass::symbol_generator::emit_symbols;
use anspass::Password;

fn derive_with_bob2(digest: Vec<u8>) -> String {
    let mut rule = anspass::site_rules::bob2();
    let mut ans = ANSDecode::new(digest);
    let v = emit_symbols(&mut rule, &mut ans, 30);
    v.into_iter().collect()
}

fn derive_with_ericsson(digest: Vec<u8>, horizon: u32) -> String {
    let mut rule = anspass::site_rules::ericsson(horizon);
    let mut ans = ANSDecode::new(digest);
    let v = emit_symbols(&mut rule, &mut ans, 30);
    v.into_iter().collect()
}

#[test]
fn golden_all_zero_digest_exhausts_immediately() {
    // the all-zero 20-byte digest starts (and stays) at state zero, so
    // the very first decode is exhausted and the pinned output is the
    // empty string: a deterministic exhaustion outcome, not a string of
    // degraded symbols
    let out = derive_with_bob2(vec![0; 20]);
    assert_eq!("", out);
}

#[test]
fn golden_fixed_digest_default_rule() {
    let digest: Vec<u8> = (1..=20).collect();
    let out = derive_with_bob2(digest);
    assert_eq!("y-|hJCOQqtXp(wsRnnQ", out);
}

#[test]
fn golden_fixed_digest_requirement_rule() {
    let digest: Vec<u8> = (1..=20).collect();
    let out = derive_with_ericsson(digest, 12);
    assert_eq!("7qn+AaU[1RjCpbilSCMyS", out);
}

#[test]
fn derivation_is_deterministic() {
    let p = Password::from_site_and_password("example.com", "hunter2");
    let mut rule_one = anspass::site_rules::ericsson(12);
    let mut rule_two = anspass::site_rules::ericsson(12);
    let first = p.via_ans(&mut rule_one);
    let second = p.via_ans(&mut rule_two);
    assert_eq!(first, second);
    let mut bob_one = anspass::site_rules::bob2();
    let mut bob_two = anspass::site_rules::bob2();
    let q = Password::from_site_and_password("example.com", "hunter2");
    assert_eq!(q.via_ans(&mut bob_one), q.via_ans(&mut bob_two));
}

#[test]
fn requirement_guarantees_digit_in_first_twelve() {
    // a large sample of digests: every derivation long enough to cover
    // the 12-slot horizon holds at least one digit in its first 12
    // characters
    for i in 0..200 {
        let site = format!("{}", i);
        let p = Password::from_site_and_password(&site, "site");
        let mut rule = anspass::site_rules::ericsson(12);
        let out = p.via_ans(&mut rule);
        assert!(out.chars().count() >= 12, "output too short for {}", i);
        let first12: Vec<char> = out.chars().take(12).collect();
        assert!(
            first12.iter().any(|c| c.is_ascii_digit()),
            "no digit in the first 12 characters for {}: {}",
            i,
            out
        );
    }
}

#[test]
fn short_byte_source_truncates_deterministically() {
    // 8 bytes hold far less entropy than 30 symbols need: the output
    // is cut off at the first exhausted decode, identically every time
    let digest: Vec<u8> = (1..=8).collect();
    let out = derive_with_bob2(digest.clone());
    assert_eq!("y-woAniAP", out);
    assert!(out.chars().count() < 30);
    assert_eq!(out, derive_with_bob2(digest));
}

#[test]
fn digest_matches_sha1_of_site_secret_newline() {
    // SHA-1("abc\n") pinned: the digest really is the hash, and the
    // base64 display really is its encoding
    let p = Password::from_site_and_password("ab", "c");
    let expected = "A8/XQ2YfB5df";
    assert_eq!(expected, p.base64_short());
}

#[test]
fn base64_short_of_known_digest() {
    let p = Password::from_site_and_password("example.com", "hunter2");
    assert_eq!("3uPOlGhf6YXE", p.base64_short());
}

#[test]
fn via_ans_from_hashed_digest() {
    let p = Password::from_site_and_password("example.com", "hunter2");
    let mut rule = anspass::site_rules::bob2();
    assert_eq!("n#oX5\"yrAwYunqQmdQAKi5sBAkkK", p.via_ans(&mut rule));
    let p2 = Password::from_site_and_password("example.com", "hunter2");
    let mut req = anspass::site_rules::ericsson(12);
    assert_eq!("Qz~KcBLO8loOfuCWXiydj6WA4sQd", p2.via_ans(&mut req));
}

#[test]
fn weighted_password_symbols_uses_class_tables() {
    let w = anspass::site_rules::bob();
    // state 40: class remainder 4 is Upper, reduced state 3*5+4 = 19,
    // and the inner uniform decode over 26 letters is exhausted
    let mut ans = ANSDecode::new(vec![40, 0, 0, 0, 0, 0, 0, 0]);
    let first = anspass::weighted_password_symbols(&mut ans, &w);
    assert_eq!(None, first);
    // with enough state the same two decodes produce a full character
    let mut ans = ANSDecode::new(vec![40, 1, 0, 0, 0, 0, 0, 0]);
    assert_eq!(Some('t'), anspass::weighted_password_symbols(&mut ans, &w));
    let mut ans = ANSDecode::new(vec![0, 0, 0, 0, 0, 0, 0, 1]);
    assert_eq!(Some('F'), anspass::weighted_password_symbols(&mut ans, &w));
}

#[test]
pub fn bootstrap_symbols() {
    let mut upper_letters = String::new();
    let mut lower_letters = String::new();
    let mut digits = String::new();
    let mut misc = String::new();
    for i in 33..127 {
        let ch = char::from_u32(i).unwrap();
        let class = if ch.is_ascii_uppercase() {
            &mut upper_letters
        } else if ch.is_ascii_lowercase() {
            &mut lower_letters
        } else if ch.is_ascii_digit() {
            &mut digits
        } else {
            &mut misc
        };
        class.push(ch);
    }

    println!(
        "const UPPERS:[char;{}] = [ {} ];",
        upper_letters.len(),
        as_vector_payload(&upper_letters)
    );
    println!(
        "const LOWERS:[char;{}] = [ {} ];",
        lower_letters.len(),
        as_vector_payload(&lower_letters)
    );
    println!(
        "const DIGITS:[char;{}] = [ {} ];",
        digits.len(),
        as_vector_payload(&digits)
    );
    println!(
        "const MISC:[char;{}] = [ {} ];",
        misc.len(),
        as_vector_payload(&misc)
    );
}

fn as_vector_payload(str: &str) -> String {
    String::from_iter(str.chars().map(|ch| match ch {
        '\'' | '\\' => format!("'\\{}', ", ch),
        _ => format!("'{}', ", ch),
    }))
}

#[test]
fn class_tables_match_bootstrap_partition() {
    // the four fixed tables are exactly the printable ASCII partition
    // that bootstrap_symbols derives
    let uppers: String = anspass::uppers().into_iter().collect();
    let lowers: String = anspass::lowers().into_iter().collect();
    let digits: String = anspass::digits().into_iter().collect();
    let misc: String = anspass::misc_symbols().into_iter().collect();
    assert_eq!("ABCDEFGHIJKLMNOPQRSTUVWXYZ", uppers);
    assert_eq!("abcdefghijklmnopqrstuvwxyz", lowers);
    assert_eq!("0123456789", digits);
    assert_eq!("!\"#$%&'()*+,-./:;<=>?@[\\]^_`{|}~", misc);
}
