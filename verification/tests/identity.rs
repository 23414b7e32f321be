use upcache::cache::identity::ParseError;
use upcache::cache::{Evr, EvrIndex, NevraId};
use upcache::prelude::Nevra;
use upcache::text::{i64_to_string, parse_i64};

fn nevra(name: &str, epoch: Option<&str>, version: &str, release: &str, arch: &str) -> Nevra {
    Nevra {
        name: name.to_string(),
        epoch: epoch.map(|e| e.to_string()),
        version: version.to_string(),
        release: release.to_string(),
        arch: arch.to_string(),
    }
}

#[test]
fn nevra_without_epoch_is_read() {
    assert_eq!(Nevra::from_str("foo-1.0-1.noarch"), Ok(nevra("foo", None, "1.0", "1", "noarch")));
}

#[test]
fn nevra_with_epoch_is_read() {
    assert_eq!(
        Nevra::from_str("bash-2:5.1.8-6.el9.x86_64"),
        Ok(nevra("bash", Some("2"), "5.1.8", "6.el9", "x86_64"))
    );
}

#[test]
fn nevra_name_may_hold_hyphens_and_dots() {
    assert_eq!(
        Nevra::from_str("python3.11-pip-wheel-22.3.1-4.el9.noarch"),
        Ok(nevra("python3.11-pip-wheel", None, "22.3.1", "4.el9", "noarch"))
    );
    assert_eq!(Nevra::from_str("a-b-1:c-d.e"), Ok(nevra("a-b", Some("1"), "c", "d", "e")));
}

#[test]
fn nevra_is_refused_where_a_part_is_missing() {
    for text in [
        "",
        "foo",
        "foo-1.0",
        "foo-1.0-1",
        "foo-1.0.noarch",
        "-1.0-1.noarch",
        "foo--1.noarch",
        "foo-1.0-.noarch",
        "foo-1.0-1.",
        "foo-:1.0-1.noarch",
        "foo-2:-1.noarch",
        "1.0-1.noarch",
        "foo.bar-1-1",
    ] {
        assert_eq!(Nevra::from_str(text), Err(()), "{:?}", text);
    }
}

#[test]
fn nevra_is_refused_where_a_character_is_not_allowed() {
    for text in [
        "fo o-1.0-1.noarch",
        "fo:o-1.0-1.noarch",
        "fo(o-1.0-1.noarch",
        "fo)o-1.0-1.noarch",
        "fo/o-1.0-1.noarch",
        "fo=o-1.0-1.noarch",
        "fo<o-1.0-1.noarch",
        "fo>o-1.0-1.noarch",
        "foo-1 .0-1.noarch",
        "foo-1.0-1(.noarch",
        "foo-1.0-1.no arch",
        "foo-a:1.0-1.noarch",
        "foo-1:2:1.0-1.noarch",
        "foo-1.0-1:2.noarch",
        "foo-1.0-1.no=arch",
        "foo-1.0-1.noarch ",
    ] {
        assert_eq!(Nevra::from_str(text), Err(()), "{:?}", text);
    }
}

#[test]
fn nevra_takes_other_characters_as_they_are() {
    assert_eq!(
        Nevra::from_str("libstdc++-11.3.1-4.3.el9~beta.x86_64"),
        Ok(nevra("libstdc++", None, "11.3.1", "4.3.el9~beta", "x86_64"))
    );
    assert_eq!(Nevra::from_str("é-ü-ß.ø"), Ok(nevra("é", None, "ü", "ß", "ø")));
    assert_eq!(Nevra::from_str("a-1)-2.b"), Ok(nevra("a", None, "1)", "2", "b")));
    assert_eq!(Nevra::from_str("foo-1.0-1.noarch\n"), Ok(nevra("foo", None, "1.0", "1", "noarch\n")));
}

#[test]
fn nevra_is_written_as_it_is_read() {
    for text in ["foo-1.0-1.noarch", "bash-2:5.1.8-6.el9.x86_64", "a-b-c-0:1-2.3.x"] {
        assert_eq!(Nevra::from_str(text).unwrap().to_string(), text);
    }
    assert_eq!(nevra("foo", Some("7"), "1", "2", "x").to_string(), "foo-7:1-2.x");
    assert_eq!(nevra("foo", None, "1", "2", "x").to_string(), "foo-1-2.x");
}

#[test]
fn nevra_from_parts_leaves_out_epoch_zero() {
    let n = Nevra::from_name_evr_arch(
        "foo".to_string(),
        Evr(0, "1.0".to_string(), "1".to_string()),
        "noarch".to_string(),
    );
    assert_eq!(n, nevra("foo", None, "1.0", "1", "noarch"));
    let n = Nevra::from_name_evr_arch(
        "foo".to_string(),
        Evr(12, "1.0".to_string(), "1".to_string()),
        "noarch".to_string(),
    );
    assert_eq!(n, nevra("foo", Some("12"), "1.0", "1", "noarch"));
    assert_eq!(n.to_string(), "foo-12:1.0-1.noarch");
    let n = Nevra::from_name_evr_arch(
        "foo".to_string(),
        Evr(-3, "1.0".to_string(), "1".to_string()),
        "noarch".to_string(),
    );
    assert_eq!(n.epoch, Some("-3".to_string()));
}

#[test]
fn nevra_evr_reads_the_epoch() {
    assert_eq!(
        nevra("foo", None, "1.0", "1", "x").evr(),
        Evr(0, "1.0".to_string(), "1".to_string())
    );
    assert_eq!(
        nevra("foo", Some("15"), "1.0", "1", "x").evr(),
        Evr(15, "1.0".to_string(), "1".to_string())
    );
    assert_eq!(
        nevra("foo", Some("007"), "1.0", "1", "x").checked_evr(),
        Some(Evr(7, "1.0".to_string(), "1".to_string()))
    );
    assert_eq!(nevra("foo", Some("x"), "1.0", "1", "x").checked_evr(), None);
    assert_eq!(nevra("foo", Some(""), "1.0", "1", "x").checked_evr(), None);
    assert_eq!(nevra("foo", Some("9223372036854775808"), "1.0", "1", "x").checked_evr(), None);
}

#[test]
fn nevra_clone_is_equal() {
    let n = nevra("foo", Some("1"), "2", "3", "x");
    assert_eq!(n.clone(), n);
}

#[test]
fn decimal_text_is_read() {
    assert_eq!(parse_i64("0"), Some(0));
    assert_eq!(parse_i64("42"), Some(42));
    assert_eq!(parse_i64("+42"), Some(42));
    assert_eq!(parse_i64("-42"), Some(-42));
    assert_eq!(parse_i64("-0"), Some(0));
    assert_eq!(parse_i64("000123"), Some(123));
    assert_eq!(parse_i64("9223372036854775807"), Some(i64::MAX));
    assert_eq!(parse_i64("-9223372036854775808"), Some(i64::MIN));
    assert_eq!(parse_i64("00000000000000000000000000000000000000000000001"), Some(1));
}

#[test]
fn decimal_text_is_refused() {
    for text in [
        "", "-", "+", "--1", "+-1", "1-", " 1", "1 ", "1.0", "a", "0x10", "１",
        "9223372036854775808", "-9223372036854775809", "99999999999999999999999999999999999999999999",
    ] {
        assert_eq!(parse_i64(text), None, "{:?}", text);
    }
}

#[test]
fn decimal_text_agrees_with_std() {
    for text in ["17", "-17", "+0", "0012", "", "-", "12a", "18446744073709551616"] {
        assert_eq!(parse_i64(text), text.parse::<i64>().ok(), "{:?}", text);
    }
}

#[test]
fn decimal_text_is_written() {
    assert_eq!(i64_to_string(0), "0");
    assert_eq!(i64_to_string(7), "7");
    assert_eq!(i64_to_string(10), "10");
    assert_eq!(i64_to_string(-1), "-1");
    assert_eq!(i64_to_string(1234567890), "1234567890");
    assert_eq!(i64_to_string(i64::MAX), "9223372036854775807");
    assert_eq!(i64_to_string(i64::MIN), "-9223372036854775808");
    for n in [-1000, -999, -10, -9, 9, 99, 100, 101, 65536] {
        assert_eq!(i64_to_string(n), n.to_string());
        assert_eq!(parse_i64(&i64_to_string(n)), Some(n));
    }
}

#[test]
fn evr_is_read() {
    assert_eq!(Evr::from_str("0:1.0:1"), Ok(Evr(0, "1.0".to_string(), "1".to_string())));
    assert_eq!(Evr::from_str("12:5.1.8:6.el9"), Ok(Evr(12, "5.1.8".to_string(), "6.el9".to_string())));
    assert_eq!(Evr::from_str("-1::"), Ok(Evr(-1, "".to_string(), "".to_string())));
    // of more than three parts the last three count
    assert_eq!(Evr::from_str("x:y:3:a:b"), Ok(Evr(3, "a".to_string(), "b".to_string())));
}

#[test]
fn evr_is_refused() {
    assert_eq!(Evr::from_str(""), Err(ParseError::TooFewParts));
    assert_eq!(Evr::from_str("1.0"), Err(ParseError::TooFewParts));
    assert_eq!(Evr::from_str("1.0:1"), Err(ParseError::TooFewParts));
    assert_eq!(Evr::from_str("a:1.0:1"), Err(ParseError::NotANumber));
    assert_eq!(Evr::from_str(":1.0:1"), Err(ParseError::NotANumber));
    assert_eq!(Evr::from_str("9223372036854775808:1.0:1"), Err(ParseError::NotANumber));
}

#[test]
fn evr_is_written() {
    assert_eq!(Evr(0, "1.0".to_string(), "1".to_string()).to_string(), "0:1.0:1");
    assert_eq!(Evr(-4, "a".to_string(), "".to_string()).to_string(), "-4:a:");
    let text = "12:5.1.8:6.el9";
    assert_eq!(Evr::from_str(text).unwrap().to_string(), text);
}

#[test]
fn evr_same_and_clone() {
    let a = Evr(1, "2".to_string(), "3".to_string());
    assert!(a.same(&a.clone()));
    assert!(!a.same(&Evr(0, "2".to_string(), "3".to_string())));
    assert!(!a.same(&Evr(1, "2.".to_string(), "3".to_string())));
    assert!(!a.same(&Evr(1, "2".to_string(), "".to_string())));
    assert_eq!(a.clone(), a);
}

#[test]
fn evr_order_is_that_of_its_parts() {
    let e = |n: i64, v: &str, r: &str| Evr(n, v.to_string(), r.to_string());
    assert!(e(0, "9", "9") < e(1, "0", "0"));
    assert!(e(1, "1.0", "9") < e(1, "1.1", "0"));
    assert!(e(1, "1.0", "1") < e(1, "1.0", "2"));
    // text order, not version order
    assert!(e(0, "10", "1") < e(0, "9", "1"));
}

#[test]
fn nevra_id_is_read_and_written() {
    assert_eq!(NevraId::from_str("1:2:3"), Ok(NevraId(1, 2, 3)));
    assert_eq!(NevraId::from_str("-1:+2:03"), Ok(NevraId(-1, 2, 3)));
    assert_eq!(NevraId::from_str("9:1:2:3"), Ok(NevraId(1, 2, 3)));
    assert_eq!(NevraId::from_str("1:2"), Err(ParseError::TooFewParts));
    assert_eq!(NevraId::from_str("1:b:3"), Err(ParseError::NotANumber));
    assert_eq!(NevraId::from_str("1:2:"), Err(ParseError::NotANumber));
    assert_eq!(NevraId(10, -20, 30).to_string(), "10:-20:30");
    assert_eq!(NevraId::from_str(&NevraId(7, 8, 9).to_string()), Ok(NevraId(7, 8, 9)));
}

#[test]
fn evr_index_finds_what_was_filed() {
    let e = |n: i64, v: &str, r: &str| Evr(n, v.to_string(), r.to_string());
    let mut index = EvrIndex::new();
    assert_eq!(index.get(&e(0, "1.0", "1")), None);
    index.insert(e(0, "1.0", "1"), 10);
    index.insert(e(1, "1.0", "1"), 11);
    index.insert(e(0, "1.0:1", ""), 12);
    index.insert(e(0, "1.0", "2"), 13);
    assert_eq!(index.get(&e(0, "1.0", "1")), Some(10));
    assert_eq!(index.get(&e(1, "1.0", "1")), Some(11));
    assert_eq!(index.get(&e(0, "1.0:1", "")), Some(12));
    assert_eq!(index.get(&e(0, "1.0", "2")), Some(13));
    assert_eq!(index.get(&e(2, "1.0", "1")), None);
    assert_eq!(index.get(&e(0, "", "1.0:1")), None);
    index.insert(e(0, "1.0", "1"), 20);
    assert_eq!(index.get(&e(0, "1.0", "1")), Some(20));
    assert_eq!(index.get(&e(1, "1.0", "1")), Some(11));
}
