use std::cmp::Ordering;

use dsh_desktop::semver::{cmp_pre, parse_semver, version_greater, Semver};

fn strings(items: &[&str]) -> Vec<String> {
    items.iter().map(|s| s.to_string()).collect()
}

#[test]
fn semver_parse_and_compare() {
    assert!(version_greater("0.1.0-rc.7", "0.1.0-rc.6"));
    assert!(version_greater("0.1.0-rc.10", "0.1.0-rc.9"));
    assert!(version_greater("0.1.0", "0.1.0-rc.99"));
    assert!(version_greater("0.2.0-rc.1", "0.1.0-rc.99"));
    assert!(!version_greater("0.1.0-rc.6", "0.1.0-rc.6"));
    assert!(!version_greater("0.1.0-rc.6", "0.1.0"));
    assert!(!version_greater("0.1.0", "0.1.1"));
    assert!(!version_greater("0.1.0-rc.6", "garbage"));
}

#[test]
fn parse_full_version() {
    let v = parse_semver("1.2.3").unwrap();
    assert_eq!(
        v,
        Semver { major: 1, minor: 2, patch: 3, pre: Vec::new() }
    );
}

#[test]
fn parse_fills_missing_parts_with_zero() {
    assert_eq!(parse_semver("7").unwrap(), Semver { major: 7, minor: 0, patch: 0, pre: Vec::new() });
    assert_eq!(parse_semver("7.4").unwrap(), Semver { major: 7, minor: 4, patch: 0, pre: Vec::new() });
}

#[test]
fn parse_ignores_surrounding_white_space() {
    assert_eq!(
        parse_semver("  0.1.0-rc.6\n").unwrap(),
        Semver { major: 0, minor: 1, patch: 0, pre: strings(&["rc", "6"]) }
    );
}

#[test]
fn parse_pre_release_keeps_later_dashes() {
    assert_eq!(
        parse_semver("1.0.0-beta-2.x").unwrap(),
        Semver { major: 1, minor: 0, patch: 0, pre: strings(&["beta-2", "x"]) }
    );
    assert_eq!(
        parse_semver("1.0.0-").unwrap(),
        Semver { major: 1, minor: 0, patch: 0, pre: strings(&[""]) }
    );
}

#[test]
fn parse_ignores_parts_after_patch() {
    assert_eq!(parse_semver("1.2.3.4").unwrap(), Semver { major: 1, minor: 2, patch: 3, pre: Vec::new() });
}

#[test]
fn parse_accepts_plus_sign_like_std() {
    assert_eq!(parse_semver("+1.+2.3").unwrap(), Semver { major: 1, minor: 2, patch: 3, pre: Vec::new() });
}

#[test]
fn parse_rejects_bad_numbers() {
    assert!(parse_semver("").is_none());
    assert!(parse_semver("garbage").is_none());
    assert!(parse_semver("1..2").is_none());
    assert!(parse_semver("1.x.0").is_none());
    assert!(parse_semver("-1.0.0").is_none());
    assert!(parse_semver("1.2.3 beta").is_none());
    assert!(parse_semver("18446744073709551616.0.0").is_none());
    assert_eq!(parse_semver("18446744073709551615").unwrap().major, u64::MAX);
}

#[test]
fn cmp_orders_numbers_first() {
    let a = parse_semver("1.2.3").unwrap();
    let b = parse_semver("1.10.0").unwrap();
    assert_eq!(a.cmp(&b), Ordering::Less);
    assert_eq!(b.cmp(&a), Ordering::Greater);
    assert_eq!(a.cmp(&a), Ordering::Equal);
    let c = parse_semver("2.0.0-alpha").unwrap();
    assert_eq!(c.cmp(&b), Ordering::Greater);
}

#[test]
fn cmp_pre_release_rules() {
    // A release ranks above any pre-release.
    assert_eq!(cmp_pre(&strings(&[]), &strings(&["rc", "1"])), Ordering::Greater);
    assert_eq!(cmp_pre(&strings(&["rc", "1"]), &strings(&[])), Ordering::Less);
    assert_eq!(cmp_pre(&strings(&[]), &strings(&[])), Ordering::Equal);
    // Numeric identifiers compare by value.
    assert_eq!(cmp_pre(&strings(&["rc", "10"]), &strings(&["rc", "9"])), Ordering::Greater);
    assert_eq!(cmp_pre(&strings(&["01"]), &strings(&["1"])), Ordering::Equal);
    // Numeric identifiers rank above non-numeric ones.
    assert_eq!(cmp_pre(&strings(&["1"]), &strings(&["alpha"])), Ordering::Greater);
    assert_eq!(cmp_pre(&strings(&["alpha"]), &strings(&["1"])), Ordering::Less);
    // Non-numeric identifiers compare as text.
    assert_eq!(cmp_pre(&strings(&["alpha"]), &strings(&["beta"])), Ordering::Less);
    assert_eq!(cmp_pre(&strings(&["rc"]), &strings(&["RC"])), Ordering::Greater);
    // A prefix ranks below the longer list.
    assert_eq!(cmp_pre(&strings(&["rc"]), &strings(&["rc", "1"])), Ordering::Less);
}

#[test]
fn cmp_pre_text_order_matches_string_order() {
    let words = ["", "a", "b", "ab", "aé", "é", "z", "Z", "日本", "日", "rc-1", "rc.1", "x1"];
    for x in words.iter() {
        for y in words.iter() {
            if x.parse::<u64>().is_err() && y.parse::<u64>().is_err() {
                assert_eq!(
                    cmp_pre(&strings(&[x]), &strings(&[y])),
                    x.to_string().cmp(&y.to_string()),
                    "{:?} vs {:?}",
                    x,
                    y
                );
            }
        }
    }
}

#[test]
fn newer_is_irreflexive_asymmetric_and_transitive() {
    let versions = [
        "0.0.1", "0.1.0-alpha", "0.1.0-alpha.1", "0.1.0-rc.6", "0.1.0-rc.7", "0.1.0-rc.10",
        "0.1.0", "0.1.1", "1.0", "1.0.0-beta", "2",
    ];
    for a in versions.iter() {
        assert!(!version_greater(a, a));
        for b in versions.iter() {
            if version_greater(a, b) {
                assert!(!version_greater(b, a));
            }
            for c in versions.iter() {
                if version_greater(a, b) && version_greater(b, c) {
                    assert!(version_greater(a, c));
                }
            }
        }
    }
}

#[test]
fn formatted_versions_parse_back() {
    let numbers = [0u64, 1, 9, 10, 42, 1000, u64::MAX];
    let pres: [&[&str]; 4] = [&[], &["rc", "6"], &["alpha-1"], &["", "x", "07"]];
    for &a in numbers.iter() {
        for &b in numbers.iter() {
            for pre in pres.iter() {
                let text = if pre.is_empty() {
                    format!("{}.{}.{}", a, b, 3)
                } else {
                    format!("{}.{}.{}-{}", a, b, 3, pre.join("."))
                };
                assert_eq!(
                    parse_semver(&text),
                    Some(Semver { major: a, minor: b, patch: 3, pre: strings(pre) }),
                    "{}",
                    text
                );
            }
        }
    }
}
