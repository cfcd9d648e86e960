//! Tests holding the scanning primitives against the standard library's own
//! splitting, trimming, and searching.

use tulip_core::decimal::u64_to_decimal;
use tulip_core::scan::{find_sub, lines_of, rfind_sub, splitn_str, trim_str};

#[test]
fn lines_match_std() {
    let samples = [
        "",
        "a",
        "a\n",
        "a\nb",
        "a\r\nb\r\n",
        "\n\n",
        "a\r",
        "a\rb",
        "\r\n",
        "x\r\r\n",
        "one\ntwo\r\nthree",
    ];
    for s in samples {
        let got: Vec<String> = lines_of(s);
        let want: Vec<&str> = s.lines().collect();
        assert_eq!(got.len(), want.len(), "line count for {:?}", s);
        for (g, w) in got.iter().zip(want.iter()) {
            assert_eq!(g.as_str(), *w, "lines of {:?}", s);
        }
    }
}

#[test]
fn splitn_matches_std() {
    let samples = ["", "a<>b", "a<>b<>c<>d<>e<>f", "<>", "a<>", "<><>", "abc", "a<b>c"];
    for s in samples {
        let got = splitn_str(s, "<>", 5);
        let want: Vec<&str> = s.splitn(5, "<>").collect();
        assert_eq!(got.len(), want.len(), "piece count for {:?}", s);
        for (g, w) in got.iter().zip(want.iter()) {
            assert_eq!(g.as_str(), *w, "splitn of {:?}", s);
        }
    }
}

#[test]
fn trim_matches_std() {
    let samples = ["", "  x  ", "\t a b \r\n", "nospace", "   ", "\u{3000}wide\u{3000}"];
    for s in samples {
        assert_eq!(trim_str(s).as_str(), s.trim(), "trim of {:?}", s);
    }
}

#[test]
fn find_and_rfind_match_std() {
    let samples = ["", "ID:", "xx ID:aa ID:bb", "no marker", " ID: ID: ID:"];
    for s in samples {
        assert_eq!(find_sub(s, " ID:"), s.find(" ID:"), "find in {:?}", s);
        assert_eq!(rfind_sub(s, " ID:"), s.rfind(" ID:"), "rfind in {:?}", s);
    }
}

#[test]
fn decimal_matches_std() {
    for n in [0u64, 1, 9, 10, 99, 100, 4294967295, u64::MAX] {
        assert_eq!(u64_to_decimal(n).as_str(), n.to_string().as_str());
    }
}
