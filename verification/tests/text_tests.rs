use solast::comments::{license_from_comments, license_of_comment, source_license, CommentKind};
use solast::text::{
    count_char_before, eq_ascii_lowercase, i64_parse_radix, parse_int_literal, parse_usize, parse_usize_std, starts_with,
    str_eq, trim_start_matches,
};

#[test]
fn str_eq_compares_characters() {
    assert!(str_eq("pragma", "pragma"));
    assert!(!str_eq("pragma", "pragm"));
    assert!(!str_eq("a", "b"));
    assert!(str_eq("", ""));
}

#[test]
fn starts_with_checks_prefix() {
    assert!(starts_with("uint256", "uint"));
    assert!(starts_with("uint", "uint"));
    assert!(!starts_with("int256", "uint"));
    assert!(!starts_with("ui", "uint"));
    assert!(starts_with("anything", ""));
}

#[test]
fn eq_ascii_lowercase_ignores_case_of_letters() {
    assert!(eq_ascii_lowercase("Transfer", "transfer"));
    assert!(eq_ascii_lowercase("TRANSFERFROM", "transferfrom"));
    assert!(!eq_ascii_lowercase("Transfers", "transfer"));
}

#[test]
fn parse_usize_reads_decimal_digits() {
    assert_eq!(parse_usize("0"), Some(0));
    assert_eq!(parse_usize("1234"), Some(1234));
    assert_eq!(parse_usize(""), None);
    assert_eq!(parse_usize("12a"), None);
    assert_eq!(parse_usize("+5"), None);
    assert_eq!(parse_usize("99999999999999999999999999"), None);
}

#[test]
fn parse_usize_std_allows_a_plus_sign() {
    assert_eq!(parse_usize_std("+8"), Some(8));
    assert_eq!(parse_usize_std("256"), Some(256));
    assert_eq!(parse_usize_std("+"), None);
    assert_eq!(parse_usize_std("-1"), None);
    assert_eq!(parse_usize_std(""), None);
}

#[test]
fn trim_start_matches_removes_every_leading_copy() {
    assert_eq!(trim_start_matches("////x", "//"), "x");
    assert_eq!(trim_start_matches("///x", "//"), "/x");
    assert_eq!(trim_start_matches("uintuint8", "uint"), "8");
    assert_eq!(trim_start_matches("abc", ""), "abc");
    assert_eq!(trim_start_matches("   ", " "), "");
}

#[test]
fn count_char_before_counts_up_to_the_end() {
    assert_eq!(count_char_before("a\nb\nc\n", '\n', 0), 0);
    assert_eq!(count_char_before("a\nb\nc\n", '\n', 2), 1);
    assert_eq!(count_char_before("a\nb\nc\n", '\n', 6), 3);
}

#[test]
fn i64_parse_radix_follows_from_str_radix() {
    assert_eq!(i64_parse_radix("42", 10), Some(42));
    assert_eq!(i64_parse_radix("-42", 10), Some(-42));
    assert_eq!(i64_parse_radix("+7", 10), Some(7));
    assert_eq!(i64_parse_radix("ff", 16), Some(255));
    assert_eq!(i64_parse_radix("FF", 16), Some(255));
    assert_eq!(i64_parse_radix("9223372036854775807", 10), Some(i64::MAX));
    assert_eq!(i64_parse_radix("-9223372036854775808", 10), Some(i64::MIN));
    assert_eq!(i64_parse_radix("9223372036854775808", 10), None);
    assert_eq!(i64_parse_radix("", 10), None);
    assert_eq!(i64_parse_radix("-", 10), None);
    assert_eq!(i64_parse_radix("1_000", 10), None);
    assert_eq!(i64_parse_radix("g", 16), None);
    for s in ["0", "123", "-5", "7fff", "abc", "+1", "--1", "1e3"] {
        for radix in [10u32, 16] {
            assert_eq!(i64_parse_radix(s, radix as u64), i64::from_str_radix(s, radix).ok(), "{} in radix {}", s, radix);
        }
    }
}

#[test]
fn parse_int_literal_reads_hex_and_decimal() {
    assert_eq!(parse_int_literal("0x10"), Some(16));
    assert_eq!(parse_int_literal("1000"), Some(1000));
    assert_eq!(parse_int_literal("1e18"), None);
    assert_eq!(parse_int_literal("0xzz"), None);
}

#[test]
fn license_of_comment_reads_spdx_line() {
    assert_eq!(license_of_comment("// SPDX-License-Identifier: MIT"), Some("MIT".to_string()));
    assert_eq!(license_of_comment("//SPDX-License-Identifier:GPL-3.0"), Some("GPL-3.0".to_string()));
    assert_eq!(license_of_comment("//   SPDX-License-Identifier:    UNLICENSED"), Some("UNLICENSED".to_string()));
    assert_eq!(license_of_comment("// some other comment"), None);
    assert_eq!(license_of_comment("// spdx-license-identifier: MIT"), None);
}

#[test]
fn license_from_comments_takes_the_last_line_comment_naming_one() {
    let cs = vec![
        (CommentKind::Line, "// SPDX-License-Identifier: MIT".to_string()),
        (CommentKind::Block, "/* SPDX-License-Identifier: Apache-2.0 */".to_string()),
        (CommentKind::Line, "// SPDX-License-Identifier: GPL-3.0".to_string()),
        (CommentKind::Line, "// nothing here".to_string()),
        (CommentKind::DocLine, "/// SPDX-License-Identifier: BSD".to_string()),
    ];
    assert_eq!(license_from_comments(&cs), Some("GPL-3.0".to_string()));
    assert_eq!(license_from_comments(&vec![]), None);
    let only_block = vec![(CommentKind::Block, "/* SPDX-License-Identifier: MIT */".to_string())];
    assert_eq!(license_from_comments(&only_block), None);
}

#[test]
fn source_license_parses_the_source() {
    let src = "// SPDX-License-Identifier: MIT\npragma solidity ^0.8.0;\ncontract A {}\n";
    assert_eq!(source_license(src, 0), Some(Some("MIT".to_string())));
    let unlicensed = "pragma solidity ^0.8.0;\n// just a note\ncontract A {}\n";
    assert_eq!(source_license(unlicensed, 0), Some(None));
    assert_eq!(source_license("contract {", 0), None);
}
