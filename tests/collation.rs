use collation::collation_rules::ParseError;
use collation::CollationElementTable;
use std::cmp::Ordering;

/// Rows of the Default Unicode Collation Element Table (version 13.0.0) for
/// the characters these tests use.
const DUCET: &str = r#"# allkeys-13.0.0.txt
#
@version 13.0.0

@implicitweights 17000..18AFF; FB00 # Tangut and Tangut Components

0020  ; [*0209.0020.0002] # SPACE
0021  ; [*0267.0020.0002] # EXCLAMATION MARK
0022  ; [*031D.0020.0002] # QUOTATION MARK
0023  ; [*03AC.0020.0002] # NUMBER SIGN
0025  ; [*03AD.0020.0002] # PERCENT SIGN
0026  ; [*03A9.0020.0002] # AMPERSAND
0027  ; [*0316.0020.0002] # APOSTROPHE
0028  ; [*0328.0020.0002] # LEFT PARENTHESIS
0029  ; [*0329.0020.0002] # RIGHT PARENTHESIS
002A  ; [*03A1.0020.0002] # ASTERISK
002B  ; [*0666.0020.0002] # PLUS SIGN
002C  ; [*0223.0020.0002] # COMMA
002D  ; [*020D.0020.0002] # HYPHEN-MINUS
002E  ; [*027E.0020.0002] # FULL STOP
002F  ; [*03A6.0020.0002] # SOLIDUS
003A  ; [*0240.0020.0002] # COLON
003B  ; [*023A.0020.0002] # SEMICOLON
003C  ; [*066A.0020.0002] # LESS-THAN SIGN
003D  ; [*066B.0020.0002] # EQUALS SIGN
003E  ; [*066C.0020.0002] # GREATER-THAN SIGN
003F  ; [*026D.0020.0002] # QUESTION MARK
0040  ; [*03A0.0020.0002] # COMMERCIAL AT
005B  ; [*032A.0020.0002] # LEFT SQUARE BRACKET
005C  ; [*03A7.0020.0002] # REVERSE SOLIDUS
005D  ; [*032B.0020.0002] # RIGHT SQUARE BRACKET
005E  ; [*04B7.0020.0002] # CIRCUMFLEX ACCENT
005F  ; [*020B.0020.0002] # LOW LINE
0060  ; [*04B4.0020.0002] # GRAVE ACCENT
007B  ; [*032C.0020.0002] # LEFT CURLY BRACKET
007C  ; [*066E.0020.0002] # VERTICAL LINE
007D  ; [*032D.0020.0002] # RIGHT CURLY BRACKET
007E  ; [*0670.0020.0002] # TILDE
0301  ; [.0000.0024.0002] # COMBINING ACUTE ACCENT
0024  ; [.1F64.0020.0002] # DOLLAR SIGN
0030  ; [.1F98.0020.0002] # DIGIT ZERO
0031  ; [.1F99.0020.0002] # DIGIT ONE
0032  ; [.1F9A.0020.0002] # DIGIT TWO
0033  ; [.1F9B.0020.0002] # DIGIT THREE
0034  ; [.1F9C.0020.0002] # DIGIT FOUR
0035  ; [.1F9D.0020.0002] # DIGIT FIVE
0036  ; [.1F9E.0020.0002] # DIGIT SIX
0037  ; [.1F9F.0020.0002] # DIGIT SEVEN
0038  ; [.1FA0.0020.0002] # DIGIT EIGHT
0039  ; [.1FA1.0020.0002] # DIGIT NINE
0061  ; [.1FA2.0020.0002] # LATIN SMALL LETTER A
0041  ; [.1FA2.0020.0008] # LATIN CAPITAL LETTER A
00E1  ; [.1FA2.0020.0002][.0000.0024.0002] # LATIN SMALL LETTER A WITH ACUTE
00C1  ; [.1FA2.0020.0008][.0000.0024.0002] # LATIN CAPITAL LETTER A WITH ACUTE
0062  ; [.1FBC.0020.0002] # LATIN SMALL LETTER B
0042  ; [.1FBC.0020.0008] # LATIN CAPITAL LETTER B
0063  ; [.1FD6.0020.0002] # LATIN SMALL LETTER C
0043  ; [.1FD6.0020.0008] # LATIN CAPITAL LETTER C
0064  ; [.1FEB.0020.0002] # LATIN SMALL LETTER D
0044  ; [.1FEB.0020.0008] # LATIN CAPITAL LETTER D
0065  ; [.2007.0020.0002] # LATIN SMALL LETTER E
0045  ; [.2007.0020.0008] # LATIN CAPITAL LETTER E
00E9  ; [.2007.0020.0002][.0000.0024.0002] # LATIN SMALL LETTER E WITH ACUTE
00C9  ; [.2007.0020.0008][.0000.0024.0002] # LATIN CAPITAL LETTER E WITH ACUTE
0066  ; [.2042.0020.0002] # LATIN SMALL LETTER F
0046  ; [.2042.0020.0008] # LATIN CAPITAL LETTER F
0067  ; [.2051.0020.0002] # LATIN SMALL LETTER G
0047  ; [.2051.0020.0008] # LATIN CAPITAL LETTER G
0068  ; [.2075.0020.0002] # LATIN SMALL LETTER H
0048  ; [.2075.0020.0008] # LATIN CAPITAL LETTER H
0069  ; [.2090.0020.0002] # LATIN SMALL LETTER I
0049  ; [.2090.0020.0008] # LATIN CAPITAL LETTER I
006A  ; [.20AB.0020.0002] # LATIN SMALL LETTER J
004A  ; [.20AB.0020.0008] # LATIN CAPITAL LETTER J
006B  ; [.20C4.0020.0002] # LATIN SMALL LETTER K
004B  ; [.20C4.0020.0008] # LATIN CAPITAL LETTER K
006C  ; [.20D6.0020.0002] # LATIN SMALL LETTER L
004C  ; [.20D6.0020.0008] # LATIN CAPITAL LETTER L
006D  ; [.2109.0020.0002] # LATIN SMALL LETTER M
004D  ; [.2109.0020.0008] # LATIN CAPITAL LETTER M
006E  ; [.2118.0020.0002] # LATIN SMALL LETTER N
004E  ; [.2118.0020.0008] # LATIN CAPITAL LETTER N
006F  ; [.213C.0020.0002] # LATIN SMALL LETTER O
004F  ; [.213C.0020.0008] # LATIN CAPITAL LETTER O
0070  ; [.216B.0020.0002] # LATIN SMALL LETTER P
0050  ; [.216B.0020.0008] # LATIN CAPITAL LETTER P
0071  ; [.2180.0020.0002] # LATIN SMALL LETTER Q
0051  ; [.2180.0020.0008] # LATIN CAPITAL LETTER Q
0072  ; [.2193.0020.0002] # LATIN SMALL LETTER R
0052  ; [.2193.0020.0008] # LATIN CAPITAL LETTER R
0073  ; [.21D2.0020.0002] # LATIN SMALL LETTER S
0053  ; [.21D2.0020.0008] # LATIN CAPITAL LETTER S
0074  ; [.21F7.0020.0002] # LATIN SMALL LETTER T
0054  ; [.21F7.0020.0008] # LATIN CAPITAL LETTER T
0075  ; [.2217.0020.0002] # LATIN SMALL LETTER U
0055  ; [.2217.0020.0008] # LATIN CAPITAL LETTER U
0076  ; [.2247.0020.0002] # LATIN SMALL LETTER V
0056  ; [.2247.0020.0008] # LATIN CAPITAL LETTER V
0077  ; [.2259.0020.0002] # LATIN SMALL LETTER W
0057  ; [.2259.0020.0008] # LATIN CAPITAL LETTER W
0078  ; [.2264.0020.0002] # LATIN SMALL LETTER X
0058  ; [.2264.0020.0008] # LATIN CAPITAL LETTER X
0079  ; [.2270.0020.0002] # LATIN SMALL LETTER Y
0059  ; [.2270.0020.0008] # LATIN CAPITAL LETTER Y
007A  ; [.2286.0020.0002] # LATIN SMALL LETTER Z
005A  ; [.2286.0020.0008] # LATIN CAPITAL LETTER Z
"#;

fn ducet() -> CollationElementTable {
    CollationElementTable::from(DUCET).unwrap()
}

#[test]
fn ascii_strings() {
    let table = ducet();

    // Casing has low precedence
    let mut v = ["a", "b", "C", "A", "c", "B"];
    v.sort_by_key(|s| table.generate_sort_key(s));
    assert_eq!(v, ["a", "A", "b", "B", "c", "C"]);

    // Casing has lower precedence than letters
    let mut v = ["aaa", "aab", "aAa", "aAb", "aaA", "aaB"];
    v.sort_by_key(|s| table.generate_sort_key(s));
    assert_eq!(v, ["aaa", "aaA", "aAa", "aab", "aaB", "aAb"]);

    // Some real-world filenames typical in a Rust project
    let mut v = [
        "target",
        "Cargo.lock",
        "docs",
        "README.md",
        "Cargo.toml",
        "LICENSE",
        "benches",
        "CONTRIBUTING.md",
        "util",
        "build.rs",
        "DEVELOPER_INSTRUCTIONS.md",
        "CODE_OF_CONDUCT.md",
        "tests",
        "src",
        "examples",
    ];

    v.sort_by_key(|s| table.generate_sort_key(s));

    assert_eq!(
        v,
        [
            "benches",
            "build.rs",
            "Cargo.lock",
            "Cargo.toml",
            "CODE_OF_CONDUCT.md",
            "CONTRIBUTING.md",
            "DEVELOPER_INSTRUCTIONS.md",
            "docs",
            "examples",
            "LICENSE",
            "README.md",
            "src",
            "target",
            "tests",
            "util",
        ]
    );
}

#[test]
fn diacritics() {
    let table = ducet();

    let mut v = ["cab", "dab", "Cab", "c\u{e1}b"];
    v.sort_by_key(|s| table.generate_sort_key(s));
    assert_eq!(v, ["cab", "Cab", "c\u{e1}b", "dab"]);

    let mut v = ["e", "A", "\u{e1}", "a", "E", "\u{c1}", "\u{e9}", "\u{c9}"];
    v.sort_by_key(|s| table.generate_sort_key(s));
    assert_eq!(v, ["a", "A", "\u{e1}", "\u{c1}", "e", "E", "\u{e9}", "\u{c9}"]);
}

#[test]
fn letter_case_is_below_letter_identity() {
    let table = ducet();
    for x in 'a'..='z' {
        let upper = x.to_ascii_uppercase().to_string();
        let lower = x.to_string();
        let kx = table.generate_sort_key(&lower);
        let ku = table.generate_sort_key(&upper);
        assert_eq!(kx.primary(), ku.primary());
        assert_eq!(table.compare(&lower, &upper), Ordering::Less);
        for y in 'a'..='z' {
            if y == x {
                continue;
            }
            let other = y.to_string();
            let expected = x.cmp(&y);
            assert_eq!(table.compare(&lower, &other), expected);
            assert_eq!(table.compare(&upper, &other), expected);
        }
    }
}

#[test]
fn compare_is_a_total_order() {
    let table = ducet();
    let words = ["", "a", "A", "ab", "aB", "b", "\u{e1}", "a\u{301}", "Cargo.toml", "cargo_toml"];
    for a in words {
        assert_eq!(table.compare(a, a), Ordering::Equal);
        for b in words {
            let ab = table.compare(a, b);
            assert_eq!(table.compare(b, a), ab.reverse());
            assert_eq!(
                ab,
                table.generate_sort_key(a).cmp(&table.generate_sort_key(b))
            );
            for c in words {
                if ab == Ordering::Less && table.compare(b, c) == Ordering::Less {
                    assert_eq!(table.compare(a, c), Ordering::Less);
                }
            }
        }
    }
}

#[test]
fn primary_difference_decides() {
    let table = ducet();
    // "b" outweighs any case or accent difference before it
    assert_eq!(table.compare("Ab", "ac"), Ordering::Less);
    assert_eq!(table.compare("\u{e1}b", "ac"), Ordering::Less);
    assert_eq!(table.compare("ac", "Ab"), Ordering::Greater);
    // equal primaries: the accent decides before the case
    assert_eq!(table.compare("\u{e1}", "A"), Ordering::Greater);
}

#[test]
fn precomposed_and_decomposed_are_equal() {
    let table = ducet();
    assert_eq!(table.compare("\u{e1}", "a\u{301}"), Ordering::Equal);
    assert_eq!(table.generate_sort_key("\u{e1}"), table.generate_sort_key("a\u{301}"));
}

#[test]
fn sort_key_weights() {
    let table = ducet();
    let key = table.generate_sort_key("Ab");
    assert_eq!(key.primary(), &vec![0x1FA2, 0x1FBC]);
    assert_eq!(key.secondary(), &vec![0x0020, 0x0020]);
    assert_eq!(key.tertiary(), &vec![0x0008, 0x0002]);
    assert_eq!(
        key.iter(),
        vec![0x1FA2, 0x1FBC, 0, 0x0020, 0x0020, 0, 0x0008, 0x0002]
    );
    // the combining accent has no primary weight
    let key = table.generate_sort_key("a\u{301}");
    assert_eq!(key.primary(), &vec![0x1FA2]);
    assert_eq!(key.secondary(), &vec![0x0020, 0x0024]);
}

#[test]
fn unknown_character_ends_the_elements() {
    let table = ducet();
    // U+4E00 has no row here: nothing from it on counts
    assert_eq!(table.compare("a\u{4e00}b", "a"), Ordering::Equal);
    assert_eq!(table.compare("\u{4e00}", ""), Ordering::Equal);
    assert_eq!(table.generate_sort_key("").iter(), vec![0, 0]);
}

#[test]
fn contractions_and_expansions() {
    let text = "0063  ; [.0100.0020.0002] # c\n\
                0068  ; [.0200.0020.0002] # h\n\
                0063 0068 ; [.0300.0020.0002] # ch\n\
                0078  ; [.0400.0020.0002][.0500.0020.0002] # x\n";
    let table = CollationElementTable::from(text).unwrap();
    let ch = table.get(&['c', 'h']).unwrap();
    assert_eq!(ch.len(), 1);
    assert_eq!(ch[0].primary, 0x0300);
    assert!(table.get(&['h', 'c']).is_none());
    assert_eq!(table.generate_sort_key("chc").primary(), &vec![0x0300, 0x0100]);
    assert_eq!(table.generate_sort_key("hc").primary(), &vec![0x0200, 0x0100]);
    assert_eq!(table.generate_sort_key("x").primary(), &vec![0x0400, 0x0500]);
    assert_eq!(table.generate_sort_key("xh").secondary(), &vec![0x20, 0x20, 0x20]);
}

#[test]
fn duplicate_rows_last_wins() {
    let text = "0061 ; [.0100.0020.0002] # a\n0061 ; [*0200.0021.0003] # a again\n";
    let table = CollationElementTable::from(text).unwrap();
    let a = table.get(&['a']).unwrap();
    assert_eq!(a.len(), 1);
    assert!(a[0].variable);
    assert_eq!((a[0].primary, a[0].secondary, a[0].tertiary), (0x200, 0x21, 0x3));
}

#[test]
fn table_rejects_malformed_rows() {
    // four weights in a bracket
    let four = "0061 ; [.0100.0020.0002.0001] # a\n";
    assert_eq!(CollationElementTable::from(four).err(), Some(ParseError { position: 0 }));
    // two weights in a bracket
    let two = "0061 ; [.0100.0020] # a\n";
    assert!(CollationElementTable::from(two).is_err());
    // no comment at the end of the row
    assert!(CollationElementTable::from("0061 ; [.0100.0020.0002]\n").is_err());
    // no line feed at the end
    assert!(CollationElementTable::from("0061 ; [.0100.0020.0002] # a").is_err());
    // a surrogate is no code point
    assert!(CollationElementTable::from("D800 ; [.0100.0020.0002] # x\n").is_err());
    // a weight over 16 bits
    assert!(CollationElementTable::from("0061 ; [.10000.0020.0002] # a\n").is_err());
    // an empty text
    assert_eq!(CollationElementTable::from("").err(), Some(ParseError { position: 0 }));
    // the error is where the first bad line starts
    let text = "# comment\n\n0061 ; [.0100.0020.0002] # a\nbad\n";
    assert_eq!(CollationElementTable::from(text).err(), Some(ParseError { position: 40 }));
}

#[test]
fn table_skips_comments_and_directives() {
    let text = "# header\n  # indented\n@version 9.0.0\n\n@implicitweights 17000..18AFF; FB00 # x\n0061 ; [.0100.0020.0002] # a\n";
    let table = CollationElementTable::from(text).unwrap();
    assert!(table.get(&['a']).is_some());
    assert!(table.get(&['b']).is_none());
    assert!(CollationElementTable::from("@version\n").is_err());
}

#[test]
fn strings_are_decomposed_before_lookup() {
    let table = ducet();
    // U+00F3 has no row of its own here; its decomposition o + U+0301 has
    assert_eq!(table.compare("\u{f3}", "o\u{301}"), Ordering::Equal);
    assert_eq!(table.compare("\u{f3}", "o"), Ordering::Greater);
    assert_eq!(table.generate_sort_key("\u{f3}").primary(), &vec![0x213C]);
}
