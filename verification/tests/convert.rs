use smartcalc::default_commands::convert;
use smartcalc::radix::{convert_lowercase, to_capitals, Conversion};

fn converted(
    base: u32,
    assumed: bool,
    binary: Option<&str>,
    octal: Option<&str>,
    decimal: Option<&str>,
    hexadecimal: Option<&str>,
) -> Conversion {
    Conversion::Converted {
        base,
        assumed,
        binary: binary.map(String::from),
        octal: octal.map(String::from),
        decimal: decimal.map(String::from),
        hexadecimal: hexadecimal.map(String::from),
    }
}

#[test]
fn no_number_is_reported() {
    assert_eq!(convert(""), Conversion::Missing);
    assert_eq!(convert_lowercase(""), Conversion::Missing);
}

#[test]
fn a_prefix_names_the_base() {
    assert_eq!(convert("0xff"), converted(16, false, Some("11111111"), Some("377"), Some("255"), None));
    assert_eq!(convert("0b101"), converted(2, false, None, Some("5"), Some("5"), Some("5")));
    assert_eq!(convert("0o17"), converted(8, false, Some("1111"), None, Some("15"), Some("F")));
    assert_eq!(convert("0x0"), converted(16, false, Some("0"), Some("0"), Some("0"), None));
}

#[test]
fn capitals_are_read_as_small_letters() {
    assert_eq!(convert("0XFF"), convert("0xff"));
    assert_eq!(convert("0B101"), convert("0b101"));
    assert_eq!(convert("0xAbC"), converted(16, false, Some("101010111100"), Some("5274"), Some("2748"), None));
}

#[test]
fn without_a_prefix_the_base_is_a_guess() {
    assert_eq!(
        convert("255"),
        converted(10, true, Some("11111111"), Some("377"), None, Some("FF"))
    );
    assert_eq!(convert("0"), converted(10, true, Some("0"), Some("0"), None, Some("0")));
    assert_eq!(convert("+12"), converted(10, true, Some("1100"), Some("14"), None, Some("C")));
    assert_eq!(
        convert("3735928559"),
        converted(
            10,
            true,
            Some("11011110101011011011111011101111"),
            Some("33653337357"),
            None,
            Some("DEADBEEF")
        )
    );
}

#[test]
fn a_guessed_base_of_sixteen_loses_two_characters() {
    assert_eq!(convert("abc"), converted(16, true, Some("1100"), Some("14"), Some("12"), None));
    assert_eq!(convert("12f"), converted(16, true, Some("1111"), Some("17"), Some("15"), None));
    assert_eq!(convert("ff"), Conversion::Unreadable { base: 16, assumed: true });
    assert_eq!(convert("a"), Conversion::Unreadable { base: 16, assumed: true });
}

#[test]
fn what_is_no_number_of_the_base() {
    assert_eq!(convert("12z"), Conversion::Unreadable { base: 10, assumed: true });
    assert_eq!(convert("1 2"), Conversion::Unreadable { base: 10, assumed: true });
    assert_eq!(convert("-"), Conversion::Unreadable { base: 10, assumed: true });
    assert_eq!(convert("1_000"), Conversion::Unreadable { base: 10, assumed: true });
    assert_eq!(convert("0x"), Conversion::Unreadable { base: 16, assumed: false });
    assert_eq!(convert("0xg"), Conversion::Unreadable { base: 16, assumed: false });
    assert_eq!(convert("0b2"), Conversion::Unreadable { base: 2, assumed: false });
    assert_eq!(convert("0o8"), Conversion::Unreadable { base: 8, assumed: false });
    assert_eq!(convert("0b"), Conversion::Unreadable { base: 2, assumed: false });
}

#[test]
fn a_number_too_large_is_unreadable() {
    assert_eq!(
        convert("99999999999999999999999999"),
        Conversion::Unreadable { base: 10, assumed: true }
    );
    let most = isize::MAX.to_string();
    assert!(matches!(convert(&most), Conversion::Converted { .. }));
    let least = isize::MIN.to_string();
    assert!(matches!(convert(&least), Conversion::Converted { .. }));
}

#[test]
fn negative_numbers_are_written_as_their_complement() {
    let all = "1".repeat(isize::BITS as usize);
    let binary = format!("{}011", &all[3..]);
    let hexadecimal = format!("{}B", "F".repeat(isize::BITS as usize / 4 - 1));
    match convert("-5") {
        Conversion::Converted { base, assumed, binary: b, octal, decimal, hexadecimal: h } => {
            assert_eq!(base, 10);
            assert!(assumed);
            assert_eq!(b, Some(binary));
            assert_eq!(octal, Some(format!("{:o}", -5isize)));
            assert_eq!(decimal, None);
            assert_eq!(h, Some(hexadecimal));
        }
        other => panic!("not converted: {:?}", other),
    }
    match convert("0x-a") {
        Conversion::Converted { decimal, binary, .. } => {
            assert_eq!(decimal, Some("-10".to_string()));
            assert_eq!(binary, Some(format!("{:b}", -10isize)));
        }
        other => panic!("not converted: {:?}", other),
    }
}

#[test]
fn small_letters_become_capitals() {
    let text = |s: &str| s.chars().collect::<Vec<char>>();
    assert_eq!(to_capitals(&text("deadbeef")), text("DEADBEEF"));
    assert_eq!(to_capitals(&text("az09AZ-γ")), text("AZ09AZ-γ"));
    assert_eq!(to_capitals(&text("")), text(""));
}
