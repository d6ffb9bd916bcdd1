use ctp500::discovery::{find_characteristic, is_printer_name, same_ignoring_ascii_case};
use ctp500::types::{NOTIFY_CHAR_UUID, WRITE_CHAR_UUID};
use regex::Regex;

#[test]
fn name_filter_takes_the_printers() {
    assert!(is_printer_name("S Blue Printer"));
    assert!(is_printer_name("s   pink   printer"));
    assert!(is_printer_name("S White Printer"));
    assert!(is_printer_name("S BLACK PRINTER"));
}

#[test]
fn name_filter_rejects_other_devices() {
    assert!(!is_printer_name("Sblue Printer"));
    assert!(!is_printer_name("Random Device"));
    assert!(!is_printer_name(""));
    assert!(!is_printer_name("S"));
    assert!(!is_printer_name("S Blue"));
    assert!(!is_printer_name("S Blue Printe"));
    assert!(!is_printer_name("S BluePrinter"));
    assert!(!is_printer_name("S Green Printer"));
    assert!(!is_printer_name("S  Printer"));
    assert!(!is_printer_name("S_Blue_Printer"));
}

#[test]
fn name_filter_finds_the_pattern_inside_a_name() {
    assert!(is_printer_name("My S Blue Printer 2"));
    assert!(is_printer_name("SS Pink Printers"));
    assert!(is_printer_name("S Blu S Blue Printer"));
    assert!(is_printer_name("S S Black Printer"));
}

#[test]
fn name_filter_takes_any_whitespace() {
    assert!(is_printer_name("S\tBlue\nPrinter"));
    assert!(is_printer_name("S\u{a0}Blue\u{3000}Printer"));
    assert!(is_printer_name("S \u{2009} White \u{85} Printer"));
    assert!(!is_printer_name("S\u{200b}Blue Printer"));
}

#[test]
fn name_filter_folds_letter_case() {
    assert!(is_printer_name("\u{17f} pin\u{212a} printer"));
    assert!(is_printer_name("S blac\u{212a} Printer"));
    assert!(!is_printer_name("S Blue Pr\u{131}nter"));
    assert!(!is_printer_name("S Blue Pr\u{130}nter"));
}

#[test]
fn name_filter_agrees_with_the_pattern() {
    let pattern = Regex::new(r"(?i)S\s+(Pink|Blue|White|Black)\s+Printer").unwrap();
    let names: [&str; 24] = [
        "S Blue Printer",
        "s   pink   printer",
        "Sblue Printer",
        "Random Device",
        "",
        "S",
        "S ",
        "S Pink",
        "S Pink ",
        "S Pink P",
        "S PinkPrinter",
        "S Pin Printer",
        "xS\u{2028}bLaCk\u{1680}pRiNtEr!",
        "S White  Printer",
        "S  Whit Printer S Black Printer",
        "\u{17f}\u{a0}pin\u{212a}\u{202f}printer",
        "S Blue\u{200b}Printer",
        "S Blue Printer",
        "ß Blue Printer",
        "S S S Blue Blue Printer",
        "S Blue Printer Printer",
        "S Blué Printer",
        "S\r\nBlue\u{b}Printer",
        "S Blue\u{c}Printe\u{280}",
    ];
    for name in names {
        assert_eq!(is_printer_name(name), pattern.is_match(name), "{:?}", name);
    }
}

#[test]
fn uuids_are_compared_without_regard_to_letter_case() {
    assert!(same_ignoring_ascii_case(WRITE_CHAR_UUID, "49535343-8841-43F4-A8D4-ECBE34729BB3"));
    assert!(same_ignoring_ascii_case("", ""));
    assert!(!same_ignoring_ascii_case(WRITE_CHAR_UUID, NOTIFY_CHAR_UUID));
    assert!(!same_ignoring_ascii_case("abc", "abcd"));
    assert!(!same_ignoring_ascii_case("k", "\u{212a}"));
    assert!(!same_ignoring_ascii_case("@", "`"));
    assert!(!same_ignoring_ascii_case("[", "{"));
}

#[test]
fn the_first_matching_characteristic_is_found() {
    let uuids = vec![
        "00002a00-0000-1000-8000-00805f9b34fb".to_string(),
        NOTIFY_CHAR_UUID.to_string(),
        WRITE_CHAR_UUID.to_uppercase(),
        WRITE_CHAR_UUID.to_string(),
    ];
    assert_eq!(find_characteristic(&uuids, WRITE_CHAR_UUID), Some(2));
    assert_eq!(find_characteristic(&uuids, NOTIFY_CHAR_UUID), Some(1));
    assert_eq!(find_characteristic(&uuids, "49535343-aca3-481c-91ec-d85e28a60318"), None);
    assert_eq!(find_characteristic(&Vec::new(), WRITE_CHAR_UUID), None);
}

/// A small deterministic generator of test inputs.
struct Lcg(u64);

impl Lcg {
    fn next(&mut self, bound: usize) -> usize {
        self.0 = self.0.wrapping_mul(6364136223846793005).wrapping_add(1442695040888963407);
        ((self.0 >> 33) as usize) % bound
    }
}

#[test]
fn name_filter_agrees_with_the_pattern_on_many_names() {
    let pattern = Regex::new(r"(?i)S\s+(Pink|Blue|White|Black)\s+Printer").unwrap();
    let slots: [&[&str]; 7] = [
        &["", "", "x", "My ", "S ", "\u{17f}"],
        &["S", "s", "\u{17f}", "ß", "5"],
        &[" ", "  ", "\t", "\u{a0}", " \u{2003}\n", "", "\u{200b}", "_"],
        &["Pink", "pink", "PIN\u{212a}", "Blue", "bLUE", "White", "WHITE", "Black",
            "blac\u{212a}", "Blu", "hite", "Whit\u{e9}", "Pınk", "BLACK "],
        &[" ", "   ", "\r\n", "\u{3000}", "\u{85}", "", "-"],
        &["Printer", "PRINTER", "printer", "prİnter", "Printe", "rinter", "Print er"],
        &["", "s", " 2", "Printer"],
    ];
    let any: [&str; 8] = ["S", " ", "Blue", "Printer", "x", "k", "\u{212a}", ""];
    let mut random = Lcg(7);
    let mut matched = 0;
    for _ in 0..40000 {
        let mut name = String::new();
        for slot in slots {
            if random.next(8) == 0 {
                name.push_str(any[random.next(any.len())]);
            } else {
                name.push_str(slot[random.next(slot.len())]);
            }
        }
        let expected = pattern.is_match(&name);
        assert_eq!(is_printer_name(&name), expected, "{:?}", name);
        if expected {
            matched += 1;
        }
    }
    assert!(matched > 2000 && matched < 38000);
}
