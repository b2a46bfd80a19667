use rmule::IniFile;

fn file(lines: &[&str]) -> IniFile {
    IniFile::new(lines.iter().map(|l| l.to_string()).collect())
}

#[test]
fn ini_parses_sections_keys_and_values() {
    let f = file(&[
        "; a comment line",
        "",
        "rootkey=rootval",
        "[General]",
        "Nick = mule user ",
        "Port=4662",
        "flag",
    ]);
    // Keys before any header land in the unnamed root section.
    assert_eq!(f.get_str("", "rootkey"), "rootval");
    // Keys and values are trimmed; a key-only line keeps the whole line
    // as its key, with an empty value.
    assert_eq!(f.get_str("General", "Nick"), "mule user");
    assert_eq!(f.get_str("General", "flag"), "");
    assert_eq!(f.get_i32("General", "Port"), 4662);
    assert!(f.get_section("missing").is_none());
    assert!(f.get_entry("General", "missing").is_none());
    assert!(f.get_str_opt("missing", "Nick").is_none());
}

#[test]
fn ini_lookups_ignore_ascii_case() {
    let f = file(&["[General]", "Nick=someone"]);
    assert!(f.get_section("GENERAL").is_some());
    assert!(f.get_section("general").is_some());
    assert_eq!(f.get_str("gEnErAl", "nIcK"), "someone");
    let sec = f.get_section("general").unwrap();
    assert_eq!(sec.name(), "General");
    assert_eq!(sec.len(), 1);
    assert!(!sec.is_empty());
    assert!(sec.contains_key("NICK"));
    assert!(!sec.contains_key("other"));
    assert_eq!(sec.get("nick").unwrap().get_value(), "someone");
}

#[test]
fn ini_repeated_keys_keep_the_last_value() {
    let f = file(&["A=1", "a=2"]);
    assert_eq!(f.get_str("", "A"), "2");
    assert_eq!(f.get_section("").unwrap().len(), 1);
}

#[test]
fn ini_repeated_section_names_replace_the_earlier_section() {
    let f = file(&["[General]", "Nick=kept?", "[general]", "Port=4662"]);
    let sec = f.get_section("General").unwrap();
    assert_eq!(sec.len(), 1);
    assert!(f.get_str_opt("General", "Nick").is_none());
    assert_eq!(f.get_i32("General", "Port"), 4662);
}

#[test]
fn ini_section_names_are_trimmed() {
    let f = file(&["[ Spaced ]", "k=v"]);
    assert!(f.get_section("spaced").is_some());
    assert_eq!(f.get_str("Spaced", "k"), "v");
}

#[test]
fn ini_bool_values_are_the_digit_one() {
    let f = file(&["Confirm=1", "Other=yes"]);
    assert!(f.get_bool("", "Confirm"));
    assert!(!f.get_bool("", "Other"));
    assert_eq!(f.get_bool_opt("", "missing"), None);
}

#[test]
fn ini_numeric_values_parse_exactly() {
    let f = file(&["Pos=4662", "Neg=-5", "Signed=+7", "Bad=x2", "Huge=99999999999"]);
    assert_eq!(f.get_i32("", "Pos"), 4662);
    assert_eq!(f.get_i32("", "Neg"), -5);
    assert_eq!(f.get_i32("", "Signed"), 7);
    assert_eq!(f.get_i32_opt("", "Bad"), None);
    assert_eq!(f.get_i32_opt("", "Huge"), None);
    assert_eq!(f.get_i32_opt("", "missing"), None);
    let g = file(&["Min=-2147483648", "Max=2147483647", "Over=2147483648"]);
    assert_eq!(f.get_i32_opt("", "Min"), None);
    assert_eq!(g.get_i32("", "Min"), -2147483648);
    assert_eq!(g.get_i32("", "Max"), 2147483647);
    assert_eq!(g.get_i32_opt("", "Over"), None);
}

#[test]
fn ini_empty_input_has_only_an_empty_root() {
    let f = file(&[]);
    let root = f.get_section("").unwrap();
    assert!(root.is_empty());
    assert!(f.get_section("anything").is_none());
}
