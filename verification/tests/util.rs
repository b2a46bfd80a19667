use rmule::{
    format_sql, format_yyyy_mm_dd, format_yyyy_mm_dd_hh_mm_ss, has_backup_suffix, make_absolute,
    make_backup_filename, now_to_sql, now_to_yyyy_mm_dd, now_to_yyyy_mm_dd_hh_mm_ss, path_join,
    ConfigDir, DateTimeParts, IniFileEntry, ServerUdpFlags, SliceExtensions, StringExtensions,
    UDP_FLAGS_MASK, UDP_FLAG_GET_EXTENDED_SOURCES, UDP_FLAG_GET_FILES, UDP_FLAG_GET_SOURCES,
    UDP_FLAG_LARGE_FILES, UDP_FLAG_NEW_TAGS, UDP_FLAG_TCP_OBFUSCATION, UDP_FLAG_UDP_OBFUSCATION,
    UDP_FLAG_UNICODE,
};

fn parts(
    year: i32,
    month: u8,
    day: u8,
    hour: u8,
    minute: u8,
    second: u8,
    millisecond: u16,
) -> DateTimeParts {
    DateTimeParts { year, month, day, hour, minute, second, millisecond }
}

#[test]
fn date_formats_pad_to_two_digits() {
    let p = parts(2024, 3, 7, 4, 5, 6, 12);
    assert_eq!(format_yyyy_mm_dd(p), "2024-03-07");
    assert_eq!(format_yyyy_mm_dd_hh_mm_ss(p), "2024-03-07T04-05-06");
    assert_eq!(format_sql(p), "2024-03-07 04:05:06.012");
}

#[test]
fn date_formats_keep_wide_fields() {
    let p = parts(987, 12, 31, 23, 59, 59, 999);
    assert_eq!(format_yyyy_mm_dd(p), "987-12-31");
    assert_eq!(format_sql(p), "987-12-31 23:59:59.999");
    let neg = parts(-44, 1, 1, 0, 0, 0, 0);
    assert_eq!(format_yyyy_mm_dd(neg), "-44-01-01");
    assert_eq!(format_sql(neg), "-44-01-01 00:00:00.000");
}

#[test]
fn clock_based_strings_have_the_documented_shape() {
    let d = now_to_yyyy_mm_dd();
    assert!(d.len() >= 8);
    assert_eq!(d.matches('-').count(), 2);
    let dt = now_to_yyyy_mm_dd_hh_mm_ss();
    assert!(dt.contains('T'));
    assert_eq!(dt.matches('-').count(), 4);
    let sql = now_to_sql();
    assert!(sql.contains(' '));
    assert!(sql.contains('.'));
    assert_eq!(sql.matches(':').count(), 2);
}

#[test]
fn config_dir_paths_are_joined_with_one_slash() {
    let c = ConfigDir::new("/home/someone/rmule");
    assert_eq!(c.config_dir().as_str(), "/home/someone/rmule");
    assert_eq!(c.config_filename().as_str(), "/home/someone/rmule/rmule.conf");
    assert_eq!(c.server_filename().as_str(), "/home/someone/rmule/server.bin");

    let c2 = ConfigDir::new("/tmp/");
    assert_eq!(c2.config_filename().as_str(), "/tmp/rmule.conf");
    assert_eq!(c2.server_filename().as_str(), "/tmp/server.bin");
}

#[test]
fn path_join_handles_empty_and_trailing_slash() {
    assert_eq!(path_join("a", "b"), "a/b");
    assert_eq!(path_join("a/", "b"), "a/b");
    assert_eq!(path_join("", "b"), "/b");
}

#[test]
fn backup_filenames_carry_the_suffix() {
    let b = make_backup_filename("cfg/rmule.conf");
    assert!(b.starts_with("cfg/rmule.conf-"));
    assert!(has_backup_suffix(&b));
}

#[test]
fn backup_suffix_is_checked_character_by_character() {
    assert!(has_backup_suffix("rmule.conf-2024-03-07T04-05-06"));
    assert!(has_backup_suffix("-2024-03-07T04-05-06"));
    assert!(!has_backup_suffix("rmule.conf"));
    assert!(!has_backup_suffix("rmule.conf-2024-03-07T04-05-0x"));
    assert!(!has_backup_suffix("rmule.conf-2024-03-07 04-05-06"));
    assert!(!has_backup_suffix("short"));
}

#[test]
fn make_absolute_only_joins_relative_paths() {
    assert_eq!(make_absolute("/etc/x", "/home"), "/etc/x");
    assert_eq!(make_absolute("x/y", "/home"), "/home/x/y");
    assert_eq!(make_absolute("", "/home"), "/home/");
}

#[test]
fn split_comma_str_to_vec_skips_blanks_and_rejects_padding() {
    assert_eq!("1,2,3".to_string().split_comma_str_to_vec().unwrap(), vec![1u16, 2, 3]);
    assert_eq!("".to_string().split_comma_str_to_vec().unwrap(), Vec::<u16>::new());
    assert_eq!(",,".to_string().split_comma_str_to_vec().unwrap(), Vec::<u16>::new());
    assert_eq!(" , ".to_string().split_comma_str_to_vec().unwrap(), Vec::<u16>::new());
    assert_eq!("4, ,5".to_string().split_comma_str_to_vec().unwrap(), vec![4u16, 5]);
    assert_eq!("+7".to_string().split_comma_str_to_vec().unwrap(), vec![7u16]);
    assert_eq!("65535".to_string().split_comma_str_to_vec().unwrap(), vec![65535u16]);
    // A non-blank piece must be exactly a number: padding is not trimmed.
    assert!(" 4 , 5 ".to_string().split_comma_str_to_vec().is_err());
    assert!("4 ,5".to_string().split_comma_str_to_vec().is_err());
    assert!("65536".to_string().split_comma_str_to_vec().is_err());
    assert!("1,x".to_string().split_comma_str_to_vec().is_err());
    assert!("1,-2".to_string().split_comma_str_to_vec().is_err());
}

#[test]
fn to_comma_string_renders_or_declines() {
    let empty: Vec<u16> = Vec::new();
    assert_eq!(empty.to_comma_string(), None);
    assert_eq!(vec![7u16].to_comma_string(), Some("7".to_string()));
    assert_eq!(vec![1u16, 22, 333].to_comma_string(), Some("1,22,333".to_string()));
}

#[test]
fn ini_entries_hand_back_their_value() {
    let e = IniFileEntry::new("some value".to_string(), 3);
    assert_eq!(e.get_value(), "some value");
}

#[test]
fn udp_flag_sets_support_containment() {
    let f = ServerUdpFlags::from_bits_truncate(0b11);
    assert!(f.contains(ServerUdpFlags::from_bits_truncate(0b01)));
    assert!(!ServerUdpFlags::from_bits_truncate(0b01).contains(f));
}

#[test]
fn udp_flag_vocabulary_is_disjoint_and_known() {
    let all = [
        UDP_FLAG_GET_SOURCES,
        UDP_FLAG_GET_FILES,
        UDP_FLAG_NEW_TAGS,
        UDP_FLAG_UNICODE,
        UDP_FLAG_GET_EXTENDED_SOURCES,
        UDP_FLAG_LARGE_FILES,
        UDP_FLAG_UDP_OBFUSCATION,
        UDP_FLAG_TCP_OBFUSCATION,
    ];
    let mut sum = 0u32;
    for f in all {
        assert_eq!(sum & f, 0);
        sum |= f;
        assert_eq!(ServerUdpFlags::from_bits_truncate(f).bits(), f);
    }
    assert_eq!(sum, UDP_FLAGS_MASK);
}
