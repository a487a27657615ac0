use ephemeral_storage_setup::text::{
    path_short_name, str_ends_with, token_of_line, trim_ws, usize_to_string,
};

#[test]
fn decimal_rendering() {
    assert_eq!(usize_to_string(0), "0");
    assert_eq!(usize_to_string(7), "7");
    assert_eq!(usize_to_string(10), "10");
    assert_eq!(usize_to_string(20480), "20480");
    assert_eq!(usize_to_string(1048576), "1048576");
}

#[test]
fn short_name_extraction() {
    assert_eq!(path_short_name("/dev/nvme0n1"), "nvme0n1");
    assert_eq!(path_short_name("nvme0n1"), "nvme0n1");
    assert_eq!(path_short_name("/dev/disk/by-id/abc"), "abc");
    assert_eq!(path_short_name("/dev/"), "");
}

#[test]
fn suffix_matching() {
    assert!(str_ends_with("/dev/nvme0n1", "nvme0n1"));
    assert!(str_ends_with("/dev/nvme0n1", "/dev/nvme0n1"));
    assert!(!str_ends_with("/dev/nvme0n1", "nvme0n2"));
    assert!(!str_ends_with("n1", "nvme0n1"));
    assert!(str_ends_with("/dev/nvme0n1", ""));
}

#[test]
fn trimming() {
    assert_eq!(trim_ws("  a b \n"), "a b");
    assert_eq!(trim_ws(""), "");
    assert_eq!(trim_ws(" \t\n"), "");
    assert_eq!(trim_ws("x"), "x");
}

#[test]
fn first_tokens() {
    assert_eq!(token_of_line("/nvme0n1    partition\t393215996"), Some("/nvme0n1"));
    assert_eq!(token_of_line("   lead"), Some("lead"));
    assert_eq!(token_of_line(""), None);
    assert_eq!(token_of_line("   \t "), None);
}
