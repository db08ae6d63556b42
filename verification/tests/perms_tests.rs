use better_ls::perms::format_mode;

#[test]
fn mode_754_renders_symbolically() {
    assert_eq!(format_mode(0o754), "rwxr-xr--");
}

#[test]
fn mode_zero_renders_all_dashes() {
    assert_eq!(format_mode(0), "---------");
}

#[test]
fn mode_777_renders_all_set() {
    assert_eq!(format_mode(0o777), "rwxrwxrwx");
}

#[test]
fn mode_644_renders_symbolically() {
    assert_eq!(format_mode(0o644), "rw-r--r--");
}

#[test]
fn higher_bits_are_ignored() {
    assert_eq!(format_mode(0o40755), "rwxr-xr-x");
    assert_eq!(format_mode(0o100600), "rw-------");
}
