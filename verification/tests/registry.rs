use sysfetch::logos::{art_entry, find_logo, ArtEntry};

fn table() -> Vec<ArtEntry> {
    // exact entries sorted by name, wildcard entries after them
    vec![
        art_entry("Arch Linux", false, "\x1b[36m  /\\\n / ~\\\x1b[0m"),
        art_entry("Debian", false, "\x1b[31m @@\n@. `\x1b[0m"),
        art_entry("Ubuntu", false, "\x1b[31m (o)\x1b[0m"),
        art_entry("Zorin", false, "\x1b[34m zzz\x1b[0m"),
        art_entry("Ubuntu", true, "\x1b[33m (u)\x1b[0m"),
        art_entry("Linux", true, "\x1b[37m tux\x1b[0m"),
    ]
}

#[test]
fn exact_lookup_finds_entry() {
    let t = table();
    assert_eq!(find_logo(&t, "Debian"), Some(1));
    assert_eq!(find_logo(&t, "Arch Linux"), Some(0));
    assert_eq!(find_logo(&t, "Zorin"), Some(3));
}

#[test]
fn exact_match_wins_over_wildcard() {
    let t = table();
    // "Ubuntu" exists both as an exact entry and as a wildcard pattern;
    // the exact one must be returned
    let k = find_logo(&t, "Ubuntu").unwrap();
    assert_eq!(k, 2);
    assert!(!t[k].is_wildcard);
}

#[test]
fn wildcard_matches_by_prefix() {
    let t = table();
    let k = find_logo(&t, "Ubuntu-22.04").unwrap();
    assert_eq!(k, 4);
    assert!(t[k].is_wildcard);
    assert_eq!(t[k].name, "Ubuntu");
    // the identifier "Linuxmint" is prefixed by the wildcard "Linux"
    assert_eq!(find_logo(&t, "Linuxmint"), Some(5));
}

#[test]
fn unmatched_identifier_is_not_found() {
    let t = table();
    assert_eq!(find_logo(&t, "Gentoo"), None);
    assert_eq!(find_logo(&t, ""), None);
}

#[test]
fn max_visible_line_length_excludes_escapes() {
    let e = art_entry("X", false, "\x1b[31mab\x1b[0m\ncdef\n\x1b[32mz\x1b[0m");
    // lines measure 2, 4 and 1 visible characters
    assert_eq!(e.max_line_length, 4);
    let empty = art_entry("Y", false, "");
    assert_eq!(empty.max_line_length, 0);
}
