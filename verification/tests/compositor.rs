use sysfetch::compose::{
    build_info_lines, compose_rows, scan_color, split_lines, styled_info, visible_length,
};
use sysfetch::edid::{encode_edid, get_screen_resolution};
use sysfetch::meminfo::fast_parse_meminfo;
use sysfetch::sysinfo::SysInfo;

#[test]
fn visible_length_never_counts_escape_bytes() {
    // L = 11 characters, escape sequences total E = 9, visible = L - E = 2
    let line = "\x1b[31mab\x1b[0m";
    assert_eq!(line.chars().count(), 11);
    assert_eq!(visible_length(line), 2);
    // two embedded sequences inside plain text
    let line2 = "xy\x1b[38;5;208mmid\x1b[0mz";
    let esc_total = "\x1b[38;5;208m".chars().count() + "\x1b[0m".chars().count();
    assert_eq!(visible_length(line2), line2.chars().count() - esc_total);
    assert_eq!(visible_length(""), 0);
    assert_eq!(visible_length("plain"), 5);
}

#[test]
fn color_state_tracks_last_sequence() {
    assert_eq!(scan_color("\x1b[31mAA", ""), "\x1b[31m");
    assert_eq!(scan_color("\x1b[31mAA\x1b[0m", ""), "");
    assert_eq!(scan_color("plain", "\x1b[34m"), "\x1b[34m");
    assert_eq!(scan_color("\x1b[31ma\x1b[32mb", ""), "\x1b[32m");
    // an unterminated introducer leaves the color as it was
    assert_eq!(scan_color("\x1b[31", "\x1b[34m"), "\x1b[34m");
}

#[test]
fn styled_info_rows() {
    // identity row: the name parts around '@' take the active color
    assert_eq!(
        styled_info("u@h", "\x1b[34m", 0),
        "\x1b[34mu\x1b[0m@\x1b[34mh\x1b[0m"
    );
    assert_eq!(styled_info("u@h", "", 0), "u@h");
    // divider row is untouched
    assert_eq!(styled_info("----", "\x1b[34m", 1), "----");
    // later rows: the label up to the embedded reset takes the color
    assert_eq!(styled_info("K\x1b[0m: v", "\x1b[34m", 2), "\x1b[34mK\x1b[0m: v");
    assert_eq!(styled_info("no reset", "\x1b[34m", 2), "no reset");
}

#[test]
fn split_lines_drops_trailing_newline_only() {
    let lines = split_lines("ab\ncd\n");
    assert_eq!(lines, vec!["ab".to_string(), "cd".to_string()]);
    assert_eq!(split_lines(""), Vec::<String>::new());
    assert_eq!(split_lines("\n"), vec!["".to_string()]);
    assert_eq!(split_lines("one"), vec!["one".to_string()]);
}

#[test]
fn compose_reset_art() {
    let art = "\x1b[31mAA\x1b[0m";
    let infos = vec!["u@h".to_string(), "----".to_string(), "OS\x1b[0m: X".to_string()];
    let rows = compose_rows(art, &infos, 2, 3);
    assert_eq!(rows.len(), 3);
    assert_eq!(rows[0], "\x1b[31mAA\x1b[0m\x1b[0m   u@h");
    assert_eq!(rows[1], "\x1b[0m     ----");
    assert_eq!(rows[2], "\x1b[0m     OS\x1b[0m: X");
}

#[test]
fn compose_carries_color_across_rows() {
    let art = "\x1b[34mAB\nCD";
    let infos = vec!["u@h".to_string(), "--".to_string(), "K\x1b[0m: v".to_string()];
    let rows = compose_rows(art, &infos, 2, 1);
    assert_eq!(rows.len(), 3);
    // the active blue is restored after the info text while art remains
    assert_eq!(rows[0], "\x1b[34mAB\x1b[0m \x1b[34mu\x1b[0m@\x1b[34mh\x1b[0m\x1b[34m");
    assert_eq!(rows[1], "CD\x1b[0m --");
    assert_eq!(rows[2], "\x1b[0m   \x1b[34mK\x1b[0m: v");
}

#[test]
fn art_shorter_than_info_pads_full_width() {
    let art = "AB";
    let infos = vec!["u@h".to_string(), "--".to_string(), "X\x1b[0m: 1".to_string()];
    let rows = compose_rows(art, &infos, 5, 2);
    // row 0: visible 2 < 5, pad = 5 - 2 + 2 = 5
    assert_eq!(rows[0], "AB\x1b[0m     u@h");
    // rows past the art: visible 0, pad = 5 + 2 = 7
    assert_eq!(rows[1], "\x1b[0m       --");
}

#[test]
fn end_to_end_snapshot_fields() {
    let meminfo = b"MemTotal:       16000000 kB\nMemFree:        8000000 kB\nBuffers:         200000 kB\nCached:         1000000 kB\nSReclaimable:    300000 kB\nShmem:           500000 kB\n";
    let (used, total) = fast_parse_meminfo(meminfo);
    let blobs = vec![encode_edid(1920, 1080)];
    let resolution = get_screen_resolution(&blobs);
    let info = SysInfo {
        hostname: "box".to_string(),
        os_name: "Ubuntu 22.04 x86_64".to_string(),
        kernel: "6.5.0".to_string(),
        uptime: 90061,
        shell: "zsh 5.9".to_string(),
        terminal: "xterm-256color".to_string(),
        de: "GNOME".to_string(),
        wm: "Mutter".to_string(),
        theme: "Adwaita".to_string(),
        icons: "Papirus".to_string(),
        resolution,
        cpu_info: "CPU (8)".to_string(),
        memory_used: used,
        memory_total: total,
    };
    let lines = build_info_lines(&info, "user");
    assert_eq!(lines.len(), 14);
    assert_eq!(lines[0], "user@box");
    assert_eq!(lines[4], "Uptime\x1b[0m: 1d 1h 1m");
    assert_eq!(lines[6], "Resolution\x1b[0m: 1920x1080");
    assert_eq!(lines[13], "Memory\x1b[0m: 6835 MiB / 15625 MiB");
}
