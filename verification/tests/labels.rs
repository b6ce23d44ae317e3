use sysfetch::cpu::get_cpu_info;
use sysfetch::envcache::EnvCache;
use sysfetch::fmt::{format_memory, format_uptime, u64_to_string};
use sysfetch::osrelease::{distribution_fallback, distribution_name_from};
use sysfetch::shellver::{
    detect_bash_version, detect_fish_version, detect_zsh_version, shell_kind, shell_name_of,
    ShellKind,
};
use sysfetch::sysinfo::{os_label, wm_label};
use sysfetch::themecfg::{
    desktop_family, gtkrc_theme_name, index_theme_inherits, search_content_for_key, DesktopFamily,
};

#[test]
fn decimal_rendering() {
    assert_eq!(u64_to_string(0), "0");
    assert_eq!(u64_to_string(7), "7");
    assert_eq!(u64_to_string(1048576), "1048576");
    assert_eq!(u64_to_string(u64::MAX), "18446744073709551615");
}

#[test]
fn memory_label() {
    assert_eq!(format_memory(0), "0 MiB");
    assert_eq!(format_memory(7168000000), "6835 MiB");
    assert_eq!(format_memory(16 * 1024 * 1024), "16 MiB");
}

#[test]
fn uptime_label() {
    assert_eq!(format_uptime(59), "0 mins");
    assert_eq!(format_uptime(60 * 42), "42 mins");
    assert_eq!(format_uptime(3600), "1h 0m");
    assert_eq!(format_uptime(3600 * 23 + 60 * 59), "23h 59m");
    assert_eq!(format_uptime(90061), "1d 1h 1m");
}

#[test]
fn cpu_label_strips_core_count_token() {
    let buf = b"processor\t: 0\nmodel name\t: AMD Ryzen 7 7800X3D 8-Core Processor\n";
    let label = get_cpu_info(buf, 16, Some("5050000\n"));
    assert_eq!(label, "AMD Ryzen 7 7800X3D (16) @ 5.050GHz");
}

#[test]
fn cpu_label_strips_bare_marker() {
    // no numeric token before the marker: only the marker itself goes
    let buf = b"model name\t: SomeChip Eight-Core Processor\n";
    let label = get_cpu_info(buf, 8, None);
    assert_eq!(label, "SomeChip Eight (8)");
}

#[test]
fn cpu_label_without_model() {
    let label = get_cpu_info(b"nothing here\n", 4, None);
    assert_eq!(label, "Unknown CPU (4 cores)");
    let no_newline = get_cpu_info(b"model name\t: Pentium", 2, None);
    assert_eq!(no_newline, "Unknown CPU (2 cores)");
}

#[test]
fn cpu_frequency_formatting() {
    let buf = b"model name\t: Chip\n";
    assert_eq!(get_cpu_info(buf, 4, Some("3600000\n")), "Chip (4) @ 3.600GHz");
    assert_eq!(get_cpu_info(buf, 4, Some("1234567")), "Chip (4) @ 1.235GHz");
    assert_eq!(get_cpu_info(buf, 4, Some("garbage")), "Chip (4)");
    assert_eq!(get_cpu_info(buf, 4, Some("0")), "Chip (4)");
}

#[test]
fn distro_from_name_field() {
    let data = b"PRETTY=x\nNAME=\"Ubuntu 22.04 LTS\"\nID=ubuntu\n";
    assert_eq!(
        distribution_name_from(data).as_deref(),
        Some("Ubuntu 22.04 LTS")
    );
    let unquoted = b"NAME=Fedora Linux\nID=fedora\n";
    assert_eq!(distribution_name_from(unquoted).as_deref(), Some("Fedora Linux"));
}

#[test]
fn name_key_only_matches_at_line_start() {
    // NAME= inside PRETTY_NAME= is no field; the real NAME= line wins
    let data = b"PRETTY_NAME=\"Debian GNU/Linux 12 (bookworm)\"\nNAME=\"Debian GNU/Linux\"\n";
    assert_eq!(
        distribution_name_from(data).as_deref(),
        Some("Debian GNU/Linux")
    );
    // ID= inside VERSION_ID= is no field either
    let id_data = b"VERSION_ID=39\nID=fedora\n";
    assert_eq!(distribution_name_from(id_data).as_deref(), Some("Fedora Linux"));
    // only mid-line occurrences: no field at all
    let only_pretty = b"PRETTY_NAME=\"X\"\nVERSION_ID=1\n";
    assert_eq!(distribution_name_from(only_pretty), None);
}

#[test]
fn distro_from_id_field() {
    let data = b"ID=fedora\nVERSION=39\n";
    assert_eq!(distribution_name_from(data).as_deref(), Some("Fedora Linux"));
    let empty = b"ID=\nVERSION=1\n";
    assert_eq!(distribution_name_from(empty).as_deref(), Some("Linux"));
}

#[test]
fn distro_absent() {
    assert_eq!(distribution_name_from(b"nothing\n"), None);
    // a NAME= with no newline after it is unusable
    assert_eq!(distribution_name_from(b"NAME=Arch"), None);
    // bytes that are not UTF-8 are unusable too
    assert_eq!(distribution_name_from(b"NAME=\xff\xfe\n"), None);
}

#[test]
fn distro_fallback_markers() {
    assert_eq!(distribution_fallback(true, true, true), "Arch Linux");
    assert_eq!(distribution_fallback(false, true, false), "Debian Linux");
    assert_eq!(distribution_fallback(false, false, true), "Red Hat Linux");
    assert_eq!(distribution_fallback(false, false, false), "Linux");
}

#[test]
fn shell_dispatch() {
    assert_eq!(shell_kind("zsh"), ShellKind::Zsh);
    assert_eq!(shell_kind("bash"), ShellKind::Bash);
    assert_eq!(shell_kind("fish"), ShellKind::Fish);
    assert_eq!(shell_kind("nushell"), ShellKind::Other);
    assert_eq!(shell_kind(""), ShellKind::Other);
}

#[test]
fn shell_base_name() {
    assert_eq!(shell_name_of("/usr/bin/zsh"), "zsh");
    assert_eq!(shell_name_of("bash"), "bash");
    assert_eq!(shell_name_of("/bin/"), "");
}

#[test]
fn zsh_version_parse() {
    let out = "zsh 5.9 (x86_64-ubuntu-linux-gnu)";
    assert_eq!(detect_zsh_version(Some(out)), "zsh 5.9");
    assert_eq!(detect_zsh_version(Some("something else")), "zsh");
    assert_eq!(detect_zsh_version(None), "zsh");
}

#[test]
fn bash_version_parse() {
    let out = "GNU bash, version 5.1.16(1)-release (x86_64-pc-linux-gnu)\nmore";
    assert_eq!(detect_bash_version(Some(out)), "bash 5.1.16");
    let plain = "GNU bash, version 5.2.21 here";
    assert_eq!(detect_bash_version(Some(plain)), "bash 5.2.21");
    assert_eq!(detect_bash_version(None), "bash");
}

#[test]
fn fish_version_parse() {
    assert_eq!(detect_fish_version(Some("fish, version 3.6.1")), "fish 3.6.1");
    assert_eq!(detect_fish_version(Some("fish 3.6.1")), "fish");
    assert_eq!(detect_fish_version(None), "fish");
}

#[test]
fn ini_key_search() {
    let ini = "# settings\n[Settings]\ngtk-theme-name = \"Arc-Dark\"\ngtk-icon-theme-name=Papirus\n";
    assert_eq!(
        search_content_for_key(ini, "gtk-theme-name").as_deref(),
        Some("Arc-Dark")
    );
    assert_eq!(
        search_content_for_key(ini, "gtk-icon-theme-name").as_deref(),
        Some("Papirus")
    );
    assert_eq!(search_content_for_key(ini, "cursor-theme"), None);
    assert_eq!(search_content_for_key("key =\n", "key"), None);
}

#[test]
fn gtkrc_theme_line() {
    let rc = "# gtk 2\ninclude \"x\"\ngtk-theme-name=\"Breeze\"\n";
    assert_eq!(gtkrc_theme_name(rc).as_deref(), Some("Breeze"));
    assert_eq!(gtkrc_theme_name("nothing here\n"), None);
}

#[test]
fn index_theme_inheritance() {
    let idx = "[Icon Theme]\nName=Default\nInherits=Papirus\n";
    assert_eq!(index_theme_inherits(idx).as_deref(), Some("Papirus"));
    assert_eq!(index_theme_inherits("[Icon Theme]\nName=X\n"), None);
}

#[test]
fn desktop_families() {
    assert_eq!(desktop_family("ubuntu:GNOME"), DesktopFamily::GnomeLike);
    assert_eq!(desktop_family("Budgie:GNOME"), DesktopFamily::GnomeLike);
    assert_eq!(desktop_family("KDE"), DesktopFamily::Kde);
    assert_eq!(desktop_family("XFCE"), DesktopFamily::Xfce);
    assert_eq!(desktop_family("sway"), DesktopFamily::Other);
}

#[test]
fn wm_labels() {
    assert_eq!(wm_label("wayland", "ubuntu:GNOME"), "Mutter");
    assert_eq!(wm_label("wayland", "KDE"), "KWin");
    assert_eq!(wm_label("wayland", "sway"), "Unknown");
    assert_eq!(wm_label("x11", "GNOME"), "Unknown");
}

#[test]
fn os_labels() {
    assert_eq!(
        os_label("Linux", "Ubuntu 22.04 LTS", "x86_64"),
        "Ubuntu 22.04 LTS x86_64"
    );
    assert_eq!(os_label("Darwin", "ignored", "arm64"), "Darwin arm64");
}

#[test]
fn env_cache_lookup() {
    let mut cache = EnvCache::new();
    cache.set("SHELL".to_string(), "/bin/zsh".to_string());
    cache.set("TERM".to_string(), "xterm".to_string());
    assert_eq!(cache.get_env_var("SHELL", "sh"), "/bin/zsh");
    assert_eq!(cache.get_env_var("TERM", "dumb"), "xterm");
    assert_eq!(cache.get_env_var("DISPLAY", ":0"), ":0");
}
