use way_edges::meminfo::{ram_info, swap_info, try_ram_info, try_swap_info, MemInfo};

const SAMPLE: &str = "MemTotal:       16318320 kB\nMemFree:         1216452 kB\nMemAvailable:    8839564 kB\nBuffers:          612604 kB\nSwapTotal:       8388604 kB\nSwapFree:        8126460 kB\n";

#[test]
fn ram_info_reads_available_and_total() {
    assert_eq!(ram_info(SAMPLE), (8839564, 16318320));
}

#[test]
fn swap_info_reads_used_and_total() {
    assert_eq!(swap_info(SAMPLE), (8388604 - 8126460, 8388604));
}

#[test]
fn missing_lines_give_none() {
    assert_eq!(try_ram_info("MemTotal: 10 kB\n"), None);
    assert_eq!(try_swap_info("SwapTotal: 10 kB\n"), None);
    assert_eq!(try_ram_info(""), None);
}

#[test]
fn bad_numbers_give_none() {
    assert_eq!(try_ram_info("MemTotal: x kB\nMemAvailable: 3 kB\n"), None);
    assert_eq!(try_ram_info("MemTotal:\nMemAvailable: 3 kB\n"), None);
    // free larger than total cannot be subtracted
    assert_eq!(try_swap_info("SwapTotal: 3 kB\nSwapFree: 5 kB\n"), None);
}

#[test]
fn last_ram_line_wins_and_crlf_is_handled() {
    let t = "MemAvailable: 1 kB\r\nMemTotal: 9 kB\r\nMemAvailable: 2 kB\r\n";
    assert_eq!(try_ram_info(t), Some((2, 9)));
}

#[test]
fn swap_reading_stops_once_both_seen() {
    let t = "SwapFree: 1 kB\nSwapTotal: 4 kB\nSwapFree: 9 kB\n";
    assert_eq!(try_swap_info(t), Some((3, 4)));
    let t = "SwapFree: 1 kB\nSwapFree: 2 kB\nSwapTotal: 4 kB\n";
    assert_eq!(try_swap_info(t), Some((2, 4)));
}

#[test]
fn plus_sign_and_overflow() {
    assert_eq!(try_ram_info("MemTotal: +7 kB\nMemAvailable: 3 kB\n"), Some((3, 7)));
    assert_eq!(try_ram_info("MemTotal: 18446744073709551616 kB\nMemAvailable: 3 kB\n"), None);
    assert_eq!(try_ram_info("MemTotal: 18446744073709551615 kB\nMemAvailable: 3 kB\n"), Some((3, 18446744073709551615)));
}

#[test]
fn mem_info_store_keeps_last_figures() {
    let mut m = MemInfo::new();
    assert_eq!(m.get_ram_info(), None);
    assert_eq!(m.get_swap_info(), None);
    m.update(SAMPLE);
    assert_eq!(m.get_ram_info(), Some((8839564, 16318320)));
    assert_eq!(m.get_swap_info(), Some((262144, 8388604)));
    m.update_ram_info((1, 2));
    assert_eq!(m.get_ram_info(), Some((1, 2)));
    assert_eq!(m.get_swap_info(), Some((262144, 8388604)));
}
