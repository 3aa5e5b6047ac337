use grpsqlite::batch::{apply_batch, touched_page_list};
use grpsqlite::env_config::{parse_bool, parse_number, EnvConfig};
use grpsqlite::file_state::{BatchWrite, FileState};
use grpsqlite::page::{
    decimal_string, overlay_bytes, page_key, page_offset, window_bytes, within_page, PAGE_SIZE,
};
use grpsqlite::path_table::PathTable;

#[test]
fn offsets_split_into_page_and_position() {
    assert_eq!(PAGE_SIZE, 4096);
    assert_eq!(page_offset(0), 0);
    assert_eq!(within_page(0), 0);
    assert_eq!(page_offset(4095), 0);
    assert_eq!(within_page(4095), 4095);
    assert_eq!(page_offset(4096), 4096);
    assert_eq!(within_page(4096), 0);
    assert_eq!(page_offset(5000), 4096);
    assert_eq!(within_page(5000), 904);
    assert_eq!(page_offset(usize::MAX), usize::MAX - 4095);
    assert_eq!(within_page(usize::MAX), 4095);
    for offset in [1usize, 17, 4097, 123_456_789, usize::MAX - 1] {
        assert_eq!(page_offset(offset), (offset / PAGE_SIZE) * PAGE_SIZE);
        assert_eq!(page_offset(offset) + within_page(offset), offset);
    }
}

#[test]
fn page_keys_are_path_infix_and_offset() {
    assert_eq!(page_key("a.db", 0), "a.db:page:0");
    assert_eq!(page_key("a.db", 4096), "a.db:page:4096");
    assert_eq!(page_key("", 8192), ":page:8192");
    assert_eq!(page_key("dir/ü.db", 40960), "dir/ü.db:page:40960");
    assert_eq!(page_key("a", usize::MAX), format!("a:page:{}", usize::MAX));
}

#[test]
fn numbers_are_written_in_base_ten() {
    assert_eq!(decimal_string(0), "0");
    assert_eq!(decimal_string(7), "7");
    assert_eq!(decimal_string(10), "10");
    assert_eq!(decimal_string(4096), "4096");
    assert_eq!(decimal_string(1234567890), "1234567890");
    assert_eq!(decimal_string(usize::MAX), usize::MAX.to_string());
}

#[test]
fn a_write_is_laid_over_the_page() {
    assert_eq!(overlay_bytes(vec![], 0, b"abc"), b"abc".to_vec());
    assert_eq!(overlay_bytes(vec![], 2, b"abc"), vec![0, 0, b'a', b'b', b'c']);
    assert_eq!(overlay_bytes(b"0123456789".to_vec(), 3, b"abc"), b"012abc6789".to_vec());
    assert_eq!(overlay_bytes(b"0123".to_vec(), 2, b"abcd"), b"01abcd".to_vec());
    assert_eq!(overlay_bytes(b"0123".to_vec(), 4, b"ab"), b"0123ab".to_vec());
    assert_eq!(overlay_bytes(b"01".to_vec(), 4, b""), vec![b'0', b'1', 0, 0]);
    assert_eq!(overlay_bytes(b"0123".to_vec(), 1, b""), b"0123".to_vec());
}

#[test]
fn a_read_takes_what_the_page_holds() {
    let page = b"0123456789".to_vec();
    assert_eq!(window_bytes(&page, 0, 10), page);
    assert_eq!(window_bytes(&page, 0, 100), page);
    assert_eq!(window_bytes(&page, 4, 3), b"456".to_vec());
    assert_eq!(window_bytes(&page, 9, 5), b"9".to_vec());
    assert_eq!(window_bytes(&page, 10, 5), Vec::<u8>::new());
    assert_eq!(window_bytes(&page, 11, 5), Vec::<u8>::new());
    assert_eq!(window_bytes(&page, 3, 0), Vec::<u8>::new());
    assert_eq!(window_bytes(&page, usize::MAX, usize::MAX), Vec::<u8>::new());
    assert_eq!(window_bytes(&page, 2, usize::MAX), b"23456789".to_vec());
}

fn write(offset: usize, data: &[u8]) -> BatchWrite {
    BatchWrite { offset, data: data.to_vec() }
}

#[test]
fn touched_pages_come_in_order_of_first_touch() {
    assert_eq!(touched_page_list(&vec![]), Vec::<usize>::new());
    let writes = vec![
        write(9000, b"a"),
        write(10, b"b"),
        write(8192, b"c"),
        write(4095, b"d"),
        write(4096, b"e"),
    ];
    assert_eq!(touched_page_list(&writes), vec![8192, 0, 4096]);
}

#[test]
fn a_batch_is_applied_to_a_page_in_order() {
    let writes = vec![
        write(0, b"aaaaaaaa"),
        write(4096, b"zzzz"),
        write(4, b"bbbbbbbb"),
        write(2, b"cc"),
    ];
    assert_eq!(apply_batch(vec![], &writes, 0), b"aaccbbbbbbbb".to_vec());
    assert_eq!(apply_batch(b"0123456789abcdef".to_vec(), &writes, 0), b"aaccbbbbbbbbcdef".to_vec());
    assert_eq!(apply_batch(b"01".to_vec(), &writes, 4096), b"zzzz".to_vec());
    assert_eq!(apply_batch(b"01".to_vec(), &writes, 8192), b"01".to_vec());
}

#[test]
fn file_state_buffers_and_hands_out() {
    let mut state = FileState::new();
    assert!(!state.batch_open());
    state.set_batch_open(true);
    assert!(state.batch_open());
    state.buffer(write(1, b"x"));
    state.buffer(write(2, b"y"));
    let taken = state.take_pending();
    assert_eq!(taken.len(), 2);
    assert_eq!(taken[0].offset, 1);
    assert_eq!(taken[1].data, b"y".to_vec());
    assert!(state.batch_open());
    assert!(state.take_pending().is_empty());
}

#[test]
fn path_table_holds_one_entry_per_path() {
    let mut table: PathTable<u64> = PathTable::new();
    assert!(table.is_empty());
    assert!(!table.contains("a"));
    table.insert("a", 1);
    table.insert("b", 2);
    table.insert("a", 3);
    assert!(!table.is_empty());
    assert_eq!(table.get("a"), Some(&3));
    assert_eq!(table.get("b"), Some(&2));
    assert_eq!(table.get("c"), None);
    assert_eq!(table.remove("a"), Some(3));
    assert_eq!(table.remove("a"), None);
    assert!(table.contains("b"));
    assert_eq!(table.remove("b"), Some(2));
    assert!(table.is_empty());
}

#[test]
fn numbers_are_read_as_the_standard_library_reads_them() {
    let texts = [
        "", "+", "-", "0", "7", "10", "+10", "-10", "007", "+007", "++1", "1+", " 1", "1 ", "1_000",
        "12a", "a12", "4294967295", "4294967296", "18446744073709551615", "18446744073709551616",
        "99999999999999999999999", "0000000000000000000000000000001", "١٢", "1.5", "0x10",
    ];
    for text in texts {
        assert_eq!(parse_number(text, u64::MAX), text.parse::<u64>().ok(), "{:?}", text);
        assert_eq!(
            parse_number(text, u32::MAX as u64),
            text.parse::<u32>().ok().map(|n| n as u64),
            "{:?}",
            text
        );
    }
    assert_eq!(parse_number("5", 4), None);
    assert_eq!(parse_number("4", 4), Some(4));
    assert_eq!(parse_number("0", 0), Some(0));
    assert_eq!(parse_number("1", 0), None);
}

#[test]
fn truth_values_are_read_as_the_standard_library_reads_them() {
    for text in ["true", "false", "", "True", "TRUE", "1", "0", "yes", " true", "true ", "truefalse"] {
        assert_eq!(parse_bool(text), text.parse::<bool>().ok(), "{:?}", text);
    }
}

#[test]
fn settings_default_where_nothing_is_set() {
    let config = EnvConfig::new(None, None, None, None, None, None, None);
    assert_eq!(config.grpc_vfs_url, "http://localhost:50051");
    assert_eq!(config.grpc_vfs_connect_timeout_secs, 10);
    assert_eq!(config.local_cache_dir, None);
    assert_eq!(config.max_cache_bytes, None);
    assert!(!config.local_reads);
    assert!(!config.preload_cache);
    assert_eq!(config.preload_cache_concurrency, 4);
}

#[test]
fn settings_take_what_is_set() {
    let text = |s: &str| Some(s.to_string());
    let config = EnvConfig::new(
        text("http://example.org:1"),
        text("30"),
        text("/tmp/cache"),
        text("1048576"),
        text("true"),
        text("true"),
        text("16"),
    );
    assert_eq!(config.grpc_vfs_url, "http://example.org:1");
    assert_eq!(config.grpc_vfs_connect_timeout_secs, 30);
    assert_eq!(config.local_cache_dir, Some("/tmp/cache".to_string()));
    assert_eq!(config.max_cache_bytes, Some(1048576));
    assert!(config.local_reads);
    assert!(config.preload_cache);
    assert_eq!(config.preload_cache_concurrency, 16);
}

#[test]
fn settings_default_where_the_text_is_no_value() {
    let text = |s: &str| Some(s.to_string());
    let config = EnvConfig::new(
        text(""),
        text("soon"),
        text(""),
        text("-1"),
        text("yes"),
        text("false"),
        text("4294967296"),
    );
    assert_eq!(config.grpc_vfs_url, "");
    assert_eq!(config.grpc_vfs_connect_timeout_secs, 10);
    assert_eq!(config.local_cache_dir, Some(String::new()));
    assert_eq!(config.max_cache_bytes, None);
    assert!(!config.local_reads);
    assert!(!config.preload_cache);
    assert_eq!(config.preload_cache_concurrency, 4);
    let config = EnvConfig::new(None, text("18446744073709551616"), None, None, None, None, text("0"));
    assert_eq!(config.grpc_vfs_connect_timeout_secs, 10);
    assert_eq!(config.preload_cache_concurrency, 0);
}
