use bitdex::server::memory::{
    is_fresh, memory_budget, parse_hex, parse_i64, read_mmap_inventory, read_range, read_rss_all, region_kind,
    split_lines, split_words, MemoryUse, MmapInventory, RegionKind, RssReading, DEFAULT_POD_LIMIT,
};

#[test]
fn lines_end_at_line_feeds() {
    assert_eq!(split_lines("a\r\nb\n\nc"), vec!["a", "b", "", "c"]);
    assert_eq!(split_lines("a\n"), vec!["a"]);
    assert_eq!(split_lines("a\r"), vec!["a\r"]);
    assert!(split_lines("").is_empty());
    for text in ["", "\n", "\r\n", "a\rb\n", "x\n\r\n\ny\r"] {
        assert_eq!(split_lines(text), text.lines().collect::<Vec<_>>());
    }
}

#[test]
fn words_are_split_at_white_space() {
    assert_eq!(split_words("  VmRSS:\t 12 kB "), vec!["VmRSS:", "12", "kB"]);
    assert!(split_words(" \t ").is_empty());
    for text in ["a b", " a\u{2003}b ", "\u{a0}x"] {
        assert_eq!(split_words(text), text.split_whitespace().collect::<Vec<_>>());
    }
}

#[test]
fn numbers_are_read_as_they_are_written() {
    for text in ["0", "-0", "+5", "-9223372036854775808", "9223372036854775807", "9223372036854775808", "", "-", "1x"] {
        assert_eq!(parse_i64(text), text.parse::<i64>().ok(), "{text}");
    }
    for text in ["0", "7f3A", "ffffffffffffffff", "10000000000000000", "", "+a", "-a", "g"] {
        assert_eq!(parse_hex(text), u64::from_str_radix(text, 16).ok(), "{text}");
    }
}

#[test]
fn the_status_tells_the_memory() {
    let status = "Name:\tbitdex\nVmRSS:\t  1000 kB\nRssAnon:\t 600 kB\nRssFile:\t 300 kB\nRssShmem:\t100 kB\n";
    let expected = RssReading { rss: 1_024_000, anon: 614_400, file: 307_200, shmem: 102_400 };
    assert_eq!(read_rss_all(status), expected);
    assert_eq!(read_rss_all("VmRSS: none"), RssReading { rss: 0, anon: 0, file: 0, shmem: 0 });
}

#[test]
fn regions_are_sorted_by_their_path() {
    assert_eq!(region_kind(""), RegionKind::Anon);
    assert_eq!(region_kind("[heap]"), RegionKind::Anon);
    assert_eq!(region_kind("/data/wal/3.bin"), RegionKind::Wal);
    assert_eq!(region_kind("/x/a.wal"), RegionKind::Wal);
    assert_eq!(region_kind("/data/indexes/a/docs/1"), RegionKind::Tuple);
    assert_eq!(region_kind("/data/indexes/a/bitmaps/1"), RegionKind::Shard);
    assert_eq!(region_kind("/data/other"), RegionKind::DataOther);
    assert_eq!(region_kind("/usr/lib/libc.so"), RegionKind::Other);
    assert_eq!(read_range("1000-3000"), Some(0x2000));
    assert_eq!(read_range("3000-1000"), Some(0));
    assert_eq!(read_range("3000"), None);
}

#[test]
fn mapped_regions_add_up() {
    let maps = "1000-3000 r--p 00000000 08:01 12   /data/x/docs/a\n\
                3000-4000 rw-p 00000000 00:00 0\n\
                4000-4000 rw-p 00000000 00:00 0 /data/wal/z\n\
                broken line\n\
                5000-6000 rw-p 00000000 00:00 0 [stack]\n\
                6000-7000 r-xp 00000000 08:01 9 /usr/bin/bitdex\n";
    let expected = MmapInventory { tuple: 0x2000, shard: 0, wal: 0, data_other: 0, anon: 0x2000, other: 0x1000 };
    assert_eq!(read_mmap_inventory(maps), expected);
    assert!(is_fresh(200, 100));
    assert!(!is_fresh(250, 100));
    assert!(!is_fresh(10, 0));
}

#[test]
fn documents_get_what_is_safe() {
    let gb = 1_000_000_000u64;
    let used = MemoryUse {
        rss: 20 * gb,
        alive_bitmap: gb,
        filter_bitmaps: 5 * gb,
        sort_bitmaps: 2 * gb,
        unified_cache: gb,
        doc_cache: 3 * gb,
    };
    let budget = memory_budget(used, DEFAULT_POD_LIMIT);
    assert_eq!(budget.bitmap_total, 8 * gb);
    assert_eq!(budget.tracked_total, 12 * gb);
    assert_eq!(budget.untracked, 8 * gb);
    assert_eq!(budget.headroom, DEFAULT_POD_LIMIT - 20 * gb);
    assert_eq!(budget.safe_doc_cache_max, DEFAULT_POD_LIMIT - 17 * gb - 2_147_483_648);
    assert_eq!(memory_budget(used, gb).safe_doc_cache_max, 0);
}
