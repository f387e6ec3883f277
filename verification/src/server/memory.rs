//! Where the memory goes.

use crate::text::{
    begins_with, dec, ends_with, has_part, has_text, is_white, is_white_char, slice_text, to_chars, views,
};
use vstd::prelude::*;
use vstd::string::*;

verus! {

/// The first position from `i` on at which a line ends.
pub open spec fn line_end(s: Seq<char>, i: int) -> int
    decreases s.len() - i,
{
    if i >= s.len() {
        s.len() as int
    } else if s[i] == '\n' {
        i
    } else {
        line_end(s, i + 1)
    }
}

/// Where a line ends that begins at `i` and is ended at `end`: before a carriage return in front of
/// the line feed.
pub open spec fn text_end(s: Seq<char>, i: int, end: int) -> int {
    if i < end < s.len() && s[end - 1] == '\r' {
        end - 1
    } else {
        end
    }
}

/// A line does not end before it begins.
pub proof fn lemma_line_end(s: Seq<char>, i: int)
    requires
        0 <= i <= s.len(),
    ensures
        i <= line_end(s, i) <= s.len(),
    decreases s.len() - i,
{
    if i < s.len() && s[i] != '\n' {
        lemma_line_end(s, i + 1);
    }
}

/// The lines of a text from position `i` on.
pub open spec fn lines_from(s: Seq<char>, i: int) -> Seq<Seq<char>>
    decreases s.len() - i,
    when 0 <= i
{
    if i >= s.len() {
        Seq::empty()
    } else {
        proof {
            lemma_line_end(s, i);
        }
        let end = line_end(s, i);
        let line = s.subrange(i, text_end(s, i, end));
        if end >= s.len() {
            seq![line]
        } else {
            seq![line] + lines_from(s, end + 1)
        }
    }
}

/// The lines of a text.
pub open spec fn lines_of(s: Seq<char>) -> Seq<Seq<char>> {
    lines_from(s, 0)
}

/// Splits a text into its lines.
pub fn split_lines(s: &str) -> (r: Vec<String>)
    ensures
        views(r@) == lines_of(s@),
{
    let v = to_chars(s);
    let len: usize = v.len();
    let mut lines: Vec<String> = Vec::new();
    let mut begin: usize = 0;
    let mut i: usize = 0;
    assert(views(lines@) + lines_from(v@, 0) =~= lines_of(v@));
    while i < len
        invariant
            begin <= i <= len,
            len == v@.len(),
            line_end(v@, begin as int) == line_end(v@, i as int),
            views(lines@) + lines_from(v@, begin as int) == lines_of(v@),
        decreases len - i,
    {
        if v[i] == '\n' {
            let to: usize = if i > begin && v[i - 1] == '\r' { i - 1 } else { i };
            let line = slice_text(&v, begin, to);
            let ghost before = views(lines@);
            lines.push(line);
            assert(views(lines@) =~= before.push(line@));
            begin = i + 1;
            assert(views(lines@) + lines_from(v@, begin as int) =~= lines_of(v@));
        }
        i = i + 1;
    }
    if begin < len {
        let line = slice_text(&v, begin, len);
        let ghost before = views(lines@);
        lines.push(line);
        assert(views(lines@) =~= before.push(line@));
    }
    assert(views(lines@) =~= lines_of(v@));
    lines
}

/// The first position from `i` on that is white space, or that is not.
pub open spec fn next_white(s: Seq<char>, i: int, white: bool) -> int
    decreases s.len() - i,
{
    if i >= s.len() {
        s.len() as int
    } else if is_white(s[i]) == white {
        i
    } else {
        next_white(s, i + 1, white)
    }
}

/// What comes next does not stand before.
pub proof fn lemma_next_white(s: Seq<char>, i: int, white: bool)
    requires
        0 <= i <= s.len(),
    ensures
        i <= next_white(s, i, white) <= s.len(),
        next_white(s, i, white) < s.len() ==> is_white(s[next_white(s, i, white)]) == white,
    decreases s.len() - i,
{
    if i < s.len() && is_white(s[i]) != white {
        lemma_next_white(s, i + 1, white);
    }
}

/// The words of a line from position `i` on.
pub open spec fn words_from(s: Seq<char>, i: int) -> Seq<Seq<char>>
    decreases s.len() - i,
    when 0 <= i <= s.len()
{
    let begin = next_white(s, i, false);
    if begin >= s.len() {
        Seq::empty()
    } else {
        proof {
            lemma_next_white(s, i, false);
            lemma_next_white(s, begin + 1, true);
        }
        let end = next_white(s, begin + 1, true);
        seq![s.subrange(begin, end)] + words_from(s, end)
    }
}

/// The words of a line.
pub open spec fn words_of(s: Seq<char>) -> Seq<Seq<char>> {
    words_from(s, 0)
}

fn find_white(v: &Vec<char>, from: usize, white: bool) -> (r: usize)
    requires
        from <= v@.len(),
    ensures
        r == next_white(v@, from as int, white),
        from <= r <= v@.len(),
{
    let mut i: usize = from;
    while i < v.len()
        invariant
            from <= i <= v@.len(),
            next_white(v@, from as int, white) == next_white(v@, i as int, white),
        decreases v@.len() - i,
    {
        if is_white_char(v[i]) == white {
            return i;
        }
        i = i + 1;
    }
    i
}

/// Splits a line into its words.
pub fn split_words(s: &str) -> (r: Vec<String>)
    ensures
        views(r@) == words_of(s@),
{
    let v = to_chars(s);
    let mut words: Vec<String> = Vec::new();
    let mut i: usize = 0;
    assert(views(words@) + words_from(v@, 0) =~= words_of(v@));
    while i < v.len()
        invariant
            i <= v@.len(),
            views(words@) + words_from(v@, i as int) == words_of(v@),
        decreases v@.len() - i,
    {
        let begin = find_white(&v, i, false);
        if begin == v.len() {
            assert(words_from(v@, i as int) =~= words_from(v@, begin as int));
            i = begin;
        } else {
            let end = find_white(&v, begin + 1, true);
            let word = slice_text(&v, begin, end);
            let ghost before = views(words@);
            words.push(word);
            assert(views(words@) =~= before.push(word@));
            assert(views(words@) + words_from(v@, end as int) =~= before + words_from(v@, i as int));
            i = end;
        }
    }
    assert(views(words@) =~= words_of(v@));
    words
}

/// The value of a digit, decimal or hexadecimal.
pub open spec fn digit_value(c: char, hex: bool) -> Option<int> {
    if '0' <= c <= '9' {
        Some(c as int - '0' as int)
    } else if hex && 'a' <= c <= 'f' {
        Some(c as int - 'a' as int + 10)
    } else if hex && 'A' <= c <= 'F' {
        Some(c as int - 'A' as int + 10)
    } else {
        None
    }
}

/// The number that digits write.
pub open spec fn number_value(s: Seq<char>, hex: bool) -> Option<int>
    decreases s.len(),
{
    if s.len() == 0 {
        Some(0)
    } else {
        match (number_value(s.drop_last(), hex), digit_value(s.last(), hex)) {
            (Some(high), Some(low)) => Some(
                (if hex {
                    high * 16
                } else {
                    high * 10
                }) + low,
            ),
            _ => None,
        }
    }
}

/// The number that digits write, of which there is at least one, up to a greatest one.
pub open spec fn bounded_value(s: Seq<char>, hex: bool, max: int) -> Option<int> {
    match number_value(s, hex) {
        Some(n) if s.len() > 0 && n <= max => Some(n),
        _ => None,
    }
}

proof fn lemma_number_grows(s: Seq<char>, hex: bool, n: int)
    requires
        0 <= n <= s.len(),
        number_value(s, hex) is Some,
    ensures
        number_value(s.take(n), hex) is Some,
        0 <= number_value(s.take(n), hex)->0 <= number_value(s, hex)->0,
    decreases s.len(),
{
    if n == s.len() {
        assert(s.take(n) =~= s);
        if s.len() > 0 {
            lemma_number_grows(s.drop_last(), hex, n - 1);
            assert(s.drop_last().take(n - 1) =~= s.drop_last());
        }
    } else {
        lemma_number_grows(s.drop_last(), hex, n);
        assert(s.drop_last().take(n) =~= s.take(n));
    }
}

fn read_digit(c: char, hex: bool) -> (r: Option<u64>)
    ensures
        match r {
            Some(d) => digit_value(c, hex) == Some(d as int) && d < 16,
            None => digit_value(c, hex) is None,
        },
{
    if c >= '0' && c <= '9' {
        Some((c as u32 - '0' as u32) as u64)
    } else if hex && c >= 'a' && c <= 'f' {
        Some((c as u32 - 'a' as u32 + 10) as u64)
    } else if hex && c >= 'A' && c <= 'F' {
        Some((c as u32 - 'A' as u32 + 10) as u64)
    } else {
        None
    }
}

/// Reads the number that the characters from `start` on write.
pub fn read_number(v: &Vec<char>, start: usize, hex: bool, max: u64) -> (r: Option<u64>)
    requires
        start <= v@.len(),
    ensures
        match r {
            Some(n) => bounded_value(v@.skip(start as int), hex, max as int) == Some(n as int),
            None => bounded_value(v@.skip(start as int), hex, max as int) is None,
        },
{
    if start == v.len() {
        return None;
    }
    let ghost digits = v@.skip(start as int);
    let mut value: u64 = 0;
    let mut i: usize = start;
    assert(digits.take(0) =~= Seq::<char>::empty());
    while i < v.len()
        invariant
            start <= i <= v@.len(),
            digits == v@.skip(start as int),
            number_value(digits.take(i - start), hex) == Some(value as int),
            value <= max,
        decreases v@.len() - i,
    {
        let ghost next = digits.take(i + 1 - start);
        assert(next.drop_last() =~= digits.take(i - start));
        assert(next.last() == v@[i as int]);
        proof {
            if number_value(digits, hex) is Some {
                lemma_number_grows(digits, hex, i + 1 - start);
            }
        }
        match read_digit(v[i], hex) {
            None => {
                return None;
            },
            Some(d) => {
                let wide: u128 = if hex { value as u128 * 16 + d as u128 } else { value as u128 * 10 + d as u128 };
                if wide > max as u128 {
                    return None;
                }
                value = wide as u64;
            },
        }
        i = i + 1;
    }
    assert(digits.take(digits.len() as int) =~= digits);
    Some(value)
}

/// The signed number that a text writes.
pub open spec fn signed_value(s: Seq<char>) -> Option<int> {
    if s.len() > 0 && s[0] == '-' {
        match bounded_value(s.skip(1), false, 0x8000_0000_0000_0000) {
            Some(n) => Some(-n),
            None => None,
        }
    } else if s.len() > 0 && s[0] == '+' {
        bounded_value(s.skip(1), false, i64::MAX as int)
    } else {
        bounded_value(s, false, i64::MAX as int)
    }
}

/// Reads a signed number.
pub fn parse_i64(s: &str) -> (r: Option<i64>)
    ensures
        match r {
            Some(n) => signed_value(s@) == Some(n as int),
            None => signed_value(s@) is None,
        },
{
    let v = to_chars(s);
    assert(v@.skip(0) =~= v@);
    if v.len() > 0 && v[0] == '-' {
        match read_number(&v, 1, false, 0x8000_0000_0000_0000) {
            Some(n) => if n == 0x8000_0000_0000_0000 {
                Some(i64::MIN)
            } else {
                Some(-(n as i64))
            },
            None => None,
        }
    } else {
        let start: usize = if v.len() > 0 && v[0] == '+' { 1 } else { 0 };
        match read_number(&v, start, false, 0x7fff_ffff_ffff_ffff) {
            Some(n) => Some(n as i64),
            None => None,
        }
    }
}

/// The number that a text writes in hexadecimal digits.
pub open spec fn hex_value(s: Seq<char>) -> Option<int> {
    bounded_value(
        if s.len() > 0 && s[0] == '+' {
            s.skip(1)
        } else {
            s
        },
        true,
        u64::MAX as int,
    )
}

/// Reads a number in hexadecimal digits.
pub fn parse_hex(s: &str) -> (r: Option<u64>)
    ensures
        match r {
            Some(n) => hex_value(s@) == Some(n as int),
            None => hex_value(s@) is None,
        },
{
    let v = to_chars(s);
    assert(v@.skip(0) =~= v@);
    let start: usize = if v.len() > 0 && v[0] == '+' { 1 } else { 0 };
    read_number(&v, start, true, 0xffff_ffff_ffff_ffff)
}

/// The memory of the process, in bytes: all of it, and by what it holds.
#[derive(Debug, Clone, Copy, PartialEq, Eq, Structural)]
pub struct RssReading {
    pub rss: i64,
    pub anon: i64,
    pub file: i64,
    pub shmem: i64,
}

/// The bytes that a line tells: its second word is a number of kilobytes.
pub open spec fn status_bytes(line: Seq<char>) -> Option<i64> {
    let words = words_of(line);
    if words.len() > 1 {
        match signed_value(words[1]) {
            Some(kb) => Some((kb as i64).wrapping_mul(1024)),
            None => None,
        }
    } else {
        None
    }
}

/// The reading after one more line.
pub open spec fn read_line(r: RssReading, line: Seq<char>) -> RssReading {
    match status_bytes(line) {
        Some(bytes) => if "VmRSS:"@.is_prefix_of(line) {
            RssReading { rss: bytes, ..r }
        } else if "RssAnon:"@.is_prefix_of(line) {
            RssReading { anon: bytes, ..r }
        } else if "RssFile:"@.is_prefix_of(line) {
            RssReading { file: bytes, ..r }
        } else if "RssShmem:"@.is_prefix_of(line) {
            RssReading { shmem: bytes, ..r }
        } else {
            r
        },
        None => r,
    }
}

/// The reading after the first `n` lines.
pub open spec fn reading_after(lines: Seq<Seq<char>>, n: int) -> RssReading
    decreases n,
{
    if n <= 0 {
        RssReading { rss: 0, anon: 0, file: 0, shmem: 0 }
    } else {
        read_line(reading_after(lines, n - 1), lines[n - 1])
    }
}

/// Reads the four numbers out of the status of the process. What is not told counts as zero.
pub fn read_rss_all(status: &str) -> (r: RssReading)
    ensures
        r == reading_after(lines_of(status@), lines_of(status@).len() as int),
{
    let lines = split_lines(status);
    let mut reading = RssReading { rss: 0, anon: 0, file: 0, shmem: 0 };
    let mut i: usize = 0;
    while i < lines.len()
        invariant
            i <= lines@.len(),
            reading == reading_after(views(lines@), i as int),
        decreases lines@.len() - i,
    {
        let line = lines[i].as_str();
        assert(views(lines@)[i as int] == line@);
        let words = split_words(line);
        if words.len() > 1 {
            assert(views(words@)[1] == words@[1]@);
            if let Some(kb) = parse_i64(words[1].as_str()) {
                let bytes = kb.wrapping_mul(1024);
                let v = to_chars(line);
                if begins_with(&v, "VmRSS:") {
                    reading.rss = bytes;
                } else if begins_with(&v, "RssAnon:") {
                    reading.anon = bytes;
                } else if begins_with(&v, "RssFile:") {
                    reading.file = bytes;
                } else if begins_with(&v, "RssShmem:") {
                    reading.shmem = bytes;
                }
            }
        }
        i = i + 1;
    }
    reading
}

/// What a mapped region holds.
#[derive(Debug, Clone, Copy, PartialEq, Eq, Structural)]
pub enum RegionKind {
    Tuple,
    Shard,
    Wal,
    DataOther,
    Anon,
    Other,
}

/// What a region holds, by the path that it is mapped from.
pub open spec fn kind_of(path: Seq<char>) -> RegionKind {
    if path.len() == 0 || "["@.is_prefix_of(path) {
        RegionKind::Anon
    } else if has_part(path, "/wal/"@) || ".wal"@.is_suffix_of(path) {
        RegionKind::Wal
    } else if has_part(path, "/docs/"@) || has_part(path, "/tuples/"@) {
        RegionKind::Tuple
    } else if has_part(path, "/bitmaps/"@) || has_part(path, "/shardstore/"@) || has_part(path, "/shards/"@) {
        RegionKind::Shard
    } else if "/data/"@.is_prefix_of(path) {
        RegionKind::DataOther
    } else {
        RegionKind::Other
    }
}

/// Tells what a region holds.
pub fn region_kind(path: &str) -> (r: RegionKind)
    ensures
        r == kind_of(path@),
{
    let v = to_chars(path);
    if v.len() == 0 || begins_with(&v, "[") {
        RegionKind::Anon
    } else if has_text(path, "/wal/") || ends_with(&v, ".wal") {
        RegionKind::Wal
    } else if has_text(path, "/docs/") || has_text(path, "/tuples/") {
        RegionKind::Tuple
    } else if has_text(path, "/bitmaps/") || has_text(path, "/shardstore/") || has_text(path, "/shards/") {
        RegionKind::Shard
    } else if begins_with(&v, "/data/") {
        RegionKind::DataOther
    } else {
        RegionKind::Other
    }
}

/// The first position from `i` on of a hyphen.
pub open spec fn hyphen_from(s: Seq<char>, i: int) -> Option<int>
    decreases s.len() - i,
{
    if i >= s.len() {
        None
    } else if s[i] == '-' {
        Some(i)
    } else {
        hyphen_from(s, i + 1)
    }
}

/// The length of the region that a range of addresses tells.
pub open spec fn range_len(range: Seq<char>) -> Option<u64> {
    match hyphen_from(range, 0) {
        Some(at) => match (hex_value(range.take(at)), hex_value(range.skip(at + 1))) {
            (Some(start), Some(end)) => Some(
                if end > start {
                    (end - start) as u64
                } else {
                    0
                },
            ),
            _ => None,
        },
        None => None,
    }
}

/// Reads the length of a region.
pub fn read_range(range: &str) -> (r: Option<u64>)
    ensures
        r == range_len(range@),
{
    let v = to_chars(range);
    let mut i: usize = 0;
    while i < v.len()
        invariant
            i <= v@.len(),
            v@ == range@,
            hyphen_from(v@, 0) == hyphen_from(v@, i as int),
        decreases v@.len() - i,
    {
        if v[i] == '-' {
            let from = slice_text(&v, 0, i);
            let to = slice_text(&v, i + 1, v.len());
            assert(from@ =~= range@.take(i as int));
            assert(to@ =~= range@.skip(i + 1));
            return match (parse_hex(from.as_str()), parse_hex(to.as_str())) {
                (Some(start), Some(end)) => if end > start {
                    Some(end - start)
                } else {
                    Some(0)
                },
                _ => None,
            };
        }
        i = i + 1;
    }
    None
}

/// The region that a line tells: what it holds and how long it is. No region where the line is
/// broken or the region is empty.
pub open spec fn region_of(line: Seq<char>) -> Option<(RegionKind, u64)> {
    let words = words_of(line);
    if words.len() == 0 {
        None
    } else {
        match range_len(words[0]) {
            Some(len) if len > 0 => Some(
                (
                    kind_of(
                        if words.len() > 5 {
                            words[5]
                        } else {
                            Seq::empty()
                        },
                    ),
                    len,
                ),
            ),
            _ => None,
        }
    }
}

/// Reads the region that a line tells.
pub fn read_region(line: &str) -> (r: Option<(RegionKind, u64)>)
    ensures
        r == region_of(line@),
{
    let words = split_words(line);
    if words.len() == 0 {
        return None;
    }
    assert(views(words@)[0] == words@[0]@);
    match read_range(words[0].as_str()) {
        Some(len) => if len > 0 {
            if words.len() > 5 {
                assert(views(words@)[5] == words@[5]@);
                Some((region_kind(words[5].as_str()), len))
            } else {
                Some((RegionKind::Anon, len))
            }
        } else {
            None
        },
        None => None,
    }
}

/// How many bytes are mapped, by what they hold.
#[derive(Debug, Clone, Copy, PartialEq, Eq, Structural)]
pub struct MmapInventory {
    pub tuple: u64,
    pub shard: u64,
    pub wal: u64,
    pub data_other: u64,
    pub anon: u64,
    pub other: u64,
}

/// The inventory with one region more.
pub open spec fn with_region(m: MmapInventory, kind: RegionKind, len: u64) -> MmapInventory {
    match kind {
        RegionKind::Tuple => MmapInventory { tuple: m.tuple.wrapping_add(len), ..m },
        RegionKind::Shard => MmapInventory { shard: m.shard.wrapping_add(len), ..m },
        RegionKind::Wal => MmapInventory { wal: m.wal.wrapping_add(len), ..m },
        RegionKind::DataOther => MmapInventory { data_other: m.data_other.wrapping_add(len), ..m },
        RegionKind::Anon => MmapInventory { anon: m.anon.wrapping_add(len), ..m },
        RegionKind::Other => MmapInventory { other: m.other.wrapping_add(len), ..m },
    }
}

/// The inventory of the first `n` lines.
pub open spec fn inventory_after(lines: Seq<Seq<char>>, n: int) -> MmapInventory
    decreases n,
{
    if n <= 0 {
        MmapInventory { tuple: 0, shard: 0, wal: 0, data_other: 0, anon: 0, other: 0 }
    } else {
        match region_of(lines[n - 1]) {
            Some((kind, len)) => with_region(inventory_after(lines, n - 1), kind, len),
            None => inventory_after(lines, n - 1),
        }
    }
}

impl MmapInventory {
    /// Adds a region.
    pub fn add_region(&mut self, kind: RegionKind, len: u64)
        ensures
            *final(self) == with_region(*old(self), kind, len),
    {
        match kind {
            RegionKind::Tuple => {
                self.tuple = self.tuple.wrapping_add(len);
            },
            RegionKind::Shard => {
                self.shard = self.shard.wrapping_add(len);
            },
            RegionKind::Wal => {
                self.wal = self.wal.wrapping_add(len);
            },
            RegionKind::DataOther => {
                self.data_other = self.data_other.wrapping_add(len);
            },
            RegionKind::Anon => {
                self.anon = self.anon.wrapping_add(len);
            },
            RegionKind::Other => {
                self.other = self.other.wrapping_add(len);
            },
        }
    }
}

/// Takes the inventory of a list of mapped regions.
pub fn read_mmap_inventory(maps: &str) -> (r: MmapInventory)
    ensures
        r == inventory_after(lines_of(maps@), lines_of(maps@).len() as int),
{
    let lines = split_lines(maps);
    let mut inventory = MmapInventory { tuple: 0, shard: 0, wal: 0, data_other: 0, anon: 0, other: 0 };
    let mut i: usize = 0;
    while i < lines.len()
        invariant
            i <= lines@.len(),
            inventory == inventory_after(views(lines@), i as int),
        decreases lines@.len() - i,
    {
        assert(views(lines@)[i as int] == lines@[i as int]@);
        if let Some((kind, len)) = read_region(lines[i].as_str()) {
            inventory.add_region(kind, len);
        }
        i = i + 1;
    }
    inventory
}

/// How long an inventory is good for, in seconds.
pub const MMAP_INVENTORY_REFRESH_SECS: u64 = 150;

/// Whether the last inventory is still good: one was taken, and not too long ago.
pub fn is_fresh(now: u64, last: u64) -> (r: bool)
    ensures
        r == (last != 0 && now - last < 150),
{
    now.saturating_sub(last) < MMAP_INVENTORY_REFRESH_SECS && last != 0
}

/// What is known of the memory.
#[derive(Debug, Clone, Copy, PartialEq, Eq, Structural)]
pub struct MemoryUse {
    pub rss: u64,
    pub alive_bitmap: u64,
    pub filter_bitmaps: u64,
    pub sort_bitmaps: u64,
    pub unified_cache: u64,
    pub doc_cache: u64,
}

/// What follows from it.
#[derive(Debug, Clone, Copy, PartialEq, Eq, Structural)]
pub struct MemoryBudget {
    pub bitmap_total: u64,
    pub tracked_total: u64,
    pub untracked: u64,
    pub headroom: u64,
    pub safe_doc_cache_max: u64,
}

/// The memory of a pod where nobody says.
pub const DEFAULT_POD_LIMIT: u64 = 34_359_738_368;

/// The memory that is left alone.
pub const MEMORY_RESERVE: u64 = 2_147_483_648;

/// What is left of `a` after `b`; nothing where that is less.
pub open spec fn left(a: int, b: int) -> int {
    if a > b {
        a - b
    } else {
        0
    }
}

/// The memory that is tracked but for the documents.
pub open spec fn other_tracked(m: MemoryUse) -> int {
    m.alive_bitmap + m.filter_bitmaps + m.sort_bitmaps + m.unified_cache
}

/// The memory that is not tracked.
pub open spec fn untracked(m: MemoryUse) -> int {
    left(m.rss as int, other_tracked(m) + m.doc_cache)
}

/// How much the documents may take: what the rest and a reserve leave of the pod's memory.
pub open spec fn safe_doc_cache(m: MemoryUse, pod_limit: u64) -> int {
    left(pod_limit as int, other_tracked(m) + untracked(m) + MEMORY_RESERVE)
}

/// Works out where the memory goes and how much of it the documents may take.
pub fn memory_budget(m: MemoryUse, pod_limit: u64) -> (r: MemoryBudget)
    requires
        other_tracked(m) + m.doc_cache <= u64::MAX,
    ensures
        r.bitmap_total == m.alive_bitmap + m.filter_bitmaps + m.sort_bitmaps,
        r.tracked_total == other_tracked(m) + m.doc_cache,
        r.untracked == untracked(m),
        r.headroom == left(pod_limit as int, m.rss as int),
        r.safe_doc_cache_max == safe_doc_cache(m, pod_limit),
{
    let bitmap_total: u64 = m.alive_bitmap + m.filter_bitmaps + m.sort_bitmaps;
    let tracked_total: u64 = bitmap_total + m.unified_cache + m.doc_cache;
    let untracked: u64 = m.rss.saturating_sub(tracked_total);
    let headroom: u64 = pod_limit.saturating_sub(m.rss);
    let non_doc: u64 = tracked_total.saturating_sub(m.doc_cache);
    let without: u64 = pod_limit.saturating_sub(non_doc);
    let within: u64 = without.saturating_sub(untracked);
    let safe_doc_cache_max: u64 = within.saturating_sub(MEMORY_RESERVE);
    MemoryBudget { bitmap_total, tracked_total, untracked, headroom, safe_doc_cache_max }
}

/// Documents that take what they may leave the reserve alone: with the rest of what is tracked and
/// all that is not, the memory stays within the pod's.
pub proof fn law_the_reserve_is_kept(m: MemoryUse, pod_limit: u64)
    requires
        safe_doc_cache(m, pod_limit) > 0,
    ensures
        other_tracked(m) + untracked(m) + safe_doc_cache(m, pod_limit) + MEMORY_RESERVE <= pod_limit,
{
}

/// A line of the status tells kilobytes in its second word, and each of the four names sets its own
/// number and no other; a line of another name, or without a number, sets none.
pub proof fn law_each_line_sets_its_own_number(r: RssReading, rest: Seq<char>, kb: int, line: Seq<char>)
    requires
        0 <= kb <= 0x1f_ffff_ffff_ffff,
    ensures
        ({
            let told = |key: Seq<char>|
                {
                    let words = words_of(key + rest);
                    words.len() > 1 && signed_value(words[1]) == Some(kb)
                };
            &&& told("VmRSS:"@) ==> read_line(r, "VmRSS:"@ + rest) == (RssReading { rss: (kb * 1024) as i64, ..r })
            &&& told("RssAnon:"@) ==> read_line(r, "RssAnon:"@ + rest) == (RssReading { anon: (kb * 1024) as i64, ..r })
            &&& told("RssFile:"@) ==> read_line(r, "RssFile:"@ + rest) == (RssReading { file: (kb * 1024) as i64, ..r })
            &&& told("RssShmem:"@) ==> read_line(r, "RssShmem:"@ + rest) == (RssReading {
                shmem: (kb * 1024) as i64,
                ..r
            })
            &&& !"VmRSS:"@.is_prefix_of(line) && !"RssAnon:"@.is_prefix_of(line) && !"RssFile:"@.is_prefix_of(line)
                && !"RssShmem:"@.is_prefix_of(line) ==> read_line(r, line) == r
            &&& words_of(line).len() < 2 ==> read_line(r, line) == r
        }),
{
    reveal_strlit("VmRSS:");
    reveal_strlit("RssAnon:");
    reveal_strlit("RssFile:");
    reveal_strlit("RssShmem:");
    let a = "VmRSS:"@ + rest;
    let b = "RssAnon:"@ + rest;
    let c = "RssFile:"@ + rest;
    let d = "RssShmem:"@ + rest;
    assert("VmRSS:"@.is_prefix_of(a));
    assert("RssAnon:"@.is_prefix_of(b));
    assert("RssFile:"@.is_prefix_of(c));
    assert("RssShmem:"@.is_prefix_of(d));
    assert(b[0] == 'R' && b[3] == 'A' && c[0] == 'R' && c[3] == 'F' && d[0] == 'R' && d[3] == 'S');
    assert("VmRSS:"@[0] == 'V' && "RssAnon:"@[3] == 'A' && "RssFile:"@[3] == 'F' && "RssShmem:"@[3] == 'S');
    lemma_prefix_at("VmRSS:"@, b, 0);
    lemma_prefix_at("VmRSS:"@, c, 0);
    lemma_prefix_at("VmRSS:"@, d, 0);
    lemma_prefix_at("RssAnon:"@, c, 3);
    lemma_prefix_at("RssAnon:"@, d, 3);
    lemma_prefix_at("RssFile:"@, d, 3);
}

proof fn lemma_prefix_at(p: Seq<char>, s: Seq<char>, i: int)
    requires
        0 <= i < p.len(),
        i < s.len(),
        p[i] != s[i],
    ensures
        !p.is_prefix_of(s),
{
    if p.is_prefix_of(s) {
        assert(s.subrange(0, p.len() as int)[i] == s[i]);
    }
}

/// A line falls into words: white space in front does not count, and the first word ends where white
/// space begins.
pub proof fn law_lines_fall_into_words(word: Seq<char>, c: char, rest: Seq<char>)
    requires
        word.len() > 0,
        forall|i: int| 0 <= i < word.len() ==> !is_white(#[trigger] word[i]),
        is_white(c),
    ensures
        words_of(word + seq![c] + rest) == seq![word] + words_of(rest),
        words_of(word) == seq![word],
        words_of(seq![c] + rest) == words_of(rest),
        words_of(Seq::empty()) == Seq::<Seq<char>>::empty(),
{
    let n = word.len() as int;
    let s = word + seq![c] + rest;
    let none = Seq::<char>::empty();
    assert(words_of(none) =~= Seq::<Seq<char>>::empty());
    assert forall|i: int| 0 <= i < n implies !is_white(s[i]) by {
        assert(s[i] == word[i]);
    }
    assert(next_white(s, 0, false) == 0);
    lemma_white_after(s, 1, n);
    assert(s.subrange(0, n) =~= word);
    lemma_words_behind(word + seq![c], rest, 0);
    assert(s =~= (word + seq![c]) + rest);
    lemma_next_white(s, n, false);
    assert(next_white(s, n, false) == next_white(s, n + 1, false));
    lemma_words_skip(s, n);
    assert(word.subrange(0, n) =~= word);
    assert(next_white(word, 0, false) == 0);
    lemma_white_after(word, 1, n);
    assert(words_from(word, n) =~= Seq::<Seq<char>>::empty());
    assert(words_of(word) =~= seq![word]);
    lemma_words_behind(seq![c], rest, 0);
    lemma_words_skip(seq![c] + rest, 0);
}

proof fn lemma_white_after(s: Seq<char>, i: int, n: int)
    requires
        0 <= i <= n <= s.len(),
        forall|k: int| i <= k < n ==> !is_white(s[k]),
        n == s.len() || is_white(s[n]),
    ensures
        next_white(s, i, true) == n,
    decreases n - i,
{
    if i < n {
        lemma_white_after(s, i + 1, n);
    }
}

proof fn lemma_words_skip(s: Seq<char>, i: int)
    requires
        0 <= i < s.len(),
        is_white(s[i]),
    ensures
        words_from(s, i) == words_from(s, i + 1),
{
    assert(next_white(s, i, false) == next_white(s, i + 1, false));
}

proof fn lemma_next_behind(front: Seq<char>, s: Seq<char>, i: int, white: bool)
    requires
        0 <= i <= s.len(),
    ensures
        next_white(front + s, front.len() + i, white) == front.len() + next_white(s, i, white),
    decreases s.len() - i,
{
    if i < s.len() {
        assert((front + s)[front.len() + i] == s[i]);
        lemma_next_behind(front, s, i + 1, white);
    }
}

proof fn lemma_words_behind(front: Seq<char>, s: Seq<char>, i: int)
    requires
        0 <= i <= s.len(),
    ensures
        words_from(front + s, front.len() + i) == words_from(s, i),
    decreases s.len() - i,
{
    let all = front + s;
    let f = front.len() as int;
    lemma_next_behind(front, s, i, false);
    lemma_next_white(s, i, false);
    let begin = next_white(s, i, false);
    if begin < s.len() {
        lemma_next_behind(front, s, begin + 1, true);
        lemma_next_white(s, begin + 1, true);
        let end = next_white(s, begin + 1, true);
        assert(all.subrange(f + begin, f + end) =~= s.subrange(begin, end));
        lemma_words_behind(front, s, end);
    }
}

/// Digits read back: a decimal number as what it is, with a minus as its opposite.
pub proof fn law_written_numbers_read_back(n: nat)
    requires
        n <= i64::MAX,
    ensures
        signed_value(dec(n)) == Some(n as int),
        signed_value(seq!['-'] + dec(n)) == Some(-(n as int)),
        signed_value(seq!['+'] + dec(n)) == Some(n as int),
{
    lemma_decimal_reads_back(n);
    let digits = dec(n);
    assert((seq!['-'] + digits).skip(1) =~= digits);
    assert((seq!['+'] + digits).skip(1) =~= digits);
    assert(digit_value(digits[0], false) is Some);
}

proof fn lemma_decimal_reads_back(n: nat)
    ensures
        dec(n).len() > 0,
        number_value(dec(n), false) == Some(n as int),
        digit_value(dec(n)[0], false) is Some,
    decreases n,
{
    let s = dec(n);
    if n < 10 {
        assert(s.drop_last() =~= Seq::<char>::empty());
        assert(number_value(s.drop_last(), false) == Some(0int));
    } else {
        lemma_decimal_reads_back(n / 10);
        assert(s.drop_last() =~= dec(n / 10));
        assert(s[0] == dec(n / 10)[0]);
    }
}

/// Hexadecimal digits read from the front, in either case.
pub proof fn law_hexadecimal_digits_read(s: Seq<char>, c: char, n: int, d: int)
    requires
        number_value(s, true) == Some(n),
        0 <= d < 16,
        ({
            ||| d < 10 && c as int == '0' as int + d
            ||| d >= 10 && c as int == 'a' as int + d - 10
            ||| d >= 10 && c as int == 'A' as int + d - 10
        }),
    ensures
        number_value(s.push(c), true) == Some(16 * n + d),
        number_value(Seq::empty(), true) == Some(0int),
{
    assert(s.push(c).drop_last() =~= s);
}

/// What a region holds goes by the path: a path in brackets, or none, is memory of the process itself;
/// a log goes before documents, documents before bitmaps, and these before anything else of the data.
pub proof fn law_regions_go_by_their_path(path: Seq<char>)
    ensures
        kind_of(Seq::empty()) is Anon,
        path.len() > 0 && path[0] == '[' ==> kind_of(path) is Anon,
        path.len() > 0 && path[0] != '[' ==> {
            let log = has_part(path, "/wal/"@) || ".wal"@.is_suffix_of(path);
            let documents = has_part(path, "/docs/"@) || has_part(path, "/tuples/"@);
            let bitmaps = has_part(path, "/bitmaps/"@) || has_part(path, "/shardstore/"@) || has_part(
                path,
                "/shards/"@,
            );
            let data = "/data/"@.is_prefix_of(path);
            &&& kind_of(path) is Wal <==> log
            &&& kind_of(path) is Tuple <==> documents && !log
            &&& kind_of(path) is Shard <==> bitmaps && !documents && !log
            &&& kind_of(path) is DataOther <==> data && !bitmaps && !documents && !log
            &&& kind_of(path) is Other <==> !data && !bitmaps && !documents && !log
        },
{
    reveal_strlit("[");
    if path.len() > 0 {
        if path[0] == '[' {
            assert(path.subrange(0, 1) =~= "["@);
        } else {
            lemma_prefix_at("["@, path, 0);
        }
    }
}

/// A region is as long as its range of addresses, and is counted where it belongs and nowhere else. A
/// range that is empty or turned round is no region.
pub proof fn law_regions_are_counted_where_they_belong(m: MmapInventory, len: u64)
    requires
        m.tuple + len <= u64::MAX,
        m.shard + len <= u64::MAX,
        m.wal + len <= u64::MAX,
        m.data_other + len <= u64::MAX,
        m.anon + len <= u64::MAX,
        m.other + len <= u64::MAX,
    ensures
        with_region(m, RegionKind::Tuple, len) == (MmapInventory { tuple: (m.tuple + len) as u64, ..m }),
        with_region(m, RegionKind::Shard, len) == (MmapInventory { shard: (m.shard + len) as u64, ..m }),
        with_region(m, RegionKind::Wal, len) == (MmapInventory { wal: (m.wal + len) as u64, ..m }),
        with_region(m, RegionKind::DataOther, len) == (MmapInventory { data_other: (m.data_other + len) as u64, ..m }),
        with_region(m, RegionKind::Anon, len) == (MmapInventory { anon: (m.anon + len) as u64, ..m }),
        with_region(m, RegionKind::Other, len) == (MmapInventory { other: (m.other + len) as u64, ..m }),
{
}

/// The length of a range is from the first address to the second.
pub proof fn law_ranges_reach_from_start_to_end(a: Seq<char>, b: Seq<char>, start: int, end: int)
    requires
        !a.contains('-'),
        hex_value(a) == Some(start),
        hex_value(b) == Some(end),
    ensures
        start <= end ==> range_len(a + seq!['-'] + b) == Some((end - start) as u64),
        start > end ==> range_len(a + seq!['-'] + b) == Some(0u64),
        range_len(a) is None,
{
    let s = a + seq!['-'] + b;
    let n = a.len() as int;
    assert forall|i: int| 0 <= i < n implies s[i] != '-' && a[i] != '-' by {
        assert(a.contains(a[i]));
    }
    lemma_hyphen_found(s, 0, n);
    lemma_no_hyphen(a, 0);
    assert(s.take(n) =~= a);
    assert(s.skip(n + 1) =~= b);
}

proof fn lemma_hyphen_found(s: Seq<char>, i: int, n: int)
    requires
        0 <= i <= n < s.len(),
        s[n] == '-',
        forall|k: int| i <= k < n ==> s[k] != '-',
    ensures
        hyphen_from(s, i) == Some(n),
    decreases n - i,
{
    if i < n {
        lemma_hyphen_found(s, i + 1, n);
    }
}

proof fn lemma_no_hyphen(s: Seq<char>, i: int)
    requires
        0 <= i <= s.len(),
        forall|k: int| i <= k < s.len() ==> s[k] != '-',
    ensures
        hyphen_from(s, i) is None,
    decreases s.len() - i,
{
    if i < s.len() {
        lemma_no_hyphen(s, i + 1);
    }
}

/// Where the memory goes: what is tracked without the documents is the bitmaps and the cache of
/// results, what is not tracked is what the process has beyond all that is tracked, and the documents
/// may take what is left of the pod's memory when both and two gibibytes are set aside.
pub proof fn law_memory_is_divided_without_remainder(m: MemoryUse, pod_limit: u64)
    ensures
        other_tracked(m) == m.alive_bitmap + m.filter_bitmaps + m.sort_bitmaps + m.unified_cache,
        m.rss >= other_tracked(m) + m.doc_cache ==> untracked(m) + other_tracked(m) + m.doc_cache == m.rss,
        m.rss < other_tracked(m) + m.doc_cache ==> untracked(m) == 0,
        pod_limit >= other_tracked(m) + untracked(m) + 2 * 1024 * 1024 * 1024 ==> safe_doc_cache(m, pod_limit)
            + other_tracked(m) + untracked(m) + 2 * 1024 * 1024 * 1024 == pod_limit,
        pod_limit < other_tracked(m) + untracked(m) + 2 * 1024 * 1024 * 1024 ==> safe_doc_cache(m, pod_limit) == 0,
{
}

/// A text falls into lines: each ends before its line feed, and before a carriage return in front of
/// it; what follows the last line feed is a line only where it holds anything.
pub proof fn law_texts_fall_into_lines(line: Seq<char>, rest: Seq<char>)
    requires
        !line.contains('\n'),
    ensures
        line.len() == 0 || line.last() != '\r' ==> lines_of(line + seq!['\n'] + rest) == seq![line] + lines_of(rest),
        lines_of(line + seq!['\r', '\n'] + rest) == seq![line] + lines_of(rest),
        line.len() > 0 ==> lines_of(line) == seq![line],
        lines_of(Seq::empty()) == Seq::<Seq<char>>::empty(),
{
    let n = line.len() as int;
    let a = line + seq!['\n'] + rest;
    let b = line + seq!['\r', '\n'] + rest;
    assert forall|i: int| 0 <= i < n implies a[i] != '\n' && b[i] != '\n' && line[i] != '\n' by {
        assert(line.contains(line[i]));
    }
    lemma_line_ends_at(a, 0, n);
    assert(b[n] == '\r');
    lemma_line_ends_at(b, 0, n + 1);
    assert(a.subrange(0, n) =~= line);
    assert(b.subrange(0, n) =~= line);
    lemma_lines_behind(line + seq!['\n'], rest, 0);
    lemma_lines_behind(line + seq!['\r', '\n'], rest, 0);
    assert(a =~= (line + seq!['\n']) + rest);
    assert(b =~= (line + seq!['\r', '\n']) + rest);
    if rest.len() == 0 {
        assert(lines_from(a, n + 1) == Seq::<Seq<char>>::empty());
        assert(lines_from(b, n + 2) == Seq::<Seq<char>>::empty());
    }
    if n > 0 {
        lemma_line_ends_at(line, 0, n);
        assert(line.subrange(0, n) =~= line);
    }
}

proof fn lemma_line_ends_at(s: Seq<char>, i: int, n: int)
    requires
        0 <= i <= n <= s.len(),
        forall|k: int| i <= k < n ==> s[k] != '\n',
        n == s.len() || s[n] == '\n',
    ensures
        line_end(s, i) == n,
    decreases n - i,
{
    if i < n {
        lemma_line_ends_at(s, i + 1, n);
    }
}

proof fn lemma_line_end_behind(front: Seq<char>, s: Seq<char>, i: int)
    requires
        0 <= i <= s.len(),
    ensures
        line_end(front + s, front.len() + i) == front.len() + line_end(s, i),
    decreases s.len() - i,
{
    if i < s.len() {
        assert((front + s)[front.len() + i] == s[i]);
        lemma_line_end_behind(front, s, i + 1);
    }
}

proof fn lemma_lines_behind(front: Seq<char>, s: Seq<char>, i: int)
    requires
        0 <= i <= s.len(),
    ensures
        lines_from(front + s, front.len() + i) == lines_from(s, i),
    decreases s.len() - i,
{
    let all = front + s;
    let f = front.len() as int;
    if i < s.len() {
        lemma_line_end(s, i);
        lemma_line_end_behind(front, s, i);
        let end = line_end(s, i);
        assert(all.subrange(f + i, f + text_end(s, i, end)) =~= s.subrange(i, text_end(s, i, end)));
        assert(i < end ==> all[f + end - 1] == s[end - 1]);
        if end < s.len() {
            lemma_lines_behind(front, s, end + 1);
        }
    }
}

/// A line tells a region by its range in front and its path in the sixth place; without a path the
/// region is memory of the process itself. An empty range, or an empty line, tells none.
pub proof fn law_regions_are_told_by_range_and_path(line: Seq<char>, len: u64)
    ensures
        words_of(line).len() == 0 ==> region_of(line) is None,
        words_of(line).len() > 5 && range_len(words_of(line)[0]) == Some(len) && len > 0 ==> region_of(line) == Some(
            (kind_of(words_of(line)[5]), len),
        ),
        0 < words_of(line).len() <= 5 && range_len(words_of(line)[0]) == Some(len) && len > 0 ==> region_of(line)
            == Some((RegionKind::Anon, len)),
        words_of(line).len() > 0 && (range_len(words_of(line)[0]) is None || range_len(words_of(line)[0]) == Some(0u64))
            ==> region_of(line) is None,
{
}

/// Lines are taken one after the other: a later line of the same name counts, and every region is
/// added.
pub proof fn law_lines_are_taken_one_by_one(lines: Seq<Seq<char>>, n: int)
    requires
        0 <= n < lines.len(),
    ensures
        reading_after(lines, n + 1) == read_line(reading_after(lines, n), lines[n]),
        reading_after(lines, 0) == (RssReading { rss: 0, anon: 0, file: 0, shmem: 0 }),
        region_of(lines[n]) is None ==> inventory_after(lines, n + 1) == inventory_after(lines, n),
        region_of(lines[n]) matches Some((kind, len)) ==> inventory_after(lines, n + 1) == with_region(
            inventory_after(lines, n),
            kind,
            len,
        ),
        inventory_after(lines, 0) == (MmapInventory { tuple: 0, shard: 0, wal: 0, data_other: 0, anon: 0, other: 0 }),
{
}

} // verus!
