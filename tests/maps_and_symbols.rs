use allocscope::process_map::{MapParseError, ProcessMap, ProcessMapEntry};
use allocscope::symbol_index::{ElfSymbol, SymbolIndex};
use allocscope::unwind::{get_function_by_address, CrawlContext};

const MAPS: &str = "55d0c0a00000-55d0c0a01000 r--p 00000000 08:01 1234 /usr/bin/loop\n\
7f0000000000-7f0000021000 rw-p 00000000 00:00 0 \n\
7f1000000000-7f1000200000 r-xp 00028000 08:01 99 /usr/lib/x86_64-linux-gnu/libc.so.6\n\
7ffd00000000-7ffd00021000 rw-p 00000000 00:00 0                          [stack]\n";

#[test]
fn parses_mapping_listing() {
    let map = ProcessMap::new(MAPS.as_bytes()).unwrap();
    assert_eq!(map.entries.len(), 4);
    assert_eq!(map.entries[0].begin, 0x55d0c0a00000);
    assert_eq!(map.entries[0].end, 0x55d0c0a01000);
    assert_eq!(map.entries[0].filename.as_deref(), Some("/usr/bin/loop"));
    assert_eq!(map.entries[1].filename, None);
    assert_eq!(map.entries[2].offset, 0x28000);
    assert_eq!(map.entries[3].filename.as_deref(), Some("[stack]"));
}

#[test]
fn parse_errors() {
    assert_eq!(ProcessMap::new(b"\n").unwrap_err(), MapParseError::MissingAddressRange);
    assert_eq!(ProcessMap::new(b"1000 r-xp 0").unwrap_err(), MapParseError::MissingRangeEnd);
    assert_eq!(ProcessMap::new(b"1000-2000 r-xp").unwrap_err(), MapParseError::MissingMappingOffset);
    assert_eq!(ProcessMap::new(b"10g0-2000 r-xp 0").unwrap_err(), MapParseError::InvalidNumber);
    assert_eq!(
        ProcessMap::new(b"10000000000000000-2 r 0").unwrap_err(),
        MapParseError::InvalidNumber
    );
    assert_eq!(
        ProcessMap::new(b"1-2 r 0 0 0 \xff\xfe").unwrap_err(),
        MapParseError::InvalidFilename
    );
    assert_eq!(ProcessMap::new(b"").unwrap().entries.len(), 0);
    let m = ProcessMap::new(b"+a-FF x +1").unwrap();
    assert_eq!((m.entries[0].begin, m.entries[0].end, m.entries[0].offset), (0xa, 0xff, 1));
}

#[test]
fn entry_for_address_is_half_open() {
    let map = ProcessMap::new(MAPS.as_bytes()).unwrap();
    assert_eq!(map.entry_for_address(0x55d0c0a00000).unwrap().begin, 0x55d0c0a00000);
    assert!(map.entry_for_address(0x55d0c0a01000).is_none());
    assert_eq!(map.entry_for_address(0x7f1000000010).unwrap().offset, 0x28000);
}

fn glibc_index() -> (ProcessMap, SymbolIndex) {
    let map = ProcessMap::new(MAPS.as_bytes()).unwrap();
    let entry = &map.entries[2];
    let segments = vec![(0x28000u64, 0x28000u64)];
    let symbols = vec![
        ElfSymbol { name: Some("GLIBC_2.2.5".to_string()), address: 0x28100, size: 0 },
        ElfSymbol { name: Some("malloc".to_string()), address: 0x280f0, size: 0x100 },
        ElfSymbol { name: None, address: 0x28400, size: 0x10 },
        ElfSymbol { name: Some("outside".to_string()), address: 0x5000000, size: 0x10 },
    ];
    let mut index = SymbolIndex::new();
    index.add_elf_symbols(entry, &segments, &symbols);
    (map, index)
}

#[test]
fn symbols_are_rebased() {
    let (_, index) = glibc_index();
    assert_eq!(index.symbols_by_address.len(), 2);
    assert_eq!(index.symbols_by_address[&0x7f10000000f0].name, "malloc");
    assert!(index.symbols_by_name.get("outside").is_none());
    assert_eq!(index.symbols_by_name.get("malloc").unwrap()[0].address, 0x7f10000000f0);
}

#[test]
fn enclosing_function_skips_labels() {
    let (_, index) = glibc_index();
    let s = index.get_function_by_address(0x7f1000000150).unwrap();
    assert_eq!(s.name, "malloc");
    assert!(index.get_function_by_address(0x7f10000001f0).is_none());
    assert!(index.get_function_by_address(0x7f10000000ef).is_none());
}

#[test]
fn frame_names() {
    let (map, index) = glibc_index();
    let (name, offset) = get_function_by_address(&map, &index, 0x7f1000000150);
    assert_eq!((name.as_str(), offset), ("malloc", 0x60));
    let (name, offset) = get_function_by_address(&map, &index, 0x7f1000100000);
    assert_eq!((name.as_str(), offset), ("[libc.so.6]", 0x128000));
    let (name, offset) = get_function_by_address(&map, &index, 0x10);
    assert_eq!((name.as_str(), offset), ("", 0));
    let (name, _) = get_function_by_address(&map, &index, 0x7f0000000010);
    assert_eq!(name, "");
}

#[test]
fn unparsable_file_adds_nothing() {
    let map = ProcessMap::new(MAPS.as_bytes()).unwrap();
    let mut index = SymbolIndex::new();
    index.add_entry_symbols(&map.entries[2], b"not an object file");
    assert_eq!(index.symbols_by_address.len(), 0);
    let contents = vec![None, None, Some(b"\x7fELF".to_vec()), None];
    index.add_symbols(&map, &contents);
    assert_eq!(index.symbols_by_address.len(), 0);
}

#[test]
fn crawl_cache_remembers_reads() {
    let mut cache = CrawlContext::new();
    assert_eq!(cache.lookup(0x10), None);
    cache.record(0x10, 5);
    cache.record(0x18, 6);
    assert_eq!(cache.lookup(0x10), Some(5));
    assert_eq!(cache.lookup(0x10), Some(5));
    assert_eq!(cache.lookup(0x18), Some(6));
    assert_eq!(cache.lookup(0), None);
}

#[test]
fn entry_struct_is_plain() {
    let e = ProcessMapEntry { begin: 1, end: 2, offset: 0, filename: None };
    assert_eq!(e.end - e.begin, 1);
}

fn put(buf: &mut Vec<u8>, at: usize, bytes: &[u8]) {
    if buf.len() < at + bytes.len() {
        buf.resize(at + bytes.len(), 0);
    }
    buf[at..at + bytes.len()].copy_from_slice(bytes);
}

// A minimal x86_64 ELF file: one loadable segment at 0x400000 and a symbol
// table with the function `foo` at 0x400100.
fn tiny_elf() -> Vec<u8> {
    let mut b: Vec<u8> = Vec::new();
    put(&mut b, 0, &[0x7f, b'E', b'L', b'F', 2, 1, 1, 0]);
    put(&mut b, 16, &2u16.to_le_bytes());
    put(&mut b, 18, &62u16.to_le_bytes());
    put(&mut b, 20, &1u32.to_le_bytes());
    put(&mut b, 24, &0x400100u64.to_le_bytes());
    put(&mut b, 32, &0x40u64.to_le_bytes());
    put(&mut b, 40, &0xC8u64.to_le_bytes());
    put(&mut b, 52, &64u16.to_le_bytes());
    put(&mut b, 54, &56u16.to_le_bytes());
    put(&mut b, 56, &1u16.to_le_bytes());
    put(&mut b, 58, &64u16.to_le_bytes());
    put(&mut b, 60, &4u16.to_le_bytes());
    put(&mut b, 62, &3u16.to_le_bytes());
    // Program header.
    put(&mut b, 0x40, &1u32.to_le_bytes());
    put(&mut b, 0x44, &5u32.to_le_bytes());
    put(&mut b, 0x48, &0u64.to_le_bytes());
    put(&mut b, 0x50, &0x400000u64.to_le_bytes());
    put(&mut b, 0x58, &0x400000u64.to_le_bytes());
    put(&mut b, 0x60, &0x1C8u64.to_le_bytes());
    put(&mut b, 0x68, &0x1C8u64.to_le_bytes());
    put(&mut b, 0x70, &0x1000u64.to_le_bytes());
    // Symbol table: the null symbol, then foo.
    put(&mut b, 0x90, &1u32.to_le_bytes());
    put(&mut b, 0x94, &[0x12, 0]);
    put(&mut b, 0x96, &0xfff1u16.to_le_bytes());
    put(&mut b, 0x98, &0x400100u64.to_le_bytes());
    put(&mut b, 0xA0, &0x20u64.to_le_bytes());
    put(&mut b, 0xA8, b"\0foo\0");
    put(&mut b, 0xAD, b"\0.symtab\0.strtab\0.shstrtab\0");
    // Section headers: null, .symtab, .strtab, .shstrtab.
    let sections: [(u32, u32, u64, u64, u32, u32, u64, u64); 3] = [
        (1, 2, 0x78, 48, 2, 1, 8, 24),
        (9, 3, 0xA8, 5, 0, 0, 1, 0),
        (17, 3, 0xAD, 27, 0, 0, 1, 0),
    ];
    for (i, s) in sections.iter().enumerate() {
        let at = 0xC8 + 64 * (i + 1);
        put(&mut b, at, &s.0.to_le_bytes());
        put(&mut b, at + 4, &s.1.to_le_bytes());
        put(&mut b, at + 24, &s.2.to_le_bytes());
        put(&mut b, at + 32, &s.3.to_le_bytes());
        put(&mut b, at + 40, &s.4.to_le_bytes());
        put(&mut b, at + 44, &s.5.to_le_bytes());
        put(&mut b, at + 48, &s.6.to_le_bytes());
        put(&mut b, at + 56, &s.7.to_le_bytes());
    }
    b
}

#[test]
fn indexes_an_object_file() {
    let map = ProcessMap::new(b"555500000000-555500001000 r-xp 00000000 08:01 7 /tmp/tiny\n").unwrap();
    let mut index = SymbolIndex::new();
    index.add_symbols(&map, &vec![Some(tiny_elf())]);
    assert_eq!(index.symbols_by_name.get("foo").unwrap()[0].address, 0x555500000100);
    let s = index.get_function_by_address(0x555500000110).unwrap();
    assert_eq!((s.name.as_str(), s.address, s.size), ("foo", 0x555500000100, 0x20));
}
