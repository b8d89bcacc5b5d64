use memscan::data_types::{ByteOrder, DataType, Endianness};
use memscan::fresh::{FreshScan, ReadRequest, SearchRegion};
use memscan::refine::Refinement;
use memscan::scope::{MapKind, Mapping, SearchScope};
use memscan::settings::{Process, ProcessPicker, Settings, DEFAULT_SEARCH_BUFFER_SIZE};
use memscan::value::WrappedValue;
use memscan::watch_list::TrackedSet;

/// A fake remote process: one readable block of memory; reads outside it fail.
struct Memory {
    pid: i32,
    base: u64,
    bytes: Vec<u8>,
    denied_below: u64,
    short_at: Option<u64>,
}

impl Memory {
    fn read(&self, req: &ReadRequest) -> Result<Vec<u8>, ()> {
        if req.pid != self.pid || req.address < self.denied_below || req.address < self.base {
            return Err(());
        }
        let start = (req.address - self.base) as usize;
        if start >= self.bytes.len() {
            return Err(());
        }
        let mut end = (start + req.len).min(self.bytes.len());
        if let Some(limit) = self.short_at {
            if req.address < limit && limit < req.address + req.len as u64 {
                end = (limit - self.base) as usize;
            }
        }
        Ok(self.bytes[start..end].to_vec())
    }
}

fn run_fresh(mem: &Memory, regions: Vec<SearchRegion>, needle: WrappedValue, chunk: usize) -> (Vec<(i32, Vec<u64>)>, usize) {
    let mut scan = FreshScan::new(regions, needle, chunk, Endianness::Native);
    while let Some(req) = scan.next_read() {
        match mem.read(&req) {
            Ok(data) => scan.chunk_read(&data),
            Err(()) => scan.chunk_failed(),
        }
    }
    let failed = scan.failed_reads;
    (scan.finish(), failed)
}

fn run_refine(mem: &Memory, previous: Vec<(i32, Vec<u64>)>, needle: WrappedValue) -> Vec<(i32, Vec<u64>)> {
    let mut refinement = Refinement::new(previous, needle, Endianness::Native);
    while let Some(req) = refinement.next_read() {
        match mem.read(&req) {
            Ok(data) => refinement.value_read(&data),
            Err(()) => refinement.value_failed(),
        }
    }
    refinement.finish()
}

fn page_with(value: u64, at: usize) -> Vec<u8> {
    let mut bytes = vec![0u8; 0x1000];
    bytes[at..at + 8].copy_from_slice(&value.to_ne_bytes());
    bytes
}

#[test]
fn fresh_scan_then_refine() {
    let mem = Memory { pid: 42, base: 0x1000, bytes: page_with(0xDEADBEEF, 8), denied_below: 0, short_at: None };
    let regions = vec![SearchRegion { pid: 42, start: 0x1000, end: 0x2000 }];
    let (found, failed) = run_fresh(&mem, regions, WrappedValue::U64(0xDEADBEEF), 0x300);
    assert_eq!(found, vec![(42, vec![0x1008])]);
    assert_eq!(failed, 0);
    let again = run_refine(&mem, found.clone(), WrappedValue::U64(0xDEADBEEF));
    assert_eq!(again, found);
    let other = run_refine(&mem, found, WrappedValue::U64(0xCAFEBABE));
    assert_eq!(other, vec![]);
}

#[test]
fn failed_region_is_skipped() {
    let mut bytes = vec![0u8; 0x2000];
    bytes[0x1010..0x1018].copy_from_slice(&5u64.to_ne_bytes());
    bytes[0x10..0x18].copy_from_slice(&5u64.to_ne_bytes());
    let mem = Memory { pid: 7, base: 0x1000, bytes, denied_below: 0x2000, short_at: None };
    let regions = vec![
        SearchRegion { pid: 7, start: 0x1000, end: 0x2000 },
        SearchRegion { pid: 7, start: 0x2000, end: 0x3000 },
    ];
    let (found, failed) = run_fresh(&mem, regions, WrappedValue::U64(5), 0x1000);
    assert_eq!(found, vec![(7, vec![0x2010])]);
    assert_eq!(failed, 1);
}

#[test]
fn short_read_scans_only_the_prefix() {
    let mut bytes = vec![0u8; 0x100];
    bytes[0x10] = 9;
    bytes[0x90] = 9;
    let mem = Memory { pid: 1, base: 0, bytes, denied_below: 0, short_at: Some(0x80) };
    let regions = vec![SearchRegion { pid: 1, start: 0, end: 0x100 }];
    let (found, failed) = run_fresh(&mem, regions, WrappedValue::U8(9), 0x100);
    assert_eq!(found, vec![(1, vec![0x10])]);
    assert_eq!(failed, 0);
}

#[test]
fn chunks_cover_regions_in_order() {
    let mut bytes = vec![0u8; 0x40];
    for i in [0usize, 3, 4, 0x21, 0x3f] {
        bytes[i] = 2;
    }
    let mem = Memory { pid: 3, base: 0, bytes, denied_below: 0, short_at: None };
    let regions = vec![
        SearchRegion { pid: 3, start: 0x20, end: 0x40 },
        SearchRegion { pid: 3, start: 0x10, end: 0x10 },
        SearchRegion { pid: 3, start: 0, end: 0x20 },
    ];
    let mut scan = FreshScan::new(regions, WrappedValue::U8(2), 5, Endianness::Little);
    assert_eq!(scan.next_read(), Some(ReadRequest { pid: 3, address: 0x20, len: 5 }));
    let mut reads = 0;
    while let Some(req) = scan.next_read() {
        reads += 1;
        scan.chunk_read(&mem.read(&req).unwrap());
    }
    assert_eq!(reads, 7 + 7);
    assert_eq!(scan.finish(), vec![(3, vec![0x21, 0x3f]), (3, vec![0, 3, 4])]);
}

#[test]
fn refinement_keeps_order_and_drops_failures() {
    let mut bytes = vec![0u8; 0x40];
    for at in [0usize, 8, 16, 24] {
        bytes[at..at + 4].copy_from_slice(&11u32.to_ne_bytes());
    }
    bytes[16] = 0;
    let mem = Memory { pid: 5, base: 0x100, bytes, denied_below: 0, short_at: None };
    let previous = vec![(5, vec![0x100, 0x108, 0x110, 0x118, 0x900]), (6, vec![0x100]), (5, vec![0x118])];
    let kept = run_refine(&mem, previous, WrappedValue::U32(11));
    assert_eq!(kept, vec![(5, vec![0x100, 0x108, 0x118]), (5, vec![0x118])]);
    assert_eq!(run_refine(&mem, vec![], WrappedValue::U32(11)), vec![]);
}

#[test]
fn scopes_pick_mappings() {
    let maps = vec![
        Mapping { pid: 1, start: 0, end: 10, kind: MapKind::Stack, readable: true },
        Mapping { pid: 1, start: 10, end: 20, kind: MapKind::Heap, readable: true },
        Mapping { pid: 1, start: 20, end: 30, kind: MapKind::Other, readable: true },
        Mapping { pid: 2, start: 30, end: 40, kind: MapKind::Other, readable: false },
    ];
    let starts = |scope| SearchRegion::load(&maps, scope).iter().map(|r| r.start).collect::<Vec<_>>();
    assert_eq!(starts(SearchScope::Stack), vec![0]);
    assert_eq!(starts(SearchScope::Heap), vec![10]);
    assert_eq!(starts(SearchScope::Both), vec![0, 10]);
    assert_eq!(starts(SearchScope::All), vec![0, 10, 20]);
    assert!(!SearchScope::Heap.is_in_scope(&maps[0]));
    assert_eq!(SearchScope::default(), SearchScope::Both);
}

#[test]
fn settings_defaults_and_toggle() {
    let mut settings = Settings::default();
    assert_eq!(settings.search_buffer_size, DEFAULT_SEARCH_BUFFER_SIZE);
    assert_eq!(DEFAULT_SEARCH_BUFFER_SIZE, 128 * 1024 * 1024);
    assert_eq!(settings.default_data_type, DataType::U64);
    assert_eq!(settings.default_search_scope, SearchScope::Both);
    assert!(!settings.show_settings);
    settings.toggle();
    assert!(settings.show_settings);
    settings.toggle();
    assert!(!settings.show_settings);
}

#[test]
fn picker_returns_selected_processes() {
    let p = |pid: i32, selected: bool| Process { pid, uid: 1000, cmd: format!("cmd{pid}"), selected };
    let mut picker = ProcessPicker::new(vec![p(1, false), p(2, true), p(3, false)]);
    picker.set_selected(2, true);
    picker.set_selected(9, true);
    let chosen = picker.selected_processes();
    assert_eq!(chosen.iter().map(|p| p.pid).collect::<Vec<_>>(), vec![2, 3]);
    assert_eq!(chosen[1].cmd, "cmd3");
    assert_eq!(picker.processes().len(), 3);
}

#[test]
fn watch_list_toggle_refresh_edit() {
    let mut set = TrackedSet::new();
    assert!(set.toggle(1, 0x10, Some(WrappedValue::U16(3))));
    assert!(!set.toggle(1, 0x20, None));
    assert!(set.contains(1, 0x10));
    assert!(!set.contains(1, 0x20));
    set.refresh_entry(1, 0x10, Some(&[9, 0, 0]), ByteOrder::Little);
    assert_eq!(set.entries()[0].value, WrappedValue::U16(9));
    assert!(set.edit(1, 0x10, WrappedValue::U16(77)).is_ok());
    assert!(set.edit(1, 0x10, WrappedValue::U32(77)).is_err());
    assert!(set.edit(2, 0x10, WrappedValue::U16(1)).is_err());
    assert_eq!(set.data_type_of(1, 0x10), Some(DataType::U16));
    assert_eq!(set.entries()[0].value, WrappedValue::U16(77));
    set.refresh_entry(1, 0x10, Some(&[1]), ByteOrder::Little);
    assert!(!set.contains(1, 0x10));
    assert!(set.toggle(1, 0x10, Some(WrappedValue::U8(1))));
    set.refresh_entry(1, 0x10, None, ByteOrder::Little);
    assert!(set.entries().is_empty());
    assert!(set.toggle(4, 4, Some(WrappedValue::U8(1))));
    assert!(!set.toggle(4, 4, Some(WrappedValue::U8(1))));
    assert_eq!(set.data_type_of(4, 4), None);
}
