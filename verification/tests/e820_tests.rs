use kernel_core::e820::{E820Info, MemoryRegion};

fn rec(base: u64, length: u64, region_type: u32) -> MemoryRegion {
    MemoryRegion { base, length, region_type, acpi: 0 }
}

#[test]
fn single_fully_usable_record() {
    // One usable record covering exactly four pages: one range [0, 3].
    let records = vec![rec(0, 4 * 4096, 1)];
    let info = E820Info::read(&records, 1);
    assert_eq!(info.num_regions(), 1);
    assert_eq!(info.region(0), (0, 3));
    assert_eq!(info.num_phys_pages(), 4);
}

#[test]
fn empty_input_yields_empty_inventory() {
    let records: Vec<MemoryRegion> = Vec::new();
    let info = E820Info::read(&records, 0);
    assert_eq!(info.num_regions(), 0);
    assert_eq!(info.num_phys_pages(), 0);
}

#[test]
fn no_usable_record_yields_empty_inventory() {
    let records = vec![rec(0, 8 * 4096, 2), rec(8 * 4096, 4 * 4096, 3)];
    let info = E820Info::read(&records, 2);
    assert_eq!(info.num_regions(), 0);
    assert_eq!(info.num_phys_pages(), 0);
}

#[test]
fn conservative_overlap_drops_contested_bytes() {
    // A = [0, 100) usable, B = [50, 150) reserved: the only portion that is
    // usable by every covering record is [0, 50), which does not round to a
    // full page, so nothing survives.
    let records = vec![rec(0, 100, 1), rec(50, 100, 2)];
    let info = E820Info::read(&records, 2);
    assert_eq!(info.num_regions(), 0);
    assert_eq!(info.num_phys_pages(), 0);
}

#[test]
fn conservative_overlap_keeps_uncontested_pages() {
    // A = [0, 3 pages) usable; B reserves the tail of the third page. Only
    // the first two full pages are usable by every covering record.
    let records = vec![rec(0, 3 * 4096, 1), rec(2 * 4096 + 50, 4096 - 50, 2)];
    let info = E820Info::read(&records, 2);
    assert_eq!(info.num_regions(), 1);
    assert_eq!(info.region(0), (0, 1));
    assert_eq!(info.num_phys_pages(), 2);
}

#[test]
fn sub_page_remainders_are_dropped() {
    // A usable range shorter than a page yields nothing, and an unaligned
    // usable range keeps only its full pages.
    let records = vec![rec(0, 2000, 1)];
    let info = E820Info::read(&records, 1);
    assert_eq!(info.num_regions(), 0);

    let records = vec![rec(100, 3 * 4096, 1)];
    let info = E820Info::read(&records, 1);
    assert_eq!(info.num_regions(), 1);
    // Start rounds up to page 1; end (byte 100 + 3*4096) rounds down to the
    // end of page 2.
    assert_eq!(info.region(0), (1, 2));
}

#[test]
fn adjacent_ranges_are_not_coalesced() {
    // Two abutting usable records produce two separate ranges, one per
    // boundary start, even though they are contiguous.
    let records = vec![rec(0, 4096, 1), rec(4096, 4096, 1)];
    let info = E820Info::read(&records, 2);
    assert_eq!(info.num_regions(), 2);
    assert_eq!(info.region(0), (0, 0));
    assert_eq!(info.region(1), (1, 1));
    assert_eq!(info.num_phys_pages(), 2);
}

#[test]
fn output_sorted_and_disjoint() {
    // Records given out of order, overlapping and conflicting: the output is
    // sorted ascending and pairwise non-overlapping.
    let records = vec![
        rec(10 * 4096, 4 * 4096, 1),
        rec(0, 2 * 4096, 1),
        rec(11 * 4096, 4096, 2),
        rec(4 * 4096, 3 * 4096, 1),
        rec(5 * 4096, 4096, 1),
    ];
    let info = E820Info::read(&records, 5);
    assert!(info.num_regions() > 0);
    for i in 0..info.num_regions() {
        let (s, e) = info.region(i);
        assert!(s <= e);
        if i + 1 < info.num_regions() {
            let (s2, _) = info.region(i + 1);
            assert!(e < s2);
        }
    }
    // The page reserved by the third record never appears.
    for i in 0..info.num_regions() {
        let (s, e) = info.region(i);
        assert!(e < 11 || s > 11);
    }
}

#[test]
fn num_phys_pages_is_sum_over_ranges() {
    let records = vec![
        rec(0, 2 * 4096, 1),
        rec(4 * 4096, 3 * 4096, 1),
        rec(20 * 4096, 5 * 4096, 1),
    ];
    let info = E820Info::read(&records, 3);
    let mut total = 0;
    for i in 0..info.num_regions() {
        let (s, e) = info.region(i);
        total += e - s + 1;
    }
    assert_eq!(info.num_phys_pages(), total);
}

#[test]
fn zero_length_records_are_discarded() {
    let records = vec![rec(0, 0, 1), rec(0, 0, 2), rec(4096, 2 * 4096, 1)];
    let info = E820Info::read(&records, 3);
    assert_eq!(info.num_regions(), 1);
    assert_eq!(info.region(0), (1, 2));
}

#[test]
fn count_limits_the_records_considered() {
    // The reserved record past `count` is ignored.
    let records = vec![rec(0, 4096, 1), rec(0, 4096, 2)];
    let info = E820Info::read(&records, 1);
    assert_eq!(info.num_regions(), 1);
    assert_eq!(info.region(0), (0, 0));
}

#[test]
fn region_accessors() {
    let r = rec(0x1000, 0x2000, 1);
    assert_eq!(r.start_addr(), 0x1000);
    assert_eq!(r.len(), 0x2000);
    assert_eq!(r.end_addr(), 0x3000);
}

#[test]
fn parse_single_record_little_endian() {
    let mut bytes = Vec::new();
    // base = 0x0000_0000_0001_1000
    bytes.extend_from_slice(&[0x00, 0x10, 0x01, 0x00, 0x00, 0x00, 0x00, 0x00]);
    // length = 0x0000_0000_0000_2000
    bytes.extend_from_slice(&[0x00, 0x20, 0x00, 0x00, 0x00, 0x00, 0x00, 0x00]);
    // region_type = 1
    bytes.extend_from_slice(&[0x01, 0x00, 0x00, 0x00]);
    // extended attributes = 0xDEADBEEF
    bytes.extend_from_slice(&[0xEF, 0xBE, 0xAD, 0xDE]);
    let r = MemoryRegion::parse(&bytes, 0);
    assert_eq!(r.base, 0x11000);
    assert_eq!(r.length, 0x2000);
    assert_eq!(r.region_type, 1);
    assert_eq!(r.acpi, 0xDEADBEEF);
}

#[test]
fn parse_table_reads_consecutive_records() {
    let mut bytes = Vec::new();
    for i in 0u8..2 {
        let base = (i as u64) * 0x10000;
        let length = 4096u64;
        bytes.extend_from_slice(&base.to_le_bytes());
        bytes.extend_from_slice(&length.to_le_bytes());
        bytes.extend_from_slice(&1u32.to_le_bytes());
        bytes.extend_from_slice(&0u32.to_le_bytes());
    }
    let records = kernel_core::e820::parse_table(&bytes, 2);
    assert_eq!(records.len(), 2);
    assert_eq!(records[0].base, 0);
    assert_eq!(records[1].base, 0x10000);
    assert_eq!(records[0].length, 4096);
    assert_eq!(records[1].region_type, 1);
}

#[test]
fn full_pipeline_from_bytes() {
    // Serialize one fully usable record of 8 pages, parse and reconcile.
    let mut bytes = Vec::new();
    bytes.extend_from_slice(&0u64.to_le_bytes());
    bytes.extend_from_slice(&(8 * 4096u64).to_le_bytes());
    bytes.extend_from_slice(&1u32.to_le_bytes());
    bytes.extend_from_slice(&0u32.to_le_bytes());
    let records = kernel_core::e820::parse_table(&bytes, 1);
    let info = E820Info::read(&records, 1);
    assert_eq!(info.num_regions(), 1);
    assert_eq!(info.region(0), (0, 7));
    assert_eq!(info.num_phys_pages(), 8);
}

#[test]
fn maximum_record_count() {
    // The firmware interface bounds the table at 32 records.
    let mut records = Vec::new();
    for i in 0..32u64 {
        records.push(rec(i * 2 * 4096, 4096, 1));
    }
    let info = E820Info::read(&records, 32);
    assert_eq!(info.num_regions(), 32);
    assert_eq!(info.num_phys_pages(), 32);
    for i in 0..32 {
        assert_eq!(info.region(i), (2 * i, 2 * i));
    }
}

#[test]
fn identical_usable_records_agree() {
    // Two identical usable records fully coincide, so their span survives.
    let records = vec![rec(0, 2 * 4096, 1), rec(0, 2 * 4096, 1)];
    let info = E820Info::read(&records, 2);
    assert_eq!(info.num_regions(), 1);
    assert_eq!(info.region(0), (0, 1));
}

#[test]
fn identical_spans_with_conflicting_types_are_dropped() {
    let records = vec![rec(0, 2 * 4096, 1), rec(0, 2 * 4096, 2)];
    let info = E820Info::read(&records, 2);
    assert_eq!(info.num_regions(), 0);
}

#[test]
fn nested_record_splits_fragments() {
    // A usable record nested inside another splits the outer one at its
    // boundaries; each boundary start yields its own range.
    let records = vec![rec(0, 4 * 4096, 1), rec(4096, 4096, 1)];
    let info = E820Info::read(&records, 2);
    assert_eq!(info.num_regions(), 3);
    assert_eq!(info.region(0), (0, 0));
    assert_eq!(info.region(1), (1, 1));
    assert_eq!(info.region(2), (2, 3));
    assert_eq!(info.num_phys_pages(), 4);
}
