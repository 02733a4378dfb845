use giuroll::version::{compare_version, get_version, pack_version};
use giuroll::heap::{on_alloc, on_free, on_realloc, HeapDecision};
use giuroll::{
    get_ptr, read_addr, read_linked_list, read_ll4, read_maybe_ring_buffer, read_vec, ReadAddrMetadata, Walk,
    LL4,
};

fn words(w: &[u32]) -> Vec<u8> {
    w.iter().flat_map(|x| x.to_le_bytes()).collect()
}

#[test]
fn pointer_is_little_endian() {
    assert_eq!(get_ptr(&[0x78, 0x56, 0x34, 0x12, 0xff], 0), 0x12345678);
    assert_eq!(get_ptr(&[0, 0x78, 0x56, 0x34, 0x12], 1), 0x12345678);
}

#[test]
fn empty_region_is_placed_at_four() {
    assert_eq!(read_addr(0, 0), ReadAddrMetadata { pos: 4, size: 0 });
    assert_eq!(read_addr(0x100, 8), ReadAddrMetadata { pos: 0x100, size: 8 });
}

#[test]
fn vector_header_regions() {
    let v = read_vec(0x40, &words(&[0x1000, 0x1040, 0x1020]));
    assert_eq!((v.start, v.maybecapacity, v.end), (0x1000, 0x1040, 0x1020));
    assert_eq!(v.read_underlying(), ReadAddrMetadata { pos: 0x1000, size: 0x20 });
    assert_eq!(v.to_addr(), ReadAddrMetadata { pos: 0x40, size: 12 });
}

#[test]
fn list_walk_and_regions() {
    let h = read_linked_list(0x10, &words(&[0x100, 2, 0]));
    let mut nodes: Vec<LL4> = vec![];
    let memory = |p: usize| match p {
        0x100 => words(&[0x200, 0, 0]),
        0x200 => words(&[0x300, 0, 0x900]),
        0x300 => words(&[0x100, 0, 0]),
        _ => panic!("unexpected read"),
    };
    loop {
        match h.read_underlying(&nodes) {
            Walk::Read(p) => nodes.push(read_ll4(p, &memory(p))),
            Walk::Done => break,
            Walk::Broken => panic!("broken list"),
        }
    }
    assert_eq!(nodes.len(), 3);
    let r = h.read_all(&nodes, 0x20);
    assert_eq!(
        r,
        vec![
            ReadAddrMetadata { pos: 0x10, size: 12 },
            ReadAddrMetadata { pos: 0x100, size: 12 },
            ReadAddrMetadata { pos: 0x200, size: 12 },
            ReadAddrMetadata { pos: 0x900, size: 0x20 },
            ReadAddrMetadata { pos: 0x300, size: 12 },
        ]
    );
    assert_eq!(h.read_all(&nodes, 0).len(), 4);
}

#[test]
fn broken_list_is_reported() {
    let h = read_linked_list(0x10, &words(&[0, 1, 0]));
    assert_eq!(h.read_underlying(&vec![]), Walk::Broken);
    let h = read_linked_list(0x10, &words(&[0x100, 1, 0]));
    let nodes = vec![read_ll4(0x100, &words(&[0, 0, 0]))];
    assert_eq!(h.read_underlying(&nodes), Walk::Broken);
}

#[test]
fn ring_buffer_regions() {
    let d = read_maybe_ring_buffer(0x20, &words(&[0, 0x400, 3, 1, 2]));
    assert_eq!((d.data, d.size, d.f3, d.obj_s), (0x400, 3, 1, 2));
    let table = words(&[0x500, 0, 0x600]);
    assert_eq!(
        d.read_whole(&table, 0x10),
        vec![
            ReadAddrMetadata { pos: 0x500, size: 0x10 },
            ReadAddrMetadata { pos: 0x600, size: 0x10 },
            ReadAddrMetadata { pos: 0x400, size: 12 },
        ]
    );
    let empty = read_maybe_ring_buffer(0x20, &words(&[0, 0x400, 3, 1, 0]));
    assert_eq!(empty.read_whole(&table, 0x10), vec![ReadAddrMetadata { pos: 0x400, size: 12 }]);
    assert_eq!(d.to_addr(), ReadAddrMetadata { pos: 0x20, size: 20 });
}

#[test]
fn heap_calls_inside_the_window_are_tracked() {
    assert_eq!(on_free(7, 7, 1, 1, 5), HeapDecision::Track);
    assert_eq!(on_free(7, 8, 1, 1, 5), HeapDecision::PassThrough);
    assert_eq!(on_free(7, 7, 1, 2, 5), HeapDecision::PassThrough);
    assert_eq!(on_free(7, 7, 1, 1, 0), HeapDecision::PassThrough);
    assert_eq!(on_alloc(7, 7, 1, 1, 5), HeapDecision::Track);
    assert_eq!(on_realloc(7, 7, 1, 1, 5), HeapDecision::Fatal);
    assert_eq!(on_realloc(7, 7, 1, 1, 0), HeapDecision::PassThrough);
}

#[test]
fn packed_version_words() {
    assert_eq!(pack_version(1, 2, 3, 4), 0x0001_0002_0003_0004);
    assert_eq!(get_version(), 0x0000_0001_0000_0003);
    assert_eq!(compare_version(get_version()), 0);
    assert_eq!(compare_version(0x0000_0001_0000_0004), -1);
    assert_eq!(compare_version(0x0000_0000_ffff_ffff), 1);
}
