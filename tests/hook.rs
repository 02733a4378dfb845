use giuroll::hook::{jmp_relative_operand, jmp_relative_opt_to_pointer, STUB_SIZE};
use giuroll::{HookType, Hooker};

const CODE: [u8; 5] = [0x55, 0x8b, 0xec, 0x83, 0xec];

#[test]
fn jmp_back_stub_bytes() {
    let h = Hooker::new(0x2000, HookType::JmpBack(0x3000), 0x11223344);
    let p = h.hook(CODE.to_vec(), 0x1000, 0x20, 0).unwrap();
    let expected: Vec<u8> = vec![
        0x60, 0x9c, 0x8b, 0xec, // pushad; pushfd; mov ebp, esp
        0x68, 0x44, 0x33, 0x22, 0x11, // push user_data
        0x55, 0xe8, 0xf1, 0x1f, 0x00, 0x00, // push ebp; call 0x3000
        0x83, 0xc4, 0x08, 0x9d, 0x61, // add esp, 8; popfd; popad
        0x55, 0x8b, 0xec, 0x83, 0xec, // relocated code
        0xe9, 0xe7, 0x0f, 0x00, 0x00, // jmp 0x2005
    ];
    assert_eq!(p.stub.len(), STUB_SIZE);
    assert_eq!(&p.stub[..30], &expected[..]);
    assert!(p.stub[30..].iter().all(|b| *b == 0));
    assert_eq!(p.addr, 0x2000);
    assert_eq!(p.stub_addr, 0x1000);
    assert_eq!(p.stub_prot, 0x20);
}

#[test]
fn jump_to_stub_and_back() {
    let h = Hooker::new(0x2000, HookType::JmpBack(0x3000), 0);
    let p = h.hook(vec![0x55, 0x8b, 0xec, 0x83, 0xec, 0x10], 0x1000, 0x20, 0).unwrap();
    assert_eq!(p.jump(), vec![0xe9, 0xfb, 0xef, 0xff, 0xff]);
    assert_eq!(p.unhook_by_ref(), CODE.to_vec());
    assert_eq!(p.unhook(), CODE.to_vec());
}

#[test]
fn retn_stub_bytes() {
    let h = Hooker::new(0x2000, HookType::Retn(4, 0x3000), 100);
    let p = h.hook(CODE.to_vec(), 0x1000, 0x20, 0).unwrap();
    let expected: Vec<u8> = vec![
        0x60, 0x9c, 0x8b, 0xec, // prologue
        0x68, 100, 0, 0, 0, // push user_data
        0x68, 0x20, 0x10, 0x00, 0x00, // push 0x1020 (relocated code)
        0x55, 0xe8, 0xec, 0x1f, 0x00, 0x00, // push ebp; call 0x3000
        0x83, 0xc4, 0x0c, // add esp, 0xc
        0x89, 0x44, 0x24, 0x20, // mov [esp+20h], eax
        0x9d, 0x61, // popfd; popad
        0xc2, 0x04, 0x00, // retn 4
        0x55, 0x8b, 0xec, 0x83, 0xec, // relocated code
        0xe9, 0xdb, 0x0f, 0x00, 0x00, // jmp 0x2005
    ];
    assert_eq!(&p.stub[..42], &expected[..]);
    assert!(p.stub[42..].iter().all(|b| *b == 0));
}

#[test]
fn retn_zero_uses_plain_ret() {
    let h = Hooker::new(0x2000, HookType::Retn(0, 0x3000), 0);
    let p = h.hook(CODE.to_vec(), 0x1000, 0x20, 0).unwrap();
    assert_eq!(p.stub[29], 0xc3);
    // the pushed address of the relocated code is the stub base + 30
    assert_eq!(&p.stub[10..14], &[30, 0x10, 0, 0]);
    assert_eq!(&p.stub[30..35], &CODE);
}

#[test]
fn jmp_addr_stub_pops_and_jumps() {
    let h = Hooker::new(0x2000, HookType::JmpToAddr(0x4000, 8, 0x3000), 0);
    let p = h.hook(CODE.to_vec(), 0x1000, 0x20, 0).unwrap();
    assert_eq!(&p.stub[20..29], &[0x83, 0xc4, 0x0c, 0x9d, 0x61, 0x83, 0xc4, 8, 0xe9]);
    // jmp 0x4000 from the operand at 29
    assert_eq!(&p.stub[29..33], &(0x4000u32 - (0x1000 + 29 + 4)).to_le_bytes());
    assert_eq!(&p.stub[10..14], &(0x1000u32 + 33).to_le_bytes());
    assert_eq!(&p.stub[33..38], &CODE);
}

#[test]
fn jmp_ret_stub_jumps_through_result() {
    let h = Hooker::new(0x2000, HookType::JmpToRet(0x3000), 0);
    let p = h.hook(CODE.to_vec(), 0x1000, 0x20, 0).unwrap();
    assert_eq!(&p.stub[29..33], &[0xff, 0x64, 0x24, 0xd8]);
    assert_eq!(&p.stub[10..14], &(0x1000u32 + 33).to_le_bytes());
}

#[test]
fn enum_stub_table() {
    let h = Hooker::new(0x2000, HookType::JmpToEnumRet(vec![0x5000, 0x6000], 0x3000), 0);
    let p = h.hook(CODE.to_vec(), 0x1000, 0x20, 0x7000).unwrap();
    // cmp eax, 2
    assert_eq!(&p.stub[23..28], &[0x3d, 2, 0, 0, 0]);
    // jb +5; jmp abort
    assert_eq!(&p.stub[28..31], &[0x72, 0x05, 0xe9]);
    assert_eq!(&p.stub[31..35], &(0x7000u32 - (0x1000 + 35)).to_le_bytes());
    // shl eax, 3; add eax, table
    assert_eq!(&p.stub[35..39], &[0xc1, 0xe0, 0x03, 0x05]);
    assert_eq!(&p.stub[39..43], &(0x1000u32 + 45).to_le_bytes());
    assert_eq!(&p.stub[43..45], &[0xff, 0xe0]);
    // first entry
    assert_eq!(&p.stub[45..48], &[0x9d, 0x61, 0xe9]);
    assert_eq!(&p.stub[48..52], &(0x5000u32 - (0x1000 + 52)).to_le_bytes());
    assert_eq!(p.stub[52], 0x90);
    assert_eq!(&p.stub[56..60], &(0x6000u32 - (0x1000 + 60)).to_le_bytes());
    assert_eq!(&p.stub[10..14], &(0x1000u32 + 61).to_le_bytes());
}

#[test]
fn stub_too_large_is_refused() {
    let h = Hooker::new(0x2000, HookType::JmpToEnumRet(vec![1, 2, 3, 4, 5, 6, 7], 0x3000), 0);
    assert!(!h.stub_fits(5));
    assert!(h.hook(CODE.to_vec(), 0x1000, 0x20, 0).is_none());
    let h = Hooker::new(0x2000, HookType::JmpToEnumRet(vec![1, 2, 3, 4, 5, 6], 0x3000), 0);
    assert!(h.stub_fits(5));
    let h = Hooker::new(0x2000, HookType::JmpBack(0x3000), 0);
    assert!(h.stub_fits(75));
    assert!(!h.stub_fits(76));
}

#[test]
fn relative_jump_round_trip() {
    let op = jmp_relative_operand(0x401000, 0x10002000);
    assert_eq!(op, 0x10002000u32.wrapping_sub(0x401005));
    assert_eq!(jmp_relative_opt_to_pointer(0x401000, op), 0x10002000);
    assert_eq!(jmp_relative_opt_to_pointer(0x2000, 0xFFFF_EFFB), 0x1000);
}
