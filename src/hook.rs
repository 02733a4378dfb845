//! Code redirection: the bytes of a trampoline stub and of the jump that sends
//! a hooked address to it, for 32-bit x86.
use vstd::prelude::*;
use crate::bytes::{le16, le32, push_u16_le, push_u32_le, set_u32_le};

verus! {

/// Length of the near jump written over the hooked address.
pub const JMP_INST_SIZE: usize = 5;

/// Size of every generated stub.
pub const STUB_SIZE: usize = 100;

/// What the stub does once the callback has returned. Callbacks and
/// destinations are code addresses.
pub enum HookType {
    /// Run the relocated instructions and resume after them.
    JmpBack(usize),
    /// Replace the function: return the callback's value, popping the given
    /// number of argument bytes.
    Retn(usize, usize),
    /// Pop the given number of stack bytes and jump to a fixed destination.
    JmpToAddr(usize, u8, usize),
    /// Jump to the address that the callback returns.
    JmpToRet(usize),
    /// Jump to the entry of the table that the callback's result selects;
    /// an index out of range jumps to the abort routine.
    JmpToEnumRet(Vec<usize>, usize),
}

/// The general registers and flags as the stub saves them.
#[derive(Clone, Copy, Debug, PartialEq, Eq)]
pub struct Registers {
    pub eflags: u32,
    pub edi: u32,
    pub esi: u32,
    pub ebp: u32,
    pub esp: u32,
    pub ebx: u32,
    pub edx: u32,
    pub ecx: u32,
    pub eax: u32,
}

/// Called around the patching of the hooked address, usually to suspend and
/// resume the other threads.
pub trait ThreadCallback {
    /// Before the jump is written; `true` when patching may go on.
    fn pre(&self) -> bool;

    /// After the jump is written.
    fn post(&self);
}

/// A redirection to be installed.
pub struct Hooker {
    pub addr: usize,
    pub hook_type: HookType,
    pub user_data: usize,
}

/// An installed redirection: what was written where, and what to put back.
pub struct HookPoint {
    pub addr: usize,
    pub stub_addr: usize,
    pub stub: Vec<u8>,
    pub stub_prot: u32,
    pub original: Vec<u8>,
}

/// `a + b` modulo 2^32.
pub open spec fn wrap_add(a: u32, b: int) -> u32 {
    ((a as int + b) % 0x1_0000_0000) as u32
}

/// The rel32 operand written at `pos` of a stub placed at `base` that
/// transfers control to `dst`.
pub open spec fn rel32(base: u32, pos: int, dst: u32) -> u32 {
    ((dst as int - (base as int + pos + 4)) % 0x1_0000_0000) as u32
}

/// `s` followed by a rel32 operand that reaches `dst`.
pub open spec fn emit_rel(s: Seq<u8>, base: u32, dst: u32) -> Seq<u8> {
    s + le32(rel32(base, s.len() as int, dst))
}

/// `s` with the four bytes at `at` replaced by the little-endian `v`.
pub open spec fn patch32(s: Seq<u8>, at: int, v: u32) -> Seq<u8> {
    s.take(at) + le32(v) + s.skip(at + 4)
}

/// pushad; pushfd; mov ebp, esp
pub open spec fn prologue() -> Seq<u8> {
    seq![0x60u8, 0x9c, 0x8b, 0xec]
}

/// push user_data; push <original function>; push ebp; call
pub open spec fn call_head(s: Seq<u8>, ud: u32) -> Seq<u8> {
    s + seq![0x68u8] + le32(ud) + seq![0x68u8, 0, 0, 0, 0, 0x55, 0xe8]
}

pub open spec fn jmp_back_stub(
    s: Seq<u8>,
    base: u32,
    code: Seq<u8>,
    ori_addr: u32,
    cb: u32,
    ori_len: u8,
    ud: u32,
) -> Seq<u8> {
    let s1 = emit_rel(s + seq![0x68u8] + le32(ud) + seq![0x55u8, 0xe8], base, cb);
    let s2 = s1 + seq![0x83u8, 0xc4, 0x08, 0x9d, 0x61] + code + seq![0xe9u8];
    emit_rel(s2, base, wrap_add(ori_addr, ori_len as int))
}

pub open spec fn retn_stub(
    s: Seq<u8>,
    base: u32,
    code: Seq<u8>,
    ori_addr: u32,
    retn_val: u16,
    cb: u32,
    ori_len: u8,
    ud: u32,
) -> Seq<u8> {
    let at = (s.len() + 6) as int;
    let s1 = emit_rel(call_head(s, ud), base, cb);
    let s2 = s1 + seq![0x83u8, 0xc4, 0x0c, 0x89, 0x44, 0x24, 0x20, 0x9d, 0x61];
    let s3 = if retn_val == 0 {
        s2 + seq![0xc3u8]
    } else {
        s2 + seq![0xc2u8] + le16(retn_val)
    };
    let s4 = patch32(s3, at, wrap_add(base, s3.len() as int)) + code + seq![0xe9u8];
    emit_rel(s4, base, wrap_add(ori_addr, ori_len as int))
}

pub open spec fn jmp_addr_stub(
    s: Seq<u8>,
    base: u32,
    code: Seq<u8>,
    ori_addr: u32,
    dest: u32,
    cb: u32,
    ori_len: u8,
    ud: u32,
    popstack: u8,
) -> Seq<u8> {
    let at = (s.len() + 6) as int;
    let s1 = emit_rel(call_head(s, ud), base, cb);
    let s2 = emit_rel(
        s1 + seq![0x83u8, 0xc4, 0x0c, 0x9d, 0x61, 0x83, 0xc4, popstack, 0xe9],
        base,
        dest,
    );
    let s3 = patch32(s2, at, wrap_add(base, s2.len() as int)) + code + seq![0xe9u8];
    emit_rel(s3, base, wrap_add(ori_addr, ori_len as int))
}

pub open spec fn jmp_ret_stub(
    s: Seq<u8>,
    base: u32,
    code: Seq<u8>,
    ori_addr: u32,
    cb: u32,
    ori_len: u8,
    ud: u32,
) -> Seq<u8> {
    let at = (s.len() + 6) as int;
    let s1 = emit_rel(call_head(s, ud), base, cb);
    let s2 = s1 + seq![0x83u8, 0xc4, 0x0c, 0x89, 0x44, 0x24, 0xfc, 0x9d, 0x61, 0xff, 0x64, 0x24, 0xd8];
    let s3 = patch32(s2, at, wrap_add(base, s2.len() as int)) + code + seq![0xe9u8];
    emit_rel(s3, base, wrap_add(ori_addr, ori_len as int))
}

/// One entry per destination: popfd; popad; jmp dst; nop
pub open spec fn enum_table(s: Seq<u8>, base: u32, rets: Seq<usize>) -> Seq<u8>
    decreases rets.len(),
{
    if rets.len() == 0 {
        s
    } else {
        emit_rel(
            enum_table(s, base, rets.drop_last()) + seq![0x9du8, 0x61, 0xe9],
            base,
            rets.last() as u32,
        ) + seq![0x90u8]
    }
}

pub open spec fn jmp_enum_ret_stub(
    s: Seq<u8>,
    base: u32,
    cb: u32,
    ud: u32,
    rets: Seq<usize>,
    abort: u32,
) -> Seq<u8> {
    let at = (s.len() + 6) as int;
    let s1 = emit_rel(call_head(s, ud), base, cb);
    let s2 = emit_rel(
        s1 + seq![0x83u8, 0xc4, 0x0c, 0x3d] + le32(rets.len() as u32) + seq![0x72u8, 0x05, 0xe9],
        base,
        abort,
    );
    let s3 = s2 + seq![0xc1u8, 0xe0, 0x03, 0x05];
    let s4 = s3 + le32(wrap_add(base, (s3.len() + 6) as int)) + seq![0xffu8, 0xe0];
    let s5 = enum_table(s4, base, rets);
    patch32(s5, at, wrap_add(base, s5.len() as int))
}

/// The instructions of the stub for `h` placed at `base`, relocating `code`
/// and aborting through `abort`.
pub open spec fn stub_code(h: &Hooker, base: u32, code: Seq<u8>, abort: u32) -> Seq<u8> {
    let ori_addr = h.addr as u32;
    let ori_len = code.len() as u8;
    let ud = h.user_data as u32;
    match &h.hook_type {
        HookType::JmpBack(cb) => jmp_back_stub(prologue(), base, code, ori_addr, *cb as u32, ori_len, ud),
        HookType::Retn(val, cb) => retn_stub(
            prologue(),
            base,
            code,
            ori_addr,
            *val as u16,
            *cb as u32,
            ori_len,
            ud,
        ),
        HookType::JmpToAddr(dest, popstack, cb) => jmp_addr_stub(
            prologue(),
            base,
            code,
            ori_addr,
            *dest as u32,
            *cb as u32,
            ori_len,
            ud,
            *popstack,
        ),
        HookType::JmpToRet(cb) => jmp_ret_stub(prologue(), base, code, ori_addr, *cb as u32, ori_len, ud),
        HookType::JmpToEnumRet(rets, cb) => jmp_enum_ret_stub(prologue(), base, *cb as u32, ud, rets@, abort),
    }
}

/// The stub padded with zero bytes to `STUB_SIZE`.
pub open spec fn stub_image(h: &Hooker, base: u32, code: Seq<u8>, abort: u32) -> Seq<u8> {
    let c = stub_code(h, base, code, abort);
    c + Seq::new((STUB_SIZE - c.len()) as nat, |k: int| 0u8)
}

/// Length of the stub's instructions for a relocated run of `code_len` bytes.
pub open spec fn stub_code_len(ht: &HookType, code_len: nat) -> nat {
    match ht {
        HookType::JmpBack(_) => 25 + code_len,
        HookType::Retn(val, _) => if *val as u16 == 0 { 35 + code_len } else { 37 + code_len },
        HookType::JmpToAddr(_, _, _) => 38 + code_len,
        HookType::JmpToRet(_) => 38 + code_len,
        HookType::JmpToEnumRet(rets, _) => 45 + 8 * rets@.len(),
    }
}

/// jmp rel32 at `addr` reaching `dst`.
pub open spec fn jmp_patch(addr: u32, dst: u32) -> Seq<u8> {
    emit_rel(seq![0xe9u8], addr, dst)
}

proof fn lemma_enum_table_len(s: Seq<u8>, base: u32, rets: Seq<usize>)
    ensures
        enum_table(s, base, rets).len() == s.len() + 8 * rets.len(),
    decreases rets.len(),
{
    if rets.len() > 0 {
        lemma_enum_table_len(s, base, rets.drop_last());
    }
}

proof fn lemma_call_head_len(s: Seq<u8>, base: u32, ud: u32, cb: u32)
    ensures
        emit_rel(call_head(s, ud), base, cb).len() == s.len() + 16,
{
}

proof fn lemma_jmp_back_len(s: Seq<u8>, base: u32, code: Seq<u8>, ori_addr: u32, cb: u32, ori_len: u8, ud: u32)
    ensures
        jmp_back_stub(s, base, code, ori_addr, cb, ori_len, ud).len() == s.len() + 21 + code.len(),
{
}

proof fn lemma_retn_len(s: Seq<u8>, base: u32, code: Seq<u8>, ori_addr: u32, v: u16, cb: u32, ori_len: u8, ud: u32)
    requires
        s.len() == 4,
    ensures
        retn_stub(s, base, code, ori_addr, v, cb, ori_len, ud).len() == if v == 0 { 35 + code.len() } else { 37 + code.len() },
{
    lemma_call_head_len(s, base, ud, cb);
}

proof fn lemma_jmp_addr_len(s: Seq<u8>, base: u32, code: Seq<u8>, ori_addr: u32, d: u32, cb: u32, ori_len: u8, ud: u32, p: u8)
    requires
        s.len() == 4,
    ensures
        jmp_addr_stub(s, base, code, ori_addr, d, cb, ori_len, ud, p).len() == 38 + code.len(),
{
    lemma_call_head_len(s, base, ud, cb);
}

proof fn lemma_jmp_ret_len(s: Seq<u8>, base: u32, code: Seq<u8>, ori_addr: u32, cb: u32, ori_len: u8, ud: u32)
    requires
        s.len() == 4,
    ensures
        jmp_ret_stub(s, base, code, ori_addr, cb, ori_len, ud).len() == 38 + code.len(),
{
    lemma_call_head_len(s, base, ud, cb);
}

proof fn lemma_jmp_enum_len(s: Seq<u8>, base: u32, cb: u32, ud: u32, rets: Seq<usize>, abort: u32)
    requires
        s.len() == 4,
    ensures
        jmp_enum_ret_stub(s, base, cb, ud, rets, abort).len() == 45 + 8 * rets.len(),
{
    lemma_call_head_len(s, base, ud, cb);
    let s1 = emit_rel(call_head(s, ud), base, cb);
    let s2 = emit_rel(
        s1 + seq![0x83u8, 0xc4, 0x0c, 0x3d] + le32(rets.len() as u32) + seq![0x72u8, 0x05, 0xe9],
        base,
        abort,
    );
    let s3 = s2 + seq![0xc1u8, 0xe0, 0x03, 0x05];
    let s4 = s3 + le32(wrap_add(base, (s3.len() + 6) as int)) + seq![0xffu8, 0xe0];
    assert(s4.len() == 45);
    lemma_enum_table_len(s4, base, rets);
}

proof fn lemma_stub_code_len(h: &Hooker, base: u32, code: Seq<u8>, abort: u32)
    ensures
        stub_code(h, base, code, abort).len() == stub_code_len(&h.hook_type, code.len()),
{
    let s = prologue();
    let ud = h.user_data as u32;
    let ori_addr = h.addr as u32;
    let ori_len = code.len() as u8;
    match &h.hook_type {
        HookType::JmpBack(cb) => lemma_jmp_back_len(s, base, code, ori_addr, *cb as u32, ori_len, ud),
        HookType::Retn(val, cb) => lemma_retn_len(s, base, code, ori_addr, *val as u16, *cb as u32, ori_len, ud),
        HookType::JmpToAddr(dest, popstack, cb) => lemma_jmp_addr_len(
            s,
            base,
            code,
            ori_addr,
            *dest as u32,
            *cb as u32,
            ori_len,
            ud,
            *popstack,
        ),
        HookType::JmpToRet(cb) => lemma_jmp_ret_len(s, base, code, ori_addr, *cb as u32, ori_len, ud),
        HookType::JmpToEnumRet(rets, cb) => lemma_jmp_enum_len(s, base, *cb as u32, ud, rets@, abort),
    }
}

/// Appends a rel32 operand that reaches `dst` from the current position.
fn push_rel32(buf: &mut Vec<u8>, base: u32, dst: u32)
    requires
        old(buf)@.len() < 0x1000_0000,
    ensures
        final(buf)@ == emit_rel(old(buf)@, base, dst),
{
    let pos = buf.len() as u32;
    let here = base.wrapping_add(pos + 4);
    let off = dst.wrapping_sub(here);
    assert(off == rel32(base, old(buf)@.len() as int, dst));
    push_u32_le(buf, off);
}

/// Appends push user_data; push <placeholder>; push ebp; call, and returns
/// the position of the placeholder.
fn push_call_head(buf: &mut Vec<u8>, user_data: u32) -> (at: usize)
    requires
        old(buf)@.len() < 0x1000_0000,
    ensures
        final(buf)@ == call_head(old(buf)@, user_data),
        at == old(buf)@.len() + 6,
{
    let at = buf.len() + 6;
    buf.push(0x68);
    push_u32_le(buf, user_data);
    buf.push(0x68);
    buf.push(0);
    buf.push(0);
    buf.push(0);
    buf.push(0);
    buf.push(0x55);
    buf.push(0xe8);
    assert(buf@ =~= call_head(old(buf)@, user_data));
    at
}

fn push_code(buf: &mut Vec<u8>, code: &Vec<u8>)
    ensures
        final(buf)@ == old(buf)@ + code@,
{
    crate::bytes::push_bytes(buf, code.as_slice());
}

/// `a + b` modulo 2^32.
fn wrapping_add_u32(a: u32, b: u32) -> (r: u32)
    ensures
        r == wrap_add(a, b as int),
{
    a.wrapping_add(b)
}

/// Points the placeholder at `at` to the current end of the stub, where the
/// relocated code goes.
fn patch_ori_func(buf: &mut Vec<u8>, at: usize, base: u32)
    requires
        at + 4 <= old(buf)@.len(),
        old(buf)@.len() < 0x1000_0000,
    ensures
        final(buf)@ == patch32(old(buf)@, at as int, wrap_add(base, old(buf)@.len() as int)),
{
    let ori_func_off = buf.len() as u32;
    let v = wrapping_add_u32(base, ori_func_off);
    write_ori_func_addr(buf, at, v);
}

/// Appends the relocated code and the jump back behind it.
fn push_code_and_return(buf: &mut Vec<u8>, base: u32, moving_code: &Vec<u8>, ori_addr: u32, ori_len: u8)
    requires
        old(buf)@.len() < 0x1000,
        moving_code@.len() < 0x100,
    ensures
        final(buf)@ == emit_rel(old(buf)@ + moving_code@ + seq![0xe9u8], base, wrap_add(ori_addr, ori_len as int)),
{
    push_code(buf, moving_code);
    buf.push(0xe9);
    let back = wrapping_add_u32(ori_addr, ori_len as u32);
    push_rel32(buf, base, back);
}

/// Writes the detour stub: call the callback, run the relocated code, jump back.
fn generate_jmp_back_stub(
    buf: &mut Vec<u8>,
    stub_base_addr: u32,
    moving_code: &Vec<u8>,
    ori_addr: u32,
    cb: u32,
    ori_len: u8,
    user_data: u32,
)
    requires
        old(buf)@.len() < 0x100,
        moving_code@.len() < 0x100,
    ensures
        final(buf)@ == jmp_back_stub(old(buf)@, stub_base_addr, moving_code@, ori_addr, cb, ori_len, user_data),
{
    let ghost s0 = buf@;
    buf.push(0x68);
    push_u32_le(buf, user_data);
    buf.push(0x55);
    buf.push(0xe8);
    assert(buf@ =~= s0 + seq![0x68u8] + le32(user_data) + seq![0x55u8, 0xe8]);
    push_rel32(buf, stub_base_addr, cb);
    let ghost s1 = buf@;
    buf.push(0x83);
    buf.push(0xc4);
    buf.push(0x08);
    buf.push(0x9d);
    buf.push(0x61);
    assert(buf@ =~= s1 + seq![0x83u8, 0xc4, 0x08, 0x9d, 0x61]);
    push_code_and_return(buf, stub_base_addr, moving_code, ori_addr, ori_len);
}

/// Writes the function-replacing stub: return the callback's value; the
/// relocated code, reachable through the pushed original-function address,
/// runs the original function.
#[verifier::rlimit(60)]
fn generate_retn_stub(
    buf: &mut Vec<u8>,
    stub_base_addr: u32,
    moving_code: &Vec<u8>,
    ori_addr: u32,
    retn_val: u16,
    cb: u32,
    ori_len: u8,
    user_data: u32,
)
    requires
        old(buf)@.len() < 0x100,
        moving_code@.len() < 0x100,
    ensures
        final(buf)@ == retn_stub(old(buf)@, stub_base_addr, moving_code@, ori_addr, retn_val, cb, ori_len, user_data),
{
    let ghost s0 = buf@;
    let at = push_call_head(buf, user_data);
    push_rel32(buf, stub_base_addr, cb);
    let ghost s1 = buf@;
    buf.push(0x83);
    buf.push(0xc4);
    buf.push(0x0c);
    buf.push(0x89);
    buf.push(0x44);
    buf.push(0x24);
    buf.push(0x20);
    buf.push(0x9d);
    buf.push(0x61);
    let ghost s2 = buf@;
    assert(s2 =~= s1 + seq![0x83u8, 0xc4, 0x0c, 0x89, 0x44, 0x24, 0x20, 0x9d, 0x61]);
    if retn_val == 0 {
        buf.push(0xc3);
        assert(buf@ =~= s2 + seq![0xc3u8]);
    } else {
        buf.push(0xc2);
        push_u16_le(buf, retn_val);
        assert(buf@ =~= s2 + seq![0xc2u8] + le16(retn_val));
    }
    patch_ori_func(buf, at, stub_base_addr);
    push_code_and_return(buf, stub_base_addr, moving_code, ori_addr, ori_len);
}

/// Fills the placeholder at `at` with the address of the relocated code.
fn write_ori_func_addr(buf: &mut Vec<u8>, at: usize, ori_func: u32)
    requires
        at + 4 <= old(buf)@.len(),
    ensures
        final(buf)@ == patch32(old(buf)@, at as int, ori_func),
{
    set_u32_le(buf, at, ori_func);
}

/// Writes the stub that pops `popstack` bytes and jumps to `dest_addr`.
#[verifier::rlimit(60)]
fn generate_jmp_addr_stub(
    buf: &mut Vec<u8>,
    stub_base_addr: u32,
    moving_code: &Vec<u8>,
    ori_addr: u32,
    dest_addr: u32,
    cb: u32,
    ori_len: u8,
    user_data: u32,
    popstack: u8,
)
    requires
        old(buf)@.len() < 0x100,
        moving_code@.len() < 0x100,
    ensures
        final(buf)@ == jmp_addr_stub(
            old(buf)@,
            stub_base_addr,
            moving_code@,
            ori_addr,
            dest_addr,
            cb,
            ori_len,
            user_data,
            popstack,
        ),
{
    let at = push_call_head(buf, user_data);
    push_rel32(buf, stub_base_addr, cb);
    let ghost s1 = buf@;
    buf.push(0x83);
    buf.push(0xc4);
    buf.push(0x0c);
    buf.push(0x9d);
    buf.push(0x61);
    buf.push(0x83);
    buf.push(0xc4);
    buf.push(popstack);
    buf.push(0xe9);
    assert(buf@ =~= s1 + seq![0x83u8, 0xc4, 0x0c, 0x9d, 0x61, 0x83, 0xc4, popstack, 0xe9]);
    push_rel32(buf, stub_base_addr, dest_addr);
    patch_ori_func(buf, at, stub_base_addr);
    push_code_and_return(buf, stub_base_addr, moving_code, ori_addr, ori_len);
}

/// Writes the stub that jumps to the address the callback returns.
#[verifier::rlimit(60)]
fn generate_jmp_ret_stub(
    buf: &mut Vec<u8>,
    stub_base_addr: u32,
    moving_code: &Vec<u8>,
    ori_addr: u32,
    cb: u32,
    ori_len: u8,
    user_data: u32,
)
    requires
        old(buf)@.len() < 0x100,
        moving_code@.len() < 0x100,
    ensures
        final(buf)@ == jmp_ret_stub(old(buf)@, stub_base_addr, moving_code@, ori_addr, cb, ori_len, user_data),
{
    let at = push_call_head(buf, user_data);
    push_rel32(buf, stub_base_addr, cb);
    let ghost s1 = buf@;
    buf.push(0x83);
    buf.push(0xc4);
    buf.push(0x0c);
    buf.push(0x89);
    buf.push(0x44);
    buf.push(0x24);
    buf.push(0xfc);
    buf.push(0x9d);
    buf.push(0x61);
    buf.push(0xff);
    buf.push(0x64);
    buf.push(0x24);
    buf.push(0xd8);
    assert(buf@ =~= s1 + seq![0x83u8, 0xc4, 0x0c, 0x89, 0x44, 0x24, 0xfc, 0x9d, 0x61, 0xff, 0x64, 0x24, 0xd8]);
    patch_ori_func(buf, at, stub_base_addr);
    push_code_and_return(buf, stub_base_addr, moving_code, ori_addr, ori_len);
}

/// Appends one table entry per destination.
fn push_enum_table(buf: &mut Vec<u8>, base: u32, rets: &Vec<usize>)
    requires
        old(buf)@.len() < 0x200,
        rets@.len() < 0x10_0000,
    ensures
        final(buf)@ == enum_table(old(buf)@, base, rets@),
{
    let ghost s4 = buf@;
    let mut k: usize = 0;
    while k < rets.len()
        invariant
            0 <= k <= rets@.len(),
            rets@.len() < 0x10_0000,
            s4.len() < 0x200,
            buf@ == enum_table(s4, base, rets@.take(k as int)),
        decreases rets@.len() - k,
    {
        proof {
            lemma_enum_table_len(s4, base, rets@.take(k as int));
        }
        let ghost before = buf@;
        buf.push(0x9d);
        buf.push(0x61);
        buf.push(0xe9);
        assert(buf@ =~= before + seq![0x9du8, 0x61, 0xe9]);
        push_rel32(buf, base, rets[k] as u32);
        buf.push(0x90);
        k += 1;
        assert(rets@.take(k as int).drop_last() =~= rets@.take(k - 1));
    }
    assert(rets@.take(rets@.len() as int) =~= rets@);
}

/// Writes the stub that jumps through a table indexed by the callback's
/// result, and to `abort_addr` when the index is out of range.
#[verifier::rlimit(60)]
fn generate_jmp_enum_ret_stub(
    buf: &mut Vec<u8>,
    stub_base_addr: u32,
    cb: u32,
    user_data: u32,
    rets: &Vec<usize>,
    abort_addr: u32,
)
    requires
        old(buf)@.len() < 0x100,
        rets@.len() < 0x10_0000,
    ensures
        final(buf)@ == jmp_enum_ret_stub(old(buf)@, stub_base_addr, cb, user_data, rets@, abort_addr),
{
    let ghost s0 = buf@;
    let at = push_call_head(buf, user_data);
    push_rel32(buf, stub_base_addr, cb);
    let ghost s1 = buf@;
    assert(s1 == emit_rel(call_head(s0, user_data), stub_base_addr, cb));
    buf.push(0x83);
    buf.push(0xc4);
    buf.push(0x0c);
    buf.push(0x3d);
    push_u32_le(buf, rets.len() as u32);
    buf.push(0x72);
    buf.push(0x05);
    buf.push(0xe9);
    assert(buf@ =~= s1 + seq![0x83u8, 0xc4, 0x0c, 0x3d] + le32(rets@.len() as u32) + seq![0x72u8, 0x05, 0xe9]);
    push_rel32(buf, stub_base_addr, abort_addr);
    let ghost s2 = buf@;
    buf.push(0xc1);
    buf.push(0xe0);
    buf.push(0x03);
    buf.push(0x05);
    let ghost s3 = buf@;
    assert(s3 =~= s2 + seq![0xc1u8, 0xe0, 0x03, 0x05]);
    let table = wrapping_add_u32(stub_base_addr, buf.len() as u32 + 4 + 2);
    push_u32_le(buf, table);
    buf.push(0xff);
    buf.push(0xe0);
    let ghost s4 = buf@;
    assert(s4 =~= s3 + le32(wrap_add(stub_base_addr, (s3.len() + 6) as int)) + seq![0xffu8, 0xe0]);
    push_enum_table(buf, stub_base_addr, rets);
    proof {
        lemma_enum_table_len(s4, stub_base_addr, rets@);
    }
    patch_ori_func(buf, at, stub_base_addr);
}

/// Where a `jmp rel32` at `jmp_addr` with operand `operand` lands.
pub open spec fn rel_jump_target(jmp_addr: u32, operand: u32) -> u32 {
    ((jmp_addr as int + 5 + operand as int) % 0x1_0000_0000) as u32
}

/// The operand that makes a `jmp rel32` at `jmp_addr` land on `target`.
pub open spec fn rel_jump_operand(jmp_addr: u32, target: u32) -> u32 {
    ((target as int - (jmp_addr as int + 5)) % 0x1_0000_0000) as u32
}

/// Where the relative jump or call at `jmp_addr` with operand `operand` lands.
pub fn jmp_relative_opt_to_pointer(jmp_addr: u32, operand: u32) -> (r: u32)
    ensures
        r == rel_jump_target(jmp_addr, operand),
{
    let end = wrapping_add_u32(jmp_addr, 5);
    wrapping_add_u32(end, operand)
}

/// The operand that redirects the relative jump or call at `jmp_addr` to `target`.
pub fn jmp_relative_operand(jmp_addr: u32, target: u32) -> (r: u32)
    ensures
        r == rel_jump_operand(jmp_addr, target),
{
    let end = wrapping_add_u32(jmp_addr, 5);
    target.wrapping_sub(end)
}

/// Re-targeting a relative jump and reading its target back gives the new target.
pub proof fn lemma_rel_jump_round_trip(jmp_addr: u32, target: u32)
    ensures
        rel_jump_target(jmp_addr, rel_jump_operand(jmp_addr, target)) == target,
{
}

impl Hooker {
    /// A redirection of `addr` of the given kind, handing `user_data` to the callback.
    pub fn new(addr: usize, hook_type: HookType, user_data: usize) -> (r: Self)
        ensures
            r.addr == addr,
            r.hook_type == hook_type,
            r.user_data == user_data,
    {
        Self { addr, hook_type, user_data }
    }

    /// Whether the stub for a relocated run of `code_len` bytes fits in `STUB_SIZE`.
    pub fn stub_fits(&self, code_len: usize) -> (r: bool)
        ensures
            r == (stub_code_len(&self.hook_type, code_len as nat) <= STUB_SIZE),
    {
        match &self.hook_type {
            HookType::JmpBack(_) => code_len <= STUB_SIZE - 25,
            HookType::Retn(val, _) => {
                if *val as u16 == 0 {
                    code_len <= STUB_SIZE - 35
                } else {
                    code_len <= STUB_SIZE - 37
                }
            },
            HookType::JmpToAddr(_, _, _) => code_len <= STUB_SIZE - 38,
            HookType::JmpToRet(_) => code_len <= STUB_SIZE - 38,
            HookType::JmpToEnumRet(rets, _) => rets.len() <= (STUB_SIZE - 45) / 8,
        }
    }

    /// The stub placed at `stub_addr`, relocating `moving_code`, padded to
    /// `STUB_SIZE` bytes.
    pub fn generate_stub(&self, moving_code: &Vec<u8>, stub_addr: u32, abort_addr: u32) -> (r: Vec<u8>)
        requires
            moving_code@.len() < 0x100,
            stub_code_len(&self.hook_type, moving_code@.len()) <= STUB_SIZE,
        ensures
            r@ == stub_image(self, stub_addr, moving_code@, abort_addr),
            r@.len() == STUB_SIZE,
    {
        let mut buf: Vec<u8> = Vec::new();
        buf.push(0x60);
        buf.push(0x9c);
        buf.push(0x8b);
        buf.push(0xec);
        assert(buf@ =~= prologue());
        let ori_addr = self.addr as u32;
        let ori_len = moving_code.len() as u8;
        let user_data = self.user_data as u32;
        match &self.hook_type {
            HookType::JmpBack(cb) => generate_jmp_back_stub(
                &mut buf,
                stub_addr,
                moving_code,
                ori_addr,
                *cb as u32,
                ori_len,
                user_data,
            ),
            HookType::Retn(val, cb) => generate_retn_stub(
                &mut buf,
                stub_addr,
                moving_code,
                ori_addr,
                *val as u16,
                *cb as u32,
                ori_len,
                user_data,
            ),
            HookType::JmpToAddr(dest, popstack, cb) => generate_jmp_addr_stub(
                &mut buf,
                stub_addr,
                moving_code,
                ori_addr,
                *dest as u32,
                *cb as u32,
                ori_len,
                user_data,
                *popstack,
            ),
            HookType::JmpToRet(cb) => generate_jmp_ret_stub(
                &mut buf,
                stub_addr,
                moving_code,
                ori_addr,
                *cb as u32,
                ori_len,
                user_data,
            ),
            HookType::JmpToEnumRet(rets, cb) => generate_jmp_enum_ret_stub(
                &mut buf,
                stub_addr,
                *cb as u32,
                user_data,
                rets,
                abort_addr,
            ),
        }
        proof {
            lemma_stub_code_len(self, stub_addr, moving_code@, abort_addr);
        }
        let ghost code = buf@;
        assert(code == stub_code(self, stub_addr, moving_code@, abort_addr));
        while buf.len() < STUB_SIZE
            invariant
                code.len() <= buf@.len() <= STUB_SIZE,
                buf@ =~= code + Seq::new((buf@.len() - code.len()) as nat, |k: int| 0u8),
            decreases STUB_SIZE - buf@.len(),
        {
            buf.push(0);
        }
        buf
    }

    /// Installs the redirection on paper: `moving_code` is what stands at the
    /// hooked address (at least a jump's length of whole instructions), the
    /// stub goes to `stub_addr`, whose earlier protection was `stub_prot`.
    /// `None` when the stub would not fit in `STUB_SIZE` bytes.
    pub fn hook(self, moving_code: Vec<u8>, stub_addr: usize, stub_prot: u32, abort_addr: usize) -> (r: Option<HookPoint>)
        requires
            JMP_INST_SIZE <= moving_code@.len() < 0x100,
        ensures
            r is Some <==> stub_code_len(&self.hook_type, moving_code@.len()) <= STUB_SIZE,
            r matches Some(p) ==> {
                &&& p.addr == self.addr
                &&& p.stub_addr == stub_addr
                &&& p.stub_prot == stub_prot
                &&& p.stub@ == stub_image(&self, stub_addr as u32, moving_code@, abort_addr as u32)
                &&& p.original@ == moving_code@.take(JMP_INST_SIZE as int)
            },
    {
        if !self.stub_fits(moving_code.len()) {
            return None;
        }
        let stub = self.generate_stub(&moving_code, stub_addr as u32, abort_addr as u32);
        let mut original: Vec<u8> = Vec::new();
        let mut k: usize = 0;
        while k < JMP_INST_SIZE
            invariant
                0 <= k <= JMP_INST_SIZE,
                JMP_INST_SIZE <= moving_code@.len(),
                original@ == moving_code@.take(k as int),
            decreases JMP_INST_SIZE - k,
        {
            original.push(moving_code[k]);
            k += 1;
            assert(original@ =~= moving_code@.take(k as int));
        }
        Some(HookPoint { addr: self.addr, stub_addr, stub, stub_prot, original })
    }
}

impl HookPoint {
    /// The near jump to the stub, to be written at the hooked address.
    pub fn jump(&self) -> (r: Vec<u8>)
        ensures
            r@ == jmp_patch(self.addr as u32, self.stub_addr as u32),
    {
        let mut buf: Vec<u8> = Vec::new();
        buf.push(0xe9);
        push_rel32(&mut buf, self.addr as u32, self.stub_addr as u32);
        buf
    }

    /// The bytes that the jump overwrote, to be put back at the hooked address.
    pub fn unhook_by_ref(&self) -> (r: Vec<u8>)
        ensures
            r@ == self.original@,
    {
        let mut r: Vec<u8> = Vec::new();
        let mut k: usize = 0;
        while k < self.original.len()
            invariant
                0 <= k <= self.original@.len(),
                r@ == self.original@.take(k as int),
            decreases self.original@.len() - k,
        {
            r.push(self.original[k]);
            k += 1;
            assert(r@ =~= self.original@.take(k as int));
        }
        assert(self.original@.take(self.original@.len() as int) =~= self.original@);
        r
    }

    /// Gives up the redirection, returning the bytes to put back at the hooked address.
    pub fn unhook(self) -> (r: Vec<u8>)
        ensures
            r@ == self.original@,
    {
        self.original
    }
}

} // verus!
