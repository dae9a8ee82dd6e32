//! Branch/call/jump filters.
//!
//! A filter rewrites the relative operand of branch instructions into an
//! absolute address, so that calls to one function from many places become
//! equal byte strings. Every rewrite can be undone by the matching decoder when
//! it is run over the same stream positions.

use vstd::prelude::*;
use vstd::string::StringSliceAdditionalSpecFns;
use crate::endian::{
    lemma_bytes_of_word, lemma_word_of_bytes, put_word, read_word, word_at, write_word,
};
use crate::error::CompressionError;
use crate::text::{contains_bytes, str_contains};

verus! {

/// The instruction set whose branches a filter rewrites.
#[derive(Debug, Clone, Copy, PartialEq, Eq, Structural)]
pub enum BcjArch {
    /// x86 and x86_64.
    X86,
    /// 32-bit ARM.
    Arm,
    /// 64-bit ARM.
    Arm64,
    /// RISC-V.
    RiscV,
    /// 64-bit little-endian PowerPC.
    Ppc64Le,
    /// No filtering: bytes pass through unchanged.
    Passthrough,
}

/// The filter for a target named by a toolchain triple or a canonical
/// identifier, found by the first of these substrings that the name holds.
pub open spec fn arch_of_name(name: Seq<u8>) -> BcjArch {
    if contains_bytes(name, "x86_64".spec_bytes()) || contains_bytes(name, "i686".spec_bytes()) {
        BcjArch::X86
    } else if contains_bytes(name, "aarch64".spec_bytes()) {
        BcjArch::Arm64
    } else if contains_bytes(name, "arm".spec_bytes()) {
        BcjArch::Arm
    } else if contains_bytes(name, "riscv".spec_bytes()) {
        BcjArch::RiscV
    } else if contains_bytes(name, "powerpc64le".spec_bytes()) || contains_bytes(
        name,
        "ppc64le".spec_bytes(),
    ) {
        BcjArch::Ppc64Le
    } else {
        BcjArch::Passthrough
    }
}

impl BcjArch {
    /// Picks the filter for a target from its name.
    pub fn from_target(target: &str) -> (arch: Self)
        ensures
            arch == arch_of_name(target.spec_bytes()),
    {
        if str_contains(target, "x86_64") || str_contains(target, "i686") {
            BcjArch::X86
        } else if str_contains(target, "aarch64") {
            BcjArch::Arm64
        } else if str_contains(target, "arm") {
            BcjArch::Arm
        } else if str_contains(target, "riscv") {
            BcjArch::RiscV
        } else if str_contains(target, "powerpc64le") || str_contains(target, "ppc64le") {
            BcjArch::Ppc64Le
        } else {
            BcjArch::Passthrough
        }
    }
}

// ---------------------------------------------------------------------------
// Stream positions
// ---------------------------------------------------------------------------

/// The 32-bit stream address of the byte `i` places after position `pos`.
#[verifier::opaque]
pub open spec fn address(pos: u32, i: int) -> u32 {
    ((pos as int + i) % 0x1_0000_0000) as u32
}

/// Stream addresses add up, and wrap as 32-bit addition does.
pub proof fn lemma_address_sum(pos: u32, i: int, j: int)
    requires
        0 <= i,
        0 <= j,
    ensures
        address(pos, 0) == pos,
        address(address(pos, i), j) == address(pos, i + j),
        j <= u32::MAX ==> address(pos, i).wrapping_add(j as u32) == address(pos, i + j),
{
    reveal(address);
}

fn advance(pos: u32, n: usize) -> (r: u32)
    ensures
        r == address(pos, n as int),
{
    proof {
        reveal(address);
    }
    let low: u32 = ((n as u64) % 0x1_0000_0000) as u32;
    pos.wrapping_add(low)
}

// ---------------------------------------------------------------------------
// One instruction word of each fixed-width instruction set
// ---------------------------------------------------------------------------

/// A 24-bit field read as a signed number, in two's complement.
pub open spec fn sign_extend_24(v: u32) -> u32 {
    if v & 0x0080_0000 != 0 {
        v | 0xFF00_0000
    } else {
        v
    }
}

/// A 26-bit field read as a signed number, in two's complement.
pub open spec fn sign_extend_26(v: u32) -> u32 {
    if v & 0x0200_0000 != 0 {
        v | 0xFC00_0000
    } else {
        v
    }
}

/// A 21-bit field read as a signed number, in two's complement.
pub open spec fn sign_extend_21(v: u32) -> u32 {
    if v & 0x0010_0000 != 0 {
        v | 0xFFE0_0000
    } else {
        v
    }
}

/// The operand that replaces the byte offset `offset` of a branch at stream
/// address `addr`: the absolute target when encoding, the offset that leads to
/// the absolute target `offset` when decoding. Both wrap at 32 bits.
pub open spec fn rebased(encode: bool, offset: u32, addr: u32) -> u32 {
    if encode {
        addr.wrapping_add(offset)
    } else {
        offset.wrapping_sub(addr)
    }
}

/// AArch64: `BL` has `100101` in its top six bits and a signed word offset in
/// the other 26.
pub open spec fn arm64_word(encode: bool, w: u32, addr: u32) -> u32 {
    if w & 0xFC00_0000 == 0x9400_0000 {
        let offset = sign_extend_26(w & 0x03FF_FFFF) << 2;
        let target = rebased(encode, offset, addr);
        (w & 0xFC00_0000) | ((target >> 2) & 0x03FF_FFFF)
    } else {
        w
    }
}

/// ARM: `BL` has `1011` in bits 27 to 24 and a signed word offset in the low
/// 24; a branch is relative to the instruction's address plus 8.
pub open spec fn arm_word(encode: bool, w: u32, addr: u32) -> u32 {
    if w & 0x0F00_0000 == 0x0B00_0000 {
        let offset = sign_extend_24(w & 0x00FF_FFFF) << 2;
        let target = rebased(encode, offset, addr.wrapping_add(8));
        (w & 0xFF00_0000) | ((target >> 2) & 0x00FF_FFFF)
    } else {
        w
    }
}

/// The byte offset that the immediate of a RISC-V `JAL` word stands for.
pub open spec fn riscv_jal_offset(w: u32) -> u32 {
    sign_extend_21(
        (((w >> 31) & 1) << 20) | (((w >> 12) & 0xFF) << 12) | (((w >> 20) & 1) << 11) | (((w
            >> 21) & 0x3FF) << 1),
    )
}

/// RISC-V: `JAL` has `1101111` in its low seven bits; bits 31, 30 to 21, 20
/// and 19 to 12 hold bits 20, 10 to 1, 11 and 19 to 12 of a signed byte
/// offset.
pub open spec fn riscv_word(encode: bool, w: u32, addr: u32) -> u32 {
    if w & 0x7F == 0x6F {
        let target = rebased(encode, riscv_jal_offset(w), addr);
        (w & 0xFFF) | (target & 0xFF000) | (((target >> 11) & 1) << 20) | (((target >> 1)
            & 0x3FF) << 21) | (((target >> 20) & 1) << 31)
    } else {
        w
    }
}

/// PowerPC: `b` and `bl` have 18 in their top six bits, a signed word offset
/// in the next 24, and the flags AA and LK in the low two.
pub open spec fn ppc64_word(encode: bool, w: u32, addr: u32) -> u32 {
    if (w >> 26) & 0x3F == 18 {
        let offset = sign_extend_24((w >> 2) & 0x00FF_FFFF) << 2;
        let target = rebased(encode, offset, addr);
        (w & 0xFC00_0003) | (((target >> 2) & 0x00FF_FFFF) << 2)
    } else {
        w
    }
}

/// Whether `arch` has fixed-width instructions that are filtered word by word.
pub open spec fn is_word_arch(arch: BcjArch) -> bool {
    arch == BcjArch::Arm || arch == BcjArch::Arm64 || arch == BcjArch::RiscV || arch
        == BcjArch::Ppc64Le
}

/// What the filter of `arch` makes of the instruction word `w` found at stream
/// address `addr`.
pub open spec fn branch_word(arch: BcjArch, encode: bool, w: u32, addr: u32) -> u32 {
    match arch {
        BcjArch::Arm64 => arm64_word(encode, w, addr),
        BcjArch::Arm => arm_word(encode, w, addr),
        BcjArch::RiscV => riscv_word(encode, w, addr),
        BcjArch::Ppc64Le => ppc64_word(encode, w, addr),
        _ => w,
    }
}

/// The alignment, in bytes, of the stream addresses at which `arch` looks for
/// instruction words.
pub open spec fn word_alignment(arch: BcjArch) -> int {
    if arch == BcjArch::RiscV {
        2
    } else {
        4
    }
}

/// Decoding an encoded instruction word gives the word back, at every address
/// that the filter visits.
pub proof fn lemma_branch_word_round_trip(arch: BcjArch, w: u32, addr: u32)
    requires
        addr as int % word_alignment(arch) == 0,
    ensures
        branch_word(arch, false, branch_word(arch, true, w, addr), addr) == w,
{
    match arch {
        BcjArch::Arm64 => {
            assert(addr & 3 == 0) by (bit_vector)
                requires
                    addr % 4 == 0,
            ;
            assert(arm64_word(false, arm64_word(true, w, addr), addr) == w) by (bit_vector)
                requires
                    addr & 3 == 0,
            ;
        },
        BcjArch::Arm => {
            assert(addr & 3 == 0) by (bit_vector)
                requires
                    addr % 4 == 0,
            ;
            assert(arm_word(false, arm_word(true, w, addr), addr) == w) by (bit_vector)
                requires
                    addr & 3 == 0,
            ;
        },
        BcjArch::RiscV => {
            assert(addr & 1 == 0) by (bit_vector)
                requires
                    addr % 2 == 0,
            ;
            assert(riscv_word(false, riscv_word(true, w, addr), addr) == w) by (bit_vector)
                requires
                    addr & 1 == 0,
            ;
        },
        BcjArch::Ppc64Le => {
            assert(addr & 3 == 0) by (bit_vector)
                requires
                    addr % 4 == 0,
            ;
            assert(ppc64_word(false, ppc64_word(true, w, addr), addr) == w) by (bit_vector)
                requires
                    addr & 3 == 0,
            ;
        },
        _ => {},
    }
}

fn rebase(encode: bool, offset: u32, addr: u32) -> (r: u32)
    ensures
        r == rebased(encode, offset, addr),
{
    if encode {
        addr.wrapping_add(offset)
    } else {
        offset.wrapping_sub(addr)
    }
}

fn filter_arm64_word(encode: bool, w: u32, addr: u32) -> (r: u32)
    ensures
        r == arm64_word(encode, w, addr),
{
    if w & 0xFC00_0000 == 0x9400_0000 {
        let field = w & 0x03FF_FFFF;
        let signed = if field & 0x0200_0000 != 0 {
            field | 0xFC00_0000
        } else {
            field
        };
        let target = rebase(encode, signed << 2, addr);
        (w & 0xFC00_0000) | ((target >> 2) & 0x03FF_FFFF)
    } else {
        w
    }
}

fn filter_arm_word(encode: bool, w: u32, addr: u32) -> (r: u32)
    ensures
        r == arm_word(encode, w, addr),
{
    if w & 0x0F00_0000 == 0x0B00_0000 {
        let field = w & 0x00FF_FFFF;
        let signed = if field & 0x0080_0000 != 0 {
            field | 0xFF00_0000
        } else {
            field
        };
        let target = rebase(encode, signed << 2, addr.wrapping_add(8));
        (w & 0xFF00_0000) | ((target >> 2) & 0x00FF_FFFF)
    } else {
        w
    }
}

fn filter_riscv_word(encode: bool, w: u32, addr: u32) -> (r: u32)
    ensures
        r == riscv_word(encode, w, addr),
{
    if w & 0x7F == 0x6F {
        let imm20 = (w >> 31) & 1;
        let imm10_1 = (w >> 21) & 0x3FF;
        let imm11 = (w >> 20) & 1;
        let imm19_12 = (w >> 12) & 0xFF;
        let field = (imm20 << 20) | (imm19_12 << 12) | (imm11 << 11) | (imm10_1 << 1);
        let signed = if field & 0x0010_0000 != 0 {
            field | 0xFFE0_0000
        } else {
            field
        };
        let target = rebase(encode, signed, addr);
        (w & 0xFFF) | (target & 0xFF000) | (((target >> 11) & 1) << 20) | (((target >> 1)
            & 0x3FF) << 21) | (((target >> 20) & 1) << 31)
    } else {
        w
    }
}

fn filter_ppc64_word(encode: bool, w: u32, addr: u32) -> (r: u32)
    ensures
        r == ppc64_word(encode, w, addr),
{
    if (w >> 26) & 0x3F == 18 {
        let field = (w >> 2) & 0x00FF_FFFF;
        let signed = if field & 0x0080_0000 != 0 {
            field | 0xFF00_0000
        } else {
            field
        };
        let target = rebase(encode, signed << 2, addr);
        (w & 0xFC00_0003) | (((target >> 2) & 0x00FF_FFFF) << 2)
    } else {
        w
    }
}

fn filter_word(arch: BcjArch, encode: bool, w: u32, addr: u32) -> (r: u32)
    ensures
        r == branch_word(arch, encode, w, addr),
{
    match arch {
        BcjArch::Arm64 => filter_arm64_word(encode, w, addr),
        BcjArch::Arm => filter_arm_word(encode, w, addr),
        BcjArch::RiscV => filter_riscv_word(encode, w, addr),
        BcjArch::Ppc64Le => filter_ppc64_word(encode, w, addr),
        _ => w,
    }
}

// ---------------------------------------------------------------------------
// The scan
// ---------------------------------------------------------------------------

/// `CALL rel32` and `JMP rel32`.
pub open spec fn is_x86_branch(b: u8) -> bool {
    b == 0xE8 || b == 0xE9
}

/// The index of the first byte of a piece that the scan looks at, when the
/// piece starts at stream position `pos`: 0 for x86, else the first byte at an
/// aligned stream address.
pub open spec fn first_index(arch: BcjArch, pos: u32) -> int {
    if arch == BcjArch::X86 {
        0
    } else {
        let a = word_alignment(arch);
        (a - pos as int % a) % a
    }
}

/// Whether the scan of a piece of `len` bytes still has an instruction to look
/// at when it stands at index `i`: x86 needs an opcode and four bytes after it,
/// the others a whole word.
pub open spec fn can_step(arch: BcjArch, len: int, i: int) -> bool {
    if arch == BcjArch::X86 {
        i + 4 < len
    } else {
        i + 4 <= len
    }
}

/// How far the scan moves from index `i`: over an x86 branch and its operand,
/// over any other x86 byte, or over one word.
pub open spec fn step_len(arch: BcjArch, data: Seq<u8>, i: int) -> int {
    if arch == BcjArch::X86 {
        if is_x86_branch(data[i]) {
            5
        } else {
            1
        }
    } else {
        4
    }
}

/// `data` after the scan has dealt with the instruction at index `i`. The
/// operand of an x86 branch is rebased on the address of the instruction that
/// follows it; a word of another instruction set is replaced by what
/// `branch_word` makes of it.
pub open spec fn stepped(arch: BcjArch, encode: bool, data: Seq<u8>, pos: u32, i: int) -> Seq<
    u8,
> {
    if arch == BcjArch::X86 {
        if is_x86_branch(data[i]) {
            put_word(data, i + 1, rebased(encode, word_at(data, i + 1), address(pos, i + 5)))
        } else {
            data
        }
    } else {
        put_word(data, i, branch_word(arch, encode, word_at(data, i), address(pos, i)))
    }
}

/// The filter of `arch` run over `data` from index `i` on, the stream position
/// of `data[0]` being `pos`.
pub open spec fn scan(arch: BcjArch, encode: bool, data: Seq<u8>, pos: u32, i: int) -> Seq<u8>
    decreases data.len() - i,
{
    if i < 0 || !can_step(arch, data.len() as int, i) {
        data
    } else {
        scan(arch, encode, stepped(arch, encode, data, pos, i), pos, i + step_len(arch, data, i))
    }
}

/// What one call of the filter of `arch` makes of `data` when the filter stands
/// at stream position `pos`: the encoded bytes if `encode`, else the decoded.
pub open spec fn bcj_transformed(arch: BcjArch, encode: bool, data: Seq<u8>, pos: u32) -> Seq<
    u8,
> {
    if arch == BcjArch::Passthrough {
        data
    } else {
        scan(arch, encode, data, pos, first_index(arch, pos))
    }
}

/// Whether the scan of `data` that stands at index `i` comes to stand exactly
/// at index `mid`, or runs out of instructions before it: no instruction that
/// it looks at lies across `mid`.
pub open spec fn visits(arch: BcjArch, data: Seq<u8>, i: int, mid: int) -> bool
    decreases data.len() - i,
{
    if i < 0 || i >= mid {
        i == mid
    } else if can_step(arch, data.len() as int, i) {
        visits(arch, data, i + step_len(arch, data, i), mid)
    } else {
        true
    }
}

/// Where a piece may be cut in two so that filtering the parts one after the
/// other is filtering the whole: on an instruction boundary of the scan.
pub open spec fn splits_at(arch: BcjArch, data: Seq<u8>, pos: u32, mid: int) -> bool {
    &&& 0 <= mid <= data.len()
    &&& arch != BcjArch::Passthrough ==> visits(arch, data, first_index(arch, pos), mid)
}

/// Whether the scan of `arch` may stand at stream address `addr`.
pub open spec fn on_grid(arch: BcjArch, addr: u32) -> bool {
    arch != BcjArch::X86 ==> addr as int % word_alignment(arch) == 0
}

proof fn lemma_grid(arch: BcjArch, pos: u32, i: int)
    requires
        0 <= i,
    ensures
        on_grid(arch, address(pos, first_index(arch, pos))),
        on_grid(arch, address(pos, i)) ==> on_grid(arch, address(pos, i + 4)),
        on_grid(arch, address(pos, i)) && arch != BcjArch::X86 ==> first_index(
            arch,
            address(pos, i),
        ) == 0,
{
    reveal(address);
}

proof fn lemma_stepped_local(arch: BcjArch, encode: bool, data: Seq<u8>, pos: u32, i: int)
    requires
        0 <= i,
        can_step(arch, data.len() as int, i),
    ensures
        stepped(arch, encode, data, pos, i).len() == data.len(),
        forall|k: int|
            0 <= k < data.len() && (k < i || k >= i + step_len(arch, data, i)) ==> stepped(
                arch,
                encode,
                data,
                pos,
                i,
            )[k] == data[k],
        step_len(arch, stepped(arch, encode, data, pos, i), i) == step_len(arch, data, i),
{
}

proof fn lemma_stepped_congruent(
    arch: BcjArch,
    encode: bool,
    a: Seq<u8>,
    b: Seq<u8>,
    pos: u32,
    i: int,
)
    requires
        0 <= i,
        a.len() == b.len(),
        can_step(arch, a.len() as int, i),
        forall|k: int| i <= k < i + step_len(arch, a, i) ==> a[k] == b[k],
    ensures
        step_len(arch, a, i) == step_len(arch, b, i),
        forall|k: int|
            i <= k < i + step_len(arch, a, i) ==> stepped(arch, encode, a, pos, i)[k] == stepped(
                arch,
                encode,
                b,
                pos,
                i,
            )[k],
{
    if arch == BcjArch::X86 {
        assert(a[i] == b[i]);
        if is_x86_branch(a[i]) {
            assert(a[i + 1] == b[i + 1] && a[i + 2] == b[i + 2] && a[i + 3] == b[i + 3] && a[i
                + 4] == b[i + 4]);
        }
    } else {
        assert(a[i] == b[i] && a[i + 1] == b[i + 1] && a[i + 2] == b[i + 2] && a[i + 3] == b[i
            + 3]);
    }
}

proof fn lemma_scan_shape(arch: BcjArch, encode: bool, data: Seq<u8>, pos: u32, i: int)
    requires
        0 <= i,
    ensures
        scan(arch, encode, data, pos, i).len() == data.len(),
        forall|k: int|
            0 <= k < i && k < data.len() ==> scan(arch, encode, data, pos, i)[k] == data[k],
    decreases data.len() - i,
{
    if can_step(arch, data.len() as int, i) {
        lemma_stepped_local(arch, encode, data, pos, i);
        lemma_scan_shape(
            arch,
            encode,
            stepped(arch, encode, data, pos, i),
            pos,
            i + step_len(arch, data, i),
        );
    }
}

proof fn lemma_scan_tail(arch: BcjArch, encode: bool, a: Seq<u8>, b: Seq<u8>, pos: u32, i: int)
    requires
        0 <= i,
        a.len() == b.len(),
        forall|k: int| i <= k < a.len() ==> a[k] == b[k],
    ensures
        forall|k: int|
            i <= k < a.len() ==> scan(arch, encode, a, pos, i)[k] == scan(
                arch,
                encode,
                b,
                pos,
                i,
            )[k],
    decreases a.len() - i,
{
    if can_step(arch, a.len() as int, i) {
        let n = step_len(arch, a, i);
        let sa = stepped(arch, encode, a, pos, i);
        let sb = stepped(arch, encode, b, pos, i);
        lemma_stepped_congruent(arch, encode, a, b, pos, i);
        lemma_stepped_local(arch, encode, a, pos, i);
        lemma_stepped_local(arch, encode, b, pos, i);
        assert forall|k: int| i <= k < a.len() implies sa[k] == sb[k] by {
            if k >= i + n {
                assert(sa[k] == a[k] && sb[k] == b[k]);
            }
        }
        lemma_scan_tail(arch, encode, sa, sb, pos, i + n);
        lemma_scan_shape(arch, encode, sa, pos, i + n);
        lemma_scan_shape(arch, encode, sb, pos, i + n);
        assert forall|k: int| i <= k < a.len() implies scan(arch, encode, a, pos, i)[k] == scan(
            arch,
            encode,
            b,
            pos,
            i,
        )[k] by {
            if k < i + n {
                assert(scan(arch, encode, sa, pos, i + n)[k] == sa[k]);
                assert(scan(arch, encode, sb, pos, i + n)[k] == sb[k]);
            }
        }
    }
}

proof fn lemma_rebased_round_trip(v: u32, addr: u32)
    ensures
        rebased(false, rebased(true, v, addr), addr) == v,
{
    assert(rebased(false, rebased(true, v, addr), addr) == v) by (bit_vector);
}

proof fn lemma_put_word_at(data: Seq<u8>, i: int, w: u32)
    requires
        0 <= i,
        i + 4 <= data.len(),
    ensures
        word_at(put_word(data, i, w), i) == w,
        put_word(data, i, word_at(data, i)) == data,
        put_word(put_word(data, i, w), i, word_at(data, i)) == data,
{
    lemma_word_of_bytes(w);
    lemma_bytes_of_word(data[i], data[i + 1], data[i + 2], data[i + 3]);
    assert(put_word(data, i, word_at(data, i)) =~= data);
    assert(put_word(put_word(data, i, w), i, word_at(data, i)) =~= data);
}

proof fn lemma_step_round_trip(arch: BcjArch, data: Seq<u8>, pos: u32, i: int)
    requires
        0 <= i,
        can_step(arch, data.len() as int, i),
        on_grid(arch, address(pos, i)),
    ensures
        stepped(arch, false, stepped(arch, true, data, pos, i), pos, i) == data,
{
    if arch == BcjArch::X86 {
        if is_x86_branch(data[i]) {
            let v = word_at(data, i + 1);
            let a = address(pos, i + 5);
            lemma_rebased_round_trip(v, a);
            lemma_put_word_at(data, i + 1, rebased(true, v, a));
        }
    } else {
        let w = word_at(data, i);
        let a = address(pos, i);
        lemma_branch_word_round_trip(arch, w, a);
        lemma_put_word_at(data, i, branch_word(arch, true, w, a));
    }
}

proof fn lemma_scan_round_trip(arch: BcjArch, data: Seq<u8>, pos: u32, i: int)
    requires
        0 <= i,
        on_grid(arch, address(pos, i)),
    ensures
        scan(arch, false, scan(arch, true, data, pos, i), pos, i) == data,
    decreases data.len() - i,
{
    if can_step(arch, data.len() as int, i) {
        let n = step_len(arch, data, i);
        let e1 = stepped(arch, true, data, pos, i);
        let e = scan(arch, true, e1, pos, i + n);
        lemma_stepped_local(arch, true, data, pos, i);
        lemma_scan_shape(arch, true, e1, pos, i + n);
        assert(step_len(arch, e, i) == n);
        let e2 = stepped(arch, false, e, pos, i);
        let back = stepped(arch, false, e1, pos, i);
        assert forall|k: int| i <= k < i + n implies e[k] == e1[k] by {}
        lemma_stepped_congruent(arch, false, e, e1, pos, i);
        lemma_stepped_local(arch, false, e, pos, i);
        lemma_step_round_trip(arch, data, pos, i);
        assert(back == data);
        let f = scan(arch, true, data, pos, i + n);
        lemma_scan_shape(arch, true, data, pos, i + n);
        assert forall|k: int| i + n <= k < data.len() implies e1[k] == data[k] by {}
        lemma_scan_tail(arch, true, e1, data, pos, i + n);
        assert forall|k: int| 0 <= k < data.len() implies e2[k] == f[k] by {
            if k < i {
                assert(e2[k] == e[k]);
                assert(e[k] == e1[k]);
                assert(e1[k] == data[k]);
                assert(f[k] == data[k]);
            } else if k < i + n {
                assert(e2[k] == back[k]);
                assert(f[k] == data[k]);
            } else {
                assert(e2[k] == e[k]);
                assert(e[k] == f[k]);
            }
        }
        assert(e2 =~= f);
        if arch != BcjArch::X86 {
            lemma_grid(arch, pos, i);
        }
        lemma_scan_round_trip(arch, data, pos, i + n);
    }
}

/// Decoding what was encoded gives the bytes back, for every instruction set,
/// every buffer and every stream position, when both calls start at the same
/// position.
pub proof fn lemma_bcj_round_trip(arch: BcjArch, data: Seq<u8>, pos: u32)
    ensures
        bcj_transformed(arch, false, bcj_transformed(arch, true, data, pos), pos) == data,
{
    if arch != BcjArch::Passthrough {
        lemma_grid(arch, pos, 0);
        lemma_scan_round_trip(arch, data, pos, first_index(arch, pos));
    }
}

/// A filter changes bytes, never their number.
pub proof fn lemma_bcj_keeps_length(arch: BcjArch, encode: bool, data: Seq<u8>, pos: u32)
    ensures
        bcj_transformed(arch, encode, data, pos).len() == data.len(),
{
    if arch != BcjArch::Passthrough {
        lemma_scan_shape(arch, encode, data, pos, first_index(arch, pos));
    }
}

proof fn lemma_x86_changes_from(encode: bool, data: Seq<u8>, pos: u32, i: int, k: int) -> (j:
    int)
    requires
        0 <= i,
        0 <= k < data.len(),
        scan(BcjArch::X86, encode, data, pos, i)[k] != data[k],
    ensures
        i <= j,
        k - 4 <= j < k,
        is_x86_branch(data[j]),
        scan(BcjArch::X86, encode, data, pos, i)[j] == data[j],
    decreases data.len() - i,
{
    let arch = BcjArch::X86;
    if !can_step(arch, data.len() as int, i) {
        assert(false);
        0
    } else if is_x86_branch(data[i]) {
        let next = stepped(arch, encode, data, pos, i);
        lemma_stepped_local(arch, encode, data, pos, i);
        lemma_scan_shape(arch, encode, next, pos, i + 5);
        assert(next[i] == data[i]);
        if k < i + 5 {
            assert(scan(arch, encode, next, pos, i + 5)[k] == next[k]);
            if k <= i {
                assert(next[k] == data[k]);
            }
            i
        } else {
            assert(next[k] == data[k]);
            let j = lemma_x86_changes_from(encode, next, pos, i + 5, k);
            assert(next[j] == data[j]);
            j
        }
    } else {
        lemma_x86_changes_from(encode, data, pos, i + 1, k)
    }
}

/// The x86 filter changes nothing but operands: a byte that it changes is
/// one of the four behind a `CALL` or `JMP` opcode, and the opcode is left as
/// it is.
pub proof fn lemma_x86_changes_operands_only(encode: bool, data: Seq<u8>, pos: u32, k: int)
    requires
        0 <= k < data.len(),
        bcj_transformed(BcjArch::X86, encode, data, pos)[k] != data[k],
    ensures
        exists|j: int|
            0 <= j && k - 4 <= j < k && #[trigger] is_x86_branch(data[j]) && bcj_transformed(
                BcjArch::X86,
                encode,
                data,
                pos,
            )[j] == data[j],
{
    let j = lemma_x86_changes_from(encode, data, pos, 0, k);
    assert(is_x86_branch(data[j]));
}

/// The x86 filter leaves a buffer of fewer than five bytes as it is, encoding
/// or decoding.
pub proof fn lemma_x86_short_buffer(encode: bool, data: Seq<u8>, pos: u32)
    requires
        data.len() < 5,
    ensures
        bcj_transformed(BcjArch::X86, encode, data, pos) == data,
{
}

proof fn lemma_scan_shift(arch: BcjArch, encode: bool, data: Seq<u8>, pos: u32, i: int, j: int)
    requires
        0 <= i <= data.len(),
        0 <= j,
    ensures
        scan(arch, encode, data, pos, i + j) == data.subrange(0, i) + scan(
            arch,
            encode,
            data.subrange(i, data.len() as int),
            address(pos, i),
            j,
        ),
    decreases data.len() - (i + j),
{
    let len = data.len() as int;
    let t = data.subrange(i, len);
    let p = address(pos, i);
    if can_step(arch, len, i + j) {
        let n = step_len(arch, data, i + j);
        assert(data[i + j] == t[j]);
        assert(n == step_len(arch, t, j));
        let d1 = stepped(arch, encode, data, pos, i + j);
        let t1 = stepped(arch, encode, t, p, j);
        lemma_address_sum(pos, i, j);
        lemma_address_sum(pos, i, j + 5);
        if arch == BcjArch::X86 {
            if is_x86_branch(data[i + j]) {
                assert(t[j + 1] == data[i + j + 1] && t[j + 2] == data[i + j + 2] && t[j + 3]
                    == data[i + j + 3] && t[j + 4] == data[i + j + 4]);
            }
        } else {
            assert(t[j + 1] == data[i + j + 1] && t[j + 2] == data[i + j + 2] && t[j + 3]
                == data[i + j + 3]);
        }
        assert(d1.subrange(i, len) =~= t1);
        assert(d1.subrange(0, i) =~= data.subrange(0, i));
        lemma_scan_shift(arch, encode, d1, pos, i, j + n);
    } else {
        assert(data =~= data.subrange(0, i) + t);
    }
}

proof fn lemma_visits_tail(arch: BcjArch, a: Seq<u8>, b: Seq<u8>, i: int, mid: int)
    requires
        0 <= i,
        a.len() == b.len(),
        forall|k: int| i <= k < a.len() ==> a[k] == b[k],
    ensures
        visits(arch, a, i, mid) == visits(arch, b, i, mid),
    decreases a.len() - i,
{
    if i < mid && can_step(arch, a.len() as int, i) {
        assert(a[i] == b[i]);
        lemma_visits_tail(arch, a, b, i + step_len(arch, a, i), mid);
    }
}

proof fn lemma_split_from(
    arch: BcjArch,
    encode: bool,
    data: Seq<u8>,
    pos: u32,
    i: int,
    mid: int,
)
    requires
        arch != BcjArch::Passthrough,
        0 <= i <= mid <= data.len(),
        on_grid(arch, address(pos, i)),
        visits(arch, data, i, mid),
    ensures
        scan(arch, encode, data, pos, i) == scan(arch, encode, data.subrange(0, mid), pos, i)
            + bcj_transformed(
            arch,
            encode,
            data.subrange(mid, data.len() as int),
            address(pos, mid),
        ),
    decreases mid - i,
{
    let len = data.len() as int;
    let head = data.subrange(0, mid);
    let rest = data.subrange(mid, len);
    let p = address(pos, mid);
    if i == mid {
        lemma_grid(arch, pos, mid);
        lemma_scan_shift(arch, encode, data, pos, mid, 0);
    } else if can_step(arch, len, i) {
        let n = step_len(arch, data, i);
        assert(i + n <= mid) by {
            if i + n > mid {
                assert(!visits(arch, data, i + n, mid));
            }
        }
        let d1 = stepped(arch, encode, data, pos, i);
        lemma_stepped_local(arch, encode, data, pos, i);
        lemma_visits_tail(arch, data, d1, i + n, mid);
        assert(head[i] == data[i]);
        if arch != BcjArch::X86 {
            lemma_grid(arch, pos, i);
        }
        if can_step(arch, mid, i) {
            if arch == BcjArch::X86 {
                if is_x86_branch(data[i]) {
                    assert(head[i + 1] == data[i + 1] && head[i + 2] == data[i + 2] && head[i
                        + 3] == data[i + 3] && head[i + 4] == data[i + 4]);
                }
            } else {
                assert(head[i + 1] == data[i + 1] && head[i + 2] == data[i + 2] && head[i + 3]
                    == data[i + 3]);
            }
            assert(d1.subrange(0, mid) =~= stepped(arch, encode, head, pos, i));
        } else {
            assert(d1 == data);
            assert(!can_step(arch, mid, i + 1));
        }
        assert(d1.subrange(mid, len) =~= rest);
        lemma_split_from(arch, encode, d1, pos, i + n, mid);
    } else {
        assert(!can_step(arch, mid, i));
        assert(!can_step(arch, len - mid, first_index(arch, p)));
        assert(data =~= head + rest);
    }
}

/// Filtering a buffer in one call is filtering its two parts one after the
/// other, the second from the position that the first left, wherever the cut
/// falls on an instruction boundary of the scan.
pub proof fn lemma_bcj_split(arch: BcjArch, encode: bool, data: Seq<u8>, pos: u32, mid: int)
    requires
        splits_at(arch, data, pos, mid),
    ensures
        bcj_transformed(arch, encode, data, pos) == bcj_transformed(
            arch,
            encode,
            data.subrange(0, mid),
            pos,
        ) + bcj_transformed(
            arch,
            encode,
            data.subrange(mid, data.len() as int),
            address(pos, mid),
        ),
{
    if arch == BcjArch::Passthrough {
        assert(data =~= data.subrange(0, mid) + data.subrange(mid, data.len() as int));
    } else {
        lemma_grid(arch, pos, 0);
        lemma_split_from(arch, encode, data, pos, first_index(arch, pos), mid);
    }
}

// ---------------------------------------------------------------------------
// The streaming filter
// ---------------------------------------------------------------------------

/// A filter for one instruction set that remembers how many bytes of the stream
/// it has seen, so that a stream can be filtered in pieces.
pub struct BcjFilter {
    arch: BcjArch,
    pos: u32,
}

impl BcjFilter {
    /// The instruction set of this filter.
    pub closed spec fn arch(&self) -> BcjArch {
        self.arch
    }

    /// The stream position of the next byte to come, modulo 2^32.
    pub closed spec fn position(&self) -> u32 {
        self.pos
    }

    /// A filter for `arch` at the start of a stream.
    pub fn new(arch: BcjArch) -> (filter: Self)
        ensures
            filter.arch() == arch,
            filter.position() == 0,
    {
        BcjFilter { arch, pos: 0 }
    }

    /// Encodes the next piece of the stream in place: relative branch operands
    /// become absolute addresses.
    pub fn encode(&mut self, data: &mut [u8]) -> (r: Result<(), CompressionError>)
        ensures
            r is Ok,
            final(data)@ == bcj_transformed(
                old(self).arch(),
                true,
                old(data)@,
                old(self).position(),
            ),
            final(self).arch() == old(self).arch(),
            final(self).position() == address(old(self).position(), old(data)@.len() as int),
    {
        match self.arch {
            BcjArch::X86 => self.encode_x86(data),
            BcjArch::Arm64 => self.encode_arm64(data),
            BcjArch::Arm => self.encode_arm(data),
            BcjArch::RiscV => self.encode_riscv(data),
            BcjArch::Ppc64Le => self.encode_ppc64(data),
            BcjArch::Passthrough => {
                self.pos = advance(self.pos, data.len());
                Ok(())
            },
        }
    }

    /// Decodes the next piece of the stream in place: absolute addresses
    /// become relative branch operands again.
    pub fn decode(&mut self, data: &mut [u8]) -> (r: Result<(), CompressionError>)
        ensures
            r is Ok,
            final(data)@ == bcj_transformed(
                old(self).arch(),
                false,
                old(data)@,
                old(self).position(),
            ),
            final(self).arch() == old(self).arch(),
            final(self).position() == address(old(self).position(), old(data)@.len() as int),
    {
        match self.arch {
            BcjArch::X86 => self.decode_x86(data),
            BcjArch::Arm64 => self.decode_arm64(data),
            BcjArch::Arm => self.decode_arm(data),
            BcjArch::RiscV => self.decode_riscv(data),
            BcjArch::Ppc64Le => self.decode_ppc64(data),
            BcjArch::Passthrough => {
                self.pos = advance(self.pos, data.len());
                Ok(())
            },
        }
    }

    /// Runs the x86 scan over `data` and moves the position on.
    fn filter_x86(&mut self, data: &mut [u8], encode: bool)
        requires
            old(self).arch == BcjArch::X86,
        ensures
            final(data)@ == bcj_transformed(BcjArch::X86, encode, old(data)@, old(self).pos),
            final(self).arch == old(self).arch,
            final(self).pos == address(old(self).pos, old(data)@.len() as int),
    {
        let len = data.len();
        let ghost orig = data@;
        let pos = self.pos;
        let mut i: usize = 0;
        let mut addr: u32 = pos;
        proof {
            lemma_address_sum(pos, 0, 0);
        }
        while len - i > 4
            invariant
                i <= len,
                data@.len() == len,
                addr == address(pos, i as int),
                scan(BcjArch::X86, encode, data@, pos, i as int) == scan(
                    BcjArch::X86,
                    encode,
                    orig,
                    pos,
                    0,
                ),
            decreases len - i,
        {
            let ghost before = data@;
            let ghost at = i as int;
            proof {
                lemma_address_sum(pos, i as int, 5);
                lemma_address_sum(pos, i as int, 1);
            }
            if data[i] == 0xE8 || data[i] == 0xE9 {
                let operand = read_word(data, i + 1);
                let rewritten = rebase(encode, operand, addr.wrapping_add(5));
                write_word(data, i + 1, rewritten);
                i += 5;
                addr = addr.wrapping_add(5);
            } else {
                i += 1;
                addr = addr.wrapping_add(1);
            }
assert(data@ == stepped(BcjArch::X86, encode, before, pos, at));
        }
        self.pos = advance(pos, len);
    }

    /// Rewrites every aligned word of `data` and moves the position on.
    fn filter_words(&mut self, data: &mut [u8], encode: bool)
        requires
            is_word_arch(old(self).arch),
        ensures
            final(data)@ == bcj_transformed(old(self).arch, encode, old(data)@, old(self).pos),
            final(self).arch == old(self).arch,
            final(self).pos == address(old(self).pos, old(data)@.len() as int),
    {
        let len = data.len();
        let ghost orig = data@;
        let arch = self.arch;
        let pos = self.pos;
        let align: u32 = if arch == BcjArch::RiscV {
            2
        } else {
            4
        };
        let rest = pos % align;
        let first: usize = if rest == 0 {
            0
        } else {
            (align - rest) as usize
        };
        let mut i: usize = first;
        let mut addr: u32 = pos.wrapping_add(first as u32);
        proof {
            lemma_address_sum(pos, 0, first as int);
        }
        while i < len && len - i >= 4
            invariant
                is_word_arch(arch),
                first <= i,
                data@.len() == len,
                addr == address(pos, i as int),
                scan(arch, encode, data@, pos, i as int) == scan(
                    arch,
                    encode,
                    orig,
                    pos,
                    first as int,
                ),
            decreases len + 4 - i,
        {
            let ghost before = data@;
            proof {
                lemma_address_sum(pos, i as int, 4);
            }
            let word = read_word(data, i);
            let rewritten = filter_word(arch, encode, word, addr);
            write_word(data, i, rewritten);
            assert(data@ == stepped(arch, encode, before, pos, i as int));
            i += 4;
            addr = addr.wrapping_add(4);
        }
        self.pos = advance(pos, len);
    }

    /// Encodes x86 code: the operand of `CALL` (`E8`) and `JMP` (`E9`).
    fn encode_x86(&mut self, data: &mut [u8]) -> (r: Result<(), CompressionError>)
        requires
            old(self).arch == BcjArch::X86,
        ensures
            r is Ok,
            final(data)@ == bcj_transformed(BcjArch::X86, true, old(data)@, old(self).pos),
            final(self).arch == old(self).arch,
            final(self).pos == address(old(self).pos, old(data)@.len() as int),
    {
        self.filter_x86(data, true);
        Ok(())
    }

    /// Decodes x86 code.
    fn decode_x86(&mut self, data: &mut [u8]) -> (r: Result<(), CompressionError>)
        requires
            old(self).arch == BcjArch::X86,
        ensures
            r is Ok,
            final(data)@ == bcj_transformed(BcjArch::X86, false, old(data)@, old(self).pos),
            final(self).arch == old(self).arch,
            final(self).pos == address(old(self).pos, old(data)@.len() as int),
    {
        self.filter_x86(data, false);
        Ok(())
    }

    /// Encodes AArch64 code: the operand of `BL`.
    fn encode_arm64(&mut self, data: &mut [u8]) -> (r: Result<(), CompressionError>)
        requires
            old(self).arch == BcjArch::Arm64,
        ensures
            r is Ok,
            final(data)@ == bcj_transformed(BcjArch::Arm64, true, old(data)@, old(self).pos),
            final(self).arch == old(self).arch,
            final(self).pos == address(old(self).pos, old(data)@.len() as int),
    {
        self.filter_words(data, true);
        Ok(())
    }

    /// Decodes AArch64 code.
    fn decode_arm64(&mut self, data: &mut [u8]) -> (r: Result<(), CompressionError>)
        requires
            old(self).arch == BcjArch::Arm64,
        ensures
            r is Ok,
            final(data)@ == bcj_transformed(BcjArch::Arm64, false, old(data)@, old(self).pos),
            final(self).arch == old(self).arch,
            final(self).pos == address(old(self).pos, old(data)@.len() as int),
    {
        self.filter_words(data, false);
        Ok(())
    }

    /// Encodes 32-bit ARM code: the operand of `BL`.
    fn encode_arm(&mut self, data: &mut [u8]) -> (r: Result<(), CompressionError>)
        requires
            old(self).arch == BcjArch::Arm,
        ensures
            r is Ok,
            final(data)@ == bcj_transformed(BcjArch::Arm, true, old(data)@, old(self).pos),
            final(self).arch == old(self).arch,
            final(self).pos == address(old(self).pos, old(data)@.len() as int),
    {
        self.filter_words(data, true);
        Ok(())
    }

    /// Decodes 32-bit ARM code.
    fn decode_arm(&mut self, data: &mut [u8]) -> (r: Result<(), CompressionError>)
        requires
            old(self).arch == BcjArch::Arm,
        ensures
            r is Ok,
            final(data)@ == bcj_transformed(BcjArch::Arm, false, old(data)@, old(self).pos),
            final(self).arch == old(self).arch,
            final(self).pos == address(old(self).pos, old(data)@.len() as int),
    {
        self.filter_words(data, false);
        Ok(())
    }

    /// Encodes RISC-V code: the operand of `JAL`.
    fn encode_riscv(&mut self, data: &mut [u8]) -> (r: Result<(), CompressionError>)
        requires
            old(self).arch == BcjArch::RiscV,
        ensures
            r is Ok,
            final(data)@ == bcj_transformed(BcjArch::RiscV, true, old(data)@, old(self).pos),
            final(self).arch == old(self).arch,
            final(self).pos == address(old(self).pos, old(data)@.len() as int),
    {
        self.filter_words(data, true);
        Ok(())
    }

    /// Decodes RISC-V code.
    fn decode_riscv(&mut self, data: &mut [u8]) -> (r: Result<(), CompressionError>)
        requires
            old(self).arch == BcjArch::RiscV,
        ensures
            r is Ok,
            final(data)@ == bcj_transformed(BcjArch::RiscV, false, old(data)@, old(self).pos),
            final(self).arch == old(self).arch,
            final(self).pos == address(old(self).pos, old(data)@.len() as int),
    {
        self.filter_words(data, false);
        Ok(())
    }

    /// Encodes PowerPC code: the operand of `b` and `bl`.
    fn encode_ppc64(&mut self, data: &mut [u8]) -> (r: Result<(), CompressionError>)
        requires
            old(self).arch == BcjArch::Ppc64Le,
        ensures
            r is Ok,
            final(data)@ == bcj_transformed(BcjArch::Ppc64Le, true, old(data)@, old(self).pos),
            final(self).arch == old(self).arch,
            final(self).pos == address(old(self).pos, old(data)@.len() as int),
    {
        self.filter_words(data, true);
        Ok(())
    }

    /// Decodes PowerPC code.
    fn decode_ppc64(&mut self, data: &mut [u8]) -> (r: Result<(), CompressionError>)
        requires
            old(self).arch == BcjArch::Ppc64Le,
        ensures
            r is Ok,
            final(data)@ == bcj_transformed(BcjArch::Ppc64Le, false, old(data)@, old(self).pos),
            final(self).arch == old(self).arch,
            final(self).pos == address(old(self).pos, old(data)@.len() as int),
    {
        self.filter_words(data, false);
        Ok(())
    }
}

/// Encodes a whole buffer in place, as a stream that starts at position 0.
pub fn bcj_encode(data: &mut [u8], arch: BcjArch) -> (r: Result<(), CompressionError>)
    ensures
        r is Ok,
        final(data)@ == bcj_transformed(arch, true, old(data)@, 0),
{
    let mut filter = BcjFilter::new(arch);
    filter.encode(data)
}

/// Decodes a whole buffer in place, as a stream that starts at position 0.
pub fn bcj_decode(data: &mut [u8], arch: BcjArch) -> (r: Result<(), CompressionError>)
    ensures
        r is Ok,
        final(data)@ == bcj_transformed(arch, false, old(data)@, 0),
{
    let mut filter = BcjFilter::new(arch);
    filter.decode(data)
}

} // verus!
