//! Byte-pattern classifiers: each decides whether a hook-like construct begins
//! at a given offset of a raw buffer.
//!
//! The buffer is untrusted and of arbitrary length. No classifier has a
//! precondition; a pattern whose bytes would not all lie inside the buffer is
//! simply not a match.

use crate::bytes::{fits, has_bytes, le_u32, read_u32_le};
use vstd::prelude::*;

verus! {

/// How far, in bytes, the trampoline search looks to either side of a
/// system-call instruction.
pub const SEARCH_WINDOW: usize = 200;

/// A disturbed function prologue: `mov r10, rcx` directly followed by the
/// opcode of `mov eax, imm32`, all four bytes inside the buffer.
pub open spec fn inline_hook_at(buf: Seq<u8>, offset: int) -> bool {
    &&& fits(buf.len() as int, offset, 4)
    &&& buf[offset] == 0x4C
    &&& buf[offset + 1] == 0x8B
    &&& buf[offset + 2] == 0xD1
    &&& buf[offset + 3] == 0xB8
}

/// Tests for the inline-hook signature at `offset`.
pub fn is_inline_hook(buffer: &[u8], offset: usize) -> (r: bool)
    ensures
        r == inline_hook_at(buffer@, offset as int),
{
    has_bytes(buffer, offset, 4) && buffer[offset] == 0x4C && buffer[offset + 1] == 0x8B
        && buffer[offset + 2] == 0xD1 && buffer[offset + 3] == 0xB8
}

/// `ret` or `ret imm16`.
pub open spec fn is_return(b: u8) -> bool {
    b == 0xC3 || b == 0xC2
}

/// `nop` or `int3`: the bytes that pad the gap between two routines.
pub open spec fn is_filler(b: u8) -> bool {
    b == 0x90 || b == 0xCC
}

/// The two-byte `syscall` instruction, inside the buffer.
pub open spec fn syscall_at(buf: Seq<u8>, offset: int) -> bool {
    &&& fits(buf.len() as int, offset, 2)
    &&& buf[offset] == 0x0F
    &&& buf[offset + 1] == 0x05
}

/// A byte position at which a trampoline may begin: a register-to-memory
/// store (`48 89`) or a return left over from the routine before.
pub open spec fn start_marker_at(buf: Seq<u8>, at: int) -> bool {
    (buf[at] == 0x48 && buf[at + 1] == 0x89) || is_return(buf[at])
}

/// The lowest position the backward search can reach from `offset`.
pub open spec fn search_floor(offset: int) -> int {
    if offset > (SEARCH_WINDOW as int) {
        offset - (SEARCH_WINDOW as int)
    } else {
        0
    }
}

/// One past the highest position the forward search can reach from `offset`
/// in a buffer of `len` bytes.
pub open spec fn search_ceiling(len: int, offset: int) -> int {
    if offset + (SEARCH_WINDOW as int) < len {
        offset + (SEARCH_WINDOW as int)
    } else {
        len
    }
}

/// Walking down from `from`, the first position above `floor` that holds a
/// start marker; `floor` itself when there is none.
pub open spec fn nearest_start(buf: Seq<u8>, from: int, floor: int) -> int
    decreases from - floor,
{
    if from <= floor {
        floor
    } else if start_marker_at(buf, from) {
        from
    } else {
        nearest_start(buf, from - 1, floor)
    }
}

/// Walking up from `from`, the first position below `ceiling` that holds a
/// return or a filler byte; `ceiling` itself when there is none.
pub open spec fn nearest_stop(buf: Seq<u8>, from: int, ceiling: int) -> int
    decreases ceiling - from,
{
    if from >= ceiling {
        ceiling
    } else if is_return(buf[from]) || is_filler(buf[from]) {
        from
    } else {
        nearest_stop(buf, from + 1, ceiling)
    }
}

/// Where the trampoline around the `syscall` at `offset` begins.
pub open spec fn trampoline_start(buf: Seq<u8>, offset: int) -> int {
    nearest_start(buf, offset, search_floor(offset))
}

/// Where the trampoline around the `syscall` at `offset` ends (exclusive). A
/// return that ends the search belongs to the trampoline; a filler byte does
/// not.
pub open spec fn trampoline_end(buf: Seq<u8>, offset: int) -> int {
    let ceiling = search_ceiling(buf.len() as int, offset);
    let stop = nearest_stop(buf, offset + 2, ceiling);
    if stop < ceiling && is_return(buf[stop]) {
        stop + 1
    } else {
        stop
    }
}

/// The byte range `[start, end)` of the trampoline around a `syscall` at
/// `offset`, provided it reaches strictly before the instruction and strictly
/// past it.
pub open spec fn syscall_bounds(buf: Seq<u8>, offset: int) -> Option<(int, int)> {
    if syscall_at(buf, offset) && trampoline_start(buf, offset) < offset && trampoline_end(
        buf,
        offset,
    ) > offset + 2 {
        Some((trampoline_start(buf, offset), trampoline_end(buf, offset)))
    } else {
        None
    }
}

/// What the backward search settles on: nothing between the result and the
/// instruction is a start marker, and a result above the floor is one.
pub proof fn lemma_nearest_start(buf: Seq<u8>, from: int, floor: int)
    requires
        floor <= from,
    ensures
        floor <= nearest_start(buf, from, floor) <= from,
        nearest_start(buf, from, floor) > floor ==> start_marker_at(
            buf,
            nearest_start(buf, from, floor),
        ),
        forall|k: int|
            nearest_start(buf, from, floor) < k <= from ==> !#[trigger] start_marker_at(buf, k),
    decreases from - floor,
{
    if from > floor && !start_marker_at(buf, from) {
        lemma_nearest_start(buf, from - 1, floor);
    }
}

/// What the forward search settles on: nothing between the start and the
/// result is a return or a filler, and a result below the ceiling is one.
pub proof fn lemma_nearest_stop(buf: Seq<u8>, from: int, ceiling: int)
    requires
        from <= ceiling,
    ensures
        from <= nearest_stop(buf, from, ceiling) <= ceiling,
        nearest_stop(buf, from, ceiling) < ceiling ==> {
            let b = buf[nearest_stop(buf, from, ceiling)];
            is_return(b) || is_filler(b)
        },
        forall|k: int|
            from <= k < nearest_stop(buf, from, ceiling) ==> !is_return(#[trigger] buf[k])
                && !is_filler(buf[k]),
    decreases ceiling - from,
{
    if from < ceiling && !(is_return(buf[from]) || is_filler(buf[from])) {
        lemma_nearest_stop(buf, from + 1, ceiling);
    }
}

/// The inputs on which a trampoline is reported, in closed form: a `syscall`
/// that is not the first thing in the buffer and is followed by at least one
/// byte that is not filler. When one is reported it starts strictly before the
/// instruction, ends strictly after it, and stays inside the buffer and the
/// search window.
pub proof fn lemma_syscall_bounds(buf: Seq<u8>, offset: int)
    requires
        0 <= offset,
    ensures
        syscall_bounds(buf, offset) is Some <==> (syscall_at(buf, offset) && offset >= 1 && offset
            + 2 < buf.len() && !is_filler(buf[offset + 2])),
        syscall_bounds(buf, offset) matches Some((start, end)) ==> {
            &&& search_floor(offset) <= start < offset
            &&& offset + 2 < end <= search_ceiling(buf.len() as int, offset)
            &&& end <= buf.len()
            &&& end - start <= 2 * SEARCH_WINDOW
        },
{
    if syscall_at(buf, offset) {
        let floor = search_floor(offset);
        let ceiling = search_ceiling(buf.len() as int, offset);
        lemma_nearest_start(buf, offset, floor);
        lemma_nearest_stop(buf, offset + 2, ceiling);
        assert(!start_marker_at(buf, offset));
        if offset >= 1 {
            assert(nearest_start(buf, offset, floor) == nearest_start(buf, offset - 1, floor));
            lemma_nearest_start(buf, offset - 1, floor);
        }
    }
}

/// Finds the bounds of the trampoline around a `syscall` instruction at
/// `offset`, searching at most [`SEARCH_WINDOW`] bytes to either side.
pub fn is_syscall_routine(buffer: &[u8], offset: usize) -> (r: Option<(usize, usize)>)
    ensures
        r is Some <==> syscall_bounds(buffer@, offset as int) is Some,
        r matches Some((start, end)) ==> syscall_bounds(buffer@, offset as int) == Some(
            (start as int, end as int),
        ),
        r matches Some((start, end)) ==> start < offset && offset + 2 < end && end
            <= buffer@.len(),
{
    if !(has_bytes(buffer, offset, 2) && buffer[offset] == 0x0F && buffer[offset + 1] == 0x05) {
        return None;
    }
    let floor: usize = if offset > SEARCH_WINDOW {
        offset - SEARCH_WINDOW
    } else {
        0
    };
    let mut start: usize = offset;
    while start > floor
        invariant
            floor <= start <= offset,
            offset + 2 <= buffer@.len(),
            nearest_start(buffer@, offset as int, floor as int) == nearest_start(
                buffer@,
                start as int,
                floor as int,
            ),
        ensures
            floor <= start <= offset,
            nearest_start(buffer@, offset as int, floor as int) == start,
        decreases start - floor,
    {
        if (buffer[start] == 0x48 && buffer[start + 1] == 0x89) || buffer[start] == 0xC3
            || buffer[start] == 0xC2 {
            break ;
        }
        start -= 1;
    }
    let ceiling: usize = if buffer.len() - offset > SEARCH_WINDOW {
        offset + SEARCH_WINDOW
    } else {
        buffer.len()
    };
    let mut end: usize = offset + 2;
    while end < ceiling
        invariant_except_break
            nearest_stop(buffer@, offset + 2, ceiling as int) == nearest_stop(
                buffer@,
                end as int,
                ceiling as int,
            ),
        invariant
            offset + 2 <= end <= ceiling <= buffer@.len(),
            ceiling == search_ceiling(buffer@.len() as int, offset as int),
        ensures
            offset + 2 <= end <= ceiling <= buffer@.len(),
            end == trampoline_end(buffer@, offset as int),
        decreases ceiling - end,
    {
        if buffer[end] == 0xC3 || buffer[end] == 0xC2 {
            end += 1;
            break ;
        }
        if buffer[end] == 0x90 || buffer[end] == 0xCC {
            break ;
        }
        end += 1;
    }
    if start < offset && end > offset + 2 {
        Some((start, end))
    } else {
        None
    }
}

/// Whether `value` occurs in `list`.
pub open spec fn listed(list: Seq<usize>, value: int) -> bool {
    exists|i: int| 0 <= i < list.len() && #[trigger] list[i] == value
}

/// Linear membership test over a list of addresses.
pub fn contains_address(list: &[usize], value: usize) -> (r: bool)
    ensures
        r == listed(list@, value as int),
{
    let mut i: usize = 0;
    while i < list.len()
        invariant
            i <= list@.len(),
            forall|j: int| 0 <= j < i ==> #[trigger] list@[j] != value,
        decreases list@.len() - i,
    {
        if list[i] == value {
            return true;
        }
        i += 1;
    }
    false
}

/// The opcode of a relative `jmp` or `call` with a 32-bit displacement.
pub open spec fn is_branch_opcode(b: u8) -> bool {
    b == 0xE9 || b == 0xE8
}

/// Second byte of `mov r64, imm64` (after the `48` prefix), for any of the
/// eight registers it can name.
pub open spec fn is_register_load(b: u8) -> bool {
    0xB8 <= b <= 0xBF
}

/// Second byte of `jmp r64` (after the `FF` opcode), for any of the eight
/// registers it can name.
pub open spec fn is_register_jump(b: u8) -> bool {
    0xE0 <= b <= 0xE7
}

/// The opcode of a register `xor`, in either operand direction.
pub open spec fn is_xor_opcode(b: u8) -> bool {
    b == 0x31 || b == 0x33
}

/// The number of distinct addresses a machine word can hold.
pub open spec fn address_space() -> int {
    usize::MAX as int + 1
}

/// The four bytes at `at` read as a signed little-endian displacement.
pub open spec fn rel32_at(buf: Seq<u8>, at: int) -> int {
    let raw = le_u32(buf, at);
    if raw >= 0x8000_0000 {
        raw - 0x1_0000_0000
    } else {
        raw
    }
}

/// Where the relative branch at `offset` lands: the end of its five bytes plus
/// the displacement, wrapping around the address space.
pub open spec fn branch_target(buf: Seq<u8>, offset: int) -> int {
    (offset + 5 + rel32_at(buf, offset + 1)) % address_space()
}

/// A relative `jmp` or `call` at `offset`, all five bytes inside the buffer,
/// whose target is none of the `known` import thunks.
pub open spec fn stray_branch_at(buf: Seq<u8>, offset: int, known: Seq<usize>) -> bool {
    &&& fits(buf.len() as int, offset, 5)
    &&& is_branch_opcode(buf[offset])
    &&& !listed(known, branch_target(buf, offset))
}

/// Load an immediate into a register, `xor` it against a key, jump through a
/// register: `48 B8+r imm64`, `31|33 ..`, `FF E0+r`. All fourteen bytes must
/// lie inside the buffer.
pub open spec fn load_xor_jump_at(buf: Seq<u8>, offset: int) -> bool {
    &&& fits(buf.len() as int, offset, 14)
    &&& buf[offset] == 0x48
    &&& is_register_load(buf[offset + 1])
    &&& is_xor_opcode(buf[offset + 10])
    &&& buf[offset + 12] == 0xFF
    &&& is_register_jump(buf[offset + 13])
}

/// An import redirect at `offset`: a stray relative branch, or the
/// load/xor/jump sequence with `rax` as the loaded register.
pub open spec fn iat_hook_at(buf: Seq<u8>, offset: int, known: Seq<usize>) -> bool {
    stray_branch_at(buf, offset, known) || (load_xor_jump_at(buf, offset) && buf[offset + 1]
        == 0xB8)
}

/// The register encodings are the bytes that agree with the pattern in their
/// upper five bits.
proof fn lemma_register_masks(b: u8)
    ensures
        (b & 0xF8 == 0xB8) == is_register_load(b),
        (b & 0xF8 == 0xE0) == is_register_jump(b),
{
    assert((b & 0xF8 == 0xB8) == (0xB8 <= b <= 0xBF)) by (bit_vector);
    assert((b & 0xF8 == 0xE0) == (0xE0 <= b <= 0xE7)) by (bit_vector);
}

/// Tests for the load/xor/jump sequence at `offset`.
pub fn is_load_xor_jump(buffer: &[u8], offset: usize) -> (r: bool)
    ensures
        r == load_xor_jump_at(buffer@, offset as int),
{
    if !has_bytes(buffer, offset, 14) {
        return false;
    }
    proof {
        lemma_register_masks(buffer@[offset + 1]);
        lemma_register_masks(buffer@[offset + 13]);
    }
    buffer[offset] == 0x48 && buffer[offset + 1] & 0xF8 == 0xB8 && (buffer[offset + 10] == 0x31
        || buffer[offset + 10] == 0x33) && buffer[offset + 12] == 0xFF && buffer[offset + 13]
        & 0xF8 == 0xE0
}

/// Computes the target of the relative branch at `offset`.
fn branch_target_of(buffer: &[u8], offset: usize) -> (r: usize)
    requires
        fits(buffer@.len() as int, offset as int, 5),
        buffer@.len() <= usize::MAX,
    ensures
        r == branch_target(buffer@, offset as int),
{
    let raw: u32 = read_u32_le(buffer, offset + 1).unwrap();
    let displacement: i128 = if raw >= 0x8000_0000 {
        raw as i128 - 0x1_0000_0000
    } else {
        raw as i128
    };
    let space: i128 = usize::MAX as i128 + 1;
    let sum: i128 = offset as i128 + 5 + displacement;
    let wrapped: i128 = if sum < 0 {
        sum + space
    } else if sum >= space {
        sum - space
    } else {
        sum
    };
    proof {
        let q: int = if sum < 0 {
            -1
        } else if sum >= space {
            1
        } else {
            0
        };
        assert(sum == q * space + wrapped) by (nonlinear_arith)
            requires
                wrapped == sum - q * space,
        ;
        vstd::arithmetic::div_mod::lemma_fundamental_div_mod_converse(
            sum as int,
            space as int,
            q,
            wrapped as int,
        );
    }
    wrapped as usize
}

/// Tests for an import redirect at `offset`, given the addresses of the
/// known-good import thunks.
pub fn is_iat_hook(buffer: &[u8], offset: usize, iat_addresses: &[usize]) -> (r: bool)
    ensures
        r == iat_hook_at(buffer@, offset as int, iat_addresses@),
{
    if !has_bytes(buffer, offset, 5) {
        return false;
    }
    let opcode: u8 = buffer[offset];
    if opcode == 0xE9 || opcode == 0xE8 {
        let target: usize = branch_target_of(buffer, offset);
        if !contains_address(iat_addresses, target) {
            return true;
        }
    }
    is_load_xor_jump(buffer, offset) && buffer[offset + 1] == 0xB8
}

/// `mov r64, imm64` directly followed by `jmp r64`, for any registers.
pub open spec fn load_jump_at(buf: Seq<u8>, offset: int) -> bool {
    &&& buf[offset] == 0x48
    &&& is_register_load(buf[offset + 1])
    &&& buf[offset + 10] == 0xFF
    &&& is_register_jump(buf[offset + 11])
}

/// A two-byte register `xor` directly followed by `jmp r64`.
pub open spec fn xor_jump_at(buf: Seq<u8>, offset: int) -> bool {
    &&& is_xor_opcode(buf[offset])
    &&& buf[offset + 2] == 0xFF
    &&& is_register_jump(buf[offset + 3])
}

/// An external redirect that begins exactly at `offset`, with twelve bytes
/// available there.
pub open spec fn redirect_at(buf: Seq<u8>, offset: int) -> bool {
    &&& fits(buf.len() as int, offset, 12)
    &&& load_jump_at(buf, offset) || xor_jump_at(buf, offset)
}

/// The first position at or after `at` that does not hold `int3`; the buffer
/// length when the padding runs to the end.
pub open spec fn padding_end(buf: Seq<u8>, at: int) -> int
    decreases buf.len() - at,
{
    if 0 <= at < buf.len() && buf[at] == 0xCC {
        padding_end(buf, at + 1)
    } else {
        at
    }
}

/// An external redirect at `offset`: either one begins right there, or
/// `offset` starts a run of at least two `int3` bytes and one begins at the
/// first byte after the run.
pub open spec fn ext_hook_at(buf: Seq<u8>, offset: int) -> bool {
    ||| redirect_at(buf, offset)
    ||| {
        &&& fits(buf.len() as int, offset, 12)
        &&& buf[offset] == 0xCC
        &&& padding_end(buf, offset) > offset + 1
        &&& padding_end(buf, offset) < buf.len()
        &&& redirect_at(buf, padding_end(buf, offset))
    }
}

/// Tests for a generic external redirect at `offset`, looking through `int3`
/// padding. Each retry starts past at least two bytes of padding, so the
/// retries end.
pub fn is_ext_hook(buffer: &[u8], offset: usize) -> (r: bool)
    ensures
        r == ext_hook_at(buffer@, offset as int),
    decreases buffer@.len() - offset,
{
    if !has_bytes(buffer, offset, 12) {
        return false;
    }
    proof {
        lemma_register_masks(buffer@[offset + 1]);
        lemma_register_masks(buffer@[offset + 11]);
        lemma_register_masks(buffer@[offset + 3]);
    }
    let load_jump: bool = buffer[offset] == 0x48 && buffer[offset + 1] & 0xF8 == 0xB8
        && buffer[offset + 10] == 0xFF && buffer[offset + 11] & 0xF8 == 0xE0;
    if load_jump {
        return true;
    }
    if buffer[offset] == 0x31 || buffer[offset] == 0x33 {
        if buffer[offset + 2] == 0xFF && buffer[offset + 3] & 0xF8 == 0xE0 {
            return true;
        }
    }
    if buffer[offset] == 0xCC {
        let mut skip: usize = 1;
        while offset + skip < buffer.len() && buffer[offset + skip] == 0xCC
            invariant
                1 <= skip,
                offset + skip <= buffer@.len() <= usize::MAX,
                padding_end(buffer@, offset as int) == padding_end(buffer@, offset + skip),
            decreases buffer@.len() - offset - skip,
        {
            skip += 1;
        }
        if skip > 1 && offset + skip < buffer.len() {
            return is_ext_hook(buffer, offset + skip);
        }
    }
    false
}

/// Whether `value` lies in one of the half-open `ranges`.
pub open spec fn in_some_range(ranges: Seq<(usize, usize)>, value: int) -> bool {
    exists|i: int| 0 <= i < ranges.len() && (#[trigger] ranges[i]).0 <= value < ranges[i].1
}

/// Whether `at` is the first position of `buf` whose byte equals `value`.
pub open spec fn first_occurrence(buf: Seq<u8>, value: int, at: int) -> bool {
    &&& 0 <= at < buf.len()
    &&& buf[at] == value
    &&& forall|j: int| 0 <= j < at ==> #[trigger] buf[j] != value
}

/// Whether the first byte of `buf` that equals `value` begins a
/// load/xor/jump sequence. The entry is looked up as a byte value, not
/// followed as an address.
pub open spec fn leads_to_jump(buf: Seq<u8>, value: int) -> bool {
    exists|at: int| first_occurrence(buf, value, at) && load_xor_jump_at(buf, at)
}

/// Finds the first byte of `buffer` that equals `value`.
pub fn find_byte(buffer: &[u8], value: usize) -> (r: Option<usize>)
    ensures
        r matches Some(at) ==> first_occurrence(buffer@, value as int, at as int),
        r is None ==> forall|j: int| 0 <= j < buffer@.len() ==> #[trigger] buffer@[j] != value,
{
    let mut i: usize = 0;
    while i < buffer.len()
        invariant
            i <= buffer@.len(),
            forall|j: int| 0 <= j < i ==> #[trigger] buffer@[j] != value,
        decreases buffer@.len() - i,
    {
        if buffer[i] as usize == value {
            return Some(i);
        }
        i += 1;
    }
    None
}

/// Tests whether the first byte equal to `value` begins a load/xor/jump
/// sequence.
pub fn is_entry_redirected(buffer: &[u8], value: usize) -> (r: bool)
    ensures
        r == leads_to_jump(buffer@, value as int),
{
    match find_byte(buffer, value) {
        Some(at) => is_load_xor_jump(buffer, at),
        None => false,
    }
}

/// A TLS callback is suspect when it lies outside every valid range, or when
/// its value leads to a load/xor/jump sequence.
pub open spec fn tls_entry_hooked(
    buf: Seq<u8>,
    ranges: Seq<(usize, usize)>,
    entry: int,
) -> bool {
    !in_some_range(ranges, entry) || leads_to_jump(buf, entry)
}

/// Whether any of the `callbacks` is suspect.
pub open spec fn tls_hook_among(
    callbacks: Seq<usize>,
    ranges: Seq<(usize, usize)>,
    buf: Seq<u8>,
) -> bool {
    exists|i: int|
        0 <= i < callbacks.len() && tls_entry_hooked(buf, ranges, #[trigger] callbacks[i] as int)
}

/// Linear search for a half-open range that holds `value`.
pub fn is_in_ranges(ranges: &[(usize, usize)], value: usize) -> (r: bool)
    ensures
        r == in_some_range(ranges@, value as int),
{
    let mut i: usize = 0;
    while i < ranges.len()
        invariant
            i <= ranges@.len(),
            forall|j: int|
                0 <= j < i ==> !((#[trigger] ranges@[j]).0 <= value && value < ranges@[j].1),
        decreases ranges@.len() - i,
    {
        let (low, high) = ranges[i];
        if value >= low && value < high {
            return true;
        }
        i += 1;
    }
    false
}

/// Tests whether any TLS callback has been redirected.
pub fn is_tls_hook(tls_callbacks: &[usize], valid_ranges: &[(usize, usize)], buffer: &[u8]) -> (r:
    bool)
    ensures
        r == tls_hook_among(tls_callbacks@, valid_ranges@, buffer@),
{
    let mut i: usize = 0;
    while i < tls_callbacks.len()
        invariant
            i <= tls_callbacks@.len(),
            forall|j: int|
                0 <= j < i ==> !tls_entry_hooked(
                    buffer@,
                    valid_ranges@,
                    #[trigger] tls_callbacks@[j] as int,
                ),
        decreases tls_callbacks@.len() - i,
    {
        let callback: usize = tls_callbacks[i];
        if !is_in_ranges(valid_ranges, callback) {
            return true;
        }
        if is_entry_redirected(buffer, callback) {
            return true;
        }
        i += 1;
    }
    false
}

/// A table entry is suspect when it is none of the `valid` addresses and its
/// value leads to a load/xor/jump sequence.
pub open spec fn table_entry_hooked(buf: Seq<u8>, valid: Seq<usize>, entry: int) -> bool {
    !listed(valid, entry) && leads_to_jump(buf, entry)
}

/// Whether any entry of `table` is suspect.
pub open spec fn table_hook_among(table: Seq<usize>, valid: Seq<usize>, buf: Seq<u8>) -> bool {
    exists|i: int| 0 <= i < table.len() && table_entry_hooked(buf, valid, #[trigger] table[i] as int)
}

/// The validation shared by the virtual-method-table and export-table tests.
pub fn is_table_hook(table: &[usize], valid: &[usize], buffer: &[u8]) -> (r: bool)
    ensures
        r == table_hook_among(table@, valid@, buffer@),
{
    let mut i: usize = 0;
    while i < table.len()
        invariant
            i <= table@.len(),
            forall|j: int|
                0 <= j < i ==> !table_entry_hooked(buffer@, valid@, #[trigger] table@[j] as int),
        decreases table@.len() - i,
    {
        let entry: usize = table[i];
        if !contains_address(valid, entry) && is_entry_redirected(buffer, entry) {
            return true;
        }
        i += 1;
    }
    false
}

/// Tests whether any virtual-method-table entry has been redirected.
pub fn is_vmt_hook(vmt: &[usize], valid_functions: &[usize], buffer: &[u8]) -> (r: bool)
    ensures
        r == table_hook_among(vmt@, valid_functions@, buffer@),
{
    is_table_hook(vmt, valid_functions, buffer)
}

/// Tests whether any export-table entry has been redirected.
pub fn is_eat_hook(export_table: &[usize], valid_exports: &[usize], buffer: &[u8]) -> (r: bool)
    ensures
        r == table_hook_among(export_table@, valid_exports@, buffer@),
{
    is_table_hook(export_table, valid_exports, buffer)
}

/// No pattern is found where its bytes would reach past the end of the
/// buffer: too few bytes left is never a match, for any buffer and any
/// offset.
pub proof fn lemma_no_match_past_end(buf: Seq<u8>, offset: int, known: Seq<usize>)
    requires
        0 <= offset,
    ensures
        offset + 4 > buf.len() ==> !inline_hook_at(buf, offset),
        offset + 3 > buf.len() ==> syscall_bounds(buf, offset) is None,
        offset + 5 > buf.len() ==> !iat_hook_at(buf, offset, known),
        offset + 12 > buf.len() ==> !ext_hook_at(buf, offset),
        offset + 14 > buf.len() ==> !load_xor_jump_at(buf, offset),
        buf.len() < 14 ==> forall|value: int| !leads_to_jump(buf, value),
{
    lemma_syscall_bounds(buf, offset);
}

/// A table test flags nothing on a buffer too short to hold the
/// load/xor/jump sequence, and a TLS test on such a buffer flags exactly the
/// callbacks outside every valid range.
pub proof fn lemma_short_buffer_tables(
    entries: Seq<usize>,
    valid: Seq<usize>,
    ranges: Seq<(usize, usize)>,
    buf: Seq<u8>,
)
    requires
        buf.len() < 14,
    ensures
        !table_hook_among(entries, valid, buf),
        tls_hook_among(entries, ranges, buf) <==> exists|i: int|
            0 <= i < entries.len() && !in_some_range(ranges, #[trigger] entries[i] as int),
{
    lemma_no_match_past_end(buf, 0, valid);
}

} // verus!
