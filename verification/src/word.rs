//! Byte-level edits of a machine word.
//!
//! A traced process exposes its memory one aligned 64-bit word at a time.
//! Changing a single byte therefore means reading the enclosing word,
//! swapping one of its eight bytes and writing the word back. The functions
//! here compute that edit; they touch no process.

use vstd::prelude::*;

verus! {

/// Number of bytes in one word of tracee memory.
pub const WORD_BYTES: u64 = 8;

/// Byte `i` of `word`, counting from the least significant one, which is
/// the byte at the lowest address on a little-endian machine.
pub open spec fn byte_of(word: u64, i: int) -> u8 {
    ((word >> ((8 * i) as u64)) & 0xff) as u8
}

/// The eight bytes of `word` in address order.
pub open spec fn word_bytes(word: u64) -> Seq<u8> {
    Seq::new(8, |i: int| byte_of(word, i))
}

/// The address of the word that holds the byte at `addr`.
pub open spec fn aligned(addr: u64) -> u64 {
    (addr - addr % 8) as u64
}

/// Where in its word the byte at `addr` sits.
pub open spec fn offset_in_word(addr: u64) -> int {
    addr as int % 8
}

/// The byte of `word` that a patch at `addr` displaces.
pub open spec fn displaced_byte(word: u64, addr: u64) -> u8 {
    word_bytes(word)[offset_in_word(addr)]
}

/// `word` with the byte for `addr` replaced by `val`.
pub open spec fn patched_word(word: u64, addr: u64, val: u8) -> u64 {
    let shift = (8 * (addr % 8)) as u64;
    (word & !(0xffu64 << shift)) | ((val as u64) << shift)
}

/// A word is determined by its eight bytes.
pub proof fn lemma_word_bytes_injective(a: u64, b: u64)
    requires
        word_bytes(a) == word_bytes(b),
    ensures
        a == b,
{
    assert forall|i: int| 0 <= i < 8 implies byte_of(a, i) == byte_of(b, i) by {
        assert(word_bytes(a)[i] == byte_of(a, i));
        assert(word_bytes(b)[i] == byte_of(b, i));
    }
    assert(byte_of(a, 0) == byte_of(b, 0));
    assert(byte_of(a, 1) == byte_of(b, 1));
    assert(byte_of(a, 2) == byte_of(b, 2));
    assert(byte_of(a, 3) == byte_of(b, 3));
    assert(byte_of(a, 4) == byte_of(b, 4));
    assert(byte_of(a, 5) == byte_of(b, 5));
    assert(byte_of(a, 6) == byte_of(b, 6));
    assert(byte_of(a, 7) == byte_of(b, 7));
    assert(a == b) by (bit_vector)
        requires
            ((a >> 0u64) & 0xff) as u8 == ((b >> 0u64) & 0xff) as u8,
            ((a >> 8u64) & 0xff) as u8 == ((b >> 8u64) & 0xff) as u8,
            ((a >> 16u64) & 0xff) as u8 == ((b >> 16u64) & 0xff) as u8,
            ((a >> 24u64) & 0xff) as u8 == ((b >> 24u64) & 0xff) as u8,
            ((a >> 32u64) & 0xff) as u8 == ((b >> 32u64) & 0xff) as u8,
            ((a >> 40u64) & 0xff) as u8 == ((b >> 40u64) & 0xff) as u8,
            ((a >> 48u64) & 0xff) as u8 == ((b >> 48u64) & 0xff) as u8,
            ((a >> 56u64) & 0xff) as u8 == ((b >> 56u64) & 0xff) as u8,
    ;
}

/// Byte `i` of a patched word is the new value at the patched offset and
/// the old byte everywhere else.
proof fn lemma_patched_byte(word: u64, addr: u64, val: u8, i: int)
    requires
        0 <= i < 8,
    ensures
        byte_of(patched_word(word, addr, val), i) == if i == offset_in_word(addr) {
            val
        } else {
            byte_of(word, i)
        },
{
    let k: u64 = (addr % 8) as u64;
    let j: u64 = i as u64;
    let shift: u64 = (8 * k) as u64;
    let at: u64 = (8 * j) as u64;
    let patched: u64 = (word & !(0xffu64 << shift)) | ((val as u64) << shift);
    assert(patched == patched_word(word, addr, val));
    assert(((patched >> at) & 0xff) as u8 == if j == k {
        val
    } else {
        ((word >> at) & 0xff) as u8
    }) by (bit_vector)
        requires
            k < 8,
            j < 8,
            shift == 8 * k,
            at == 8 * j,
            patched == (word & !(0xffu64 << shift)) | ((val as u64) << shift),
    ;
}

/// Patching one byte leaves the seven others as they were.
pub proof fn lemma_patched_word_bytes(word: u64, addr: u64, val: u8)
    ensures
        word_bytes(patched_word(word, addr, val)) == word_bytes(word).update(
            offset_in_word(addr),
            val,
        ),
{
    let patched = patched_word(word, addr, val);
    assert forall|i: int| 0 <= i < 8 implies word_bytes(patched)[i] == word_bytes(word).update(
        offset_in_word(addr),
        val,
    )[i] by {
        lemma_patched_byte(word, addr, val, i);
    }
    assert(word_bytes(patched) =~= word_bytes(word).update(offset_in_word(addr), val));
}

/// Writing a byte and then writing back the byte it displaced restores the
/// word exactly, and the second write hands back the byte that the first one
/// wrote.
pub proof fn lemma_patch_round_trip(word: u64, addr: u64, val: u8)
    ensures
        patched_word(patched_word(word, addr, val), addr, displaced_byte(word, addr)) == word,
        displaced_byte(patched_word(word, addr, val), addr) == val,
{
    let k = offset_in_word(addr);
    let once = patched_word(word, addr, val);
    let orig = displaced_byte(word, addr);
    let twice = patched_word(once, addr, orig);
    lemma_patched_word_bytes(word, addr, val);
    lemma_patched_word_bytes(once, addr, orig);
    assert(word_bytes(twice) =~= word_bytes(word));
    lemma_word_bytes_injective(twice, word);
}

/// A patch is confined to one byte of the word: the byte for any address at
/// another place in the word reads as before.
pub proof fn lemma_patch_keeps_neighbours(word: u64, addr: u64, val: u8, other: u64)
    requires
        offset_in_word(other) != offset_in_word(addr),
    ensures
        displaced_byte(patched_word(word, addr, val), other) == displaced_byte(word, other),
{
    lemma_patched_word_bytes(word, addr, val);
}

/// The word whose eight bytes, in address order, are `bytes`.
pub open spec fn word_of(bytes: Seq<u8>) -> u64 {
    (bytes[0] as u64) | (bytes[1] as u64) << 8 | (bytes[2] as u64) << 16 | (bytes[3] as u64) << 24
        | (bytes[4] as u64) << 32 | (bytes[5] as u64) << 40 | (bytes[6] as u64) << 48 | (
    bytes[7] as u64) << 56
}

/// The bytes of the word made of eight bytes are those eight bytes.
pub proof fn lemma_word_of_bytes(bytes: Seq<u8>)
    requires
        bytes.len() == 8,
    ensures
        word_bytes(word_of(bytes)) == bytes,
{
    let b0 = bytes[0];
    let b1 = bytes[1];
    let b2 = bytes[2];
    let b3 = bytes[3];
    let b4 = bytes[4];
    let b5 = bytes[5];
    let b6 = bytes[6];
    let b7 = bytes[7];
    let w: u64 = word_of(bytes);
    assert(((w >> 0u64) & 0xff) as u8 == b0 && ((w >> 8u64) & 0xff) as u8 == b1 && ((w >> 16u64)
        & 0xff) as u8 == b2 && ((w >> 24u64) & 0xff) as u8 == b3 && ((w >> 32u64) & 0xff) as u8
        == b4 && ((w >> 40u64) & 0xff) as u8 == b5 && ((w >> 48u64) & 0xff) as u8 == b6 && ((w
        >> 56u64) & 0xff) as u8 == b7) by (bit_vector)
        requires
            w == (b0 as u64) | (b1 as u64) << 8 | (b2 as u64) << 16 | (b3 as u64) << 24 | (
            b4 as u64) << 32 | (b5 as u64) << 40 | (b6 as u64) << 48 | (b7 as u64) << 56,
    ;
    assert(byte_of(w, 0) == b0);
    assert(byte_of(w, 1) == b1);
    assert(byte_of(w, 2) == b2);
    assert(byte_of(w, 3) == b3);
    assert(byte_of(w, 4) == b4);
    assert(byte_of(w, 5) == b5);
    assert(byte_of(w, 6) == b6);
    assert(byte_of(w, 7) == b7);
    assert(word_bytes(w) =~= bytes);
}

/// The memory of a process as the tracing calls show it: a byte at each
/// address that is mapped.
pub type Memory = Map<u64, u8>;

/// Whether the eight bytes of the word at `start` are all mapped.
pub open spec fn word_mapped(memory: Memory, start: u64) -> bool {
    &&& start % 8 == 0
    &&& forall|i: int| 0 <= i < 8 ==> memory.dom().contains(#[trigger] ((start + i) as u64))
}

/// What a read of the word at `start` returns: its eight bytes, the one at
/// the lowest address in the lowest place.
pub open spec fn peeked(memory: Memory, start: u64) -> u64 {
    word_of(Seq::new(8, |i: int| memory[(start + i) as u64]))
}

/// The memory after `word` was written at `start`: the eight bytes from
/// `start` on are those of `word`, all others are as before.
pub open spec fn poked(memory: Memory, start: u64, word: u64) -> Memory {
    Map::new(
        |a: u64| memory.dom().contains(a),
        |a: u64|
            if start <= a < start + 8 {
                byte_of(word, a - start)
            } else {
                memory[a]
            },
    )
}

/// The memory after a byte was written at `addr` the way the debugger does
/// it: the word that holds `addr` is read, changed in one byte and written
/// back.
pub open spec fn patched_memory(memory: Memory, addr: u64, val: u8) -> Memory {
    poked(memory, aligned(addr), patched_word(peeked(memory, aligned(addr)), addr, val))
}

/// Reading a word, changing one byte of it and writing it back changes that
/// one byte of memory and nothing else, and the byte taken out of the word
/// is the byte that memory held.
pub proof fn lemma_patch_changes_one_byte(memory: Memory, addr: u64, val: u8)
    requires
        word_mapped(memory, aligned(addr)),
    ensures
        patched_memory(memory, addr, val) == memory.insert(addr, val),
        displaced_byte(peeked(memory, aligned(addr)), addr) == memory[addr],
{
    let start = aligned(addr);
    let k = offset_in_word(addr);
    let held = Seq::new(8, |i: int| memory[(start + i) as u64]);
    let word = peeked(memory, start);
    lemma_word_of_bytes(held);
    lemma_patched_word_bytes(word, addr, val);
    let after = patched_memory(memory, addr, val);
    assert(held[k] == memory[addr]);
    assert(memory.dom().contains(((start + k) as u64)));
    assert forall|a: u64| after.dom().contains(a) implies #[trigger] after[a] == memory.insert(
        addr,
        val,
    )[a] by {
        if start <= a < start + 8 {
            let i = a - start;
            assert(word_bytes(patched_word(word, addr, val))[i] == byte_of(
                patched_word(word, addr, val),
                i,
            ));
            assert(held[i] == memory[a]);
        }
    }
    assert(after =~= memory.insert(addr, val));
}

/// Writing a byte and then writing back the byte that it displaced leaves
/// memory exactly as it was before the first write.
pub proof fn lemma_patch_and_restore(memory: Memory, addr: u64, val: u8)
    requires
        word_mapped(memory, aligned(addr)),
    ensures
        patched_memory(patched_memory(memory, addr, val), addr, memory[addr]) == memory,
{
    let once = patched_memory(memory, addr, val);
    lemma_patch_changes_one_byte(memory, addr, val);
    assert(word_mapped(once, aligned(addr))) by {
        assert forall|i: int| 0 <= i < 8 implies once.dom().contains(
            #[trigger] ((aligned(addr) + i) as u64),
        ) by {
            assert(memory.dom().contains(((aligned(addr) + i) as u64)));
        }
    }
    lemma_patch_changes_one_byte(once, addr, memory[addr]);
    assert(memory.dom().contains(((aligned(addr) + offset_in_word(addr)) as u64)));
    assert(memory.insert(addr, val).insert(addr, memory[addr]) =~= memory);
}

/// One byte written into a word: where the word lies, what it holds after
/// the write, and the byte that the write displaced.
#[derive(Clone, Copy, Debug, PartialEq, Eq, Structural)]
pub struct Patch {
    /// The address of the word, at which it is read and written.
    pub start: u64,
    /// The word as it is to be written back.
    pub word: u64,
    /// The byte that stood where the new one goes.
    pub displaced: u8,
}

/// What it takes to put `val` at `addr`, given that the word that holds
/// `addr` was read as `word`.
pub open spec fn patch_of(word: u64, addr: u64, val: u8) -> Patch {
    Patch {
        start: aligned(addr),
        word: patched_word(word, addr, val),
        displaced: displaced_byte(word, addr),
    }
}

/// Rounds `addr` down to the start of the word that holds it.
pub fn align_addr_to_word(addr: u64) -> (start: u64)
    ensures
        start == aligned(addr),
        start <= addr < start + WORD_BYTES,
        start % WORD_BYTES == 0,
{
    assert(addr & !7u64 == addr - addr % 8) by (bit_vector);
    addr & !7u64
}

/// The position, from 0 to 7, of the byte at `addr` inside its word.
pub fn byte_offset(addr: u64) -> (offset: u64)
    ensures
        offset == offset_in_word(addr),
        offset == addr - aligned(addr),
        offset < WORD_BYTES,
{
    addr - align_addr_to_word(addr)
}

/// Reads out of `word` the byte that lives at `addr`.
pub fn extract_byte(word: u64, addr: u64) -> (byte: u8)
    ensures
        byte == displaced_byte(word, addr),
{
    let offset: u64 = byte_offset(addr);
    let shift: u64 = 8 * offset;
    let low: u64 = (word >> shift) & 0xff;
    assert(low <= 0xff) by (bit_vector)
        requires
            low == (word >> shift) & 0xff,
    ;
    low as u8
}

/// Puts `val` into `word` at the byte that lives at `addr`.
pub fn replace_byte(word: u64, addr: u64, val: u8) -> (patched: u64)
    ensures
        patched == patched_word(word, addr, val),
        word_bytes(patched) == word_bytes(word).update(offset_in_word(addr), val),
{
    let offset: u64 = byte_offset(addr);
    let shift: u64 = 8 * offset;
    proof {
        lemma_patched_word_bytes(word, addr, val);
    }
    (word & !(0xffu64 << shift)) | ((val as u64) << shift)
}

/// Works out the write that puts `val` at `addr`, given that the word that
/// holds `addr` was read as `word`: the address to write at, the word to
/// write there, and the byte that the write displaces.
pub fn patch(word: u64, addr: u64, val: u8) -> (edit: Patch)
    ensures
        edit == patch_of(word, addr, val),
        edit.start % WORD_BYTES == 0,
        edit.start <= addr < edit.start + WORD_BYTES,
        word_bytes(edit.word) == word_bytes(word).update(offset_in_word(addr), val),
{
    Patch {
        start: align_addr_to_word(addr),
        word: replace_byte(word, addr, val),
        displaced: extract_byte(word, addr),
    }
}

} // verus!
