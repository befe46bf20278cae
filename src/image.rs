use vstd::prelude::*;

use crate::bytes::{
    append, append_le, append_zeros, le_bytes, le_value, lemma_le_bytes_len, lemma_le_round_trip, pow256,
    zeros,
};

verus! {

/// The virtual address at which the image is based.
pub const BASE_VADDR: u64 = 0x40_0000;
/// The file offset of the program header.
pub const OFF_PROG_HDR: u64 = 0x40;
/// The file offset of the loadable segment: the first page boundary after the headers.
pub const OFF_SEGMENT: u64 = 0x1000;
/// The alignment of the loadable segment: one page.
pub const SEGMENT_ALIGN: u64 = 0x1000;
/// The virtual address of the segment, and of the entry point at its first byte.
pub const SEGMENT_VADDR: u64 = BASE_VADDR + OFF_SEGMENT;
/// The size of the file header.
pub const ELF_HEADER_SIZE: u64 = 64;
/// The size of one program header.
pub const PROG_HEADER_SIZE: u64 = 56;

/// The identification bytes: magic, 64-bit class, little-endian, version 1, System V ABI.
pub open spec fn elf_ident() -> Seq<u8> {
    seq![0x7Fu8, 0x45, 0x4C, 0x46, 0x02, 0x01, 0x01, 0x00, 0, 0, 0, 0, 0, 0, 0, 0]
}

/// The file header of an x86-64 executable with one program header and no sections.
pub open spec fn elf_header(entry: nat) -> Seq<u8> {
    elf_ident() + le_bytes(2, 2) + le_bytes(0x3E, 2) + le_bytes(1, 4) + le_bytes(entry, 8)
        + le_bytes(OFF_PROG_HDR as nat, 8) + le_bytes(0, 8) + le_bytes(0, 4) + le_bytes(
        ELF_HEADER_SIZE as nat,
        2,
    ) + le_bytes(PROG_HEADER_SIZE as nat, 2) + le_bytes(1, 2) + le_bytes(0, 2) + le_bytes(0, 2)
        + le_bytes(0, 2)
}

/// A loadable, readable and executable segment of `size` bytes, at `OFF_SEGMENT` in the
/// file and at `SEGMENT_VADDR` in memory.
pub open spec fn program_header(size: nat) -> Seq<u8> {
    le_bytes(1, 4) + le_bytes(5, 4) + le_bytes(OFF_SEGMENT as nat, 8) + le_bytes(
        SEGMENT_VADDR as nat,
        8,
    ) + le_bytes(SEGMENT_VADDR as nat, 8) + le_bytes(size, 8) + le_bytes(size, 8) + le_bytes(
        SEGMENT_ALIGN as nat,
        8,
    )
}

/// The whole image: headers, zero padding up to the segment, then code and data.
pub open spec fn image_bytes(code: Seq<u8>, data: Seq<u8>) -> Seq<u8> {
    let size = code.len() + data.len();
    elf_header(SEGMENT_VADDR as nat) + zeros((OFF_PROG_HDR - ELF_HEADER_SIZE) as nat)
        + program_header(size) + zeros((OFF_SEGMENT - OFF_PROG_HDR - PROG_HEADER_SIZE) as nat)
        + code + data
}

pub proof fn lemma_header_lengths(entry: nat, size: nat)
    ensures
        elf_header(entry).len() == ELF_HEADER_SIZE,
        program_header(size).len() == PROG_HEADER_SIZE,
{
    lemma_le_bytes_len(2, 2);
    lemma_le_bytes_len(0x3E, 2);
    lemma_le_bytes_len(1, 4);
    lemma_le_bytes_len(entry, 8);
    lemma_le_bytes_len(OFF_PROG_HDR as nat, 8);
    lemma_le_bytes_len(0, 8);
    lemma_le_bytes_len(0, 4);
    lemma_le_bytes_len(ELF_HEADER_SIZE as nat, 2);
    lemma_le_bytes_len(PROG_HEADER_SIZE as nat, 2);
    lemma_le_bytes_len(1, 2);
    lemma_le_bytes_len(0, 2);
    lemma_le_bytes_len(5, 4);
    lemma_le_bytes_len(OFF_SEGMENT as nat, 8);
    lemma_le_bytes_len(SEGMENT_VADDR as nat, 8);
    lemma_le_bytes_len(size, 8);
    lemma_le_bytes_len(SEGMENT_ALIGN as nat, 8);
}

fn append_elf_header(buf: &mut Vec<u8>, entry: u64)
    ensures
        final(buf)@ == old(buf)@ + elf_header(entry as nat),
{
    append(buf, &[0x7F, 0x45, 0x4C, 0x46, 0x02, 0x01, 0x01, 0x00, 0, 0, 0, 0, 0, 0, 0, 0]);
    append_le(buf, 2, 2);
    append_le(buf, 0x3E, 2);
    append_le(buf, 1, 4);
    append_le(buf, entry, 8);
    append_le(buf, OFF_PROG_HDR, 8);
    append_le(buf, 0, 8);
    append_le(buf, 0, 4);
    append_le(buf, ELF_HEADER_SIZE, 2);
    append_le(buf, PROG_HEADER_SIZE, 2);
    append_le(buf, 1, 2);
    append_le(buf, 0, 2);
    append_le(buf, 0, 2);
    append_le(buf, 0, 2);
    assert(buf@ =~= old(buf)@ + elf_header(entry as nat));
}

fn append_program_header(buf: &mut Vec<u8>, size: u64)
    ensures
        final(buf)@ == old(buf)@ + program_header(size as nat),
{
    append_le(buf, 1, 4);
    append_le(buf, 5, 4);
    append_le(buf, OFF_SEGMENT, 8);
    append_le(buf, SEGMENT_VADDR, 8);
    append_le(buf, SEGMENT_VADDR, 8);
    append_le(buf, size, 8);
    append_le(buf, size, 8);
    append_le(buf, SEGMENT_ALIGN, 8);
    assert(buf@ =~= old(buf)@ + program_header(size as nat));
}

/// Builds the executable image whose one segment holds `code` followed by `data`, with the
/// entry point at the first byte of `code`.
pub fn build_image(code: &Vec<u8>, data: &Vec<u8>) -> (r: Vec<u8>)
    requires
        code@.len() + data@.len() <= u64::MAX,
    ensures
        r@ == image_bytes(code@, data@),
{
    let size: u64 = code.len() as u64 + data.len() as u64;
    let mut out: Vec<u8> = Vec::new();
    append_elf_header(&mut out, SEGMENT_VADDR);
    append_zeros(&mut out, (OFF_PROG_HDR - ELF_HEADER_SIZE) as usize);
    append_program_header(&mut out, size);
    append_zeros(&mut out, (OFF_SEGMENT - OFF_PROG_HDR - PROG_HEADER_SIZE) as usize);
    append(&mut out, code.as_slice());
    append(&mut out, data.as_slice());
    assert(out@ =~= image_bytes(code@, data@));
    out
}

} // verus!

verus! {

/// The format's magic: `0x7F 'E' 'L' 'F'`.
pub open spec fn elf_magic() -> Seq<u8> {
    seq![0x7Fu8, 0x45, 0x4C, 0x46]
}

/// Every image starts with the format's magic, enters at the segment's first byte, declares
/// a segment whose file and memory sizes are exactly the code and data lengths, and holds
/// exactly the code followed by the data from the segment's file offset to its end.
pub proof fn lemma_image_layout(code: Seq<u8>, data: Seq<u8>)
    requires
        code.len() + data.len() <= u64::MAX,
    ensures
        image_bytes(code, data).len() == OFF_SEGMENT + code.len() + data.len(),
        image_bytes(code, data).subrange(0, 4) == elf_magic(),
        le_value(image_bytes(code, data).subrange(24, 32)) == SEGMENT_VADDR,
        le_value(image_bytes(code, data).subrange(0x60, 0x68)) == code.len() + data.len(),
        le_value(image_bytes(code, data).subrange(0x68, 0x70)) == code.len() + data.len(),
        image_bytes(code, data).subrange(
            OFF_SEGMENT as int,
            image_bytes(code, data).len() as int,
        ) == code + data,
{
    let size = code.len() + data.len();
    let img = image_bytes(code, data);
    let hdr = elf_header(SEGMENT_VADDR as nat);
    let ph = program_header(size);
    lemma_header_lengths(SEGMENT_VADDR as nat, size);
    lemma_le_bytes_len(SEGMENT_VADDR as nat, 8);
    lemma_le_bytes_len(size, 8);
    lemma_pow256_eight();
    lemma_le_round_trip(SEGMENT_VADDR as nat, 8);
    lemma_le_round_trip(size, 8);
    let head = hdr + zeros(0) + ph + zeros(3976);
    assert(img == head + code + data);
    assert(img.subrange(0, 4) =~= hdr.subrange(0, 4));
    let hdr_front = elf_ident() + le_bytes(2, 2) + le_bytes(0x3E, 2) + le_bytes(1, 4);
    let hdr_back = le_bytes(OFF_PROG_HDR as nat, 8) + le_bytes(0, 8) + le_bytes(0, 4) + le_bytes(
        ELF_HEADER_SIZE as nat,
        2,
    ) + le_bytes(PROG_HEADER_SIZE as nat, 2) + le_bytes(1, 2) + le_bytes(0, 2) + le_bytes(0, 2)
        + le_bytes(0, 2);
    lemma_le_bytes_len(2, 2);
    lemma_le_bytes_len(0x3E, 2);
    lemma_le_bytes_len(1, 4);
    lemma_le_bytes_len(5, 4);
    lemma_le_bytes_len(OFF_SEGMENT as nat, 8);
    assert(hdr_front.len() == 24);
    assert(hdr =~= hdr_front + le_bytes(SEGMENT_VADDR as nat, 8) + hdr_back);
    assert(hdr.subrange(24, 32) =~= le_bytes(SEGMENT_VADDR as nat, 8));
    assert(img.subrange(24, 32) =~= hdr.subrange(24, 32));
    let ph_front = le_bytes(1, 4) + le_bytes(5, 4) + le_bytes(OFF_SEGMENT as nat, 8) + le_bytes(
        SEGMENT_VADDR as nat,
        8,
    ) + le_bytes(SEGMENT_VADDR as nat, 8);
    let ph_back = le_bytes(size, 8) + le_bytes(SEGMENT_ALIGN as nat, 8);
    assert(ph_front.len() == 32);
    assert(ph =~= ph_front + le_bytes(size, 8) + ph_back);
    assert(ph.subrange(32, 40) =~= le_bytes(size, 8));
    assert(ph.subrange(40, 48) =~= le_bytes(size, 8));
    assert(img.subrange(0x60, 0x68) =~= ph.subrange(32, 40));
    assert(img.subrange(0x68, 0x70) =~= ph.subrange(40, 48));
    assert(img.subrange(0x60, 0x68) =~= le_bytes(size, 8));
    assert(img.subrange(0x68, 0x70) =~= le_bytes(size, 8));
    assert(img.subrange(OFF_SEGMENT as int, img.len() as int) =~= code + data);
}

pub proof fn lemma_pow256_eight()
    ensures
        pow256(8) == 0x1_0000_0000_0000_0000,
{
    assert(pow256(0) == 1);
    assert(pow256(1) == 0x100);
    assert(pow256(2) == 0x1_0000);
    assert(pow256(3) == 0x100_0000);
    assert(pow256(4) == 0x1_0000_0000);
    assert(pow256(5) == 0x100_0000_0000);
    assert(pow256(6) == 0x1_0000_0000_0000);
    assert(pow256(7) == 0x100_0000_0000_0000);
}

} // verus!
