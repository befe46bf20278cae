use vstd::prelude::*;

use crate::bytes::{append, le_bytes, lemma_le_bytes_len};
use crate::image::{build_image, image_bytes};

verus! {

/// The length of the code of the greeting program.
pub const HELLO_CODE_LEN: usize = 42;
/// The offset in that code at which the `lea` instruction ends; its displacement counts
/// from there.
pub const HELLO_LEA_END: usize = 21;

/// `mov rax, 1; mov rdi, 1; lea rsi, [rip + disp]; mov rdx, len; syscall;
/// mov rax, 60; xor rdi, rdi; syscall`, where `disp` reaches the first byte after the code,
/// at which the message is placed, and `len` is the message's length.
pub open spec fn hello_code(msg_len: nat) -> Seq<u8> {
    seq![
        0x48u8, 0xC7, 0xC0, 0x01, 0x00, 0x00, 0x00,
        0x48, 0xC7, 0xC7, 0x01, 0x00, 0x00, 0x00,
        0x48, 0x8D, 0x35,
    ] + le_bytes((HELLO_CODE_LEN - HELLO_LEA_END) as nat, 4) + seq![0x48u8, 0xC7, 0xC2]
        + le_bytes(msg_len, 4) + seq![
        0x0Fu8, 0x05,
        0x48, 0xC7, 0xC0, 0x3C, 0x00, 0x00, 0x00,
        0x48, 0x31, 0xFF,
        0x0F, 0x05,
    ]
}

/// Overwrites the four bytes at `at` with the little-endian encoding of `v`.
fn patch_le32(buf: &mut Vec<u8>, at: usize, v: u32)
    requires
        at + 4 <= old(buf)@.len(),
    ensures
        final(buf)@ == old(buf)@.subrange(0, at as int) + le_bytes(v as nat, 4) + old(
            buf,
        )@.subrange(at + 4, old(buf)@.len() as int),
{
    let n = buf.len();
    let mut rest: u32 = v;
    let mut i: usize = 0;
    while i < 4
        invariant
            i <= 4,
            n == old(buf)@.len(),
            at + 4 <= old(buf)@.len(),
            buf@.len() == old(buf)@.len(),
            le_bytes(v as nat, 4) == buf@.subrange(at as int, at + i) + le_bytes(
                rest as nat,
                (4 - i) as nat,
            ),
            forall|j: int|
                0 <= j < buf@.len() && !(at <= j < at + i) ==> buf@[j] == old(buf)@[j],
        decreases 4 - i,
    {
        let ghost before = buf@;
        buf[at + i] = (rest % 256) as u8;
        proof {
            assert(le_bytes(rest as nat, (4 - i) as nat) == seq![(rest % 256) as u8] + le_bytes(
                (rest / 256) as nat,
                (4 - i - 1) as nat,
            ));
            assert(buf@.subrange(at as int, at + i + 1) == before.subrange(at as int, at + i)
                + seq![(rest % 256) as u8]);
        }
        rest = rest / 256;
        i += 1;
    }
    proof {
        lemma_le_bytes_len(v as nat, 4);
        assert(buf@ =~= old(buf)@.subrange(0, at as int) + le_bytes(v as nat, 4) + old(
            buf,
        )@.subrange(at + 4, old(buf)@.len() as int));
    }
}

/// The image of a program that writes `message` to standard output and exits with status 0.
///
/// The code is laid down first with its two forward fields zeroed and their positions
/// recorded; once the code's length, and so the message's address, is known, exactly those
/// fields are rewritten.
pub fn hello_image(message: &[u8]) -> (r: Vec<u8>)
    requires
        message@.len() <= 0x7FFF_FFFF,
    ensures
        r@ == image_bytes(hello_code(message@.len()), message@),
{
    let mut code: Vec<u8> = Vec::new();
    append(&mut code, &[0x48, 0xC7, 0xC0, 0x01, 0x00, 0x00, 0x00]);  // mov rax, 1       write
    append(&mut code, &[0x48, 0xC7, 0xC7, 0x01, 0x00, 0x00, 0x00]);  // mov rdi, 1       stdout
    append(&mut code, &[0x48, 0x8D, 0x35]);  // lea rsi, [rip + disp]
    let disp_at = code.len();
    append(&mut code, &[0, 0, 0, 0]);
    let lea_end = code.len();
    append(&mut code, &[0x48, 0xC7, 0xC2]);  // mov rdx, len
    let len_at = code.len();
    append(&mut code, &[0, 0, 0, 0]);
    append(&mut code, &[0x0F, 0x05]);  // syscall
    append(&mut code, &[0x48, 0xC7, 0xC0, 0x3C, 0x00, 0x00, 0x00]);  // mov rax, 60      exit
    append(&mut code, &[0x48, 0x31, 0xFF]);  // xor rdi, rdi
    append(&mut code, &[0x0F, 0x05]);  // syscall

    // The message follows the code, so its distance from the end of the `lea` is now known.
    let disp = (code.len() - lea_end) as u32;
    patch_le32(&mut code, disp_at, disp);
    patch_le32(&mut code, len_at, message.len() as u32);

    let mut data: Vec<u8> = Vec::new();
    append(&mut data, message);
    proof {
        lemma_le_bytes_len(21, 4);
        lemma_le_bytes_len(message@.len(), 4);
        assert(code@ =~= hello_code(message@.len()));
    }
    build_image(&code, &data)
}

} // verus!
