//! Colour conversions, the bank-and-offset form of address translation,
//! and text stored in the image.

use vstd::prelude::*;
use crate::snes::pc_of;

verus! {

/// Red, green and blue, eight bits each.
pub type RGBu8 = (u8, u8, u8);

/// The five-bit red, green and blue fields of a BGR555 colour.
pub open spec fn red5(bgr: u16) -> u16 {
    bgr & 0x1F
}

pub open spec fn green5(bgr: u16) -> u16 {
    (bgr >> 5) & 0x1F
}

pub open spec fn blue5(bgr: u16) -> u16 {
    (bgr >> 10) & 0x1F
}

proof fn lemma_fields(bgr: u16)
    ensures
        red5(bgr) <= 31,
        green5(bgr) <= 31,
        blue5(bgr) <= 31,
        bgr & 0b1111100000 == green5(bgr) << 5,
        bgr & 0b111110000000000 == blue5(bgr) << 10,
        (bgr & 0b1111100000) >> 5 == green5(bgr),
        (bgr & 0b111110000000000) >> 10 == blue5(bgr),
{
    assert(bgr & 0x1F <= 31) by (bit_vector);
    assert((bgr >> 5) & 0x1F <= 31) by (bit_vector);
    assert((bgr >> 10) & 0x1F <= 31) by (bit_vector);
    assert(bgr & 0b1111100000 == ((bgr >> 5) & 0x1F) << 5) by (bit_vector);
    assert(bgr & 0b111110000000000 == ((bgr >> 10) & 0x1F) << 10) by (bit_vector);
    assert((bgr & 0b1111100000) >> 5 == (bgr >> 5) & 0x1F) by (bit_vector);
    assert((bgr & 0b111110000000000) >> 10 == (bgr >> 10) & 0x1F) by (bit_vector);
}

/// Widens a BGR555 colour to eight bits per channel, each field times 8.
pub fn bgr555_rgb888(bgr: &u16) -> (r: RGBu8)
    ensures
        r.0 == red5(*bgr) * 8,
        r.1 == green5(*bgr) * 8,
        r.2 == blue5(*bgr) * 8,
{
    let c = *bgr;
    proof {
        lemma_fields(c);
    }
    let r = (c & 0b11111) * 8;
    let g = ((c & 0b1111100000) >> 5) * 8;
    let b = ((c & 0b111110000000000) >> 10) * 8;
    (r as u8, g as u8, b as u8)
}

/// Repacks a BGR555 colour as RGB565: red in the top five bits, green in
/// the middle six (its low bit clear), blue in the low five.
pub fn bgr555_rgb565(bgr: &u16) -> (r: u16)
    ensures
        r == (red5(*bgr) << 11) | (green5(*bgr) << 6) | blue5(*bgr),
{
    let c = *bgr;
    proof {
        lemma_fields(c);
    }
    let r = (c & 0b11111) << 11;
    let g = ((c & 0b1111100000) >> 5) << 6;
    let b = (c & 0b111110000000000) >> 10;
    r | g | b
}

/// The image offset of offset `addr` in bank `bank`.
pub open spec fn bank_pc(bank: u8, addr: u16) -> int {
    (bank % 128) * 0x8000 + addr - 0x8000
}

/// Translates bank and offset into an image offset.
pub fn snespc(bank: u8, addr: u16) -> (r: usize)
    requires
        bank_pc(bank, addr) >= 0,
    ensures
        r == bank_pc(bank, addr),
{
    assert(bank & 127 == bank % 128) by (bit_vector);
    assert(((bank & 127) as usize) << 15 == (bank % 128) as usize * 0x8000) by (bit_vector);
    (((bank & 127) as usize) << 15) + (addr as usize) - 512 - 32256
}

/// Translates a 24-bit banked address into an image offset.
pub fn snespc2(addr: u32) -> (r: usize)
    requires
        pc_of(addr) >= 0,
    ensures
        r == pc_of(addr),
{
    crate::snes::snespc(addr)
}

/// The length of the text at `addr`: the bytes before the first space or
/// zero byte, or before the end of `bytes`.
pub open spec fn text_len(bytes: Seq<u8>, addr: int) -> int
    decreases bytes.len() - addr,
{
    if addr < 0 || addr >= bytes.len() || bytes[addr] == 0x20 || bytes[addr] == 0 {
        0
    } else {
        1 + text_len(bytes, addr + 1)
    }
}

/// The bytes of the text that starts at `addr` in `bytes`.
pub fn text_bytes(bytes: &[u8], addr: usize) -> (r: Vec<u8>)
    requires
        addr <= bytes@.len(),
    ensures
        r@ == bytes@.subrange(addr as int, addr + text_len(bytes@, addr as int)),
{
    let mut v: Vec<u8> = Vec::new();
    let n = bytes.len();
    let mut i = addr;
    proof {
        lemma_text_len_bounds(bytes@, addr as int);
    }
    while i < n && bytes[i] != 0x20 && bytes[i] != 0
        invariant
            n == bytes@.len(),
            addr <= i,
            i <= addr + text_len(bytes@, addr as int),
            text_len(bytes@, addr as int) == (i - addr) + text_len(bytes@, i as int),
            v@ == bytes@.subrange(addr as int, i as int),
        decreases n - i,
    {
        proof {
            lemma_text_len_bounds(bytes@, i + 1);
        }
        v.push(bytes[i]);
        i = i + 1;
        assert(v@ =~= bytes@.subrange(addr as int, i as int));
    }
    v
}

proof fn lemma_text_len_bounds(bytes: Seq<u8>, addr: int)
    ensures
        0 <= text_len(bytes, addr),
        0 <= addr ==> addr + text_len(bytes, addr) <= bytes.len() || text_len(bytes, addr) == 0,
    decreases bytes.len() - addr,
{
    if !(addr < 0 || addr >= bytes.len() || bytes[addr] == 0x20 || bytes[addr] == 0) {
        lemma_text_len_bounds(bytes, addr + 1);
    }
}

/// Every byte is below 128.
pub open spec fn is_ascii(b: Seq<u8>) -> bool {
    forall|i: int| 0 <= i < b.len() ==> #[trigger] b[i] < 128
}

/// The characters of ASCII bytes, one per byte.
pub open spec fn ascii_chars(b: Seq<u8>) -> Seq<char> {
    Seq::new(b.len(), |i: int| b[i] as char)
}

/// The characters that UTF-8 bytes decode to, when they are valid UTF-8.
pub uninterp spec fn utf8_text(b: Seq<u8>) -> Option<Seq<char>>;

/// Relies on `String::from_utf8`: it succeeds exactly on valid UTF-8, and
/// ASCII bytes are valid UTF-8 that decode to the same characters.
#[verifier::external_body]
fn string_from_utf8(v: Vec<u8>) -> (r: Option<String>)
    ensures
        r is Some <==> utf8_text(v@) is Some,
        r matches Some(s) ==> utf8_text(v@) == Some(s@),
        r is Some || !is_ascii(v@),
        r matches Some(s) ==> is_ascii(v@) ==> s@ == ascii_chars(v@),
{
    String::from_utf8(v).ok()
}

/// The text at `addr` in `rom`, when its bytes are valid UTF-8.
pub fn snes_string(rom: &[u8], addr: usize) -> (r: Option<String>)
    requires
        addr <= rom@.len(),
    ensures
        r is Some <==> utf8_text(rom@.subrange(addr as int, addr + text_len(rom@, addr as int))) is Some,
        r matches Some(s) ==> utf8_text(rom@.subrange(addr as int, addr + text_len(rom@, addr as int))) == Some(s@),
{
    let v = text_bytes(rom, addr);
    string_from_utf8(v)
}

} // verus!
