//! Banked (LoROM) cartridge addresses and their flat offsets in the image.

use vstd::prelude::*;

verus! {

/// The flat image offset of banked address `addr`: each bank holds the
/// upper 32 KiB of its 64 KiB window, and the image carries no header.
pub open spec fn pc_of(addr: u32) -> int {
    ((addr & 0x7F0000) >> 1) + (addr & 0xFFFF) - 0x8000
}

/// Address `bank:off` sits `(bank mod 128) * 0x8000 + off - 0x8000` bytes
/// into the image.
pub proof fn lemma_pc_of(bank: u32, off: u32)
    requires
        bank <= 0xFF,
        off <= 0xFFFF,
    ensures
        pc_of((bank * 0x10000 + off) as u32) == (bank % 128) * 0x8000 + off - 0x8000,
{
    let a = (bank * 0x10000 + off) as u32;
    assert(a == bank * 0x10000 + off);
    assert((a & 0x7F0000) >> 1 == (bank % 128) * 0x8000) by (bit_vector)
        requires bank <= 0xFF, off <= 0xFFFF, a == bank * 0x10000 + off;
    assert(a & 0xFFFF == off) by (bit_vector)
        requires bank <= 0xFF, off <= 0xFFFF, a == bank * 0x10000 + off;
}

/// Translates a banked address into its image offset.
pub fn snespc(addr: u32) -> (r: usize)
    requires
        pc_of(addr) >= 0,
    ensures
        r == pc_of(addr),
        r < 0x400000,
{
    assert((addr & 0x7F0000) >> 1 <= 0x3F8000) by (bit_vector);
    assert(addr & 0xFFFF <= 0xFFFF) by (bit_vector);
    (((addr & 0x7F0000) >> 1) + (addr & 0xFFFF)) as usize - 512 - 32256
}

/// Translates a banked address into its image offset, or `None` when the
/// address lies before the start of the image.
pub fn try_snespc(addr: u32) -> (r: Option<usize>)
    ensures
        r is Some <==> pc_of(addr) >= 0,
        r matches Some(p) ==> p == pc_of(addr) && p < 0x400000,
{
    assert((addr & 0x7F0000) >> 1 <= 0x3F8000) by (bit_vector);
    assert(addr & 0xFFFF <= 0xFFFF) by (bit_vector);
    let sum: u32 = ((addr & 0x7F0000) >> 1) + (addr & 0xFFFF);
    if sum >= 0x8000 {
        Some(snespc(addr))
    } else {
        None
    }
}

/// An offset into the image.
#[derive(Clone, Copy, Debug, PartialEq, Eq, Structural)]
pub struct PcAddress(pub usize);

/// A banked address: bank in the third byte, offset in the lower two.
#[derive(Clone, Copy, Debug, PartialEq, Eq, Structural)]
pub struct SnesAddress(pub u32);

impl SnesAddress {
    pub open spec fn pc(self) -> int {
        pc_of(self.0)
    }

    /// The image offset of this address.
    pub fn to_pc(self) -> (r: PcAddress)
        requires
            self.pc() >= 0,
        ensures
            r.0 == self.pc(),
    {
        PcAddress(snespc(self.0))
    }
}

impl core::ops::Add<usize> for PcAddress {
    type Output = PcAddress;

    fn add(self, rhs: usize) -> PcAddress {
        PcAddress(self.0 + rhs)
    }
}

impl vstd::std_specs::ops::AddSpecImpl<usize> for PcAddress {
    open spec fn obeys_add_spec() -> bool {
        true
    }

    open spec fn add_req(self, rhs: usize) -> bool {
        self.0 + rhs <= usize::MAX
    }

    open spec fn add_spec(self, rhs: usize) -> PcAddress {
        PcAddress((self.0 + rhs) as usize)
    }
}

impl core::ops::Add<u32> for SnesAddress {
    type Output = SnesAddress;

    fn add(self, rhs: u32) -> SnesAddress {
        SnesAddress(self.0 + rhs)
    }
}

impl vstd::std_specs::ops::AddSpecImpl<u32> for SnesAddress {
    open spec fn obeys_add_spec() -> bool {
        true
    }

    open spec fn add_req(self, rhs: u32) -> bool {
        self.0 + rhs <= u32::MAX
    }

    open spec fn add_spec(self, rhs: u32) -> SnesAddress {
        SnesAddress((self.0 + rhs) as u32)
    }
}

/// A cartridge image.
#[derive(Clone, Copy)]
pub struct Rom<'a>(pub &'a [u8]);

impl<'a> Rom<'a> {
    pub open spec fn bytes(&self) -> Seq<u8> {
        self.0@
    }

    /// The `len` bytes at `addr`.
    pub fn read(&self, addr: PcAddress, len: usize) -> (r: &'a [u8])
        requires
            addr.0 + len <= self.bytes().len(),
        ensures
            r@ == self.bytes().subrange(addr.0 as int, addr.0 + len),
    {
        let _n = self.0.len();
        &self.0[addr.0..addr.0 + len]
    }

    /// The `len` bytes at `addr`, or a fault when they run past the end.
    pub fn try_read(&self, addr: usize, len: usize) -> (r: Result<&'a [u8], crate::error::DecodeError>)
        ensures
            (addr + len <= self.bytes().len()) <==> r is Ok,
            r matches Ok(s) ==> s@ == self.bytes().subrange(addr as int, addr + len),
            r matches Err(e) ==> e == (crate::error::DecodeError::OutOfBounds { offset: addr, len }),
    {
        if addr <= self.0.len() && len <= self.0.len() - addr {
            Ok(&self.0[addr..addr + len])
        } else {
            Err(crate::error::DecodeError::OutOfBounds { offset: addr, len })
        }
    }

    /// The text at `addr`, at most `max_len` bytes long, when it is valid
    /// UTF-8.
    pub fn read_string(&self, addr: PcAddress, max_len: usize) -> (r: Option<String>)
        requires
            addr.0 + max_len <= self.bytes().len(),
        ensures
            ({
                let w = self.bytes().subrange(addr.0 as int, addr.0 + max_len);
                let t = w.subrange(0, crate::util::text_len(w, 0));
                &&& r is Some <==> crate::util::utf8_text(t) is Some
                &&& r matches Some(s) ==> crate::util::utf8_text(t) == Some(s@)
            }),
    {
        let window = self.read(addr, max_len);
        crate::util::snes_string(window, 0)
    }

    /// The image's length.
    pub fn len(&self) -> (r: usize)
        ensures
            r == self.bytes().len(),
    {
        self.0.len()
    }

    /// The byte at `addr`.
    pub fn byte(&self, addr: usize) -> (r: u8)
        requires
            addr < self.bytes().len(),
        ensures
            r == self.bytes()[addr as int],
    {
        self.0[addr]
    }
}

} // verus!
