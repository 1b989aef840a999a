//! Enemy sprites: the 64-byte description record of an enemy, and the
//! palette, animation frames and graphics it points to.

use vstd::prelude::*;
use crate::bitplanes::{chunk_of, decode_tiles, decoded_tile, Tile};
use crate::bytes::{le16, le32, read_u16, read_u32};
use crate::error::DecodeError;
use crate::centered_canvas::px;
use crate::frame_map::{bounding_box, frame_maps_at, frame_maps_in, layered, tile_views, CompositedFrame, FrameMap};
use crate::snes::{lemma_pc_of, pc_of, try_snespc, PcAddress, Rom, SnesAddress};

verus! {

/// An enemy's description, read from its 64-byte record.
pub struct DNA<'a> {
    pub sizeb: u16,
    pub palet: u32,
    pub mb: u32,
    pub piece: u16,
    pub graphadr: u32,
    pub ename: u16,
    pub rom: Rom<'a>,
}

/// One animation step: how long it lasts and where its frame map is.
#[derive(Clone, Copy, Debug, PartialEq, Eq, Structural)]
pub struct FrameIndex {
    pub duration: u16,
    pub snes_addr: u16,
}

/// One animation frame: its parts and how long it lasts.
#[derive(Debug)]
pub struct Frame {
    pub parts: Vec<FrameMap>,
    pub duration: u16,
}

/// The offset of the end mark (bytes 0xED, 0x80 in either half of a
/// record) among the four-byte records starting at `a`, or -1 when the
/// image ends first.
pub open spec fn animation_end(rom: Seq<u8>, a: int) -> int
    decreases (if a < rom.len() { rom.len() - a } else { 0 }),
{
    if a < 0 || a + 4 > rom.len() {
        -1
    } else if (rom[a] == 0xED && rom[a + 1] == 0x80) || (rom[a + 2] == 0xED && rom[a + 3] == 0x80) {
        a
    } else {
        animation_end(rom, a + 4)
    }
}

/// The animation steps in the records from `a` up to the end mark at `e`.
pub open spec fn indices_between(rom: Seq<u8>, a: int, e: int) -> Seq<FrameIndex> {
    Seq::new(((e - a) / 4) as nat, |k: int| FrameIndex {
        duration: le16(rom, a + 4 * k) as u16,
        snes_addr: le16(rom, a + 4 * k + 2) as u16,
    })
}

impl<'a> DNA<'a> {
    /// Reads the 64-byte record at banked address `snes_addr`.
    pub fn read_from_rom(rom: Rom<'a>, snes_addr: SnesAddress) -> (r: Result<DNA<'a>, DecodeError>)
        ensures
            r is Ok <==> snes_addr.pc() >= 0 && snes_addr.pc() + 64 <= rom.bytes().len(),
            r matches Ok(d) ==> {
                let b = rom.bytes();
                let a = snes_addr.pc();
                &&& d.sizeb == le16(b, a)
                &&& d.palet == le16(b, a + 2)
                &&& d.mb == b[a + 12] * 0x10000
                &&& d.piece == le16(b, a + 20)
                &&& d.graphadr == le32(b, a + 54) % 0x1000000
                &&& d.ename == le16(b, a + 62)
                &&& d.rom == rom
                &&& d.wf()
            },
    {
        let addr = match try_snespc(snes_addr.0) {
            Some(p) => p,
            None => return Err(DecodeError::BadAddress { addr: snes_addr.0 }),
        };
        let dna = rom.try_read(addr, 64)?;
        let g = read_u32(&dna[54..58]);
        assert(g & 0x00FFFFFF == g % 0x1000000) by (bit_vector);
        let m = dna[12] as u32;
        assert(m << 16 == m * 0x10000) by (bit_vector)
            requires m <= 0xFF;
        Ok(DNA {
            sizeb: read_u16(&dna[0..2]),
            palet: read_u16(&dna[2..4]) as u32,
            mb: m << 16,
            piece: read_u16(&dna[20..22]),
            graphadr: g & 0x00FFFFFF,
            ename: read_u16(&dna[62..64]),
            rom,
        })
    }

    /// The image offset of the enemy's palette; its animation records
    /// follow 0x20 bytes later.
    pub open spec fn palette_at(&self) -> int {
        pc_of((self.mb + self.palet) as u32)
    }

    pub open spec fn wf(&self) -> bool {
        &&& self.mb % 0x10000 == 0
        &&& self.mb <= 0xFF0000
        &&& self.palet <= 0xFFFF
        &&& self.graphadr <= 0xFFFFFF
    }

    /// The enemy's name: the text at offset `ename` of bank 0x34, at most
    /// sixteen bytes, when it is valid UTF-8. Fails when those sixteen bytes
    /// run past the end of the image.
    pub fn name(&self) -> (r: Result<Option<String>, DecodeError>)
        ensures
            r is Ok <==> 0x1A0000 - 0x8000 + self.ename + 16 <= self.rom.bytes().len(),
            r matches Ok(o) ==> {
                let w = self.rom.bytes().subrange(0x1A0000 - 0x8000 + self.ename, 0x1A0000 - 0x8000 + self.ename + 16);
                let t = w.subrange(0, crate::util::text_len(w, 0));
                &&& o is Some <==> crate::util::utf8_text(t) is Some
                &&& o matches Some(s) ==> crate::util::utf8_text(t) == Some(s@)
            },
    {
        proof {
            lemma_pc_of(0x34, self.ename as u32);
        }
        let addr = SnesAddress(0x340000u32 + self.ename as u32).to_pc();
        let n = self.rom.len();
        if addr.0 > n || n - addr.0 < 16 {
            return Err(DecodeError::OutOfBounds { offset: addr.0, len: 16 });
        }
        Ok(self.rom.read_string(addr, 16))
    }

    /// The enemy's 32 palette bytes.
    pub fn palette(&self) -> (r: Result<&'a [u8], DecodeError>)
        requires
            self.wf(),
        ensures
            r is Ok <==> self.palette_at() >= 0 && self.palette_at() + 32 <= self.rom.bytes().len(),
            r matches Ok(p) ==> p@ == self.rom.bytes().subrange(self.palette_at(), self.palette_at() + 32),
    {
        let a = match try_snespc(self.mb + self.palet) {
            Some(p) => p,
            None => return Err(DecodeError::BadAddress { addr: self.mb + self.palet }),
        };
        self.rom.try_read(a, 32)
    }

    /// The animation steps that follow the palette, up to the end mark.
    fn frame_indices(&self) -> (r: Result<Vec<FrameIndex>, DecodeError>)
        requires
            self.wf(),
        ensures
            r is Ok <==> self.palette_at() >= 0 && animation_end(self.rom.bytes(), self.palette_at() + 0x20) >= 0,
            r matches Ok(v) ==> v@ == indices_between(self.rom.bytes(), self.palette_at() + 0x20,
                animation_end(self.rom.bytes(), self.palette_at() + 0x20)),
    {
        let base = match try_snespc(self.mb + self.palet) {
            Some(p) => p,
            None => return Err(DecodeError::BadAddress { addr: self.mb + self.palet }),
        };
        let ghost b = self.rom.bytes();
        let n = self.rom.len();
        let start = base + 0x20;
        let mut a = start;
        let mut out: Vec<FrameIndex> = Vec::new();
        loop
            invariant
                b == self.rom.bytes(),
                n == b.len(),
                start == self.palette_at() + 0x20,
                self.palette_at() >= 0,
                start <= a,
                (a - start) % 4 == 0,
                animation_end(b, a as int) == animation_end(b, start as int),
                out@ == indices_between(b, start as int, a as int),
            decreases n + 4 - a,
        {
            if a > n || n - a < 4 {
                assert(animation_end(b, a as int) == -1);
                return Err(DecodeError::NoSentinel);
            }
            let c = self.rom.read(PcAddress(a), 4);
            if (c[0] == 0xED && c[1] == 0x80) || (c[2] == 0xED && c[3] == 0x80) {
                assert(animation_end(b, a as int) == a);
                return Ok(out);
            }
            let duration = read_u16(c);
            let snes_addr = read_u16(&c[2..4]);
            out.push(FrameIndex { duration, snes_addr });
            let ghost next = a + 4;
            assert(out@ =~= indices_between(b, start as int, next));
            a = a + 4;
        }
    }

    /// The enemy's animation frames, each with the frame map its step
    /// points to in the enemy's bank.
    pub fn frames(&self) -> (r: Result<Vec<Frame>, DecodeError>)
        requires
            self.wf(),
        ensures
            r matches Ok(v) ==> {
                let b = self.rom.bytes();
                let idx = indices_between(b, self.palette_at() + 0x20, animation_end(b, self.palette_at() + 0x20));
                &&& v@.len() == idx.len()
                &&& forall|k: int| 0 <= k < idx.len() ==> #[trigger] v@[k].duration == idx[k].duration
                    && v@[k].parts@ == frame_maps_at(b, pc_of((self.mb + idx[k].snes_addr) as u32))
            },
            r is Ok <==> {
                let b = self.rom.bytes();
                let idx = indices_between(b, self.palette_at() + 0x20, animation_end(b, self.palette_at() + 0x20));
                &&& self.palette_at() >= 0
                &&& animation_end(b, self.palette_at() + 0x20) >= 0
                &&& forall|k: int| 0 <= k < idx.len() ==> pc_of((self.mb + (#[trigger] idx[k]).snes_addr) as u32) >= 0
                    && frame_maps_in(b, pc_of((self.mb + idx[k].snes_addr) as u32))
            },
    {
        let indices = self.frame_indices()?;
        let ghost b = self.rom.bytes();
        let ghost idx = indices@;
        let mut out: Vec<Frame> = Vec::new();
        let mut k: usize = 0;
        while k < indices.len()
            invariant
                self.wf(),
                b == self.rom.bytes(),
                idx == indices@,
                idx == indices_between(b, self.palette_at() + 0x20, animation_end(b, self.palette_at() + 0x20)),
                k <= idx.len(),
                out@.len() == k,
                forall|j: int| 0 <= j < k ==> pc_of((self.mb + (#[trigger] idx[j]).snes_addr) as u32) >= 0
                    && frame_maps_in(b, pc_of((self.mb + idx[j].snes_addr) as u32)),
                forall|j: int| 0 <= j < k ==> #[trigger] out@[j].duration == idx[j].duration
                    && out@[j].parts@ == frame_maps_at(b, pc_of((self.mb + idx[j].snes_addr) as u32)),
            decreases idx.len() - k,
        {
            let fi = indices[k];
            let full = SnesAddress(self.mb + fi.snes_addr as u32);
            assert(fi == idx[k as int]);
            assert(full.0 == (self.mb + idx[k as int].snes_addr) as u32);
            let parts = match FrameMap::from_rom(&self.rom, full, 0) {
                Ok(p) => p,
                Err(e) => {
                    assert(!(pc_of((self.mb + idx[k as int].snes_addr) as u32) >= 0
                        && frame_maps_in(b, pc_of((self.mb + idx[k as int].snes_addr) as u32))));
                    return Err(e);
                },
            };
            let ghost before = out@;
            let ghost expected = frame_maps_at(b, pc_of((self.mb + idx[k as int].snes_addr) as u32));
            assert(parts@ == expected);
            out.push(Frame { duration: fi.duration, parts });
            assert(out@[k as int].parts@ == expected);
            assert forall|j: int| 0 <= j < k + 1 implies #[trigger] out@[j].duration == idx[j].duration
                && out@[j].parts@ == frame_maps_at(b, pc_of((self.mb + idx[j].snes_addr) as u32)) by {
                if j < k {
                    assert(out@[j] == before[j]);
                }
            }
            k = k + 1;
        }
        Ok(out)
    }

    /// The enemy's tiles: `sizeb` bytes of packed graphics at `graphadr`.
    pub fn graphics(&self) -> (r: Result<Vec<Tile>, DecodeError>)
        requires
            self.wf(),
        ensures
            r is Ok <==> pc_of(self.graphadr) >= 0 && pc_of(self.graphadr) + self.sizeb <= self.rom.bytes().len()
                && self.sizeb % 32 == 0,
            r matches Ok(v) ==> v@.len() == self.sizeb / 32 && forall|i: int| 0 <= i < v@.len() ==>
                #[trigger] v@[i]@ == decoded_tile(chunk_of(self.rom.bytes().subrange(pc_of(self.graphadr),
                    pc_of(self.graphadr) + self.sizeb), i)),
    {
        let a = match try_snespc(self.graphadr) {
            Some(p) => p,
            None => return Err(DecodeError::BadAddress { addr: self.graphadr }),
        };
        let data = self.rom.try_read(a, self.sizeb as usize)?;
        if self.sizeb % 32 != 0 {
            return Err(DecodeError::BadPartSize { len: self.sizeb as usize });
        }
        Ok(decode_tiles(data))
    }
}

impl Frame {
    /// The frame composited from the enemy's tiles, exactly as
    /// `FrameMap::composite` composites its parts with its duration.
    pub fn composited(&self, tiles: &[Tile]) -> (r: Result<CompositedFrame, DecodeError>)
        ensures
            r is Err <==> exists|i: int| 0 <= i < self.parts@.len() && #[trigger] self.parts@[i].last_tile() >= tiles@.len(),
            r matches Err(e) ==> (e matches DecodeError::MissingTile { part, wanted, available }
                && part < self.parts@.len()
                && wanted == self.parts@[part as int].last_tile()
                && available == tiles@.len()
                && wanted >= available
                && forall|j: int| part < j < self.parts@.len() ==> #[trigger] self.parts@[j].last_tile() < tiles@.len()),
            r matches Ok(f) ==> {
                &&& bounding_box(self.parts@, -f.zero_x, -f.zero_y, f.width - f.zero_x, f.height - f.zero_y)
                &&& f.duration == self.duration
                &&& f.buffer@.len() == f.width * f.height
                &&& forall|cx: int, cy: int| 0 <= cx < f.width && 0 <= cy < f.height ==>
                    #[trigger] px(f.buffer@, f.width as int, cx, cy)
                        == layered(self.parts@, tile_views(tiles@), f.zero_x as int, f.zero_y as int, cx, cy)
            },
    {
        FrameMap::composite(self.parts.as_slice(), tiles, self.duration)
    }
}

} // verus!
