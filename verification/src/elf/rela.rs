//! Relocation entries with addend, as they stand in `.rela.text`.

use vstd::prelude::*;
use crate::bytes::{le_bytes, push_le, push_le_signed};

verus! {

/// The largest number of a variable whose slot has an offset that a signed
/// 64-bit addend holds.
pub const MAX_SLOT: u64 = 0x0fff_ffff_ffff_fffd;

/// `R_X86_64_64` against the symbol of the `.data` section: an absolute
/// address of 8 bytes.
pub const DATA_64: u64 = 0x1_0000_0001;

/// `R_X86_64_32` against the symbol of the `.data` section: an absolute
/// address of 4 bytes.
pub const DATA_32: u64 = 0x1_0000_000a;

/// An `Elf64_Rela` entry.
#[derive(Debug, Clone, Copy, PartialEq, Eq, Structural)]
pub struct Rela {
    /// Offset of the patched field in `.text`.
    pub addr: u64,
    /// The symbol index in the high 32 bits and the type in the low ones.
    pub info: u64,
    pub addend: i64,
}

impl Rela {
    /// The 24 bytes of the entry: offset, info and addend, little-endian.
    pub open spec fn bytes(self) -> Seq<u8> {
        le_bytes(self.addr as int, 8) + le_bytes(self.info as int, 8) + le_bytes(
            self.addend as int,
            8,
        )
    }

    /// A field of 4 bytes for the address of the slot of the variable `id`.
    pub fn x4(offset: u64, id: u64) -> (r: Rela)
        requires
            id <= MAX_SLOT,
        ensures
            r == (Rela { addr: offset, info: DATA_32, addend: (0x12 + id * 8) as i64 }),
    {
        Rela { addr: offset, info: 0x10000000a, addend: 0x12 + id as i64 * 8 }
    }

    /// A field of 8 bytes for the address of the slot of the variable `id`.
    pub fn x8(offset: u64, id: u64) -> (r: Rela)
        requires
            id <= MAX_SLOT,
        ensures
            r == (Rela { addr: offset, info: DATA_64, addend: (0x12 + id * 8) as i64 }),
    {
        Rela { addr: offset, info: 0x100000001, addend: 0x12 + id as i64 * 8 }
    }

    /// The field of a call of `scanf`, the symbol with the given index:
    /// `R_X86_64_PLT32` with addend -4.
    pub fn scanf(offset: u64, index: u64) -> (r: Rela)
        requires
            index <= 0xffff_ffff,
        ensures
            r == (Rela { addr: offset, info: (4 + index * 0x1_0000_0000) as u64, addend: -4i64 }),
    {
        Rela { addr: offset, info: 4 + index * 0x1_0000_0000, addend: -4 }
    }

    /// The field of a call of `printf`, the symbol with the given index:
    /// `R_X86_64_PLT32` with addend -4.
    pub fn printf(offset: u64, index: u64) -> (r: Rela)
        requires
            index <= 0xffff_ffff,
        ensures
            r == (Rela { addr: offset, info: (4 + index * 0x1_0000_0000) as u64, addend: -4i64 }),
    {
        Rela { addr: offset, info: 4 + index * 0x1_0000_0000, addend: -4 }
    }

    /// A field for the address of the format string that stands at `pos` in
    /// `.data`; the field has 8 bytes if `big`, else 4.
    pub fn format(offset: u64, pos: i64, big: bool) -> (r: Rela)
        ensures
            r == (Rela {
                addr: offset,
                info: if big {
                    DATA_64
                } else {
                    DATA_32
                },
                addend: pos,
            }),
    {
        Rela {
            addr: offset,
            info: if big {
                0x100000001
            } else {
                0x10000000a
            },
            addend: pos,
        }
    }

    /// The bytes of the entry.
    pub fn to_vec(&self) -> (r: Vec<u8>)
        ensures
            r@ == self.bytes(),
    {
        let mut rela: Vec<u8> = Vec::new();
        push_le(&mut rela, self.addr, 8);
        push_le(&mut rela, self.info, 8);
        push_le_signed(&mut rela, self.addend, 8);
        assert(rela@ =~= self.bytes());
        rela
    }
}

} // verus!
