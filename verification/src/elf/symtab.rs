//! Symbol table entries.

use vstd::prelude::*;
use crate::bytes::{le_bytes, push_le};

verus! {

/// An `Elf64_Sym` entry.
#[derive(Debug, Clone, Copy, PartialEq, Eq, Structural)]
pub struct Symtab {
    /// Offset of the name in `.strtab`.
    pub name: u32,
    /// Binding in the high 4 bits and type in the low ones.
    pub info: u8,
    pub other: u8,
    /// Index of the section the symbol is defined in; 0 if it is undefined.
    pub shndx: u16,
    pub value: u64,
    pub size: u64,
}

impl Symtab {
    /// The 24 bytes of the entry, field by field, little-endian.
    pub open spec fn bytes(self) -> Seq<u8> {
        le_bytes(self.name as int, 4) + le_bytes(self.info as int, 1) + le_bytes(
            self.other as int,
            1,
        ) + le_bytes(self.shndx as int, 2) + le_bytes(self.value as int, 8) + le_bytes(
            self.size as int,
            8,
        )
    }

    /// The empty symbol that every symbol table starts with.
    pub fn null() -> (r: Symtab)
        ensures
            r == (Symtab { name: 0, info: 0, other: 0, shndx: 0, value: 0, size: 0 }),
    {
        Symtab { name: 0, info: 0, other: 0, shndx: 0, value: 0, size: 0 }
    }

    /// The section symbol of `.data`: local.
    pub fn data() -> (r: Symtab)
        ensures
            r == (Symtab { name: 0, info: 3, other: 0, shndx: 1, value: 0, size: 0 }),
    {
        Symtab { name: 0, info: 3, other: 0, shndx: 1, value: 0, size: 0 }
    }

    /// The section symbol of `.text`: local.
    pub fn text() -> (r: Symtab)
        ensures
            r == (Symtab { name: 0, info: 3, other: 0, shndx: 2, value: 0, size: 0 }),
    {
        Symtab { name: 0, info: 3, other: 0, shndx: 2, value: 0, size: 0 }
    }

    /// `main`: global, at the start of `.text`.
    pub fn main() -> (r: Symtab)
        ensures
            r == (Symtab { name: 0x16, info: 0x10, other: 0, shndx: 2, value: 0, size: 0 }),
    {
        Symtab { name: 0x16, info: 0x10, other: 0, shndx: 2, value: 0, size: 0 }
    }

    /// `scanf`: global and undefined.
    pub fn scanf() -> (r: Symtab)
        ensures
            r == (Symtab { name: 0x1b, info: 0x10, other: 0, shndx: 0, value: 0, size: 0 }),
    {
        Symtab { name: 0x1B, info: 0x10, other: 0, shndx: 0, value: 0, size: 0 }
    }

    /// `printf`: global and undefined.
    pub fn printf() -> (r: Symtab)
        ensures
            r == (Symtab { name: 0x0f, info: 0x10, other: 0, shndx: 0, value: 0, size: 0 }),
    {
        Symtab { name: 0xF, info: 0x10, other: 0, shndx: 0, value: 0, size: 0 }
    }

    /// A local symbol in `.data`, at the offset `value` there.
    pub fn ident(name: u32, value: u64) -> (r: Symtab)
        ensures
            r == (Symtab { name, info: 0, other: 0, shndx: 1, value, size: 0 }),
    {
        Symtab { name, info: 0, other: 0, shndx: 1, value, size: 0 }
    }

    /// The bytes of the entry.
    pub fn to_vec(&self) -> (r: Vec<u8>)
        ensures
            r@ == self.bytes(),
    {
        let mut symtab: Vec<u8> = Vec::new();
        push_le(&mut symtab, self.name as u64, 4);
        push_le(&mut symtab, self.info as u64, 1);
        push_le(&mut symtab, self.other as u64, 1);
        push_le(&mut symtab, self.shndx as u64, 2);
        push_le(&mut symtab, self.value, 8);
        push_le(&mut symtab, self.size, 8);
        assert(symtab@ =~= self.bytes());
        symtab
    }
}

} // verus!
