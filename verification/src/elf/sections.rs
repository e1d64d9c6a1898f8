//! Section headers.

use vstd::prelude::*;
use crate::bytes::{le_bytes, push_le};

verus! {

/// An `Elf64_Shdr` entry.
#[derive(Debug, Clone, Copy, PartialEq, Eq, Structural)]
pub struct Section {
    /// Offset of the name in `.shstrtab`.
    pub name: u32,
    pub s_type: u32,
    pub flags: u64,
    pub addr: u64,
    /// Offset of the section in the file.
    pub offset: u64,
    pub size: u64,
    pub link: u32,
    pub info: u32,
    pub addr_align: u64,
    pub ent_size: u64,
}

impl Section {
    /// The 64 bytes of the header, field by field, little-endian.
    pub open spec fn bytes(self) -> Seq<u8> {
        le_bytes(self.name as int, 4) + le_bytes(self.s_type as int, 4) + le_bytes(
            self.flags as int,
            8,
        ) + le_bytes(self.addr as int, 8) + le_bytes(self.offset as int, 8) + le_bytes(
            self.size as int,
            8,
        ) + le_bytes(self.link as int, 4) + le_bytes(self.info as int, 4) + le_bytes(
            self.addr_align as int,
            8,
        ) + le_bytes(self.ent_size as int, 8)
    }

    /// The empty header that every section header table starts with.
    pub open spec fn header_null() -> Section {
        Section {
            name: 0,
            s_type: 0,
            flags: 0,
            addr: 0,
            offset: 0,
            size: 0,
            link: 0,
            info: 0,
            addr_align: 0,
            ent_size: 0,
        }
    }

    /// Executable form of [`Section::header_null`].
    pub fn null() -> (r: Section)
        ensures
            r == Section::header_null(),
    {
        Section {
            name: 0,
            s_type: 0,
            flags: 0,
            addr: 0,
            offset: 0,
            size: 0,
            link: 0,
            info: 0,
            addr_align: 0,
            ent_size: 0,
        }
    }

    /// `.data`: program bits, writable and allocated, at offset 0x200.
    pub open spec fn header_data(size: u64) -> Section {
        Section {
            name: 1,
            s_type: 1,
            flags: 3,
            addr: 0,
            offset: 0x200,
            size,
            link: 0,
            info: 0,
            addr_align: 4,
            ent_size: 0,
        }
    }

    /// Executable form of [`Section::header_data`].
    pub fn data(size: u64) -> (r: Section)
        ensures
            r == Section::header_data(size),
    {
        Section {
            name: 1,
            s_type: 1,
            flags: 3,
            addr: 0,
            offset: 0x80 + 0x40 * 6,
            size,
            link: 0,
            info: 0,
            addr_align: 4,
            ent_size: 0,
        }
    }

    /// `.text`: program bits, allocated and executable.
    pub open spec fn header_text(offset: u64, size: u64) -> Section {
        Section {
            name: 7,
            s_type: 1,
            flags: 6,
            addr: 0,
            offset,
            size,
            link: 0,
            info: 0,
            addr_align: 16,
            ent_size: 0,
        }
    }

    /// Executable form of [`Section::header_text`].
    pub fn text(offset: u64, size: u64) -> (r: Section)
        ensures
            r == Section::header_text(offset, size),
    {
        Section {
            name: 7,
            s_type: 1,
            flags: 6,
            addr: 0,
            offset,
            size,
            link: 0,
            info: 0,
            addr_align: 16,
            ent_size: 0,
        }
    }

    /// `.shstrtab`: the string table of the section names, 0x32 bytes.
    pub open spec fn header_shstrtab(offset: u64) -> Section {
        Section {
            name: 0x0d,
            s_type: 3,
            flags: 0,
            addr: 0,
            offset,
            size: 0x32,
            link: 0,
            info: 0,
            addr_align: 1,
            ent_size: 0,
        }
    }

    /// Executable form of [`Section::header_shstrtab`].
    pub fn shstrtab(offset: u64) -> (r: Section)
        ensures
            r == Section::header_shstrtab(offset),
    {
        Section {
            name: 0x0d,
            s_type: 3,
            flags: 0,
            addr: 0,
            offset,
            size: 0x32,
            link: 0,
            info: 0,
            addr_align: 1,
            ent_size: 0,
        }
    }

    /// `.symtab`: the symbol table, with entries of 0x18 bytes.
    pub open spec fn header_symtab(offset: u64, size: u64, link: u32, info: u32) -> Section {
        Section {
            name: 0x17,
            s_type: 2,
            flags: 0,
            addr: 0,
            offset,
            size,
            link,
            info,
            addr_align: 8,
            ent_size: 0x18,
        }
    }

    /// Executable form of [`Section::header_symtab`].
    pub fn symtab(offset: u64, size: u64, link: u32, info: u32) -> (r: Section)
        ensures
            r == Section::header_symtab(offset, size, link, info),
    {
        Section {
            name: 0x17,
            s_type: 2,
            flags: 0,
            addr: 0,
            offset,
            size,
            link,
            info,
            addr_align: 8,
            ent_size: 0x18,
        }
    }

    /// `.strtab`: the string table of the symbol names.
    pub open spec fn header_strtab(offset: u64, size: u64) -> Section {
        Section {
            name: 0x1f,
            s_type: 3,
            flags: 0,
            addr: 0,
            offset,
            size,
            link: 0,
            info: 0,
            addr_align: 1,
            ent_size: 0,
        }
    }

    /// Executable form of [`Section::header_strtab`].
    pub fn strtab(offset: u64, size: u64) -> (r: Section)
        ensures
            r == Section::header_strtab(offset, size),
    {
        Section {
            name: 0x1f,
            s_type: 3,
            flags: 0,
            addr: 0,
            offset,
            size,
            link: 0,
            info: 0,
            addr_align: 1,
            ent_size: 0,
        }
    }

    /// `.rela.text`: the relocations of `.text`, with entries of 0x18
    /// bytes.
    pub open spec fn header_rela_text(offset: u64, size: u64, link: u32, info: u32) -> Section {
        Section {
            name: 0x27,
            s_type: 4,
            flags: 0,
            addr: 0,
            offset,
            size,
            link,
            info,
            addr_align: 8,
            ent_size: 0x18,
        }
    }

    /// Executable form of [`Section::header_rela_text`].
    pub fn rela_text(offset: u64, size: u64, link: u32, info: u32) -> (r: Section)
        ensures
            r == Section::header_rela_text(offset, size, link, info),
    {
        Section {
            name: 0x27,
            s_type: 4,
            flags: 0,
            addr: 0,
            offset,
            size,
            link,
            info,
            addr_align: 8,
            ent_size: 0x18,
        }
    }

    /// The bytes of the header.
    pub fn to_vec(self) -> (r: Vec<u8>)
        ensures
            r@ == self.bytes(),
    {
        let mut section: Vec<u8> = Vec::new();
        push_le(&mut section, self.name as u64, 4);
        push_le(&mut section, self.s_type as u64, 4);
        push_le(&mut section, self.flags, 8);
        push_le(&mut section, self.addr, 8);
        push_le(&mut section, self.offset, 8);
        push_le(&mut section, self.size, 8);
        push_le(&mut section, self.link as u64, 4);
        push_le(&mut section, self.info as u64, 4);
        push_le(&mut section, self.addr_align, 8);
        push_le(&mut section, self.ent_size, 8);
        assert(section@ =~= self.bytes());
        section
    }
}

} // verus!
