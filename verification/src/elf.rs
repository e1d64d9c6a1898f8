//! The packager: machine code, relocations and symbols as the image of an
//! ELF64 relocatable object file.

pub mod rela;
pub mod sections;
pub mod symtab;

use vstd::prelude::*;
use crate::bytes::{le_bytes, lemma_le_len, push_all, push_le, push_zeros, zeros};
use crate::elf::rela::Rela;
use crate::elf::sections::Section;
use crate::elf::symtab::Symtab;

verus! {

/// The zero bytes after a section that ends at `len`: up to the next
/// multiple of 16, and a whole 16 if `len` is one already.
#[verifier::opaque]
pub open spec fn padding(len: int) -> Seq<u8> {
    zeros((16 - len % 16) as nat)
}

/// The ELF header: 64-bit, little-endian, System V, a relocatable file for
/// x86-64, with 7 section headers of 64 bytes at offset 0x40, of which the
/// fourth names the sections.
#[verifier::opaque]
pub open spec fn header() -> Seq<u8> {
    seq![0x7fu8, 0x45, 0x4c, 0x46, 2, 1, 1, 0] + zeros(8) + le_bytes(1, 2) + le_bytes(0x3e, 2)
        + le_bytes(1, 4) + le_bytes(0, 8) + le_bytes(0, 8) + le_bytes(0x40, 8) + le_bytes(0, 4)
        + le_bytes(0x40, 2) + le_bytes(0, 2) + le_bytes(0, 2) + le_bytes(0x40, 2) + le_bytes(7, 2)
        + le_bytes(3, 2)
}

/// The format strings at the start of `.data`: `%ld` at 0, `%ld\n` at 4,
/// `%lf` at 9 and `%lf\n` at 13, each closed by NUL.
#[verifier::opaque]
pub open spec fn formats() -> Seq<u8> {
    seq![
        0x25u8,
        0x6c,
        0x64,
        0x00,
        0x25,
        0x6c,
        0x64,
        0x0a,
        0x00,
        0x25,
        0x6c,
        0x66,
        0x00,
        0x25,
        0x6c,
        0x66,
        0x0a,
        0x00,
    ]
}

/// The size of `.data` for `n` identifiers: the format strings and a slot
/// of 8 bytes for each identifier and for the scratch.
pub open spec fn data_size(n: nat) -> int {
    (18 + 8 * (n + 1)) as int
}

/// `.data` with its padding.
#[verifier::opaque]
pub open spec fn data(n: nat) -> Seq<u8> {
    formats() + zeros((8 * (n + 1)) as nat) + padding(data_size(n))
}

/// `.shstrtab`: the names `.data`, `.text`, `.shstrtab`, `.symtab`,
/// `.strtab` and `.rela.text`, each closed by NUL, after one NUL: 50 bytes.
#[verifier::opaque]
pub open spec fn section_names() -> Seq<u8> {
    seq![
        0u8,
        0x2e,
        0x64,
        0x61,
        0x74,
        0x61,
        0,
        0x2e,
        0x74,
        0x65,
        0x78,
        0x74,
        0,
        0x2e,
        0x73,
        0x68,
        0x73,
        0x74,
        0x72,
        0x74,
        0x61,
        0x62,
        0,
        0x2e,
        0x73,
        0x79,
        0x6d,
        0x74,
        0x61,
        0x62,
        0,
        0x2e,
        0x73,
        0x74,
        0x72,
        0x74,
        0x61,
        0x62,
        0,
        0x2e,
        0x72,
        0x65,
        0x6c,
        0x61,
        0x2e,
        0x74,
        0x65,
        0x78,
        0x74,
        0,
    ]
}

/// The names of the fixed symbols: `if`, `of`, `iff`, `off` for the format
/// strings, then `printf`, `main` and `scanf`, each closed by NUL, after
/// one NUL: 33 bytes.
#[verifier::opaque]
pub open spec fn fixed_names() -> Seq<u8> {
    seq![
        0u8,
        0x69,
        0x66,
        0,
        0x6f,
        0x66,
        0,
        0x69,
        0x66,
        0x66,
        0,
        0x6f,
        0x66,
        0x66,
        0,
        0x70,
        0x72,
        0x69,
        0x6e,
        0x74,
        0x66,
        0,
        0x6d,
        0x61,
        0x69,
        0x6e,
        0,
        0x73,
        0x63,
        0x61,
        0x6e,
        0x66,
        0,
    ]
}

/// A number in decimal, as ASCII digits.
pub open spec fn decimal_bytes(n: nat) -> Seq<u8>
    decreases n,
{
    if n < 10 {
        seq![(0x30 + n) as u8]
    } else {
        decimal_bytes(n / 10).push((0x30 + n % 10) as u8)
    }
}

/// The name of the `i`-th variable: `i` and the number, closed by NUL.
pub open spec fn ident_name(i: nat) -> Seq<u8> {
    seq![0x69u8] + decimal_bytes(i) + seq![0u8]
}

/// The string table with the fixed names and the names of the first
/// `count` variables.
pub open spec fn names(count: nat) -> Seq<u8>
    decreases count,
{
    if count == 0 {
        fixed_names()
    } else {
        names((count - 1) as nat) + ident_name((count - 1) as nat)
    }
}

/// The symbol of the `i`-th variable: local, in `.data`, named by the
/// `i`-th name of the string table, at its slot.
pub open spec fn ident_symbol(i: nat) -> Symtab {
    Symtab {
        name: names(i).len() as u32,
        info: 0,
        other: 0,
        shndx: 1,
        value: (0x12 + 8 * i) as u64,
        size: 0,
    }
}

/// The symbols of the first `count` variables.
pub open spec fn ident_symbols(count: nat) -> Seq<u8>
    decreases count,
{
    if count == 0 {
        Seq::empty()
    } else {
        ident_symbols((count - 1) as nat) + ident_symbol((count - 1) as nat).bytes()
    }
}

/// A local symbol in `.data`.
pub open spec fn local(name: u32, value: u64) -> Symtab {
    Symtab { name, info: 0, other: 0, shndx: 1, value, size: 0 }
}

/// `.symtab` for `n` identifiers: the null symbol, the section symbols of
/// `.data` and `.text`, the four format strings, the variables and the
/// scratch slot, then the global symbols `scanf`, `printf` and `main`.
#[verifier::opaque]
pub open spec fn symbols(n: nat) -> Seq<u8> {
    (Symtab { name: 0, info: 0, other: 0, shndx: 0, value: 0, size: 0 }).bytes() + (Symtab {
        name: 0,
        info: 3,
        other: 0,
        shndx: 1,
        value: 0,
        size: 0,
    }).bytes() + (Symtab { name: 0, info: 3, other: 0, shndx: 2, value: 0, size: 0 }).bytes()
        + local(1, 0).bytes() + local(4, 4).bytes() + local(7, 9).bytes() + local(11, 13).bytes()
        + ident_symbols(n + 1) + (Symtab {
        name: 0x1b,
        info: 0x10,
        other: 0,
        shndx: 0,
        value: 0,
        size: 0,
    }).bytes() + (Symtab { name: 0x0f, info: 0x10, other: 0, shndx: 0, value: 0, size: 0 }).bytes()
        + (Symtab { name: 0x16, info: 0x10, other: 0, shndx: 2, value: 0, size: 0 }).bytes()
}

/// The entry for one relocation of the code, with `n` identifiers. The
/// symbols after the scratch slot `n` are the format strings `%ld`, `%ld\n`,
/// `%lf` and `%lf\n`, then `scanf` and `printf`; every other number is that
/// of a variable.
pub open spec fn rela_entry(reloc: (u64, u64, bool), n: nat) -> Rela {
    let (id, pos, big) = reloc;
    let data = if big {
        crate::elf::rela::DATA_64
    } else {
        crate::elf::rela::DATA_32
    };
    if id == n + 1 {
        Rela { addr: pos, info: data, addend: 0 }
    } else if id == n + 2 {
        Rela { addr: pos, info: data, addend: 4 }
    } else if id == n + 3 {
        Rela { addr: pos, info: data, addend: 9 }
    } else if id == n + 4 {
        Rela { addr: pos, info: data, addend: 13 }
    } else if id == n + 5 {
        Rela { addr: pos, info: (4 + (8 + n) * 0x1_0000_0000) as u64, addend: -4i64 }
    } else if id == n + 6 {
        Rela { addr: pos, info: (4 + (9 + n) * 0x1_0000_0000) as u64, addend: -4i64 }
    } else {
        Rela { addr: pos, info: data, addend: (0x12 + id * 8) as i64 }
    }
}

/// `.rela.text`: the entries of the first `count` relocations.
pub open spec fn relocation_entries(relocs: Seq<(u64, u64, bool)>, count: int, n: nat) -> Seq<u8>
    decreases count,
{
    if count <= 0 {
        Seq::empty()
    } else {
        relocation_entries(relocs, count - 1, n) + rela_entry(relocs[count - 1], n).bytes()
    }
}

/// Whether every relocation names a symbol that there is: a variable, the
/// scratch slot, or one of the six symbols after it.
pub open spec fn valid_relocations(relocs: Seq<(u64, u64, bool)>, n: nat) -> bool {
    forall|i: int| 0 <= i < relocs.len() ==> (#[trigger] relocs[i]).0 <= n + 6
}

/// The sections of the file after the section headers, each padded: `.data`,
/// `.text`, `.shstrtab`, `.symtab`, `.strtab` and `.rela.text`.
pub struct Layout {
    pub data: Seq<u8>,
    pub text: Seq<u8>,
    pub shstrtab: Seq<u8>,
    pub symtab: Seq<u8>,
    pub strtab: Seq<u8>,
    pub rela: Seq<u8>,
}

impl Layout {
    /// The offset of `.text`: after `.data`, which starts at 0x200.
    pub open spec fn text_at(self) -> int {
        (0x200 + self.data.len()) as int
    }

    /// The offset of `.shstrtab`: after `.text` and its padding.
    pub open spec fn shstrtab_at(self) -> int {
        self.text_at() + self.text.len() + padding(self.text.len() as int).len()
    }

    /// The offset of `.symtab`: after `.shstrtab` and its padding.
    pub open spec fn symtab_at(self) -> int {
        self.shstrtab_at() + self.shstrtab.len() + padding(self.shstrtab.len() as int).len()
    }

    /// The offset of `.strtab`: after `.symtab` and its padding.
    pub open spec fn strtab_at(self) -> int {
        self.symtab_at() + self.symtab.len() + padding(self.symtab.len() as int).len()
    }

    /// The offset of `.rela.text`: after `.strtab` and its padding.
    pub open spec fn rela_at(self) -> int {
        self.strtab_at() + self.strtab.len() + padding(self.strtab.len() as int).len()
    }

    /// The section header table: the null header and one header for each
    /// section, with the offset and the size of the section. `.symtab`
    /// names `.strtab` as its string table and its first global symbol;
    /// `.rela.text` names `.symtab` and `.text`.
    pub open spec fn headers(self, n: nat) -> Seq<u8> {
        zeros(64) + Section::header_data(data_size(n) as u64).bytes() + Section::header_text(
            self.text_at() as u64,
            self.text.len() as u64,
        ).bytes() + Section::header_shstrtab(self.shstrtab_at() as u64).bytes()
            + Section::header_symtab(
            self.symtab_at() as u64,
            self.symtab.len() as u64,
            5,
            (8 + n) as u32,
        ).bytes() + Section::header_strtab(self.strtab_at() as u64, self.strtab.len() as u64).bytes()
            + Section::header_rela_text(self.rela_at() as u64, self.rela.len() as u64, 4, 2).bytes()
    }

    /// The sections one after the other, each but `.data`, which carries
    /// its own, followed by its padding.
    pub open spec fn body(self) -> Seq<u8> {
        self.data + self.text + padding(self.text.len() as int) + self.shstrtab + padding(
            self.shstrtab.len() as int,
        ) + self.symtab + padding(self.symtab.len() as int) + self.strtab + padding(
            self.strtab.len() as int,
        ) + self.rela + padding(self.rela.len() as int)
    }
}

/// The sections of the object file for `n` identifiers, the machine code
/// `text` and its relocations.
pub open spec fn layout(n: nat, text: Seq<u8>, relocs: Seq<(u64, u64, bool)>) -> Layout {
    Layout {
        data: data(n),
        text,
        shstrtab: section_names(),
        symtab: symbols(n),
        strtab: names(n + 1),
        rela: relocation_entries(relocs, relocs.len() as int, n),
    }
}

/// The image of the object file: the ELF header, the section header table,
/// and the sections.
pub open spec fn image(n: nat, text: Seq<u8>, relocs: Seq<(u64, u64, bool)>) -> Seq<u8> {
    header() + layout(n, text, relocs).headers(n) + layout(n, text, relocs).body()
}

} // verus!

verus! {

/// The header has 64 bytes.
pub proof fn lemma_header_len()
    ensures
        header().len() == 64,
{
    reveal(header);
    lemma_le_len(1, 2);
    lemma_le_len(0x3e, 2);
    lemma_le_len(1, 4);
    lemma_le_len(0, 8);
    lemma_le_len(0x40, 8);
    lemma_le_len(0, 4);
    lemma_le_len(0x40, 2);
    lemma_le_len(0, 2);
    lemma_le_len(7, 2);
    lemma_le_len(3, 2);
}

/// A section header has 64 bytes.
pub proof fn lemma_section_len(s: Section)
    ensures
        s.bytes().len() == 64,
{
    lemma_le_len(s.name as int, 4);
    lemma_le_len(s.s_type as int, 4);
    lemma_le_len(s.flags as int, 8);
    lemma_le_len(s.addr as int, 8);
    lemma_le_len(s.offset as int, 8);
    lemma_le_len(s.size as int, 8);
    lemma_le_len(s.link as int, 4);
    lemma_le_len(s.info as int, 4);
    lemma_le_len(s.addr_align as int, 8);
    lemma_le_len(s.ent_size as int, 8);
}

/// A number below 100000 has at most 5 decimal digits.
pub proof fn lemma_decimal_len(n: nat)
    requires
        n < 100000,
    ensures
        1 <= decimal_bytes(n).len() <= 5,
{
    reveal_with_fuel(decimal_bytes, 6);
}

/// The string table with the names of `count` variables has at most 33
/// bytes and 7 for each variable.
pub proof fn lemma_names_len(count: nat)
    requires
        count <= 65536,
    ensures
        33 <= names(count).len() <= 33 + 7 * count,
    decreases count,
{
    reveal(fixed_names);
    if count > 0 {
        lemma_names_len((count - 1) as nat);
        lemma_decimal_len((count - 1) as nat);
    }
}

/// Appends the decimal digits of `n` to `out`.
fn push_decimal_bytes(out: &mut Vec<u8>, n: u64)
    ensures
        final(out)@ == old(out)@ + decimal_bytes(n as nat),
    decreases n,
{
    if n < 10 {
        out.push(0x30 + n as u8);
        assert(out@ =~= old(out)@ + decimal_bytes(n as nat));
    } else {
        push_decimal_bytes(out, n / 10);
        out.push(0x30 + (n % 10) as u8);
        assert(out@ =~= old(out)@ + decimal_bytes(n as nat));
    }
}

/// Appends the padding of a section of `len` bytes to `out`.
fn push_padding(out: &mut Vec<u8>, len: usize)
    ensures
        final(out)@ == old(out)@ + padding(len as int),
{
    proof {
        reveal(padding);
    }
    push_zeros(out, 16 - len % 16);
}

/// Writes `bytes` over the bytes of `out` from index `at` on.
fn overwrite(out: &mut Vec<u8>, at: usize, bytes: &Vec<u8>)
    requires
        at + bytes@.len() <= old(out)@.len(),
    ensures
        final(out)@ == old(out)@.subrange(0, at as int) + bytes@ + old(out)@.subrange(
            at + bytes@.len(),
            old(out)@.len() as int,
        ),
{
    let n = bytes.len();
    let total = out.len();
    let mut i: usize = 0;
    while i < n
        invariant
            i <= n,
            n == bytes@.len(),
            total == out@.len(),
            out@.len() == old(out)@.len(),
            at + n <= total,
            forall|j: int|
                0 <= j < out@.len() ==> out@[j] == if at <= j < at + i {
                    bytes@[j - at]
                } else {
                    old(out)@[j]
                },
        decreases n - i,
    {
        out[at + i] = bytes[i];
        i += 1;
    }
    assert(out@ =~= old(out)@.subrange(0, at as int) + bytes@ + old(out)@.subrange(
        at + bytes@.len(),
        old(out)@.len() as int,
    ));
}

/// The packager of one object file.
pub struct Elf {
    res_file: String,
    ident_count: u16,
    program: Vec<u8>,
    asm_idents: Vec<(u64, u64, bool)>,
}

impl Elf {
    /// The number of identifiers.
    pub closed spec fn count(&self) -> nat {
        self.ident_count as nat
    }

    /// The machine code.
    pub closed spec fn text(&self) -> Seq<u8> {
        self.program@
    }

    /// The relocations of the machine code.
    pub closed spec fn relocations(&self) -> Seq<(u64, u64, bool)> {
        self.asm_idents@
    }

    /// The name of the object file.
    pub closed spec fn file(&self) -> Seq<char> {
        self.res_file@
    }

    /// A packager for the object file `res_file` of a program with
    /// `ident_count` identifiers, the machine code `program` and its
    /// relocations `asm_idents`.
    pub fn new(
        res_file: String,
        ident_count: u16,
        program: Vec<u8>,
        asm_idents: Vec<(u64, u64, bool)>,
    ) -> (r: Elf)
        ensures
            r.file() == res_file@,
            r.count() == ident_count,
            r.text() == program@,
            r.relocations() == asm_idents@,
    {
        Elf { res_file, ident_count, program, asm_idents }
    }

    /// The name of the object file.
    pub fn path(&self) -> (r: &String)
        ensures
            r@ == self.file(),
    {
        &self.res_file
    }

    /// Whether every relocation names a symbol that there is.
    pub fn valid(&self) -> (r: bool)
        ensures
            r == valid_relocations(self.relocations(), self.count()),
    {
        let max = self.ident_count as u64;
        let mut i: usize = 0;
        while i < self.asm_idents.len()
            invariant
                i <= self.asm_idents@.len(),
                max == self.ident_count,
                forall|j: int| 0 <= j < i ==> (#[trigger] self.asm_idents@[j]).0 <= max + 6,
            decreases self.asm_idents@.len() - i,
        {
            if self.asm_idents[i].0 > max + 6 {
                return false;
            }
            i += 1;
        }
        true
    }

    /// The ELF header.
    pub fn get_header(&self) -> (r: Vec<u8>)
        ensures
            r@ == header(),
    {
        proof {
            reveal(header);
        }
        let mut header: Vec<u8> = vec![0x7f, 0x45, 0x4c, 0x46, 0x02, 0x01, 0x01, 0x00];
        push_zeros(&mut header, 8);
        push_le(&mut header, 1, 2);
        push_le(&mut header, 0x3e, 2);
        push_le(&mut header, 1, 4);
        push_le(&mut header, 0, 8);
        push_le(&mut header, 0, 8);
        push_le(&mut header, 0x40, 8);
        push_le(&mut header, 0, 4);
        push_le(&mut header, 0x40, 2);
        push_le(&mut header, 0, 2);
        push_le(&mut header, 0, 2);
        push_le(&mut header, 0x40, 2);
        push_le(&mut header, 7, 2);
        push_le(&mut header, 3, 2);
        assert(header@ =~= crate::elf::header());
        header
    }

    /// The size of `.data` and its bytes with the padding.
    pub fn get_data(&self) -> (r: (u64, Vec<u8>))
        ensures
            r.0 == data_size(self.count()),
            r.1@ == data(self.count()),
    {
        proof {
            reveal(formats);
            reveal(data);
        }
        let mut data: Vec<u8> = vec![
            0x25,
            0x6c,
            0x64,
            0x00,
            0x25,
            0x6c,
            0x64,
            0x0a,
            0x00,
            0x25,
            0x6c,
            0x66,
            0x00,
            0x25,
            0x6c,
            0x66,
            0x0a,
            0x00,
        ];
        assert(data@ =~= formats());
        let slots: usize = 8 * (self.ident_count as usize + 1);
        push_zeros(&mut data, slots);
        let size = data.len();
        push_padding(&mut data, size);
        (size as u64, data)
    }

    /// The string table of the symbol names.
    pub fn get_strtab(&self) -> (r: Vec<u8>)
        ensures
            r@ == names(self.count() + 1),
    {
        proof {
            reveal(fixed_names);
        }
        let mut data: Vec<u8> = vec![
            0,
            0x69,
            0x66,
            0,
            0x6f,
            0x66,
            0,
            0x69,
            0x66,
            0x66,
            0,
            0x6f,
            0x66,
            0x66,
            0,
            0x70,
            0x72,
            0x69,
            0x6e,
            0x74,
            0x66,
            0,
            0x6d,
            0x61,
            0x69,
            0x6e,
            0,
            0x73,
            0x63,
            0x61,
            0x6e,
            0x66,
            0,
        ];
        assert(data@ =~= fixed_names());
        let count: u32 = self.ident_count as u32 + 1;
        let mut i: u32 = 0;
        while i < count
            invariant
                i <= count,
                count == self.ident_count + 1,
                data@ == names(i as nat),
            decreases count - i,
        {
            let ghost before = data@;
            data.push(0x69);
            push_decimal_bytes(&mut data, i as u64);
            data.push(0);
            assert(data@ =~= before + ident_name(i as nat));
            i += 1;
        }
        data
    }

    /// The index of the first global symbol, and the symbol table.
    pub fn get_symtab(&self) -> (r: (u32, Vec<u8>))
        ensures
            r.0 == 8 + self.count(),
            r.1@ == symbols(self.count()),
    {
        proof {
            reveal(symbols);
            reveal(fixed_names);
        }
        let mut data: Vec<u8> = Vec::new();
        data.append(&mut Symtab::null().to_vec());
        data.append(&mut Symtab::data().to_vec());
        data.append(&mut Symtab::text().to_vec());
        data.append(&mut Symtab::ident(1, 0).to_vec());
        data.append(&mut Symtab::ident(4, 4).to_vec());
        data.append(&mut Symtab::ident(7, 9).to_vec());
        data.append(&mut Symtab::ident(11, 13).to_vec());
        let ghost fixed = data@;
        let count: u32 = self.ident_count as u32 + 1;
        let mut name_offset: u32 = 33;
        let mut i: u32 = 0;
        assert(data@ =~= fixed + ident_symbols(0));
        while i < count
            invariant
                i <= count,
                count == self.ident_count + 1,
                name_offset == names(i as nat).len(),
                data@ == fixed + ident_symbols(i as nat),
            decreases count - i,
        {
            proof {
                lemma_names_len(i as nat);
                lemma_names_len((i + 1) as nat);
            }
            let ghost before = data@;
            let mut entry = Symtab::ident(name_offset, 0x12 + i as u64 * 8).to_vec();
            data.append(&mut entry);
            assert(data@ =~= fixed + ident_symbols((i + 1) as nat));
            let mut name: Vec<u8> = Vec::new();
            name.push(0x69);
            push_decimal_bytes(&mut name, i as u64);
            name.push(0);
            assert(name@ =~= ident_name(i as nat));
            name_offset = name_offset + name.len() as u32;
            i += 1;
        }
        data.append(&mut Symtab::scanf().to_vec());
        data.append(&mut Symtab::printf().to_vec());
        data.append(&mut Symtab::main().to_vec());
        assert(data@ =~= symbols(self.count()));
        (8 + self.ident_count as u32, data)
    }

    /// The entry of `.rela.text` for one relocation of the code.
    fn get_rela(&self, id: u64, pos: u64, big: bool) -> (r: Rela)
        requires
            id <= self.count() + 6,
        ensures
            r == rela_entry((id, pos, big), self.count()),
    {
        let max = self.ident_count as u64;
        if id == max + 1 {
            Rela::format(pos, 0, big)
        } else if id == max + 2 {
            Rela::format(pos, 4, big)
        } else if id == max + 3 {
            Rela::format(pos, 9, big)
        } else if id == max + 4 {
            Rela::format(pos, 13, big)
        } else if id == max + 5 {
            Rela::scanf(pos, 8 + max)
        } else if id == max + 6 {
            Rela::printf(pos, 9 + max)
        } else if big {
            Rela::x8(pos, id)
        } else {
            Rela::x4(pos, id)
        }
    }

    /// The relocation table of `.text`.
    pub fn get_rela_text(&self) -> (r: Vec<u8>)
        requires
            valid_relocations(self.relocations(), self.count()),
        ensures
            r@ == relocation_entries(
                self.relocations(),
                self.relocations().len() as int,
                self.count(),
            ),
    {
        let mut data: Vec<u8> = Vec::new();
        let mut i: usize = 0;
        while i < self.asm_idents.len()
            invariant
                i <= self.asm_idents@.len(),
                valid_relocations(self.asm_idents@, self.ident_count as nat),
                data@ == relocation_entries(self.asm_idents@, i as int, self.ident_count as nat),
            decreases self.asm_idents@.len() - i,
        {
            let (id, pos, big) = self.asm_idents[i];
            assert(self.asm_idents@[i as int].0 <= self.ident_count + 6);
            let mut entry = self.get_rela(id, pos, big).to_vec();
            data.append(&mut entry);
            i += 1;
        }
        data
    }
}

} // verus!

verus! {

/// The bytes of `.shstrtab`.
fn section_name_bytes() -> (r: Vec<u8>)
    ensures
        r@ == section_names(),
{
    proof {
        reveal(section_names);
    }
    let names: Vec<u8> = vec![
        0,
        0x2e,
        0x64,
        0x61,
        0x74,
        0x61,
        0,
        0x2e,
        0x74,
        0x65,
        0x78,
        0x74,
        0,
        0x2e,
        0x73,
        0x68,
        0x73,
        0x74,
        0x72,
        0x74,
        0x61,
        0x62,
        0,
        0x2e,
        0x73,
        0x79,
        0x6d,
        0x74,
        0x61,
        0x62,
        0,
        0x2e,
        0x73,
        0x74,
        0x72,
        0x74,
        0x61,
        0x62,
        0,
        0x2e,
        0x72,
        0x65,
        0x6c,
        0x61,
        0x2e,
        0x74,
        0x65,
        0x78,
        0x74,
        0,
    ];
    assert(names@ =~= section_names());
    names
}

/// Appends a section and its padding to the image. The result is the
/// offset of the section.
fn place(image: &mut Vec<u8>, section: &Vec<u8>) -> (at: u64)
    ensures
        at == old(image)@.len(),
        final(image)@ == old(image)@ + section@ + padding(section@.len() as int),
{
    let at = image.len() as u64;
    push_all(image, section.as_slice());
    push_padding(image, section.len());
    at
}

/// The section header table for sections at the given offsets.
fn section_table(
    data_size: u64,
    text: (u64, u64),
    shstrtab: u64,
    symtab: (u64, u64, u32),
    strtab: (u64, u64),
    rela: (u64, u64),
) -> (r: Vec<u8>)
    ensures
        r@.len() == 448,
        r@ == zeros(64) + Section::header_data(data_size).bytes() + Section::header_text(
            text.0,
            text.1,
        ).bytes() + Section::header_shstrtab(shstrtab).bytes() + Section::header_symtab(
            symtab.0,
            symtab.1,
            5,
            symtab.2,
        ).bytes() + Section::header_strtab(strtab.0, strtab.1).bytes()
            + Section::header_rela_text(rela.0, rela.1, 4, 2).bytes(),
{
    let mut table: Vec<u8> = Vec::new();
    push_zeros(&mut table, 64);
    table.append(&mut Section::data(data_size).to_vec());
    table.append(&mut Section::text(text.0, text.1).to_vec());
    table.append(&mut Section::shstrtab(shstrtab).to_vec());
    table.append(&mut Section::symtab(symtab.0, symtab.1, 5, symtab.2).to_vec());
    table.append(&mut Section::strtab(strtab.0, strtab.1).to_vec());
    table.append(&mut Section::rela_text(rela.0, rela.1, 4, 2).to_vec());
    proof {
        lemma_section_len(Section::header_data(data_size));
        lemma_section_len(Section::header_text(text.0, text.1));
        lemma_section_len(Section::header_shstrtab(shstrtab));
        lemma_section_len(Section::header_symtab(symtab.0, symtab.1, 5, symtab.2));
        lemma_section_len(Section::header_strtab(strtab.0, strtab.1));
        lemma_section_len(Section::header_rela_text(rela.0, rela.1, 4, 2));
    }
    table
}

impl Elf {
    /// The image of the object file: the ELF header, the table of the seven
    /// section headers, and the sections `.data`, `.text`, `.shstrtab`,
    /// `.symtab`, `.strtab` and `.rela.text`, each padded with NUL, where
    /// every header holds the offset and the size of its section.
    #[verifier::rlimit(50)]
    pub fn process(&self) -> (r: Vec<u8>)
        requires
            valid_relocations(self.relocations(), self.count()),
        ensures
            r@ == image(self.count(), self.text(), self.relocations()),
    {
        let ghost l = layout(self.count(), self.text(), self.relocations());
        let mut image = self.get_header();
        push_zeros(&mut image, 448);
        proof {
            lemma_header_len();
        }
        let ghost front = image@;
        let (size, mut data) = self.get_data();
        image.append(&mut data);
        let text_at = place(&mut image, &self.program);
        let shstrtab_at = place(&mut image, &section_name_bytes());
        let (info, symtab) = self.get_symtab();
        let symtab_at = place(&mut image, &symtab);
        let strtab = self.get_strtab();
        let strtab_at = place(&mut image, &strtab);
        let rela = self.get_rela_text();
        let rela_at = place(&mut image, &rela);
        assert(image@ =~= front + l.body());
        let table = section_table(
            size,
            (text_at, self.program.len() as u64),
            shstrtab_at,
            (symtab_at, symtab.len() as u64, info),
            (strtab_at, strtab.len() as u64),
            (rela_at, rela.len() as u64),
        );
        assert(table@ == l.headers(self.count()));
        overwrite(&mut image, 64, &table);
        assert(image@ =~= header() + l.headers(self.count()) + l.body());
        image
    }
}

} // verus!

verus! {

/// A section with its padding ends at a multiple of 16 if it starts at one.
pub proof fn lemma_padded(at: int, len: int)
    requires
        at % 16 == 0,
        0 <= len,
    ensures
        (at + len + padding(len).len()) % 16 == 0,
        1 <= padding(len).len() <= 16,
{
    reveal(padding);
}

/// The section header table has 448 bytes.
pub proof fn lemma_headers_len(l: Layout, n: nat)
    ensures
        l.headers(n).len() == 448,
{
    lemma_section_len(Section::header_data(data_size(n) as u64));
    lemma_section_len(Section::header_text(l.text_at() as u64, l.text.len() as u64));
    lemma_section_len(Section::header_shstrtab(l.shstrtab_at() as u64));
    lemma_section_len(
        Section::header_symtab(l.symtab_at() as u64, l.symtab.len() as u64, 5, (8 + n) as u32),
    );
    lemma_section_len(Section::header_strtab(l.strtab_at() as u64, l.strtab.len() as u64));
    lemma_section_len(Section::header_rela_text(l.rela_at() as u64, l.rela.len() as u64, 4, 2));
}

/// `.data` has the size of its contents and the padding after them.
pub proof fn lemma_data_len(n: nat)
    ensures
        data(n).len() == data_size(n) + padding(data_size(n)).len(),
        data(n).len() % 16 == 0,
        data(n).subrange(0, data_size(n)) == formats() + zeros((8 * (n + 1)) as nat),
        (formats() + zeros((8 * (n + 1)) as nat)).len() == data_size(n),
{
    reveal(data);
    reveal(formats);
    reveal(padding);
    assert(data(n).subrange(0, data_size(n)) =~= formats() + zeros((8 * (n + 1)) as nat));
}

/// Whether `part` stands in `img` from the offset `at` on.
#[verifier::opaque]
pub open spec fn placed(img: Seq<u8>, at: int, part: Seq<u8>) -> bool {
    0 <= at && at + part.len() <= img.len() && img.subrange(at, at + part.len()) == part
}

/// What is appended to an image stands at its end.
pub proof fn lemma_placed(img: Seq<u8>, part: Seq<u8>)
    ensures
        placed(img + part, img.len() as int, part),
{
    reveal(placed);
    assert((img + part).subrange(img.len() as int, (img.len() + part.len()) as int) =~= part);
}

/// What stands in an image still stands there after more is appended.
pub proof fn lemma_kept(img: Seq<u8>, at: int, earlier: Seq<u8>, more: Seq<u8>)
    requires
        placed(img, at, earlier),
    ensures
        placed(img + more, at, earlier),
{
    reveal(placed);
    assert((img + more).subrange(at, at + earlier.len()) =~= img.subrange(at, at + earlier.len()));
}

/// What stands in an image stands further back by the length of what is
/// put before the image.
pub proof fn lemma_moved(front: Seq<u8>, img: Seq<u8>, at: int, part: Seq<u8>)
    requires
        placed(img, at, part),
    ensures
        placed(front + img, front.len() + at, part),
{
    reveal(placed);
    assert((front + img).subrange(front.len() + at, front.len() + at + part.len())
        =~= img.subrange(at, at + part.len()));
}

/// The sections stand in the body of the file, each after the padding of
/// the one before it.
#[verifier::rlimit(50)]
pub proof fn lemma_body(l: Layout)
    ensures
        placed(l.body(), 0, l.data),
        placed(l.body(), l.text_at() - 0x200, l.text),
        placed(l.body(), l.shstrtab_at() - 0x200, l.shstrtab),
        placed(l.body(), l.symtab_at() - 0x200, l.symtab),
        placed(l.body(), l.strtab_at() - 0x200, l.strtab),
        placed(l.body(), l.rela_at() - 0x200, l.rela),
        l.body().len() == l.rela_at() - 0x200 + l.rela.len() + padding(l.rela.len() as int).len(),
{
    let p2 = padding(l.text.len() as int);
    let p3 = padding(l.shstrtab.len() as int);
    let p4 = padding(l.symtab.len() as int);
    let p5 = padding(l.strtab.len() as int);
    let p6 = padding(l.rela.len() as int);
    let b1 = l.data;
    let b2 = b1 + l.text;
    let b3 = b2 + p2;
    let b4 = b3 + l.shstrtab;
    let b5 = b4 + p3;
    let b6 = b5 + l.symtab;
    let b7 = b6 + p4;
    let b8 = b7 + l.strtab;
    let b9 = b8 + p5;
    let b10 = b9 + l.rela;
    let b11 = b10 + p6;
    assert(l.body() == b11);
    assert(placed(b1, 0, l.data)) by {
        reveal(placed);
        assert(b1.subrange(0, b1.len() as int) =~= b1);
    }
    lemma_kept(b1, 0, l.data, l.text);
    lemma_kept(b2, 0, l.data, p2);
    lemma_kept(b3, 0, l.data, l.shstrtab);
    lemma_kept(b4, 0, l.data, p3);
    lemma_kept(b5, 0, l.data, l.symtab);
    lemma_kept(b6, 0, l.data, p4);
    lemma_kept(b7, 0, l.data, l.strtab);
    lemma_kept(b8, 0, l.data, p5);
    lemma_kept(b9, 0, l.data, l.rela);
    lemma_kept(b10, 0, l.data, p6);
    let t = b1.len() as int;
    lemma_placed(b1, l.text);
    lemma_kept(b2, t, l.text, p2);
    lemma_kept(b3, t, l.text, l.shstrtab);
    lemma_kept(b4, t, l.text, p3);
    lemma_kept(b5, t, l.text, l.symtab);
    lemma_kept(b6, t, l.text, p4);
    lemma_kept(b7, t, l.text, l.strtab);
    lemma_kept(b8, t, l.text, p5);
    lemma_kept(b9, t, l.text, l.rela);
    lemma_kept(b10, t, l.text, p6);
    let n = b3.len() as int;
    lemma_placed(b3, l.shstrtab);
    lemma_kept(b4, n, l.shstrtab, p3);
    lemma_kept(b5, n, l.shstrtab, l.symtab);
    lemma_kept(b6, n, l.shstrtab, p4);
    lemma_kept(b7, n, l.shstrtab, l.strtab);
    lemma_kept(b8, n, l.shstrtab, p5);
    lemma_kept(b9, n, l.shstrtab, l.rela);
    lemma_kept(b10, n, l.shstrtab, p6);
    let y = b5.len() as int;
    lemma_placed(b5, l.symtab);
    lemma_kept(b6, y, l.symtab, p4);
    lemma_kept(b7, y, l.symtab, l.strtab);
    lemma_kept(b8, y, l.symtab, p5);
    lemma_kept(b9, y, l.symtab, l.rela);
    lemma_kept(b10, y, l.symtab, p6);
    let r = b7.len() as int;
    lemma_placed(b7, l.strtab);
    lemma_kept(b8, r, l.strtab, p5);
    lemma_kept(b9, r, l.strtab, l.rela);
    lemma_kept(b10, r, l.strtab, p6);
    let a = b9.len() as int;
    lemma_placed(b9, l.rela);
    lemma_kept(b10, a, l.rela, p6);
}

/// Every section stands in the image where its header says, and starts at
/// a multiple of 16: the bytes of the image from the offset of a section
/// on, as many as its size, are the section. The image ends at a multiple
/// of 16.
#[verifier::rlimit(50)]
pub proof fn sections_stand_where_their_headers_say(
    n: nat,
    text: Seq<u8>,
    relocs: Seq<(u64, u64, bool)>,
)
    ensures
        ({
            let l = layout(n, text, relocs);
            let img = image(n, text, relocs);
            &&& placed(img, 0, header())
            &&& placed(img, 64, l.headers(n))
            &&& placed(img, 0x200, formats() + zeros((8 * (n + 1)) as nat))
            &&& (formats() + zeros((8 * (n + 1)) as nat)).len() == data_size(n)
            &&& placed(img, l.text_at(), text)
            &&& placed(img, l.shstrtab_at(), section_names())
            &&& placed(img, l.symtab_at(), symbols(n))
            &&& placed(img, l.strtab_at(), names(n + 1))
            &&& placed(img, l.rela_at(), relocation_entries(relocs, relocs.len() as int, n))
            &&& l.text_at() % 16 == 0
            &&& l.shstrtab_at() % 16 == 0
            &&& l.symtab_at() % 16 == 0
            &&& l.strtab_at() % 16 == 0
            &&& l.rela_at() % 16 == 0
            &&& img.len() % 16 == 0
        }),
{
    let l = layout(n, text, relocs);
    let img = image(n, text, relocs);
    lemma_header_len();
    lemma_headers_len(l, n);
    lemma_data_len(n);
    lemma_padded(l.text_at(), l.text.len() as int);
    lemma_padded(l.shstrtab_at(), l.shstrtab.len() as int);
    lemma_padded(l.symtab_at(), l.symtab.len() as int);
    lemma_padded(l.strtab_at(), l.strtab.len() as int);
    lemma_padded(l.rela_at(), l.rela.len() as int);
    lemma_body(l);
    let front = header() + l.headers(n);
    lemma_moved(front, l.body(), 0, l.data);
    lemma_moved(front, l.body(), l.text_at() - 0x200, l.text);
    lemma_moved(front, l.body(), l.shstrtab_at() - 0x200, l.shstrtab);
    lemma_moved(front, l.body(), l.symtab_at() - 0x200, l.symtab);
    lemma_moved(front, l.body(), l.strtab_at() - 0x200, l.strtab);
    lemma_moved(front, l.body(), l.rela_at() - 0x200, l.rela);
    lemma_placed(header(), l.headers(n));
    lemma_kept(front, 64, l.headers(n), l.body());
    assert(placed(front, 0, header())) by {
        reveal(placed);
        assert(front.subrange(0, 64) =~= header());
    }
    lemma_kept(front, 0, header(), l.body());
    let contents = formats() + zeros((8 * (n + 1)) as nat);
    assert(placed(img, 0x200, contents)) by {
        reveal(placed);
        assert(img.subrange(0x200, 0x200 + data_size(n)) =~= l.data.subrange(0, data_size(n)));
    }
}

} // verus!

verus! {

/// The name of each section stands in `.shstrtab` at the offset that the
/// header of the section holds, closed by NUL: `.data` at 1, `.text` at 7,
/// `.shstrtab` at 13, `.symtab` at 0x17, `.strtab` at 0x1f and `.rela.text`
/// at 0x27.
pub proof fn section_names_stand_where_their_headers_say()
    ensures
        section_names().len() == 0x32,
        section_names().subrange(1, 7) == seq![0x2eu8, 0x64, 0x61, 0x74, 0x61, 0],
        section_names().subrange(7, 13) == seq![0x2eu8, 0x74, 0x65, 0x78, 0x74, 0],
        section_names().subrange(13, 23) == seq![
            0x2eu8,
            0x73,
            0x68,
            0x73,
            0x74,
            0x72,
            0x74,
            0x61,
            0x62,
            0,
        ],
        section_names().subrange(0x17, 0x1f) == seq![0x2eu8, 0x73, 0x79, 0x6d, 0x74, 0x61, 0x62, 0],
        section_names().subrange(0x1f, 0x27) == seq![0x2eu8, 0x73, 0x74, 0x72, 0x74, 0x61, 0x62, 0],
        section_names().subrange(0x27, 0x32) == seq![
            0x2eu8,
            0x72,
            0x65,
            0x6c,
            0x61,
            0x2e,
            0x74,
            0x65,
            0x78,
            0x74,
            0,
        ],
{
    reveal(section_names);
    let s = section_names();
    assert(s.subrange(1, 7) =~= seq![0x2eu8, 0x64, 0x61, 0x74, 0x61, 0]);
    assert(s.subrange(7, 13) =~= seq![0x2eu8, 0x74, 0x65, 0x78, 0x74, 0]);
    assert(s.subrange(13, 23) =~= seq![0x2eu8, 0x73, 0x68, 0x73, 0x74, 0x72, 0x74, 0x61, 0x62, 0]);
    assert(s.subrange(0x17, 0x1f) =~= seq![0x2eu8, 0x73, 0x79, 0x6d, 0x74, 0x61, 0x62, 0]);
    assert(s.subrange(0x1f, 0x27) =~= seq![0x2eu8, 0x73, 0x74, 0x72, 0x74, 0x61, 0x62, 0]);
    assert(s.subrange(0x27, 0x32) =~= seq![
        0x2eu8,
        0x72,
        0x65,
        0x6c,
        0x61,
        0x2e,
        0x74,
        0x65,
        0x78,
        0x74,
        0,
    ]);
}

} // verus!
