use cm_compiler::elf::rela::Rela;
use cm_compiler::elf::sections::Section;
use cm_compiler::elf::symtab::Symtab;
use cm_compiler::elf::Elf;

fn elf(n: u16, text: Vec<u8>, relocs: Vec<(u64, u64, bool)>) -> Elf {
    Elf::new("out.o".to_string(), n, text, relocs)
}

fn u64_at(image: &[u8], at: usize) -> u64 {
    u64::from_le_bytes(image[at..at + 8].try_into().unwrap())
}

fn u32_at(image: &[u8], at: usize) -> u32 {
    u32::from_le_bytes(image[at..at + 4].try_into().unwrap())
}

#[test]
fn relocation_entries_for_variables() {
    assert_eq!(Rela::x4(7, 0), Rela { addr: 7, info: 0x1_0000_000a, addend: 0x12 });
    assert_eq!(Rela::x4(7, 3), Rela { addr: 7, info: 0x1_0000_000a, addend: 0x12 + 24 });
    assert_eq!(Rela::x8(9, 2), Rela { addr: 9, info: 0x1_0000_0001, addend: 0x12 + 16 });
}

#[test]
fn relocation_entries_for_calls_and_formats() {
    assert_eq!(Rela::scanf(5, 9), Rela { addr: 5, info: 0x9_0000_0004, addend: -4 });
    assert_eq!(Rela::printf(5, 10), Rela { addr: 5, info: 0xa_0000_0004, addend: -4 });
    assert_eq!(Rela::format(1, 9, true), Rela { addr: 1, info: 0x1_0000_0001, addend: 9 });
    assert_eq!(Rela::format(1, 13, false), Rela { addr: 1, info: 0x1_0000_000a, addend: 13 });
}

#[test]
fn a_relocation_entry_has_24_bytes() {
    assert_eq!(
        Rela::scanf(0x0102, 9).to_vec(),
        vec![
            0x02, 0x01, 0, 0, 0, 0, 0, 0, //
            0x04, 0, 0, 0, 0x09, 0, 0, 0, //
            0xfc, 0xff, 0xff, 0xff, 0xff, 0xff, 0xff, 0xff,
        ]
    );
}

#[test]
fn section_headers() {
    assert_eq!(Section::null().to_vec(), vec![0u8; 64]);
    let data = Section::data(26);
    assert_eq!((data.name, data.s_type, data.flags, data.offset, data.size), (1, 1, 3, 0x200, 26));
    assert_eq!(data.addr_align, 4);
    let text = Section::text(0x220, 14);
    assert_eq!((text.name, text.s_type, text.flags, text.offset, text.size), (7, 1, 6, 0x220, 14));
    assert_eq!(text.addr_align, 16);
    let names = Section::shstrtab(0x230);
    assert_eq!((names.name, names.s_type, names.offset, names.size), (0x0d, 3, 0x230, 0x32));
    let symtab = Section::symtab(0x270, 0x120, 5, 9);
    assert_eq!((symtab.name, symtab.s_type, symtab.link, symtab.info), (0x17, 2, 5, 9));
    assert_eq!((symtab.addr_align, symtab.ent_size), (8, 0x18));
    let strtab = Section::strtab(0x390, 0x28);
    assert_eq!((strtab.name, strtab.s_type, strtab.size), (0x1f, 3, 0x28));
    let rela = Section::rela_text(0x3c0, 0x60, 4, 2);
    assert_eq!((rela.name, rela.s_type, rela.link, rela.info), (0x27, 4, 4, 2));
    assert_eq!((rela.addr_align, rela.ent_size), (8, 0x18));
}

#[test]
fn a_section_header_has_64_bytes_field_by_field() {
    assert_eq!(
        Section::symtab(0x0270, 0x0120, 5, 9).to_vec(),
        vec![
            0x17, 0, 0, 0, 2, 0, 0, 0, //
            0, 0, 0, 0, 0, 0, 0, 0, //
            0, 0, 0, 0, 0, 0, 0, 0, //
            0x70, 0x02, 0, 0, 0, 0, 0, 0, //
            0x20, 0x01, 0, 0, 0, 0, 0, 0, //
            5, 0, 0, 0, 9, 0, 0, 0, //
            8, 0, 0, 0, 0, 0, 0, 0, //
            0x18, 0, 0, 0, 0, 0, 0, 0,
        ]
    );
}

#[test]
fn symbols() {
    assert_eq!(Symtab::null().to_vec(), vec![0u8; 24]);
    assert_eq!(Symtab::data(), Symtab { name: 0, info: 3, other: 0, shndx: 1, value: 0, size: 0 });
    assert_eq!(Symtab::text(), Symtab { name: 0, info: 3, other: 0, shndx: 2, value: 0, size: 0 });
    assert_eq!(Symtab::main(), Symtab { name: 0x16, info: 0x10, other: 0, shndx: 2, value: 0, size: 0 });
    assert_eq!(Symtab::scanf(), Symtab { name: 0x1b, info: 0x10, other: 0, shndx: 0, value: 0, size: 0 });
    assert_eq!(Symtab::printf(), Symtab { name: 0x0f, info: 0x10, other: 0, shndx: 0, value: 0, size: 0 });
    assert_eq!(Symtab::ident(33, 0x12), Symtab { name: 33, info: 0, other: 0, shndx: 1, value: 0x12, size: 0 });
    assert_eq!(
        Symtab::ident(0x0121, 0x1a).to_vec(),
        vec![
            0x21, 0x01, 0, 0, 0, 0, 1, 0, //
            0x1a, 0, 0, 0, 0, 0, 0, 0, //
            0, 0, 0, 0, 0, 0, 0, 0,
        ]
    );
}

#[test]
fn the_header_of_the_file() {
    let header = elf(0, vec![], vec![]).get_header();
    assert_eq!(
        header,
        vec![
            0x7f, b'E', b'L', b'F', 2, 1, 1, 0, 0, 0, 0, 0, 0, 0, 0, 0, //
            1, 0, 0x3e, 0, 1, 0, 0, 0, 0, 0, 0, 0, 0, 0, 0, 0, //
            0, 0, 0, 0, 0, 0, 0, 0, 0x40, 0, 0, 0, 0, 0, 0, 0, //
            0, 0, 0, 0, 0x40, 0, 0, 0, 0, 0, 0x40, 0, 7, 0, 3, 0,
        ]
    );
}

#[test]
fn the_data_section_holds_the_formats_and_a_slot_for_each_variable() {
    let (size, data) = elf(2, vec![], vec![]).get_data();
    assert_eq!(size, 18 + 8 * 3);
    let mut expected = b"%ld\0%ld\n\0%lf\0%lf\n\0".to_vec();
    expected.extend([0u8; 24]);
    expected.extend([0u8; 6]);
    assert_eq!(data, expected);
    assert_eq!(data.len() % 16, 0);
    let (size, data) = elf(0, vec![], vec![]).get_data();
    assert_eq!(size, 26);
    assert_eq!(data.len(), 32);
}

#[test]
fn the_string_table_names_the_variables_by_their_number() {
    assert_eq!(
        elf(0, vec![], vec![]).get_strtab(),
        b"\0if\0of\0iff\0off\0printf\0main\0scanf\0i0\0".to_vec()
    );
    assert_eq!(
        elf(11, vec![], vec![]).get_strtab(),
        b"\0if\0of\0iff\0off\0printf\0main\0scanf\0i0\0i1\0i2\0i3\0i4\0i5\0i6\0i7\0i8\0i9\0i10\0i11\0"
            .to_vec()
    );
}

#[test]
fn the_symbol_table_lists_locals_before_globals() {
    let (first_global, symtab) = elf(1, vec![], vec![]).get_symtab();
    assert_eq!(first_global, 9);
    let mut expected = Vec::new();
    expected.extend(Symtab::null().to_vec());
    expected.extend(Symtab::data().to_vec());
    expected.extend(Symtab::text().to_vec());
    expected.extend(Symtab::ident(1, 0).to_vec());
    expected.extend(Symtab::ident(4, 4).to_vec());
    expected.extend(Symtab::ident(7, 9).to_vec());
    expected.extend(Symtab::ident(11, 13).to_vec());
    expected.extend(Symtab::ident(33, 0x12).to_vec());
    expected.extend(Symtab::ident(36, 0x1a).to_vec());
    expected.extend(Symtab::scanf().to_vec());
    expected.extend(Symtab::printf().to_vec());
    expected.extend(Symtab::main().to_vec());
    assert_eq!(symtab, expected);
    let (first_global, symtab) = elf(12, vec![], vec![]).get_symtab();
    assert_eq!(first_global, 20);
    assert_eq!(symtab.len(), 24 * 23);
    // the twelfth name stands after ten names of three bytes and one of four
    assert_eq!(u32_at(&symtab, 24 * (7 + 11)), 33 + 30 + 4);
}

#[test]
fn relocations_are_sorted_out_by_their_symbol() {
    let relocs = vec![
        (0, 10, false),
        (1, 20, true),
        (2, 30, false),
        (3, 40, true),
        (4, 50, true),
        (5, 60, true),
        (6, 70, true),
        (7, 80, false),
        (8, 90, false),
    ];
    let e = elf(2, vec![0; 100], relocs);
    assert!(e.valid());
    let mut expected = Vec::new();
    expected.extend(Rela::x4(10, 0).to_vec());
    expected.extend(Rela::x8(20, 1).to_vec());
    expected.extend(Rela::x4(30, 2).to_vec());
    expected.extend(Rela::format(40, 0, true).to_vec());
    expected.extend(Rela::format(50, 4, true).to_vec());
    expected.extend(Rela::format(60, 9, true).to_vec());
    expected.extend(Rela::format(70, 13, true).to_vec());
    expected.extend(Rela::scanf(80, 10).to_vec());
    expected.extend(Rela::printf(90, 11).to_vec());
    assert_eq!(e.get_rela_text(), expected);
}

#[test]
fn a_relocation_for_no_symbol_is_not_valid() {
    assert!(elf(2, vec![], vec![(8, 0, false)]).valid());
    assert!(!elf(2, vec![], vec![(8, 0, false), (9, 0, false)]).valid());
    assert!(elf(0, vec![], vec![]).valid());
    assert_eq!(elf(0, vec![], vec![]).path(), "out.o");
}

#[test]
fn the_image_holds_every_section_where_its_header_says() {
    let text: Vec<u8> = (1..=20).collect();
    let relocs = vec![(0, 4, false), (3, 8, true)];
    let e = elf(1, text.clone(), relocs);
    let image = e.process();
    assert_eq!(&image[..64], e.get_header().as_slice());
    assert_eq!(&image[0x40..0x80], &[0u8; 64]);
    assert_eq!(image.len() % 16, 0);

    let header = |i: usize| &image[0x40 + 0x40 * i..0x80 + 0x40 * i];
    let place = |i: usize| (u64_at(header(i), 24) as usize, u64_at(header(i), 32) as usize);
    let (data_size, data) = e.get_data();
    assert_eq!(place(1), (0x200, data_size as usize));
    assert_eq!(&image[0x200..0x200 + data.len()], data.as_slice());

    let (at, size) = place(2);
    assert_eq!((at, size), (0x200 + data.len(), 20));
    assert_eq!(&image[at..at + size], text.as_slice());
    assert_eq!(&image[at + size..at + 32], &[0u8; 12]);

    let (at, size) = place(3);
    assert_eq!((at, size), (0x200 + data.len() + 32, 0x32));
    assert_eq!(
        &image[at..at + size],
        b"\0.data\0.text\0.shstrtab\0.symtab\0.strtab\0.rela.text\0"
    );
    let name = |offset: usize| {
        let bytes: Vec<u8> =
            image[at + offset..].iter().copied().take_while(|b| *b != 0).collect();
        String::from_utf8(bytes).unwrap()
    };
    assert_eq!(name(u32_at(header(1), 0) as usize), ".data");
    assert_eq!(name(u32_at(header(2), 0) as usize), ".text");
    assert_eq!(name(u32_at(header(3), 0) as usize), ".shstrtab");
    assert_eq!(name(u32_at(header(4), 0) as usize), ".symtab");
    assert_eq!(name(u32_at(header(5), 0) as usize), ".strtab");
    assert_eq!(name(u32_at(header(6), 0) as usize), ".rela.text");

    let (first_global, symtab) = e.get_symtab();
    let (at, size) = place(4);
    assert_eq!(at % 16, 0);
    assert_eq!(&image[at..at + size], symtab.as_slice());
    assert_eq!((u32_at(header(4), 40), u32_at(header(4), 44)), (5, first_global));

    let strtab = e.get_strtab();
    let (at, size) = place(5);
    assert_eq!(at % 16, 0);
    assert_eq!(&image[at..at + size], strtab.as_slice());

    let rela = e.get_rela_text();
    let (at, size) = place(6);
    assert_eq!(at % 16, 0);
    assert_eq!(size, 48);
    assert_eq!(&image[at..at + size], rela.as_slice());
    assert_eq!((u32_at(header(6), 40), u32_at(header(6), 44)), (4, 2));
    assert_eq!(image.len(), at + 64);
}

#[test]
fn a_section_that_ends_at_a_multiple_of_16_gets_16_bytes_of_padding() {
    let image = elf(0, vec![0x90; 16], vec![]).process();
    let text_at = u64_at(&image, 0x40 + 0x40 * 2 + 24) as usize;
    let names_at = u64_at(&image, 0x40 + 0x40 * 3 + 24) as usize;
    assert_eq!(names_at - text_at, 32);
}
