use cm_compiler::elf::Elf;
use cm_compiler::parser::Parser;
use cm_compiler::semantic::{Semantic, SemanticError};
use cm_compiler::types::ProgramTypes;

fn compile(src: &str) -> Result<Vec<u8>, SemanticError> {
    let mut p = Parser::new("test.cm".to_string(), src.as_bytes());
    p.run_lexer().unwrap();
    for id in p.real_literals() {
        let bits = p.var_map[id as usize].parse::<f64>().unwrap().to_bits();
        assert!(p.set_real(id, bits));
    }
    assert!(p.all_valued());
    p.run_syntax().unwrap();
    let count = p.ident_map.len();
    let mut s = Semantic::new(
        std::mem::take(&mut p.program),
        std::mem::take(&mut p.vars),
        count as u64,
    );
    s.run_process()?;
    let e = Elf::new("test.o".to_string(), count as u16, s.machine_code, s.asm_idents);
    assert!(e.valid());
    Ok(e.process())
}

fn section(image: &[u8], index: usize) -> &[u8] {
    let header = &image[0x40 + 0x40 * index..0x80 + 0x40 * index];
    let at = u64::from_le_bytes(header[24..32].try_into().unwrap()) as usize;
    let size = u64::from_le_bytes(header[32..40].try_into().unwrap()) as usize;
    &image[at..at + size]
}

fn check_object(image: &[u8], variables: usize) {
    assert_eq!(&image[..4], b"\x7fELF");
    assert_eq!(image.len() % 16, 0);
    assert_eq!(section(image, 1).len(), 18 + 8 * (variables + 1));
    assert_eq!(&section(image, 1)[..18], b"%ld\0%ld\n\0%lf\0%lf\n\0");
    let text = section(image, 2);
    assert_eq!(&text[..4], &[0x48, 0x83, 0xec, 0x08]);
    assert_eq!(&text[text.len() - 10..], &[0xb8, 0x3c, 0, 0, 0, 0x48, 0x31, 0xff, 0x0f, 0x05]);
    assert_eq!(section(image, 4).len(), 24 * (11 + variables));
    let rela = section(image, 6);
    assert_eq!(rela.len() % 24, 0);
    for entry in rela.chunks(24) {
        let offset = u64::from_le_bytes(entry[..8].try_into().unwrap()) as usize;
        let info = u64::from_le_bytes(entry[8..16].try_into().unwrap());
        let size = if info & 0xffff_ffff == 1 { 8 } else { 4 };
        assert!(offset + size <= text.len());
        assert!((info >> 32) as usize <= 9 + variables);
    }
}

#[test]
fn an_integer_program_gives_an_object() {
    let image = compile("{ var x: integer; x = 1 + 2; output(x); }").unwrap();
    check_object(&image, 1);
    assert_eq!(section(&image, 6).len(), 24 * 4);
}

#[test]
fn a_real_program_gives_an_object() {
    let image = compile("{ var f: real; f = 1.5 * 2.0; output(f); }").unwrap();
    check_object(&image, 1);
    let text = section(&image, 2);
    assert_eq!(&text[6..14], &1.5f64.to_le_bytes());
    assert_eq!(&text[17..25], &2.0f64.to_le_bytes());
}

#[test]
fn a_boolean_program_gives_an_object() {
    let image = compile("{ var b: boolean; b = !(1 == 2); output(b); }").unwrap();
    check_object(&image, 1);
}

#[test]
fn a_loop_program_gives_an_object() {
    let image = compile(
        "{ var x: integer; input(x); do while x > 0 { x = x - 1 } loop; output(x); }",
    )
    .unwrap();
    check_object(&image, 1);
}

#[test]
fn a_program_with_a_type_error_gives_no_object() {
    assert_eq!(
        compile("{ var x: integer; x = true; }"),
        Err(SemanticError::AssignTypeMismatch(ProgramTypes::Boolean(None), ProgramTypes::Integer(None)))
    );
}

#[test]
fn a_program_with_several_variables_gives_an_object() {
    let image = compile(
        "{ var a, b: integer; f: real; t: boolean;
           % read, compute, print %
           input(a b f t);
           for (a < b; t; true) { a = a + 1; if a == 10b then t = false end_else };
           output(a b f t) }",
    )
    .unwrap();
    check_object(&image, 4);
}
