use upside_down::text::{
    append, copy_of, is_space_byte, join_lines, push_decimal, split_lines, starts_with, trim,
};
use upside_down::transformer::{
    classify_line, decoy_jump_line, is_noise_line, process_asm, process_asm_with, LineKind,
    Program, TransformError,
};

const SOURCE: &str = "\t.file\t\"x\"\n\t.section\t.text,\"xr\"\n\t.globl\tf\nf:\n\t.seh_proc f\n\tmov eax, 1\n.Lcfi0:\n\tret\n\t.seh_endproc\n\t.section\t.rdata\n";

fn lines(text: &[u8]) -> Vec<String> {
    String::from_utf8(text.to_vec()).unwrap().split('\n').map(|l| l.to_string()).collect()
}

fn displacement_of(line: &str) -> Option<i8> {
    let rest = line.strip_prefix("jmp [rip + ")?;
    rest.strip_suffix(']')?.parse().ok()
}

#[test]
fn rewrites_the_code_section() {
    let out = process_asm_with(SOURCE.as_bytes(), &[5, -7]).unwrap();
    let expected = "\
.file\t\"x\"
.section\t.text,\"xr\"
.globl\tf
.align 16
f:
.align 16
mov eax, 1
jmp [rip + 5]
.align 16
.word 0x0B0F
jmp [rip + -7]
.section\t.rdata
";
    assert_eq!(String::from_utf8(out).unwrap(), expected);
}

#[test]
fn counts_of_added_lines() {
    // Four instructions (one of them a blank line), two labels, two
    // directives in the code section.
    let source = "\
head
  .seh_pushreg rbx
.section\t.text
entry:
  push rbx
  .p2align 4
.Lcfi3:

inner:
  call g
  .seh_stackalloc 32
  .quad 7
  ret 8
.section .data
tail: ret
";
    let out = process_asm_with(source.as_bytes(), &[1, 2, 3, 4]).unwrap();
    let out = lines(&out);
    assert_eq!(out.iter().filter(|l| l.starts_with("jmp [rip + ")).count(), 4);
    assert_eq!(out.iter().filter(|l| l.as_str() == ".align 16").count(), 6);
    assert_eq!(out.iter().filter(|l| l.starts_with(".seh") || l.starts_with(".Lcfi")).count(), 0);
    assert_eq!(out.iter().filter(|l| l.as_str() == ".word 0x0B0F").count(), 1);
    assert_eq!(
        out,
        vec![
            "head",
            ".section\t.text",
            ".align 16",
            "entry:",
            ".align 16",
            "push rbx",
            "jmp [rip + 1]",
            ".p2align 4",
            ".align 16",
            "",
            "jmp [rip + 2]",
            ".align 16",
            "inner:",
            ".align 16",
            "call g",
            "jmp [rip + 3]",
            ".quad 7",
            ".align 16",
            ".word 0x0B0F",
            "jmp [rip + 4]",
            ".section .data",
            "tail: ret",
            "",
        ]
    );
}

#[test]
fn lines_outside_the_code_section_stay() {
    let source = "ret\nf:\n.section\t.text\n.section\t.text.unlikely\nret\ng:\n";
    let out = process_asm_with(source.as_bytes(), &[]).unwrap();
    assert_eq!(String::from_utf8(out).unwrap(), source);
}

#[test]
fn a_missing_start_marker_is_an_error() {
    let source = "f:\n\tmov eax, 1\n\tret\n.section .data\n";
    assert_eq!(process_asm_with(source.as_bytes(), &[0; 8]), Err(TransformError::MissingCodeStart));
    assert_eq!(process_asm(source.as_bytes()), Err(TransformError::MissingCodeStart));
    assert_eq!(process_asm_with(b"", &[]), Err(TransformError::MissingCodeStart));
    assert!(matches!(Program::parse(source.as_bytes()), Err(TransformError::MissingCodeStart)));
    // A space in place of the tab does not open the code section.
    assert_eq!(
        process_asm_with(b".section .text\nret\n.section .data\n", &[0]),
        Err(TransformError::MissingCodeStart)
    );
}

#[test]
fn a_missing_end_marker_is_an_error() {
    let source = ".section .data\n.section\t.text\nf:\n\tret\n";
    assert_eq!(process_asm_with(source.as_bytes(), &[0; 8]), Err(TransformError::MissingCodeEnd));
    assert_eq!(process_asm(source.as_bytes()), Err(TransformError::MissingCodeEnd));
    assert!(matches!(Program::parse(source.as_bytes()), Err(TransformError::MissingCodeEnd)));
}

#[test]
fn too_few_displacements_is_an_error() {
    assert_eq!(
        process_asm_with(SOURCE.as_bytes(), &[5]),
        Err(TransformError::TooFewDisplacements)
    );
    assert_eq!(process_asm_with(SOURCE.as_bytes(), &[]), Err(TransformError::TooFewDisplacements));
    // Displacements beyond the last instruction are not used.
    assert_eq!(
        process_asm_with(SOURCE.as_bytes(), &[5, -7, 99]),
        process_asm_with(SOURCE.as_bytes(), &[5, -7])
    );
}

#[test]
fn a_parsed_program_knows_its_code_section() {
    let program = match Program::parse(SOURCE.as_bytes()) {
        Ok(program) => program,
        Err(e) => panic!("{:?}", e),
    };
    assert_eq!(program.start, 1);
    assert_eq!(program.end, 6);
    assert_eq!(program.lines.len(), 8);
    assert_eq!(program.instruction_count(), 2);
    assert_eq!(program.count(LineKind::Label), 1);
    assert_eq!(program.count(LineKind::Directive), 1);
    assert_eq!(program.emit(&[5, -7]), process_asm_with(SOURCE.as_bytes(), &[5, -7]));
    assert_eq!(program.emit(&[5]), Err(TransformError::TooFewDisplacements));
}

#[test]
fn random_displacements_are_signed_bytes_below_the_maximum() {
    let mut seen = std::collections::BTreeSet::new();
    for _ in 0..200 {
        let out = process_asm(SOURCE.as_bytes()).unwrap();
        let out_lines = lines(&out);
        let drawn: Vec<i8> = out_lines.iter().filter_map(|l| displacement_of(l)).collect();
        assert_eq!(drawn.len(), 2);
        for d in &drawn {
            assert!(*d < i8::MAX);
            seen.insert(*d);
        }
        // The output is what the given displacements would have produced.
        assert_eq!(process_asm_with(SOURCE.as_bytes(), &drawn), Ok(out));
    }
    // Four hundred draws from 255 values do not all coincide.
    assert!(seen.len() > 1);
}

#[test]
fn kinds_of_lines() {
    assert_eq!(classify_line(b"f:"), LineKind::Label);
    assert_eq!(classify_line(b".Ltmp0:"), LineKind::Label);
    assert_eq!(classify_line(b":"), LineKind::Label);
    assert_eq!(classify_line(b".globl f"), LineKind::Directive);
    assert_eq!(classify_line(b"."), LineKind::Directive);
    assert_eq!(classify_line(b"mov eax, 1"), LineKind::Instruction);
    assert_eq!(classify_line(b"ret"), LineKind::Instruction);
    assert_eq!(classify_line(b""), LineKind::Instruction);
    assert_eq!(classify_line(b"# note"), LineKind::Instruction);
}

#[test]
fn a_label_that_begins_like_a_return_stays_a_label() {
    let source = ".section\t.text\nretry:\nretq\n.section x\n";
    let out = process_asm_with(source.as_bytes(), &[-128]).unwrap();
    assert_eq!(
        String::from_utf8(out).unwrap(),
        ".section\t.text\n.align 16\nretry:\n.align 16\n.word 0x0B0F\njmp [rip + -128]\n.section x\n"
    );
}

#[test]
fn metadata_lines() {
    assert!(is_noise_line(b".seh_proc f"));
    assert!(is_noise_line(b".seh"));
    assert!(is_noise_line(b".Lcfi12:"));
    assert!(!is_noise_line(b".se"));
    assert!(!is_noise_line(b".LCFI12:"));
    assert!(!is_noise_line(b" .seh_proc"));
    assert!(!is_noise_line(b""));
}

#[test]
fn decoy_jumps() {
    assert_eq!(decoy_jump_line(0), b"jmp [rip + 0]".to_vec());
    assert_eq!(decoy_jump_line(7), b"jmp [rip + 7]".to_vec());
    assert_eq!(decoy_jump_line(42), b"jmp [rip + 42]".to_vec());
    assert_eq!(decoy_jump_line(126), b"jmp [rip + 126]".to_vec());
    assert_eq!(decoy_jump_line(127), b"jmp [rip + 127]".to_vec());
    assert_eq!(decoy_jump_line(-1), b"jmp [rip + -1]".to_vec());
    assert_eq!(decoy_jump_line(-100), b"jmp [rip + -100]".to_vec());
    assert_eq!(decoy_jump_line(-128), b"jmp [rip + -128]".to_vec());
    for d in i8::MIN..=i8::MAX {
        assert_eq!(decoy_jump_line(d), format!("jmp [rip + {}]", d).into_bytes());
    }
}

#[test]
fn decimal_numbers() {
    for d in i8::MIN..=i8::MAX {
        let mut out = b"x=".to_vec();
        push_decimal(&mut out, d);
        assert_eq!(out, format!("x={}", d).into_bytes());
    }
}

#[test]
fn splitting_and_joining() {
    assert_eq!(split_lines(b""), vec![Vec::<u8>::new()]);
    assert_eq!(split_lines(b"a"), vec![b"a".to_vec()]);
    assert_eq!(split_lines(b"a\n"), vec![b"a".to_vec(), vec![]]);
    assert_eq!(split_lines(b"\n"), vec![Vec::<u8>::new(), vec![]]);
    assert_eq!(split_lines(b"a\n\nb c\r\nd"), vec![
        b"a".to_vec(),
        vec![],
        b"b c\r".to_vec(),
        b"d".to_vec()
    ]);
    assert_eq!(join_lines(&vec![]), Vec::<u8>::new());
    assert_eq!(join_lines(&vec![b"a".to_vec()]), b"a".to_vec());
    assert_eq!(join_lines(&vec![b"a".to_vec(), vec![], b"b".to_vec()]), b"a\n\nb".to_vec());
    for text in ["", "\n", "a\nb", "\n\na\n", "no newline", "x\n\n\n"] {
        assert_eq!(join_lines(&split_lines(text.as_bytes())), text.as_bytes().to_vec());
        let std_lines: Vec<Vec<u8>> = text.split('\n').map(|l| l.as_bytes().to_vec()).collect();
        assert_eq!(split_lines(text.as_bytes()), std_lines);
    }
}

#[test]
fn trimming() {
    assert_eq!(trim(b"  a b \t\r"), b"a b");
    assert_eq!(trim(b"\x0b\x0c a"), b"a");
    assert_eq!(trim(b"a"), b"a");
    assert_eq!(trim(b""), b"");
    assert_eq!(trim(b" \t \n "), b"");
    assert_eq!(trim(b"\x08a\x0e"), b"\x08a\x0e");
    for b in 0..=255u8 {
        let ascii_space = (b as char).is_whitespace() && b < 0x80;
        assert_eq!(is_space_byte(b), ascii_space, "byte {}", b);
    }
}

#[test]
fn trimming_agrees_with_the_standard_library() {
    let spaces: Vec<char> =
        (0..=0xFFFFu32).filter_map(char::from_u32).filter(|c| c.is_whitespace()).collect();
    assert_eq!(spaces.len(), 25);
    for &c in &spaces {
        for &d in &spaces {
            let text = format!("{}{}mov\u{a0}eax, 1{}{}", c, d, d, c);
            assert_eq!(trim(text.as_bytes()), text.trim().as_bytes());
            assert_eq!(trim(text.as_bytes()), "mov\u{a0}eax, 1".as_bytes());
        }
    }
    for c in (0..=0xFFFFu32).filter_map(char::from_u32) {
        let text = format!("{}a{}", c, c);
        assert_eq!(trim(text.as_bytes()), text.trim().as_bytes(), "U+{:04X}", c as u32);
    }
    assert_eq!(trim("\u{3000}\u{2003} \u{85}".as_bytes()), b"");
}

#[test]
fn prefixes_and_copies() {
    assert!(starts_with(b".section\t.text,\"xr\"", b".section\t.text"));
    assert!(starts_with(b"abc", b""));
    assert!(starts_with(b"abc", b"abc"));
    assert!(!starts_with(b"ab", b"abc"));
    assert!(!starts_with(b"abd", b"abc"));
    assert!(starts_with(b"", b""));
    let mut out = b"ab".to_vec();
    append(&mut out, b"cd");
    append(&mut out, b"");
    assert_eq!(out, b"abcd".to_vec());
    assert_eq!(copy_of(b"xyz"), b"xyz".to_vec());
}
