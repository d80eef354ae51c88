//! What the rewriting adds to a text: how many alignment directives and
//! decoy jumps the output holds, and that it holds no metadata.

use vstd::prelude::*;
use vstd::string::StringSliceAdditionalSpecFns;
use vstd::string::is_ascii;
use vstd::string::is_ascii_spec_bytes;
use crate::gate::leave_directive;
use crate::gate::lemma_leave_directive_text;
use crate::text::NEWLINE;
use crate::text::all_newline_free;
use crate::text::digits;
use crate::text::has_prefix;
use crate::text::lemma_lines_newline_free;
use crate::text::lemma_split_join;
use crate::text::lemma_trimmed_is_subrange;
use crate::text::lines_of;
use crate::text::newline_free;
use crate::text::trimmed;
use crate::transformer::LineKind;
use crate::transformer::TransformError;
use crate::transformer::align_directive;
use crate::transformer::code_of;
use crate::transformer::code_start_marker;
use crate::transformer::decoy_jump;
use crate::transformer::decoy_prefix;
use crate::transformer::emitted_lines;
use crate::transformer::frame_prefix;
use crate::transformer::instruction_count;
use crate::transformer::is_noise;
use crate::transformer::is_return;
use crate::transformer::kept_lines;
use crate::transformer::kept_of;
use crate::transformer::kind_of;
use crate::transformer::label_count;
use crate::transformer::lemma_first_with_prefix;
use crate::transformer::return_mnemonic;
use crate::transformer::rewritten_code;
use crate::transformer::rewritten_line;
use crate::transformer::section_end;
use crate::transformer::section_marker;
use crate::transformer::section_start;
use crate::transformer::transformed;
use crate::transformer::unwind_prefix;

verus! {

/// The two shapes of line that the rewriting adds to a code section.
#[derive(Clone, Copy, Debug, PartialEq, Eq, Structural)]
pub enum Shape {
    /// The alignment directive.
    Alignment,
    /// A jump relative to the instruction pointer, as the decoys are.
    DecoyJump,
}

/// Whether `line` has the shape `shape`.
pub open spec fn has_shape(line: Seq<u8>, shape: Shape) -> bool {
    match shape {
        Shape::Alignment => line == align_directive(),
        Shape::DecoyJump => has_prefix(line, decoy_prefix()),
    }
}

/// Number of lines of shape `shape`.
pub open spec fn shape_count(lines: Seq<Seq<u8>>, shape: Shape) -> nat
    decreases lines.len(),
{
    if lines.len() == 0 {
        0
    } else {
        shape_count(lines.drop_last(), shape) + (if has_shape(lines.last(), shape) {
            1nat
        } else {
            0nat
        })
    }
}

/// Whether none of `lines` is unwind or frame metadata.
pub open spec fn noise_free(lines: Seq<Seq<u8>>) -> bool {
    forall|i: int| 0 <= i < lines.len() ==> !is_noise(#[trigger] lines[i])
}

proof fn lemma_literals()
    ensures
        align_directive().len() == 9 && align_directive()[0] == 0x2E && align_directive()[1]
            == 0x61,
        leave_directive().len() == 12 && leave_directive()[0] == 0x2E && leave_directive()[1]
            == 0x77,
        decoy_prefix().len() == 11 && decoy_prefix()[0] == 0x6A,
        return_mnemonic().len() == 3 && return_mnemonic()[0] == 0x72,
        unwind_prefix().len() == 4 && unwind_prefix()[0] == 0x2E && unwind_prefix()[1] == 0x73,
        frame_prefix().len() == 5 && frame_prefix()[0] == 0x2E && frame_prefix()[1] == 0x4C,
        "]".spec_bytes().len() == 1 && "]".spec_bytes()[0] == 0x5D,
        newline_free(align_directive()),
        newline_free(leave_directive()),
        newline_free(decoy_prefix()),
{
    lemma_leave_directive_text();
    reveal_strlit(".align 16");
    reveal_strlit(".word 0x0B0F");
    reveal_strlit("jmp [rip + ");
    reveal_strlit("ret");
    reveal_strlit(".seh");
    reveal_strlit(".Lcfi");
    reveal_strlit("]");
    assert(is_ascii(".align 16"));
    assert(is_ascii(".word 0x0B0F"));
    assert(is_ascii("jmp [rip + "));
    assert(is_ascii("ret"));
    assert(is_ascii(".seh"));
    assert(is_ascii(".Lcfi"));
    assert(is_ascii("]"));
    is_ascii_spec_bytes(".align 16");
    is_ascii_spec_bytes(".word 0x0B0F");
    is_ascii_spec_bytes("jmp [rip + ");
    is_ascii_spec_bytes("ret");
    is_ascii_spec_bytes(".seh");
    is_ascii_spec_bytes(".Lcfi");
    is_ascii_spec_bytes("]");
}

proof fn lemma_prefix_byte(line: Seq<u8>, prefix: Seq<u8>, i: int)
    requires
        has_prefix(line, prefix),
        0 <= i < prefix.len(),
    ensures
        line[i] == prefix[i],
{
    assert(line.subrange(0, prefix.len() as int)[i] == line[i]);
}

proof fn lemma_digits_newline_free(n: nat)
    ensures
        newline_free(digits(n)),
    decreases n,
{
    if n >= 10 {
        lemma_digits_newline_free(n / 10);
    }
}

/// What is known of a decoy jump: it has the decoy shape, it is no
/// alignment directive and no metadata, and it holds no line feed.
proof fn lemma_decoy_jump(d: i8)
    ensures
        has_shape(decoy_jump(d), Shape::DecoyJump),
        !has_shape(decoy_jump(d), Shape::Alignment),
        !is_noise(decoy_jump(d)),
        newline_free(decoy_jump(d)),
{
    lemma_literals();
    let line = decoy_jump(d);
    assert(line.subrange(0, decoy_prefix().len() as int) =~= decoy_prefix());
    assert(line[0] == 0x6A);
    if has_prefix(line, unwind_prefix()) {
        lemma_prefix_byte(line, unwind_prefix(), 0);
    }
    if has_prefix(line, frame_prefix()) {
        lemma_prefix_byte(line, frame_prefix(), 0);
    }
    lemma_digits_newline_free((if d < 0 { -(d as int) } else { d as int }) as nat);
}

/// What is known of the two directives that the rewriting writes.
proof fn lemma_directives()
    ensures
        !has_shape(align_directive(), Shape::DecoyJump),
        !is_noise(align_directive()),
        !has_shape(leave_directive(), Shape::Alignment),
        !has_shape(leave_directive(), Shape::DecoyJump),
        !is_noise(leave_directive()),
{
    lemma_literals();
    let a = align_directive();
    let l = leave_directive();
    if has_prefix(a, decoy_prefix()) {
        lemma_prefix_byte(a, decoy_prefix(), 0);
    }
    if has_prefix(a, unwind_prefix()) {
        lemma_prefix_byte(a, unwind_prefix(), 1);
    }
    if has_prefix(a, frame_prefix()) {
        lemma_prefix_byte(a, frame_prefix(), 1);
    }
    if has_prefix(l, decoy_prefix()) {
        lemma_prefix_byte(l, decoy_prefix(), 0);
    }
    if has_prefix(l, unwind_prefix()) {
        lemma_prefix_byte(l, unwind_prefix(), 1);
    }
    if has_prefix(l, frame_prefix()) {
        lemma_prefix_byte(l, frame_prefix(), 1);
    }
}

proof fn lemma_shape_count_single(line: Seq<u8>, shape: Shape)
    ensures
        shape_count(seq![line], shape) == (if has_shape(line, shape) { 1nat } else { 0nat }),
{
    reveal_with_fuel(shape_count, 2);
    assert(seq![line].drop_last() =~= Seq::<Seq<u8>>::empty());
}

/// Counting shapes over two runs of lines is counting over each.
pub proof fn lemma_shape_count_add(a: Seq<Seq<u8>>, b: Seq<Seq<u8>>, shape: Shape)
    ensures
        shape_count(a + b, shape) == shape_count(a, shape) + shape_count(b, shape),
    decreases b.len(),
{
    if b.len() == 0 {
        assert(a + b =~= a);
    } else {
        lemma_shape_count_add(a, b.drop_last(), shape);
        assert((a + b).drop_last() =~= a + b.drop_last());
    }
}

/// The rewriting of one line adds one alignment directive to a label or an
/// instruction, one decoy jump to an instruction, and nothing else of
/// either shape; it adds no metadata and no line feed.
pub proof fn lemma_rewritten_line(line: Seq<u8>, d: i8)
    ensures
        shape_count(rewritten_line(line, d), Shape::Alignment) == (if has_shape(
            line,
            Shape::Alignment,
        ) { 1nat } else { 0nat }) + (if kind_of(line) == LineKind::Directive { 0nat } else { 1nat }),
        shape_count(rewritten_line(line, d), Shape::DecoyJump) == (if has_shape(
            line,
            Shape::DecoyJump,
        ) { 1nat } else { 0nat }) + (if kind_of(line) == LineKind::Instruction {
            1nat
        } else {
            0nat
        }),
        !is_noise(line) ==> noise_free(rewritten_line(line, d)),
        newline_free(line) ==> all_newline_free(rewritten_line(line, d)),
{
    lemma_literals();
    lemma_directives();
    lemma_decoy_jump(d);
    let align = align_directive();
    let jump = decoy_jump(d);
    lemma_shape_count_single(line, Shape::Alignment);
    lemma_shape_count_single(line, Shape::DecoyJump);
    lemma_shape_count_single(align, Shape::Alignment);
    lemma_shape_count_single(align, Shape::DecoyJump);
    lemma_shape_count_single(jump, Shape::Alignment);
    lemma_shape_count_single(jump, Shape::DecoyJump);
    match kind_of(line) {
        LineKind::Label => {
            assert(seq![align, line] =~= seq![align] + seq![line]);
            lemma_shape_count_add(seq![align], seq![line], Shape::Alignment);
            lemma_shape_count_add(seq![align], seq![line], Shape::DecoyJump);
        },
        LineKind::Directive => {},
        LineKind::Instruction => {
            let body = if is_return(line) {
                leave_directive()
            } else {
                line
            };
            if is_return(line) {
                lemma_prefix_byte(line, return_mnemonic(), 0);
                if has_prefix(line, decoy_prefix()) {
                    lemma_prefix_byte(line, decoy_prefix(), 0);
                }
            }
            assert(has_shape(body, Shape::Alignment) == has_shape(line, Shape::Alignment));
            assert(has_shape(body, Shape::DecoyJump) == has_shape(line, Shape::DecoyJump));
            assert(seq![align, body, jump] =~= seq![align] + seq![body] + seq![jump]);
            lemma_shape_count_single(body, Shape::Alignment);
            lemma_shape_count_single(body, Shape::DecoyJump);
            lemma_shape_count_add(seq![align], seq![body], Shape::Alignment);
            lemma_shape_count_add(seq![align], seq![body], Shape::DecoyJump);
            lemma_shape_count_add(seq![align] + seq![body], seq![jump], Shape::Alignment);
            lemma_shape_count_add(seq![align] + seq![body], seq![jump], Shape::DecoyJump);
        },
    }
}

/// The rewriting of a code section with `N` instructions and `M` labels
/// adds `N + M` alignment directives and `N` decoy jumps, and nothing else
/// of either shape; it adds no metadata and no line feed.
pub proof fn lemma_rewritten_code(code: Seq<Seq<u8>>, displacements: Seq<i8>)
    ensures
        shape_count(rewritten_code(code, displacements), Shape::Alignment) == shape_count(
            code,
            Shape::Alignment,
        ) + instruction_count(code) + label_count(code),
        shape_count(rewritten_code(code, displacements), Shape::DecoyJump) == shape_count(
            code,
            Shape::DecoyJump,
        ) + instruction_count(code),
        noise_free(code) ==> noise_free(rewritten_code(code, displacements)),
        all_newline_free(code) ==> all_newline_free(rewritten_code(code, displacements)),
    decreases code.len(),
{
    if code.len() > 0 {
        let front = code.drop_last();
        let d = displacements[instruction_count(front) as int];
        lemma_rewritten_code(front, displacements);
        lemma_rewritten_line(code.last(), d);
        lemma_shape_count_add(
            rewritten_code(front, displacements),
            rewritten_line(code.last(), d),
            Shape::Alignment,
        );
        lemma_shape_count_add(
            rewritten_code(front, displacements),
            rewritten_line(code.last(), d),
            Shape::DecoyJump,
        );
        if noise_free(code) {
            assert forall|i: int| 0 <= i < front.len() implies !is_noise(#[trigger] front[i]) by {
                assert(front[i] == code[i]);
            }
            assert(!is_noise(code[code.len() - 1]));
        }
        if all_newline_free(code) {
            assert forall|i: int| 0 <= i < front.len() implies newline_free(
                #[trigger] front[i],
            ) by {
                assert(front[i] == code[i]);
            }
            assert(newline_free(code[code.len() - 1]));
        }
    }
}

/// The kept lines hold no metadata, and no line feed when the raw lines
/// hold none.
pub proof fn lemma_kept_of(raw: Seq<Seq<u8>>)
    ensures
        noise_free(kept_of(raw)),
        all_newline_free(raw) ==> all_newline_free(kept_of(raw)),
    decreases raw.len(),
{
    if raw.len() > 0 {
        let front = raw.drop_last();
        lemma_kept_of(front);
        if all_newline_free(raw) {
            assert forall|i: int| 0 <= i < front.len() implies newline_free(
                #[trigger] front[i],
            ) by {
                assert(front[i] == raw[i]);
            }
            let last = raw[raw.len() - 1];
            assert(newline_free(last));
            lemma_trimmed_is_subrange(last);
            let (a, b) = choose|a: int, b: int|
                0 <= a <= b <= last.len() && trimmed(last) == #[trigger] last.subrange(a, b);
            assert forall|i: int| 0 <= i < trimmed(last).len() implies #[trigger] trimmed(
                last,
            )[i] != NEWLINE by {
                assert(trimmed(last)[i] == last[a + i]);
            }
        }
    }
}

/// The shape of the output. When the transformer succeeds on a text whose
/// code section has `N` instructions and `M` labels, the lines of its
/// output are the kept lines with the code section rewritten; they hold
/// `N + M` alignment directives and `N` decoy jumps more than the kept
/// lines did, and no unwind or frame metadata.
pub proof fn lemma_transform_shape(text: Seq<u8>, displacements: Seq<i8>, out: Seq<u8>)
    requires
        transformed(text, displacements) == Ok::<Seq<u8>, TransformError>(out),
    ensures
        lines_of(out) == emitted_lines(kept_lines(text), displacements),
        shape_count(lines_of(out), Shape::Alignment) == shape_count(
            kept_lines(text),
            Shape::Alignment,
        ) + instruction_count(code_of(kept_lines(text))) + label_count(code_of(kept_lines(text))),
        shape_count(lines_of(out), Shape::DecoyJump) == shape_count(
            kept_lines(text),
            Shape::DecoyJump,
        ) + instruction_count(code_of(kept_lines(text))),
        noise_free(lines_of(out)),
{
    let lines = kept_lines(text);
    let start = section_start(lines);
    let end = section_end(lines);
    let head = lines.take(start + 1);
    let code = code_of(lines);
    let tail = lines.skip(end);
    let body = rewritten_code(code, displacements);
    let emitted = emitted_lines(lines, displacements);
    lemma_first_with_prefix(lines, code_start_marker(), 0);
    lemma_first_with_prefix(lines, section_marker(), start + 1);
    lemma_lines_newline_free(text);
    lemma_kept_of(lines_of(text));
    assert(lines =~= head + code + tail);
    assert(noise_free(code) && all_newline_free(code)) by {
        assert forall|i: int| 0 <= i < code.len() implies !is_noise(#[trigger] code[i])
            && newline_free(code[i]) by {
            assert(code[i] == lines[start + 1 + i]);
        }
    }
    lemma_rewritten_code(code, displacements);
    assert(noise_free(emitted) && all_newline_free(emitted)) by {
        assert forall|i: int| 0 <= i < emitted.len() implies !is_noise(#[trigger] emitted[i])
            && newline_free(emitted[i]) by {
            if i < head.len() {
                assert(emitted[i] == lines[i]);
            } else if i < head.len() + body.len() {
                assert(emitted[i] == body[i - head.len()]);
            } else {
                assert(emitted[i] == lines[end + (i - head.len() - body.len())]);
            }
        }
    }
    lemma_split_join(emitted);
    lemma_shape_count_add(head, code, Shape::Alignment);
    lemma_shape_count_add(head + code, tail, Shape::Alignment);
    lemma_shape_count_add(head, body, Shape::Alignment);
    lemma_shape_count_add(head + body, tail, Shape::Alignment);
    lemma_shape_count_add(head, code, Shape::DecoyJump);
    lemma_shape_count_add(head + code, tail, Shape::DecoyJump);
    lemma_shape_count_add(head, body, Shape::DecoyJump);
    lemma_shape_count_add(head + body, tail, Shape::DecoyJump);
}

/// A text in which no kept line opens the code section is refused, whatever
/// the displacements.
pub proof fn lemma_missing_start_fails(text: Seq<u8>, displacements: Seq<i8>)
    requires
        forall|i: int|
            0 <= i < kept_lines(text).len() ==> !has_prefix(
                #[trigger] kept_lines(text)[i],
                code_start_marker(),
            ),
    ensures
        transformed(text, displacements) == Err::<Seq<u8>, TransformError>(
            TransformError::MissingCodeStart,
        ),
{
    lemma_first_with_prefix(kept_lines(text), code_start_marker(), 0);
}

/// A text in which no section marker follows the line that opens the code
/// section is refused, whatever the displacements.
pub proof fn lemma_missing_end_fails(text: Seq<u8>, displacements: Seq<i8>, start: int)
    requires
        0 <= start < kept_lines(text).len(),
        start == section_start(kept_lines(text)),
        forall|i: int|
            start < i < kept_lines(text).len() ==> !has_prefix(
                #[trigger] kept_lines(text)[i],
                section_marker(),
            ),
    ensures
        transformed(text, displacements) == Err::<Seq<u8>, TransformError>(
            TransformError::MissingCodeEnd,
        ),
{
    lemma_first_with_prefix(kept_lines(text), section_marker(), start + 1);
}

} // verus!
