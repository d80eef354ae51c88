//! The assembly transformer: rewrites the code section of one routine so
//! that every instruction sits on its own aligned slot, every return
//! becomes the LEAVE gate, and every instruction is followed by a decoy
//! jump.

use vstd::prelude::*;
use vstd::string::StringSliceAdditionalSpecFns;
use crate::gate::leave_directive;
use crate::gate::leave_directive_line;
use crate::random::random_displacement;
use crate::text::append;
use crate::text::copy_of;
use crate::text::decimal;
use crate::text::has_prefix;
use crate::text::join_lines;
use crate::text::joined;
use crate::text::lines_of;
use crate::text::push_decimal;
use crate::text::split_lines;
use crate::text::starts_with;
use crate::text::trim;
use crate::text::trimmed;
use crate::text::views;

verus! {

/// What a line of the code section is.
#[derive(Clone, Copy, Debug, PartialEq, Eq, Structural)]
pub enum LineKind {
    /// Ends with a colon.
    Label,
    /// Begins with a dot and is no label.
    Directive,
    /// Anything else.
    Instruction,
}

/// Why a text cannot be transformed.
#[derive(Clone, Copy, Debug, PartialEq, Eq, Structural)]
pub enum TransformError {
    /// No line opens the code section.
    MissingCodeStart,
    /// No section marker follows the line that opens the code section.
    MissingCodeEnd,
    /// There are more instructions than displacements.
    TooFewDisplacements,
}

/// The text of one translation unit, cut into lines, with its code section
/// located.
pub struct Program {
    /// The lines, trimmed, without unwind and frame metadata.
    pub lines: Vec<Vec<u8>>,
    /// Index of the line that opens the code section.
    pub start: usize,
    /// Index of the section marker that closes it.
    pub end: usize,
}

/// The prefix of the line that opens the code section.
pub open spec fn code_start_marker() -> Seq<u8> {
    ".section\t.text".spec_bytes()
}

/// The prefix of any line that opens a section.
pub open spec fn section_marker() -> Seq<u8> {
    ".section".spec_bytes()
}

/// The prefix of unwind directives.
pub open spec fn unwind_prefix() -> Seq<u8> {
    ".seh".spec_bytes()
}

/// The prefix of call-frame labels.
pub open spec fn frame_prefix() -> Seq<u8> {
    ".Lcfi".spec_bytes()
}

/// The prefix of a return instruction.
pub open spec fn return_mnemonic() -> Seq<u8> {
    "ret".spec_bytes()
}

/// The directive that forces a sixteen-byte boundary.
pub open spec fn align_directive() -> Seq<u8> {
    ".align 16".spec_bytes()
}

/// The text before the displacement of a decoy jump.
pub open spec fn decoy_prefix() -> Seq<u8> {
    "jmp [rip + ".spec_bytes()
}

/// The decoy jump with displacement `d`.
pub open spec fn decoy_jump(d: i8) -> Seq<u8> {
    decoy_prefix() + decimal(d as int) + "]".spec_bytes()
}

/// Unwind and frame metadata: dropped before anything else is looked at.
pub open spec fn is_noise(line: Seq<u8>) -> bool {
    has_prefix(line, unwind_prefix()) || has_prefix(line, frame_prefix())
}

/// The trimmed lines that are no metadata, in their order.
pub open spec fn kept_of(raw: Seq<Seq<u8>>) -> Seq<Seq<u8>>
    decreases raw.len(),
{
    if raw.len() == 0 {
        Seq::empty()
    } else {
        let line = trimmed(raw.last());
        if is_noise(line) {
            kept_of(raw.drop_last())
        } else {
            kept_of(raw.drop_last()).push(line)
        }
    }
}

/// The lines of `text` that the transformer works on.
pub open spec fn kept_lines(text: Seq<u8>) -> Seq<Seq<u8>> {
    kept_of(lines_of(text))
}

/// Index of the first line at or after `from` that begins with `prefix`;
/// the number of lines if there is none.
pub open spec fn first_with_prefix(lines: Seq<Seq<u8>>, prefix: Seq<u8>, from: int) -> int
    decreases lines.len() - from,
{
    if from < 0 || from >= lines.len() {
        lines.len() as int
    } else if has_prefix(lines[from], prefix) {
        from
    } else {
        first_with_prefix(lines, prefix, from + 1)
    }
}

/// Index of the line that opens the code section.
pub open spec fn section_start(lines: Seq<Seq<u8>>) -> int {
    first_with_prefix(lines, code_start_marker(), 0)
}

/// Index of the first section marker after the line that opens the code
/// section.
pub open spec fn section_end(lines: Seq<Seq<u8>>) -> int {
    first_with_prefix(lines, section_marker(), section_start(lines) + 1)
}

/// The error, if any, that the search for the code section ends in.
pub open spec fn section_error(lines: Seq<Seq<u8>>) -> Option<TransformError> {
    if section_start(lines) >= lines.len() {
        Some(TransformError::MissingCodeStart)
    } else if section_end(lines) >= lines.len() {
        Some(TransformError::MissingCodeEnd)
    } else {
        None
    }
}

/// The lines strictly between the two markers.
pub open spec fn code_of(lines: Seq<Seq<u8>>) -> Seq<Seq<u8>> {
    lines.subrange(section_start(lines) + 1, section_end(lines))
}

/// The kind of a line, decided on its text before any rewriting.
pub open spec fn kind_of(line: Seq<u8>) -> LineKind {
    if line.len() > 0 && line.last() == 0x3A {
        LineKind::Label
    } else if line.len() > 0 && line[0] == 0x2E {
        LineKind::Directive
    } else {
        LineKind::Instruction
    }
}

/// Whether an instruction is a return.
pub open spec fn is_return(line: Seq<u8>) -> bool {
    has_prefix(line, return_mnemonic())
}

/// Number of lines of kind `kind`.
pub open spec fn kind_count(code: Seq<Seq<u8>>, kind: LineKind) -> nat
    decreases code.len(),
{
    if code.len() == 0 {
        0
    } else {
        kind_count(code.drop_last(), kind) + (if kind_of(code.last()) == kind { 1nat } else { 0nat })
    }
}

/// Number of instructions.
pub open spec fn instruction_count(code: Seq<Seq<u8>>) -> nat {
    kind_count(code, LineKind::Instruction)
}

/// Number of labels.
pub open spec fn label_count(code: Seq<Seq<u8>>) -> nat {
    kind_count(code, LineKind::Label)
}

/// What one line of the code section becomes. A label is aligned. A
/// directive stays as it is. An instruction is aligned, turned into the
/// LEAVE directive if it is a return, and followed by a decoy jump.
pub open spec fn rewritten_line(line: Seq<u8>, displacement: i8) -> Seq<Seq<u8>> {
    match kind_of(line) {
        LineKind::Label => seq![align_directive(), line],
        LineKind::Directive => seq![line],
        LineKind::Instruction => seq![
            align_directive(),
            if is_return(line) { leave_directive() } else { line },
            decoy_jump(displacement),
        ],
    }
}

/// What the code section becomes: its lines rewritten in their order, the
/// `k`-th instruction taking the `k`-th displacement.
pub open spec fn rewritten_code(code: Seq<Seq<u8>>, displacements: Seq<i8>) -> Seq<Seq<u8>>
    decreases code.len(),
{
    if code.len() == 0 {
        Seq::empty()
    } else {
        rewritten_code(code.drop_last(), displacements) + rewritten_line(
            code.last(),
            displacements[instruction_count(code.drop_last()) as int],
        )
    }
}

/// The lines of the output: the kept lines, with the rewritten code
/// section where the code section was.
pub open spec fn emitted_lines(lines: Seq<Seq<u8>>, displacements: Seq<i8>) -> Seq<Seq<u8>> {
    lines.take(section_start(lines) + 1) + rewritten_code(code_of(lines), displacements)
        + lines.skip(section_end(lines))
}

/// The transformer as a function of the text and the displacements.
pub open spec fn transformed(text: Seq<u8>, displacements: Seq<i8>) -> Result<
    Seq<u8>,
    TransformError,
> {
    let lines = kept_lines(text);
    match section_error(lines) {
        Some(e) => Err(e),
        None => if displacements.len() < instruction_count(code_of(lines)) {
            Err(TransformError::TooFewDisplacements)
        } else {
            Ok(joined(emitted_lines(lines, displacements)))
        },
    }
}

/// Every displacement is one that the random source can give.
pub open spec fn drawable(displacements: Seq<i8>) -> bool {
    forall|i: int| 0 <= i < displacements.len() ==> #[trigger] displacements[i] < i8::MAX
}

/// Tells whether `line` is unwind or frame metadata.
pub fn is_noise_line(line: &[u8]) -> (yes: bool)
    ensures
        yes == is_noise(line@),
{
    starts_with(line, ".seh".as_bytes()) || starts_with(line, ".Lcfi".as_bytes())
}

/// Tells what kind of line `line` is.
pub fn classify_line(line: &[u8]) -> (kind: LineKind)
    ensures
        kind == kind_of(line@),
{
    if line.len() > 0 && line[line.len() - 1] == 0x3A {
        LineKind::Label
    } else if line.len() > 0 && line[0] == 0x2E {
        LineKind::Directive
    } else {
        LineKind::Instruction
    }
}

/// Builds the decoy jump with displacement `d`.
pub fn decoy_jump_line(d: i8) -> (line: Vec<u8>)
    ensures
        line@ == decoy_jump(d),
{
    let mut line: Vec<u8> = copy_of("jmp [rip + ".as_bytes());
    push_decimal(&mut line, d);
    append(&mut line, "]".as_bytes());
    line
}

/// Appends to `out` what `line` becomes.
fn push_rewritten(out: &mut Vec<Vec<u8>>, line: &[u8], displacement: i8)
    ensures
        views(final(out)@) == views(old(out)@) + rewritten_line(line@, displacement),
{
    let ghost before = views(out@);
    match classify_line(line) {
        LineKind::Label => {
            out.push(copy_of(".align 16".as_bytes()));
            out.push(copy_of(line));
        },
        LineKind::Directive => {
            out.push(copy_of(line));
        },
        LineKind::Instruction => {
            out.push(copy_of(".align 16".as_bytes()));
            if starts_with(line, "ret".as_bytes()) {
                out.push(leave_directive_line());
            } else {
                out.push(copy_of(line));
            }
            out.push(decoy_jump_line(displacement));
        },
    }
    assert(views(out@) =~= before + rewritten_line(line@, displacement));
}

/// Index of the first line at or after `from` that begins with `prefix`;
/// the number of lines if there is none.
fn find_prefixed(lines: &Vec<Vec<u8>>, prefix: &[u8], from: usize) -> (at: usize)
    ensures
        at == first_with_prefix(views(lines@), prefix@, from as int),
        at <= lines.len(),
{
    let mut i: usize = from;
    while i < lines.len()
        invariant
            from <= i,
            first_with_prefix(views(lines@), prefix@, from as int) == first_with_prefix(
                views(lines@),
                prefix@,
                i as int,
            ),
        decreases lines.len() - i,
    {
        if starts_with(lines[i].as_slice(), prefix) {
            return i;
        }
        i += 1;
    }
    lines.len()
}

/// Cuts `source` into lines, trims them and drops the metadata.
fn keep_lines(source: &[u8]) -> (kept: Vec<Vec<u8>>)
    ensures
        views(kept@) == kept_lines(source@),
{
    let raw = split_lines(source);
    let mut kept: Vec<Vec<u8>> = Vec::new();
    let mut i: usize = 0;
    while i < raw.len()
        invariant
            i <= raw.len(),
            views(kept@) == kept_of(views(raw@).take(i as int)),
        decreases raw.len() - i,
    {
        let ghost all = views(raw@);
        let ghost before = views(kept@);
        assert(all.take(i + 1).drop_last() =~= all.take(i as int));
        assert(all.take(i + 1).last() == raw@[i as int]@);
        let line = trim(raw[i].as_slice());
        if !is_noise_line(line) {
            kept.push(copy_of(line));
            assert(views(kept@) =~= before.push(line@));
        }
        i += 1;
    }
    assert(views(raw@).take(i as int) =~= views(raw@));
    kept
}

/// The count of a kind over a prefix of the code never exceeds the count
/// over the whole.
pub proof fn lemma_kind_count_prefix(code: Seq<Seq<u8>>, kind: LineKind, k: int)
    requires
        0 <= k <= code.len(),
    ensures
        kind_count(code.take(k), kind) <= kind_count(code, kind),
        kind_count(code, kind) <= code.len(),
    decreases code.len(),
{
    if code.len() > 0 {
        lemma_kind_count_prefix(code.drop_last(), kind, if k < code.len() { k } else { k - 1 });
        if k < code.len() {
            assert(code.drop_last().take(k) =~= code.take(k));
        } else {
            assert(code.take(k) =~= code);
        }
    } else {
        assert(code.take(k) =~= code);
    }
}

/// What `first_with_prefix` finds: a line with the prefix, none before it
/// from `from` on; or the number of lines, when no line from `from` on has
/// the prefix.
pub proof fn lemma_first_with_prefix(lines: Seq<Seq<u8>>, prefix: Seq<u8>, from: int)
    requires
        0 <= from <= lines.len(),
    ensures
        from <= first_with_prefix(lines, prefix, from) <= lines.len(),
        first_with_prefix(lines, prefix, from) < lines.len() ==> has_prefix(
            lines[first_with_prefix(lines, prefix, from)],
            prefix,
        ),
        forall|j: int|
            from <= j < first_with_prefix(lines, prefix, from) ==> !has_prefix(
                #[trigger] lines[j],
                prefix,
            ),
    decreases lines.len() - from,
{
    if from < lines.len() && !has_prefix(lines[from], prefix) {
        lemma_first_with_prefix(lines, prefix, from + 1);
    }
}

impl Program {
    /// The markers of a located code section stand in order.
    pub proof fn lemma_bounds(&self)
        requires
            self.wf(),
        ensures
            self.start < self.end < self.lines.len(),
    {
        let lines = self.text_lines();
        lemma_first_with_prefix(lines, code_start_marker(), 0);
        lemma_first_with_prefix(lines, section_marker(), self.start + 1);
    }

    /// The lines as byte sequences.
    pub open spec fn text_lines(&self) -> Seq<Seq<u8>> {
        views(self.lines@)
    }

    /// The code section was found, and `start` and `end` are its markers.
    pub open spec fn wf(&self) -> bool {
        &&& section_error(self.text_lines()) is None
        &&& self.start as int == section_start(self.text_lines())
        &&& self.end as int == section_end(self.text_lines())
    }

    /// The lines of the code section.
    pub open spec fn code(&self) -> Seq<Seq<u8>> {
        code_of(self.text_lines())
    }

    /// Cuts `source` into lines and locates its code section. Fails, with
    /// nothing else returned, when the line that opens the code section is
    /// missing or no section marker follows it.
    pub fn parse(source: &[u8]) -> (parsed: Result<Program, TransformError>)
        ensures
            match parsed {
                Ok(program) => program.wf() && program.text_lines() == kept_lines(source@),
                Err(e) => section_error(kept_lines(source@)) == Some(e),
            },
    {
        let lines = keep_lines(source);
        let start = find_prefixed(&lines, ".section\t.text".as_bytes(), 0);
        if start >= lines.len() {
            return Err(TransformError::MissingCodeStart);
        }
        let end = find_prefixed(&lines, ".section".as_bytes(), start + 1);
        if end >= lines.len() {
            return Err(TransformError::MissingCodeEnd);
        }
        Ok(Program { lines, start, end })
    }

    /// Counts the lines of kind `kind` in the code section.
    pub fn count(&self, kind: LineKind) -> (n: usize)
        requires
            self.wf(),
        ensures
            n == kind_count(self.code(), kind),
    {
        proof {
            self.lemma_bounds();
        }
        let mut n: usize = 0;
        let mut i: usize = self.start + 1;
        assert(self.text_lines().subrange(self.start + 1, i as int) =~= Seq::empty());
        while i < self.end
            invariant
                self.wf(),
                self.start < i <= self.end < self.lines.len(),
                n <= i,
                n == kind_count(self.text_lines().subrange(self.start + 1, i as int), kind),
            decreases self.end - i,
        {
            let ghost lines = self.text_lines();
            assert(lines.subrange(self.start + 1, i + 1).drop_last() =~= lines.subrange(
                self.start + 1,
                i as int,
            ));
            if classify_line(self.lines[i].as_slice()) == kind {
                n += 1;
            }
            i += 1;
        }
        n
    }

    /// Counts the instructions of the code section: the number of
    /// displacements that `emit` needs.
    pub fn instruction_count(&self) -> (n: usize)
        requires
            self.wf(),
        ensures
            n == instruction_count(self.code()),
    {
        self.count(LineKind::Instruction)
    }

    /// Writes the program out with its code section rewritten, the `k`-th
    /// instruction followed by a decoy jump over `displacements[k]`. Fails
    /// when there are fewer displacements than instructions.
    pub fn emit(&self, displacements: &[i8]) -> (out: Result<Vec<u8>, TransformError>)
        requires
            self.wf(),
        ensures
            match out {
                Ok(text) => displacements@.len() >= instruction_count(self.code()) && text@
                    == joined(emitted_lines(self.text_lines(), displacements@)),
                Err(e) => e == TransformError::TooFewDisplacements && displacements@.len()
                    < instruction_count(self.code()),
            },
    {
        proof {
            self.lemma_bounds();
        }
        let needed = self.instruction_count();
        if displacements.len() < needed {
            return Err(TransformError::TooFewDisplacements);
        }
        let ghost lines = self.text_lines();
        let ghost code = self.code();
        let mut out: Vec<Vec<u8>> = Vec::new();
        let mut i: usize = 0;
        while i <= self.start
            invariant
                self.wf(),
                lines == self.text_lines(),
                i <= self.start + 1,
                self.start < self.end < self.lines.len(),
                views(out@) == lines.take(i as int),
            decreases self.start + 1 - i,
        {
            let ghost before = views(out@);
            out.push(copy_of(self.lines[i].as_slice()));
            assert(views(out@) =~= before.push(lines[i as int]));
            assert(lines.take(i + 1) =~= lines.take(i as int).push(lines[i as int]));
            i += 1;
        }
        let ghost head = lines.take(self.start + 1);
        let mut used: usize = 0;
        assert(lines.subrange(self.start + 1, i as int) =~= Seq::empty());
        while i < self.end
            invariant
                self.wf(),
                lines == self.text_lines(),
                code == self.code(),
                head == lines.take(self.start + 1),
                self.start < i <= self.end < self.lines.len(),
                needed == instruction_count(code),
                needed <= displacements@.len(),
                used == instruction_count(lines.subrange(self.start + 1, i as int)),
                views(out@) == head + rewritten_code(
                    lines.subrange(self.start + 1, i as int),
                    displacements@,
                ),
            decreases self.end - i,
        {
            let ghost done = lines.subrange(self.start + 1, i as int);
            let ghost next = lines.subrange(self.start + 1, i + 1);
            proof {
                assert(next.drop_last() =~= done);
                assert(next.last() == lines[i as int]);
                assert(next =~= code.take(i + 1 - (self.start + 1)));
                lemma_kind_count_prefix(code, LineKind::Instruction, i + 1 - (self.start + 1));
            }
            let line = self.lines[i].as_slice();
            let displacement: i8 = if classify_line(line) == LineKind::Instruction {
                let d = displacements[used];
                used += 1;
                d
            } else {
                0
            };
            push_rewritten(&mut out, line, displacement);
            assert(rewritten_line(line@, displacement) == rewritten_line(
                line@,
                displacements@[instruction_count(done) as int],
            ));
            assert(views(out@) =~= head + rewritten_code(next, displacements@));
            i += 1;
        }
        assert(lines.subrange(self.start + 1, i as int) =~= code);
        let ghost body = head + rewritten_code(code, displacements@);
        assert(lines.subrange(self.end as int, i as int) =~= Seq::empty());
        assert(views(out@) =~= body + lines.subrange(self.end as int, i as int));
        while i < self.lines.len()
            invariant
                lines == self.text_lines(),
                self.end <= i <= self.lines.len(),
                views(out@) == body + lines.subrange(self.end as int, i as int),
            decreases self.lines.len() - i,
        {
            let ghost before = views(out@);
            out.push(copy_of(self.lines[i].as_slice()));
            assert(views(out@) =~= before.push(lines[i as int]));
            assert(lines.subrange(self.end as int, i + 1) =~= lines.subrange(
                self.end as int,
                i as int,
            ).push(lines[i as int]));
            assert(views(out@) =~= body + lines.subrange(self.end as int, i + 1));
            i += 1;
        }
        assert(lines.subrange(self.end as int, i as int) =~= lines.skip(self.end as int));
        Ok(join_lines(&out))
    }
}

/// Transforms `source` with the given displacements: the `k`-th instruction
/// of the code section is followed by a decoy jump over `displacements[k]`.
pub fn process_asm_with(source: &[u8], displacements: &[i8]) -> (out: Result<
    Vec<u8>,
    TransformError,
>)
    ensures
        match out {
            Ok(text) => transformed(source@, displacements@) == Ok::<Seq<u8>, TransformError>(
                text@,
            ),
            Err(e) => transformed(source@, displacements@) == Err::<Seq<u8>, TransformError>(e),
        },
{
    match Program::parse(source) {
        Ok(program) => program.emit(displacements),
        Err(e) => Err(e),
    }
}

/// Transforms `source`, drawing a fresh displacement for every instruction.
/// It succeeds exactly when the code section is found, and its output is
/// then what `process_asm_with` gives for some displacements that the
/// random source can give, one for each instruction.
pub fn process_asm(source: &[u8]) -> (out: Result<Vec<u8>, TransformError>)
    ensures
        match out {
            Ok(text) => exists|displacements: Seq<i8>|
                #![trigger transformed(source@, displacements)]
                displacements.len() == instruction_count(code_of(kept_lines(source@)))
                    && drawable(displacements) && transformed(source@, displacements) == Ok::<
                    Seq<u8>,
                    TransformError,
                >(text@),
            Err(e) => section_error(kept_lines(source@)) == Some(e),
        },
        out is Ok <==> section_error(kept_lines(source@)) is None,
{
    match Program::parse(source) {
        Ok(program) => {
            let needed = program.instruction_count();
            let mut displacements: Vec<i8> = Vec::new();
            while displacements.len() < needed
                invariant
                    displacements@.len() <= needed,
                    drawable(displacements@),
                decreases needed - displacements@.len(),
            {
                displacements.push(random_displacement());
            }
            match program.emit(displacements.as_slice()) {
                Ok(text) => {
                    assert(transformed(source@, displacements@) == Ok::<Seq<u8>, TransformError>(
                        text@,
                    ));
                    Ok(text)
                },
                Err(e) => Err(e),
            }
        },
        Err(e) => Err(e),
    }
}

} // verus!
