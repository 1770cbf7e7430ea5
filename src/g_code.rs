//! A toolpath: the instructions of a command stream and the cutter that
//! runs them.
use vstd::prelude::*;

use crate::g_code_instruction::{GCodeInstruction, InstructionFields, instruction_fields};
use crate::milling_cutter::{MillingCutter, cutter_of_tag};
use crate::text::{char_is_whitespace, chars_of, find_char, find_in, is_whitespace};

verus! {

/// The whitespace-separated tokens of `s`, in order, as `str::split_whitespace`
/// gives them: the maximal runs of characters that are not whitespace.
pub open spec fn tokens(s: Seq<char>) -> Seq<Seq<char>>
    decreases s.len(),
{
    if s.len() == 0 {
        Seq::empty()
    } else {
        let before = tokens(s.drop_last());
        if is_whitespace(s.last()) {
            before
        } else if s.len() >= 2 && !is_whitespace(s[s.len() - 2]) {
            before.update(before.len() - 1, before.last().push(s.last()))
        } else {
            before.push(seq![s.last()])
        }
    }
}

/// The instructions that the tokens `ts` spell, in order; tokens that are
/// not instructions are left out.
pub open spec fn instructions_of(ts: Seq<Seq<char>>) -> Seq<InstructionFields>
    decreases ts.len(),
{
    if ts.len() == 0 {
        Seq::empty()
    } else {
        let before = instructions_of(ts.drop_last());
        match instruction_fields(ts.last()) {
            Some(f) => before.push(f),
            None => before,
        }
    }
}

/// The instructions of a command stream.
pub open spec fn program_of(content: Seq<char>) -> Seq<InstructionFields> {
    instructions_of(tokens(content))
}

/// The file-name suffix after the first `.` of `path`, if there is a `.`.
pub open spec fn suffix_of(path: Seq<char>) -> Option<Seq<char>> {
    match find_char(path, '.') {
        Some(d) => Some(path.skip(d + 1)),
        None => None,
    }
}

/// The cutter that a toolpath file's name selects through its suffix.
pub open spec fn cutter_of_path(path: Seq<char>) -> Option<MillingCutter> {
    match suffix_of(path) {
        Some(tag) => cutter_of_tag(tag),
        None => None,
    }
}

/// The instructions of a toolpath and the cutter that runs them.
#[derive(Debug, Clone)]
pub struct GCode {
    instructions: Vec<GCodeInstruction>,
    cutter: MillingCutter,
}

pub open spec fn fields_of(v: Seq<GCodeInstruction>) -> Seq<InstructionFields> {
    v.map_values(|i: GCodeInstruction| i@)
}

/// A run `s[start..k]` of characters that are not whitespace, just after
/// whitespace or at the start, closes the tokens of `s[..start]` with one
/// token more.
proof fn lemma_tokens_run(s: Seq<char>, start: int, k: int)
    requires
        0 <= start < k <= s.len(),
        start == 0 || is_whitespace(s[start - 1]),
        forall|j: int| start <= j < k ==> !is_whitespace(#[trigger] s[j]),
    ensures
        tokens(s.take(k)) == tokens(s.take(start)).push(s.subrange(start, k)),
    decreases k - start,
{
    let t = s.take(k);
    assert(t.drop_last() =~= s.take(k - 1));
    if k == start + 1 {
        assert(s.take(k - 1) =~= s.take(start));
        assert(seq![t.last()] =~= s.subrange(start, k));
    } else {
        lemma_tokens_run(s, start, k - 1);
        assert(s.subrange(start, k - 1).push(s[k - 1]) =~= s.subrange(start, k));
        assert(tokens(s.take(k - 1)).update(
            tokens(s.take(k - 1)).len() - 1,
            s.subrange(start, k),
        ) =~= tokens(s.take(start)).push(s.subrange(start, k)));
    }
}

/// Parses the whitespace-separated tokens of `s`, keeping those that are
/// instructions.
fn parse_tokens(s: &Vec<char>) -> (r: Vec<GCodeInstruction>)
    ensures
        fields_of(r@) == program_of(s@),
{
    let mut r: Vec<GCodeInstruction> = Vec::new();
    let mut start: usize = 0;
    let mut i: usize = 0;
    while i < s.len()
        invariant
            start <= i <= s.len(),
            start == 0 || is_whitespace(s@[start - 1]),
            forall|j: int| start <= j < i ==> !is_whitespace(#[trigger] s@[j]),
            fields_of(r@) == instructions_of(tokens(s@.take(start as int))),
        decreases s.len() - i,
    {
        if char_is_whitespace(s[i]) {
            if start < i {
                proof {
                    lemma_tokens_run(s@, start as int, i as int);
                }
                let ghost before = tokens(s@.take(start as int));
                let ghost tok = s@.subrange(start as int, i as int);
                assert(before.push(tok).drop_last() =~= before);
                match GCodeInstruction::parse_token(s, start, i) {
                    Some(instruction) => {
                        r.push(instruction);
                        assert(fields_of(r@) =~= instructions_of(before).push(instruction@));
                    },
                    None => {},
                }
            } else {
                assert(s@.take(start as int) =~= s@.take(i as int));
            }
            assert(s@.take(i + 1).drop_last() =~= s@.take(i as int));
            start = i + 1;
        }
        i = i + 1;
    }
    if start < s.len() {
        proof {
            lemma_tokens_run(s@, start as int, s.len() as int);
        }
        let ghost before = tokens(s@.take(start as int));
        let ghost tok = s@.subrange(start as int, s.len() as int);
        assert(before.push(tok).drop_last() =~= before);
        match GCodeInstruction::parse_token(s, start, s.len()) {
            Some(instruction) => {
                r.push(instruction);
                assert(fields_of(r@) =~= instructions_of(before).push(instruction@));
            },
            None => {},
        }
    }
    assert(s@.take(s.len() as int) =~= s@);
    r
}

/// Parses a command stream: each whitespace-separated token that is an
/// instruction, in order (see `program_of`).
pub fn parse_instructions(content: &str) -> (r: Vec<GCodeInstruction>)
    ensures
        fields_of(r@) == program_of(content@),
{
    let chars = chars_of(content);
    parse_tokens(&chars)
}

/// Selects the cutter from a toolpath file's name (see `cutter_of_path`).
pub fn cutter_for_path(file_path: &str) -> (r: Option<MillingCutter>)
    ensures
        r == cutter_of_path(file_path@),
{
    let path = chars_of(file_path);
    assert(path@.subrange(0, path@.len() as int) =~= path@);
    match find_in(&path, 0, path.len(), '.') {
        Some(d) => {
            assert(path@.subrange(d + 1, path@.len() as int) =~= path@.skip(d + 1));
            MillingCutter::parse_tag(&path, d + 1, path.len())
        },
        None => None,
    }
}

impl GCode {
    pub closed spec fn spec_instructions(&self) -> Seq<GCodeInstruction> {
        self.instructions@
    }

    pub closed spec fn spec_cutter(&self) -> MillingCutter {
        self.cutter
    }

    pub fn new(instructions: Vec<GCodeInstruction>, cutter: MillingCutter) -> (r: Self)
        ensures
            r.spec_instructions() == instructions@,
            r.spec_cutter() == cutter,
    {
        GCode { instructions, cutter }
    }

    /// The toolpath stored in the file `file_path` whose text is `content`:
    /// `None` where the file's name selects no cutter; otherwise the
    /// instructions of `content` (see `program_of`).
    pub fn from_source(file_path: &str, content: &str) -> (r: Option<Self>)
        ensures
            match r {
                Some(code) => cutter_of_path(file_path@) == Some(code.spec_cutter()) && fields_of(
                    code.spec_instructions(),
                ) == program_of(content@),
                None => cutter_of_path(file_path@) is None,
            },
    {
        match cutter_for_path(file_path) {
            Some(cutter) => Some(GCode { instructions: parse_instructions(content), cutter }),
            None => None,
        }
    }

    pub fn instructions(&self) -> (r: &Vec<GCodeInstruction>)
        ensures
            r@ == self.spec_instructions(),
    {
        &self.instructions
    }

    pub fn cutter(&self) -> (r: MillingCutter)
        ensures
            r == self.spec_cutter(),
    {
        self.cutter
    }
}

} // verus!
