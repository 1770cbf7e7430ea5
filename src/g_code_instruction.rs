//! One linear motion command of a toolpath, such as `N12G01X5.000Y-2.5`.
use vstd::prelude::*;

use crate::text::{
    DECIMAL_LIMIT, chars_of, decimal_text, decimal_value, digits_of, find_char, find_in,
    is_decimal_char, is_digit, is_whitespace, lemma_decimal_chars, lemma_decimal_round_trip,
    lemma_digits_of, all_digits, digits_value, lemma_find_char, parse_decimal, parse_unsigned,
    trim, trim_end, trim_start, trimmed, unsigned_value,
};

verus! {

/// A parsed motion command. Axis targets are in micrometres (thousandths of
/// the millimetres the command text is written in); an absent axis holds its
/// current position.
#[derive(Debug, Clone, Copy, PartialEq, Eq)]
pub struct GCodeInstruction {
    n: u32,
    x: Option<i64>,
    y: Option<i64>,
    z: Option<i64>,
}

/// What an instruction holds: its sequence number and the three axis targets.
pub type InstructionFields = (u32, Option<i64>, Option<i64>, Option<i64>);

/// The value of the axis whose marker stands at `begin` (if any) and whose
/// text ends at `end` (or at the end of `t`). `None` where the text is not a
/// decimal within `DECIMAL_LIMIT`; `Some(None)` where the marker is absent.
pub open spec fn axis_field(t: Seq<char>, begin: Option<int>, end: Option<int>) -> Option<
    Option<i64>,
> {
    match begin {
        None => Some(None),
        Some(b) => {
            let e = match end {
                Some(e) => e,
                None => t.len() as int,
            };
            if e < b + 1 {
                None
            } else {
                match decimal_value(t.subrange(b + 1, e)) {
                    Some(v) => if -DECIMAL_LIMIT <= v <= DECIMAL_LIMIT {
                        Some(Some(v as i64))
                    } else {
                        None
                    },
                    None => None,
                }
            }
        },
    }
}

/// The sequence number between the first `N` and the first `G` of `t`.
pub open spec fn sequence_field(t: Seq<char>) -> Option<u32> {
    match (find_char(t, 'N'), find_char(t, 'G')) {
        (Some(nb), Some(gb)) => if gb < nb + 1 {
            None
        } else {
            match unsigned_value(t.subrange(nb + 1, gb)) {
                Some(n) => if n <= u32::MAX {
                    Some(n as u32)
                } else {
                    None
                },
                None => None,
            }
        },
        _ => None,
    }
}

/// The instruction that a command token spells, once trimmed: the sequence
/// number runs from the first `N` to the first `G`; each of `X`, `Y` and `Z`
/// (taken in that order) is followed by its decimal, which runs up to the
/// next of those markers that is present.
pub open spec fn instruction_fields(line: Seq<char>) -> Option<InstructionFields> {
    let t = trim(line);
    let xb = find_char(t, 'X');
    let yb = find_char(t, 'Y');
    let zb = find_char(t, 'Z');
    let x_end = if yb is Some {
        yb
    } else {
        zb
    };
    match (sequence_field(t), axis_field(t, xb, x_end), axis_field(t, yb, zb), axis_field(t, zb, None)) {
        (Some(n), Some(x), Some(y), Some(z)) => Some((n, x, y, z)),
        _ => None,
    }
}

pub open spec fn as_int(o: Option<usize>) -> Option<int> {
    match o {
        Some(i) => Some(i as int),
        None => None,
    }
}

/// Reads one axis (see `axis_field`).
fn parse_axis(t: &Vec<char>, begin: Option<usize>, end: Option<usize>) -> (r: Option<Option<i64>>)
    requires
        begin matches Some(b) ==> b < t.len(),
        end matches Some(e) ==> e <= t.len(),
    ensures
        r == axis_field(t@, as_int(begin), as_int(end)),
{
    match begin {
        None => Some(None),
        Some(b) => {
            let e = match end {
                Some(e) => e,
                None => t.len(),
            };
            if e < b + 1 {
                return None;
            }
            match parse_decimal(t, b + 1, e) {
                Some(v) => Some(Some(v)),
                None => None,
            }
        },
    }
}

impl View for GCodeInstruction {
    type V = InstructionFields;

    closed spec fn view(&self) -> InstructionFields {
        (self.n, self.x, self.y, self.z)
    }
}

impl GCodeInstruction {
    /// Parses one command token (see `instruction_fields`).
    pub fn parse(line: &str) -> (r: Option<GCodeInstruction>)
        ensures
            match r {
                Some(i) => instruction_fields(line@) == Some(i@),
                None => instruction_fields(line@) is None,
            },
    {
        let chars = chars_of(line);
        assert(chars@.subrange(0, chars@.len() as int) =~= chars@);
        Self::parse_token(&chars, 0, chars.len())
    }

    /// Parses the command token `s[from..to]` (see `instruction_fields`).
    pub fn parse_token(s: &Vec<char>, from: usize, to: usize) -> (r: Option<GCodeInstruction>)
        requires
            from <= to <= s.len(),
        ensures
            match r {
                Some(i) => instruction_fields(s@.subrange(from as int, to as int)) == Some(i@),
                None => instruction_fields(s@.subrange(from as int, to as int)) is None,
            },
    {
        let t = trimmed(s, from, to);
        assert(t@.subrange(0, t@.len() as int) =~= t@);
        let n_begin = find_in(&t, 0, t.len(), 'N');
        let g_begin = find_in(&t, 0, t.len(), 'G');
        let n = match (n_begin, g_begin) {
            (Some(nb), Some(gb)) => {
                if gb < nb + 1 {
                    return None;
                }
                match parse_unsigned(&t, nb + 1, gb, u32::MAX as u64) {
                    Some(n) => n as u32,
                    None => {
                        return None;
                    },
                }
            },
            _ => {
                return None;
            },
        };
        let x_begin = find_in(&t, 0, t.len(), 'X');
        let y_begin = find_in(&t, 0, t.len(), 'Y');
        let z_begin = find_in(&t, 0, t.len(), 'Z');
        let x_end = if y_begin.is_some() {
            y_begin
        } else {
            z_begin
        };
        let x = match parse_axis(&t, x_begin, x_end) {
            Some(x) => x,
            None => {
                return None;
            },
        };
        let y = match parse_axis(&t, y_begin, z_begin) {
            Some(y) => y,
            None => {
                return None;
            },
        };
        let z = match parse_axis(&t, z_begin, None) {
            Some(z) => z,
            None => {
                return None;
            },
        };
        Some(GCodeInstruction { n, x, y, z })
    }

    /// The sequence number.
    pub fn n(&self) -> (r: u32)
        ensures
            r == self@.0,
    {
        self.n
    }

    /// The X target in micrometres.
    pub fn x(&self) -> (r: Option<i64>)
        ensures
            r == self@.1,
    {
        self.x
    }

    /// The Y target in micrometres.
    pub fn y(&self) -> (r: Option<i64>)
        ensures
            r == self@.2,
    {
        self.y
    }

    /// The Z target in micrometres.
    pub fn z(&self) -> (r: Option<i64>)
        ensures
            r == self@.3,
    {
        self.z
    }
}

/// `t[from..to]` holds a character that no decimal holds.
pub open spec fn has_foreign_char(t: Seq<char>, from: int, to: int) -> bool {
    exists|i: int| from <= i < to && !is_decimal_char(#[trigger] t[i])
}

/// The end of the text of an axis whose next marker is at `end`, if any.
pub open spec fn text_end(t: Seq<char>, end: Option<int>) -> int {
    match end {
        Some(e) => e,
        None => t.len() as int,
    }
}

/// The text after the marker at `b`, up to `e`, is no decimal within
/// `DECIMAL_LIMIT` (or the next marker comes first).
pub open spec fn not_decimal_text(t: Seq<char>, b: int, e: int) -> bool {
    e < b + 1 || !(decimal_value(t.subrange(b + 1, e)) matches Some(v) && -DECIMAL_LIMIT <= v
        <= DECIMAL_LIMIT)
}

/// A token is no instruction where, once trimmed, it lacks the `N` or the
/// `G` marker; where the text between them is no unsigned integer up to
/// `u32::MAX`; or where the text of an axis that is present is no decimal
/// (in particular, where it holds a character that is neither a digit, a
/// sign nor a point). A token is never accepted in part.
pub proof fn lemma_rejected_tokens(line: Seq<char>)
    ensures
        ({
            let t = trim(line);
            let xb = find_char(t, 'X');
            let yb = find_char(t, 'Y');
            let zb = find_char(t, 'Z');
            let x_end = if yb is Some {
                yb
            } else {
                zb
            };
            &&& (find_char(t, 'N') is None || find_char(t, 'G') is None) ==> instruction_fields(line) is None
            &&& (xb matches Some(b) && has_foreign_char(t, b + 1, text_end(t, x_end))) ==> instruction_fields(line) is None
            &&& (yb matches Some(b) && has_foreign_char(t, b + 1, text_end(t, zb))) ==> instruction_fields(line) is None
            &&& (zb matches Some(b) && has_foreign_char(t, b + 1, text_end(t, None))) ==> instruction_fields(line) is None
            &&& (find_char(t, 'N') matches Some(nb) && find_char(t, 'G') matches Some(gb) && (gb
                < nb + 1 || !(unsigned_value(t.subrange(nb + 1, gb)) matches Some(v) && v
                <= u32::MAX))) ==> instruction_fields(line) is None
            &&& (xb matches Some(b) && not_decimal_text(t, b, text_end(t, x_end))) ==> instruction_fields(line) is None
            &&& (yb matches Some(b) && not_decimal_text(t, b, text_end(t, zb))) ==> instruction_fields(line) is None
            &&& (zb matches Some(b) && not_decimal_text(t, b, text_end(t, None))) ==> instruction_fields(line) is None
        }),
{
    let t = trim(line);
    let xb = find_char(t, 'X');
    let yb = find_char(t, 'Y');
    let zb = find_char(t, 'Z');
    let x_end = if yb is Some {
        yb
    } else {
        zb
    };
    lemma_find_char(t, 'X');
    lemma_find_char(t, 'Y');
    lemma_find_char(t, 'Z');
    lemma_foreign_axis(t, xb, x_end);
    lemma_foreign_axis(t, yb, zb);
    lemma_foreign_axis(t, zb, None);
}

proof fn lemma_foreign_axis(t: Seq<char>, begin: Option<int>, end: Option<int>)
    requires
        begin matches Some(b) ==> 0 <= b < t.len(),
        end matches Some(e) ==> 0 <= e < t.len(),
    ensures
        (begin matches Some(b) && has_foreign_char(t, b + 1, text_end(t, end))) ==> axis_field(t, begin, end) is None,
{
    if let Some(b) = begin {
        let e = text_end(t, end);
        if has_foreign_char(t, b + 1, e) && e >= b + 1 && axis_field(t, begin, end) is Some {
            let s = t.subrange(b + 1, e);
            let i = choose|i: int| b + 1 <= i < e && !is_decimal_char(#[trigger] t[i]);
            lemma_decimal_chars(s);
            assert(s[i - b - 1] == t[i]);
        }
    }
}

/// An axis written as its marker followed by its text `lit`, or nothing.
pub open spec fn axis_part(marker: char, lit: Option<Seq<char>>) -> Seq<char> {
    match lit {
        Some(l) => seq![marker] + l,
        None => Seq::empty(),
    }
}

/// The value of an axis text, in micrometres.
pub open spec fn literal_value(lit: Option<Seq<char>>) -> Option<i64> {
    match lit {
        Some(l) => match decimal_value(l) {
            Some(v) => Some(v as i64),
            None => None,
        },
        None => None,
    }
}

/// An absent axis, or a decimal whose magnitude is within `DECIMAL_LIMIT`.
pub open spec fn valid_literal(lit: Option<Seq<char>>) -> bool {
    lit matches Some(l) ==> (decimal_value(l) matches Some(v) && -DECIMAL_LIMIT <= v
        <= DECIMAL_LIMIT)
}

/// A command token `N<sn>G<g>`, then each present axis as `X`, `Y` or `Z`
/// followed by its text.
pub open spec fn token_text(
    sn: Seq<char>,
    g: Seq<char>,
    lx: Option<Seq<char>>,
    ly: Option<Seq<char>>,
    lz: Option<Seq<char>>,
) -> Seq<char> {
    seq!['N'] + sn + seq!['G'] + g + axis_part('X', lx) + axis_part('Y', ly) + axis_part('Z', lz)
}

/// The text `t[pos..pos + axis_part(marker, lit).len()]` of an axis reads
/// back as the value of `lit`.
proof fn lemma_axis_read(t: Seq<char>, marker: char, lit: Option<Seq<char>>, pos: int, end: Option<int>)
    requires
        valid_literal(lit),
        0 <= pos,
        pos + axis_part(marker, lit).len() <= t.len(),
        t.subrange(pos, pos + axis_part(marker, lit).len()) == axis_part(marker, lit),
        lit is Some ==> text_end(t, end) == pos + axis_part(marker, lit).len(),
    ensures
        axis_field(t, if lit is Some { Some(pos) } else { None }, end) == Some(literal_value(lit)),
{
    if let Some(l) = lit {
        let a = axis_part(marker, lit);
        assert(t.subrange(pos + 1, pos + a.len()) =~= l) by {
            assert forall|i: int| 0 <= i < a.len() - 1 implies t.subrange(pos + 1, pos + a.len())[i]
                == l[i] by {
                assert(t.subrange(pos, pos + a.len())[i + 1] == a[i + 1]);
            }
        }
    }
}

/// Where the markers of a token stand: `N` first, `G` after the sequence
/// number, then each present axis marker after the text before it.
pub open spec fn token_positions(sn: Seq<char>, g: Seq<char>, lx: Option<Seq<char>>, ly: Option<Seq<char>>) -> (int, int, int, int) {
    let pg: int = 1 + sn.len() as int;
    let px: int = pg + 1 + g.len() as int;
    let py: int = px + axis_part('X', lx).len() as int;
    let pz: int = py + axis_part('Y', ly).len() as int;
    (pg, px, py, pz)
}

/// The parts of a well-formed token: a sequence number of digits, digits
/// after `G`, and decimals within the limit.
pub open spec fn well_formed_parts(
    sn: Seq<char>,
    g: Seq<char>,
    lx: Option<Seq<char>>,
    ly: Option<Seq<char>>,
    lz: Option<Seq<char>>,
) -> bool {
    &&& sn.len() > 0
    &&& all_digits(sn)
    &&& digits_value(sn) <= u32::MAX
    &&& all_digits(g)
    &&& valid_literal(lx)
    &&& valid_literal(ly)
    &&& valid_literal(lz)
}

proof fn lemma_literal_chars(lit: Option<Seq<char>>)
    requires
        valid_literal(lit),
    ensures
        lit matches Some(l) ==> forall|i: int| 0 <= i < l.len() ==> is_decimal_char(#[trigger] l[i]),
{
    if let Some(l) = lit {
        lemma_decimal_chars(l);
    }
}

/// Each marker letter of a well-formed token stands only at its own
/// position, and the token holds no whitespace.
proof fn lemma_token_chars(
    sn: Seq<char>,
    g: Seq<char>,
    lx: Option<Seq<char>>,
    ly: Option<Seq<char>>,
    lz: Option<Seq<char>>,
)
    requires
        well_formed_parts(sn, g, lx, ly, lz),
    ensures
        ({
            let t = token_text(sn, g, lx, ly, lz);
            let (pg, px, py, pz) = token_positions(sn, g, lx, ly);
            &&& t.len() == pz + axis_part('Z', lz).len()
            &&& t[0] == 'N'
            &&& t[pg] == 'G'
            &&& lx is Some ==> t[px] == 'X'
            &&& ly is Some ==> t[py] == 'Y'
            &&& lz is Some ==> t[pz] == 'Z'
            &&& forall|j: int|
                0 <= j < t.len() ==> {
                    &&& (#[trigger] t[j] == 'N' ==> j == 0)
                    &&& (t[j] == 'G' ==> j == pg)
                    &&& (t[j] == 'X' ==> lx is Some && j == px)
                    &&& (t[j] == 'Y' ==> ly is Some && j == py)
                    &&& (t[j] == 'Z' ==> lz is Some && j == pz)
                    &&& !is_whitespace(t[j])
                }
        }),
{
    let p = seq!['N'] + sn + seq!['G'] + g;
    let a = axis_part('X', lx);
    let b = axis_part('Y', ly);
    let c = axis_part('Z', lz);
    let t = token_text(sn, g, lx, ly, lz);
    let (pg, px, py, pz) = token_positions(sn, g, lx, ly);
    assert(t =~= p + a + b + c);
    lemma_literal_chars(lx);
    lemma_literal_chars(ly);
    lemma_literal_chars(lz);
    assert forall|j: int| 0 <= j < t.len() implies {
        &&& (#[trigger] t[j] == 'N' ==> j == 0)
        &&& (t[j] == 'G' ==> j == pg)
        &&& (t[j] == 'X' ==> lx is Some && j == px)
        &&& (t[j] == 'Y' ==> ly is Some && j == py)
        &&& (t[j] == 'Z' ==> lz is Some && j == pz)
        &&& !is_whitespace(t[j])
    } by {
        if 1 <= j < pg {
            assert(t[j] == sn[j - 1]);
            assert(is_digit(sn[j - 1]));
        } else if pg < j < px {
            assert(t[j] == g[j - pg - 1]);
            assert(is_digit(g[j - pg - 1]));
        } else if px < j < py {
            assert(t[j] == a[j - px]);
            assert(t[j] == lx->0[j - px - 1]);
        } else if py < j < pz {
            assert(t[j] == b[j - py]);
            assert(t[j] == ly->0[j - py - 1]);
        } else if pz < j {
            assert(t[j] == c[j - pz]);
            assert(t[j] == lz->0[j - pz - 1]);
        } else if j == px && px < py {
            assert(t[j] == a[0]);
        } else if j == py && py < pz {
            assert(t[j] == b[0]);
        } else if j == pz && pz < t.len() {
            assert(t[j] == c[0]);
        }
    }
    if lx is Some {
        assert(t[px] == a[0]);
    }
    if ly is Some {
        assert(t[py] == b[0]);
    }
    if lz is Some {
        assert(t[pz] == c[0]);
    }
}

/// The searches for the markers of a well-formed token find them at their
/// positions; trimming leaves the token as it is.
proof fn lemma_token_finds(
    sn: Seq<char>,
    g: Seq<char>,
    lx: Option<Seq<char>>,
    ly: Option<Seq<char>>,
    lz: Option<Seq<char>>,
)
    requires
        well_formed_parts(sn, g, lx, ly, lz),
    ensures
        ({
            let t = token_text(sn, g, lx, ly, lz);
            let (pg, px, py, pz) = token_positions(sn, g, lx, ly);
            &&& trim(t) == t
            &&& find_char(t, 'N') == Some(0int)
            &&& find_char(t, 'G') == Some(pg)
            &&& find_char(t, 'X') == if lx is Some { Some(px) } else { None::<int> }
            &&& find_char(t, 'Y') == if ly is Some { Some(py) } else { None::<int> }
            &&& find_char(t, 'Z') == if lz is Some { Some(pz) } else { None::<int> }
        }),
{
    let t = token_text(sn, g, lx, ly, lz);
    lemma_token_chars(sn, g, lx, ly, lz);
    assert(!is_whitespace(t[0]));
    assert(!is_whitespace(t.last()));
    assert(trim_start(t) == t);
    assert(trim_end(t) == t);
    lemma_find_char(t, 'N');
    lemma_find_char(t, 'G');
    lemma_find_char(t, 'X');
    lemma_find_char(t, 'Y');
    lemma_find_char(t, 'Z');
}

/// Every well-formed token parses, whatever whitespace surrounds it: the
/// sequence number is the number its digits spell, exactly, and each axis
/// that is present has the value of its decimal text (in micrometres, see
/// `decimal_value`); an absent axis is `None`.
pub proof fn lemma_well_formed_tokens_parse(
    line: Seq<char>,
    sn: Seq<char>,
    g: Seq<char>,
    lx: Option<Seq<char>>,
    ly: Option<Seq<char>>,
    lz: Option<Seq<char>>,
)
    requires
        trim(line) == token_text(sn, g, lx, ly, lz),
        well_formed_parts(sn, g, lx, ly, lz),
    ensures
        instruction_fields(line) == Some(
            (digits_value(sn) as u32, literal_value(lx), literal_value(ly), literal_value(lz)),
        ),
{
    let p = seq!['N'] + sn + seq!['G'] + g;
    let a = axis_part('X', lx);
    let b = axis_part('Y', ly);
    let c = axis_part('Z', lz);
    let t = token_text(sn, g, lx, ly, lz);
    let (pg, px, py, pz) = token_positions(sn, g, lx, ly);
    assert(t =~= p + a + b + c);
    lemma_token_chars(sn, g, lx, ly, lz);
    lemma_token_finds(sn, g, lx, ly, lz);
    assert(t.subrange(1, pg) =~= sn);
    assert(unsigned_value(sn) == Some(digits_value(sn))) by {
        reveal(unsigned_value);
        assert(is_digit(sn[0]));
    }
    assert(sequence_field(t) == Some(digits_value(sn) as u32));
    assert(t.subrange(px, py) =~= a);
    assert(t.subrange(py, pz) =~= b);
    assert(t.subrange(pz, t.len() as int) =~= c);
    let yb = find_char(t, 'Y');
    let zb = find_char(t, 'Z');
    let x_end = if yb is Some {
        yb
    } else {
        zb
    };
    lemma_axis_read(t, 'X', lx, px, x_end);
    lemma_axis_read(t, 'Y', ly, py, zb);
    lemma_axis_read(t, 'Z', lz, pz, None);
    assert(trim(line) == t);
}

/// An axis written with its value, or nothing.
pub open spec fn axis_text(marker: char, v: Option<i64>) -> Seq<char> {
    axis_part(marker, canonical_literal(v))
}

pub open spec fn canonical_literal(v: Option<i64>) -> Option<Seq<char>> {
    match v {
        Some(x) => Some(decimal_text(x as int)),
        None => None,
    }
}

/// The canonical token of an instruction: `N<n>G01`, then each present
/// axis as `X`, `Y` or `Z` followed by its value with three fraction digits.
pub open spec fn instruction_text(n: u32, x: Option<i64>, y: Option<i64>, z: Option<i64>) -> Seq<char> {
    token_text(digits_of(n as nat), seq!['0', '1'], canonical_literal(x), canonical_literal(y), canonical_literal(z))
}

pub open spec fn within_limit(v: Option<i64>) -> bool {
    v matches Some(x) ==> -DECIMAL_LIMIT <= x
}

proof fn lemma_canonical_literal(v: Option<i64>)
    requires
        within_limit(v),
    ensures
        valid_literal(canonical_literal(v)),
        literal_value(canonical_literal(v)) == v,
{
    if let Some(x) = v {
        lemma_decimal_round_trip(x as int);
    }
}

/// Every instruction reads back from its canonical token: the sequence number
/// exactly, and each axis that is present as its value in micrometres.
pub proof fn lemma_instruction_round_trip(n: u32, x: Option<i64>, y: Option<i64>, z: Option<i64>)
    requires
        within_limit(x),
        within_limit(y),
        within_limit(z),
    ensures
        instruction_fields(instruction_text(n, x, y, z)) == Some((n, x, y, z)),
{
    let t = instruction_text(n, x, y, z);
    lemma_digits_of(n as nat);
    lemma_canonical_literal(x);
    lemma_canonical_literal(y);
    lemma_canonical_literal(z);
    let g = seq!['0', '1'];
    assert(all_digits(g)) by {
        assert(is_digit(g[0]) && is_digit(g[1]));
    }
    lemma_well_formed_tokens_parse(t, digits_of(n as nat), g, canonical_literal(x), canonical_literal(y), canonical_literal(z));
}

} // verus!
