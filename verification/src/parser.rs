//! The parser: turns filtered source lines into typed instructions.
//!
//! A line is one of three forms, tried in order: an address instruction
//! (`@` followed by the rest of the line as a raw symbol), a label directive
//! (`(`, a name up to the next `)`, then `)` ending the line), or a compute
//! instruction (an optional destination prefix of `A`/`M`/`D` characters
//! ended by `=`, a computation mnemonic from the fixed 28-entry table taken
//! by longest complete match, and an optional `;` followed by a jump
//! mnemonic). A line that matches none of the three is a syntax error
//! carrying the offending line.

use crate::code::spec_comp_code;
use crate::error::{AsmError, AsmErrorView};
use vstd::prelude::*;
use vstd::slice::{slice_subrange, slice_to_vec};

verus! {

/// One parsed instruction. Address symbols, label names and compute
/// mnemonics are kept verbatim as byte strings; classification of an
/// address symbol happens at resolution time, and mnemonic validation
/// happens at encoding time.
#[derive(Debug, Clone, PartialEq, Eq)]
pub enum Instruction {
    /// `@symbol`: loads a value into the address register.
    A(Vec<u8>),
    /// `dest=comp;jump`: an ALU operation with optional destination and jump.
    C { dest: Option<Vec<u8>>, comp: Vec<u8>, jump: Option<Vec<u8>> },
    /// `(name)`: binds a label to the next instruction's program counter.
    L(Vec<u8>),
}

/// Spec-level mirror of [`Instruction`], with byte sequences in place of
/// byte vectors.
#[verifier::ext_equal]
pub enum InstructionView {
    A(Seq<u8>),
    C { dest: Option<Seq<u8>>, comp: Seq<u8>, jump: Option<Seq<u8>> },
    L(Seq<u8>),
}

impl View for Instruction {
    type V = InstructionView;

    open spec fn view(&self) -> InstructionView {
        match self {
            Instruction::A(s) => InstructionView::A(s@),
            Instruction::C { dest, comp, jump } => InstructionView::C {
                dest: match dest {
                    Some(d) => Some(d@),
                    None => None,
                },
                comp: comp@,
                jump: match jump {
                    Some(j) => Some(j@),
                    None => None,
                },
            },
            Instruction::L(s) => InstructionView::L(s@),
        }
    }
}

/// The views of a sequence of parsed instructions.
pub open spec fn abs_instructions(s: Seq<Instruction>) -> Seq<InstructionView> {
    s.map_values(|i: Instruction| i@)
}

/// ASCII whitespace, the characters trimmed from line ends.
pub open spec fn is_space(c: u8) -> bool {
    c == ' ' as u8 || c == '\t' as u8 || c == '\n' as u8 || c == '\r' as u8 || c == 0x0b || c
        == 0x0c
}

/// `s` without leading whitespace.
pub open spec fn trim_front(s: Seq<u8>) -> Seq<u8>
    decreases s.len(),
{
    if s.len() > 0 && is_space(s[0]) {
        trim_front(s.drop_first())
    } else {
        s
    }
}

/// `s` without trailing whitespace.
pub open spec fn trim_back(s: Seq<u8>) -> Seq<u8>
    decreases s.len(),
{
    if s.len() > 0 && is_space(s.last()) {
        trim_back(s.drop_last())
    } else {
        s
    }
}

/// `s` without leading and trailing whitespace.
pub open spec fn spec_trim(s: Seq<u8>) -> Seq<u8> {
    trim_back(trim_front(s))
}

/// Index of the first `//` at or after `i`, if any.
pub open spec fn comment_start_from(s: Seq<u8>, i: int) -> Option<int>
    decreases s.len() - i,
{
    if i < 0 || i + 2 > s.len() {
        None
    } else if s[i] == '/' as u8 && s[i + 1] == '/' as u8 {
        Some(i)
    } else {
        comment_start_from(s, i + 1)
    }
}

/// `line` with a trailing `//` comment cut off.
pub open spec fn spec_remove_comment(line: Seq<u8>) -> Seq<u8> {
    match comment_start_from(line, 0) {
        Some(i) => line.take(i),
        None => line,
    }
}

/// A line as handed to the grammar: comment cut off, then trimmed.
pub open spec fn spec_clean_line(line: Seq<u8>) -> Seq<u8> {
    spec_trim(spec_remove_comment(line))
}

/// Whether a raw line reaches the grammar at all: lines that are empty or
/// hold only a comment after trimming are skipped.
pub open spec fn spec_needs_parsing(line: Seq<u8>) -> bool {
    let t = spec_trim(line);
    t.len() > 0 && !(t.len() >= 2 && t[0] == '/' as u8 && t[1] == '/' as u8)
}

/// Index of the first occurrence of `c` at or after `i`, if any.
pub open spec fn find_byte_from(s: Seq<u8>, c: u8, i: int) -> Option<int>
    decreases s.len() - i,
{
    if i < 0 || i >= s.len() {
        None
    } else if s[i] == c {
        Some(i)
    } else {
        find_byte_from(s, c, i + 1)
    }
}

/// A destination-prefix character.
pub open spec fn is_adm(c: u8) -> bool {
    c == 'A' as u8 || c == 'D' as u8 || c == 'M' as u8
}

/// Index of the first non-destination character at or after `i` (or the
/// line's length).
pub open spec fn adm_end(s: Seq<u8>, i: int) -> int
    decreases s.len() - i,
{
    if 0 <= i < s.len() && is_adm(s[i]) {
        adm_end(s, i + 1)
    } else {
        i
    }
}

/// Length of the computation mnemonic at the head of `rest`: the longest
/// complete match against the fixed table, so a mnemonic that is a prefix
/// of a longer one never shadows it.
pub open spec fn comp_len(rest: Seq<u8>) -> Option<int> {
    if rest.len() >= 3 && spec_comp_code(rest.take(3)) is Some {
        Some(3int)
    } else if rest.len() >= 2 && spec_comp_code(rest.take(2)) is Some {
        Some(2int)
    } else if rest.len() >= 1 && spec_comp_code(rest.take(1)) is Some {
        Some(1int)
    } else {
        None
    }
}

/// What parsing `rest` as `comp` or `comp;jump` yields, with `dest` already
/// split off.
pub open spec fn spec_parse_comp_jump(dest: Option<Seq<u8>>, rest: Seq<u8>) -> Option<
    InstructionView,
> {
    match comp_len(rest) {
        Some(n) => {
            let comp = rest.take(n);
            let after = rest.skip(n);
            if after.len() == 0 {
                Some(InstructionView::C { dest, comp, jump: None })
            } else if after[0] == ';' as u8 {
                Some(InstructionView::C { dest, comp, jump: Some(after.drop_first()) })
            } else {
                None
            }
        },
        None => None,
    }
}

/// What parsing a clean line as a compute instruction yields.
pub open spec fn spec_parse_c(l: Seq<u8>) -> Option<InstructionView> {
    let k = adm_end(l, 0);
    if 1 <= k < l.len() && l[k] == '=' as u8 {
        spec_parse_comp_jump(Some(l.take(k)), l.skip(k + 1))
    } else {
        spec_parse_comp_jump(None, l)
    }
}

/// What parsing a clean line as a label directive yields: `(`, the name up
/// to the next `)`, then `)` as the last character of the line.
pub open spec fn spec_parse_label(l: Seq<u8>) -> Option<InstructionView> {
    match find_byte_from(l, ')' as u8, 1) {
        Some(j) => if j == l.len() - 1 {
            Some(InstructionView::L(l.subrange(1, j)))
        } else {
            None
        },
        None => None,
    }
}

/// What parsing one clean line yields: the three grammar alternatives in
/// order, or `None` for a syntax error.
pub open spec fn spec_parse_line(l: Seq<u8>) -> Option<InstructionView> {
    if l.len() > 0 && l[0] == '@' as u8 {
        Some(InstructionView::A(l.drop_first()))
    } else if l.len() > 0 && l[0] == '(' as u8 {
        spec_parse_label(l)
    } else {
        spec_parse_c(l)
    }
}

/// Folds one raw line into the result of parsing the lines after it:
/// skipped lines contribute nothing, a parsed instruction is prepended,
/// and a syntax error carries the offending clean line, earliest first.
pub open spec fn spec_handle_line(line: Seq<u8>, tail: Result<Seq<InstructionView>, Seq<u8>>) -> Result<
    Seq<InstructionView>,
    Seq<u8>,
> {
    if !spec_needs_parsing(line) {
        tail
    } else {
        match spec_parse_line(spec_clean_line(line)) {
            Some(iv) => match tail {
                Ok(tl) => Ok(seq![iv] + tl),
                Err(e) => Err(e),
            },
            None => Err(spec_clean_line(line)),
        }
    }
}

/// Parses the remainder `s` of a source text, with `cur` the bytes of the
/// current line read so far. Lines are split at `\n`.
pub open spec fn spec_parse_lines(s: Seq<u8>, cur: Seq<u8>) -> Result<
    Seq<InstructionView>,
    Seq<u8>,
>
    decreases s.len(),
{
    if s.len() == 0 {
        spec_handle_line(cur, Ok(seq![]))
    } else if s[0] == '\n' as u8 {
        spec_handle_line(cur, spec_parse_lines(s.drop_first(), seq![]))
    } else {
        spec_parse_lines(s.drop_first(), cur.push(s[0]))
    }
}

/// What parsing a whole source text yields: the instructions of all lines
/// that reach the grammar, in source order, or the first line that matches
/// no grammar alternative.
pub open spec fn spec_parse_source(s: Seq<u8>) -> Result<Seq<InstructionView>, Seq<u8>> {
    spec_parse_lines(s, seq![])
}

/// Whether a raw line reaches the grammar: false for empty and
/// comment-only lines.
pub fn needs_parsing(line: &[u8]) -> (r: bool)
    ensures
        r == spec_needs_parsing(line@),
{
    let (a, b) = trim_bounds(line);
    if b == a {
        false
    } else if b - a >= 2 && line[a] == '/' as u8 && line[a + 1] == '/' as u8 {
        false
    } else {
        true
    }
}

/// Cuts a trailing `//` comment off and trims surrounding whitespace.
pub fn remove_trailing_comments(line: &[u8]) -> (r: Vec<u8>)
    ensures
        r@ == spec_clean_line(line@),
{
    let cut = find_comment(line);
    let head = slice_subrange(line, 0, cut);
    let (a, b) = trim_bounds(head);
    slice_to_vec(slice_subrange(head, a, b))
}

/// Finds the start of a trailing `//` comment, or the line's length.
fn find_comment(line: &[u8]) -> (cut: usize)
    ensures
        cut <= line@.len(),
        spec_remove_comment(line@) == line@.take(cut as int),
{
    if line.len() < 2 {
        proof {
            assert(line@.take(line@.len() as int) =~= line@);
        }
        return line.len();
    }
    let mut i: usize = 0;
    while i <= line.len() - 2
        invariant
            2 <= line@.len(),
            i <= line@.len() - 1,
            comment_start_from(line@, 0) == comment_start_from(line@, i as int),
        decreases line@.len() - i,
    {
        if line[i] == '/' as u8 && line[i + 1] == '/' as u8 {
            return i;
        }
        i = i + 1;
    }
    proof {
        assert(line@.take(line@.len() as int) =~= line@);
    }
    line.len()
}

/// Finds the first occurrence of `c` at or after `from`.
fn find_byte(s: &[u8], c: u8, from: usize) -> (r: Option<usize>)
    requires
        from <= s@.len(),
    ensures
        match r {
            Some(i) => from <= i < s@.len() && find_byte_from(s@, c, from as int) == Some(i as int),
            None => find_byte_from(s@, c, from as int) is None,
        },
{
    let mut i: usize = from;
    while i < s.len()
        invariant
            from <= i <= s@.len(),
            find_byte_from(s@, c, from as int) == find_byte_from(s@, c, i as int),
        decreases s@.len() - i,
    {
        if s[i] == c {
            return Some(i);
        }
        i = i + 1;
    }
    None
}

/// Finds the bounds of `s` with surrounding whitespace trimmed.
fn trim_bounds(s: &[u8]) -> (r: (usize, usize))
    ensures
        r.0 <= r.1 <= s@.len(),
        spec_trim(s@) == s@.subrange(r.0 as int, r.1 as int),
{
    let mut a: usize = 0;
    while a < s.len() && is_space_byte(s[a])
        invariant
            a <= s@.len(),
            forall|j: int| 0 <= j < a ==> is_space(s@[j]),
        decreases s@.len() - a,
    {
        a = a + 1;
    }
    let mut b: usize = s.len();
    while b > a && is_space_byte(s[b - 1])
        invariant
            a <= b <= s@.len(),
            forall|j: int| b <= j < s@.len() ==> is_space(s@[j]),
        decreases b,
    {
        b = b - 1;
    }
    proof {
        lemma_trim_front_skip(s@, a as int);
        lemma_trim_back_take(s@.skip(a as int), b - a);
        assert(s@.skip(a as int).take(b - a) =~= s@.subrange(a as int, b as int));
    }
    (a, b)
}

/// Whether a byte is ASCII whitespace.
fn is_space_byte(c: u8) -> (r: bool)
    ensures
        r == is_space(c),
{
    c == ' ' as u8 || c == '\t' as u8 || c == '\n' as u8 || c == '\r' as u8 || c == 0x0b || c
        == 0x0c
}

/// Trimming the front skips exactly the leading run of whitespace.
proof fn lemma_trim_front_skip(s: Seq<u8>, i: int)
    requires
        0 <= i <= s.len(),
        forall|j: int| 0 <= j < i ==> is_space(s[j]),
        i == s.len() || !is_space(s[i]),
    ensures
        trim_front(s) == s.skip(i),
    decreases i,
{
    if i == 0 {
        assert(s.skip(0) =~= s);
    } else {
        lemma_trim_front_skip(s.drop_first(), i - 1);
        assert(s.drop_first().skip(i - 1) =~= s.skip(i));
    }
}

/// Trimming the back drops exactly the trailing run of whitespace.
proof fn lemma_trim_back_take(s: Seq<u8>, i: int)
    requires
        0 <= i <= s.len(),
        forall|j: int| i <= j < s.len() ==> is_space(s[j]),
        i == 0 || !is_space(s[i - 1]),
    ensures
        trim_back(s) == s.take(i),
    decreases s.len() - i,
{
    if i == s.len() {
        assert(s.take(i) =~= s);
    } else {
        lemma_trim_back_take(s.drop_last(), i);
        assert(s.drop_last().take(i) =~= s.take(i));
    }
}

/// Finds where the destination prefix of `A`/`M`/`D` characters ends.
fn adm_end_exec(s: &[u8]) -> (r: usize)
    ensures
        r <= s@.len(),
        r == adm_end(s@, 0),
{
    let mut i: usize = 0;
    while i < s.len() && is_adm_byte(s[i])
        invariant
            i <= s@.len(),
            adm_end(s@, 0) == adm_end(s@, i as int),
        decreases s@.len() - i,
    {
        i = i + 1;
    }
    i
}

/// Whether a byte is a destination-prefix character.
fn is_adm_byte(c: u8) -> (r: bool)
    ensures
        r == is_adm(c),
{
    c == 'A' as u8 || c == 'D' as u8 || c == 'M' as u8
}

/// Parses one clean line, or reports a syntax error as `None`.
fn parse_line(line: &[u8]) -> (r: Option<Instruction>)
    ensures
        match r {
            Some(inst) => spec_parse_line(line@) == Some(inst@),
            None => spec_parse_line(line@) is None,
        },
{
    if line.len() > 0 && line[0] == '@' as u8 {
        let sym = slice_to_vec(slice_subrange(line, 1, line.len()));
        proof {
            assert(sym@ =~= line@.drop_first());
        }
        Some(Instruction::A(sym))
    } else if line.len() > 0 && line[0] == '(' as u8 {
        match find_byte(line, ')' as u8, 1) {
            Some(j) => if j == line.len() - 1 {
                Some(Instruction::L(slice_to_vec(slice_subrange(line, 1, j))))
            } else {
                None
            },
            None => None,
        }
    } else {
        parse_c(line)
    }
}

/// Parses one clean line as a compute instruction.
fn parse_c(line: &[u8]) -> (r: Option<Instruction>)
    ensures
        match r {
            Some(inst) => spec_parse_c(line@) == Some(inst@),
            None => spec_parse_c(line@) is None,
        },
{
    let k = adm_end_exec(line);
    if k >= 1 && k < line.len() && line[k] == '=' as u8 {
        let dest = slice_to_vec(slice_subrange(line, 0, k));
        let rest = slice_subrange(line, k + 1, line.len());
        proof {
            assert(rest@ =~= line@.skip(k + 1));
        }
        parse_comp_jump(Some(dest), Ghost(Some(line@.take(k as int))), rest)
    } else {
        parse_comp_jump(None, Ghost(None), line)
    }
}

/// Parses `rest` as `comp` or `comp;jump`, with `dest` already split off.
fn parse_comp_jump(dest: Option<Vec<u8>>, dest_view: Ghost<Option<Seq<u8>>>, rest: &[u8]) -> (r:
    Option<Instruction>)
    requires
        dest_view@ == match dest {
            Some(d) => Some(d@),
            None => None::<Seq<u8>>,
        },
    ensures
        match r {
            Some(inst) => spec_parse_comp_jump(dest_view@, rest@) == Some(inst@),
            None => spec_parse_comp_jump(dest_view@, rest@) is None,
        },
{
    let n: usize = if rest.len() >= 3 && crate::code::comp_code(
        slice_subrange(rest, 0, 3),
    ).is_some() {
        3
    } else if rest.len() >= 2 && crate::code::comp_code(slice_subrange(rest, 0, 2)).is_some() {
        2
    } else if rest.len() >= 1 && crate::code::comp_code(slice_subrange(rest, 0, 1)).is_some() {
        1
    } else {
        return None;
    };
    let comp = slice_to_vec(slice_subrange(rest, 0, n));
    if rest.len() == n {
        Some(Instruction::C { dest, comp, jump: None })
    } else if rest[n] == ';' as u8 {
        let jump = slice_to_vec(slice_subrange(rest, n + 1, rest.len()));
        proof {
            assert(jump@ =~= rest@.skip(n as int).drop_first());
        }
        Some(Instruction::C { dest, comp, jump: Some(jump) })
    } else {
        None
    }
}

/// Parses a whole source text into instructions.
///
/// Lines are split at `\n`; a line that is empty or holds only a comment
/// after trimming is skipped; every other line has its trailing comment
/// cut off, is trimmed, and must match one of the three grammar
/// alternatives. The first line that matches none is reported as a syntax
/// error carrying that clean line.
pub fn parse(input: &[u8]) -> (r: Result<Vec<Instruction>, AsmError>)
    ensures
        match r {
            Ok(v) => spec_parse_source(input@) == Ok::<_, Seq<u8>>(abs_instructions(v@)),
            Err(e) => spec_parse_source(input@) matches Err(l) && e@ == AsmErrorView::Syntax(l),
        },
{
    let mut out: Vec<Instruction> = Vec::new();
    let mut p: usize = 0;
    proof {
        assert(input@.skip(0) =~= input@);
        assert(abs_instructions(out@) + Seq::<InstructionView>::empty() =~= abs_instructions(
            out@,
        ));
    }
    while p < input.len()
        invariant
            p <= input@.len(),
            match spec_parse_lines(input@.skip(p as int), Seq::<u8>::empty()) {
                Ok(tl) => spec_parse_source(input@) == Ok::<_, Seq<u8>>(
                    abs_instructions(out@) + tl,
                ),
                Err(e) => spec_parse_source(input@) == Err::<Seq<InstructionView>, _>(e),
            },
        decreases input@.len() - p,
    {
        let j = match find_byte(input, '\n' as u8, p) {
            Some(j) => j,
            None => input.len(),
        };
        proof {
            lemma_find_byte_props(input@, '\n' as u8, p as int);
            lemma_parse_lines_split(input@, Seq::<u8>::empty(), p as int, j as int);
            assert(Seq::<u8>::empty() + input@.subrange(p as int, j as int) =~= input@.subrange(
                p as int,
                j as int,
            ));
        }
        let line = slice_subrange(input, p, j);
        if needs_parsing(line) {
            let clean = remove_trailing_comments(line);
            match parse_line(clean.as_slice()) {
                Some(inst) => {
                    let ghost prev = abs_instructions(out@);
                    let ghost iv = inst@;
                    out.push(inst);
                    proof {
                        assert(abs_instructions(out@) =~= prev.push(iv));
                        assert(forall|tl: Seq<InstructionView>|
                            prev.push(iv) + tl =~= prev + (seq![iv] + tl));
                    }
                },
                None => {
                    return Err(AsmError::Syntax(clean));
                },
            }
        }
        p = if j == input.len() {
            input.len()
        } else {
            j + 1
        };
    }
    proof {
        assert(input@.skip(input@.len() as int) =~= Seq::<u8>::empty());
        assert(abs_instructions(out@) + Seq::<InstructionView>::empty() =~= abs_instructions(
            out@,
        ));
    }
    Ok(out)
}

/// What `find_byte_from` finding (or not finding) `c` says about the bytes.
proof fn lemma_find_byte_props(s: Seq<u8>, c: u8, i: int)
    requires
        0 <= i <= s.len(),
    ensures
        match find_byte_from(s, c, i) {
            Some(j) => i <= j < s.len() && s[j] == c && forall|t: int| i <= t < j ==> s[t] != c,
            None => forall|t: int| i <= t < s.len() ==> s[t] != c,
        },
    decreases s.len() - i,
{
    if i < s.len() && s[i] != c {
        lemma_find_byte_props(s, c, i + 1);
    }
}

/// Splitting the remaining source at the next line end: parsing from `p`
/// handles the line `cur + s[p..j]` and goes on after the newline.
proof fn lemma_parse_lines_split(s: Seq<u8>, cur: Seq<u8>, p: int, j: int)
    requires
        0 <= p <= j <= s.len(),
        forall|t: int| p <= t < j ==> s[t] != '\n' as u8,
        j == s.len() || s[j] == '\n' as u8,
    ensures
        spec_parse_lines(s.skip(p), cur) == spec_handle_line(
            cur + s.subrange(p, j),
            if j == s.len() {
                Ok::<Seq<InstructionView>, Seq<u8>>(seq![])
            } else {
                spec_parse_lines(s.skip(j + 1), seq![])
            },
        ),
    decreases j - p,
{
    if p == j {
        if j == s.len() {
            assert(s.skip(p) =~= Seq::<u8>::empty());
            assert(cur + s.subrange(p, j) =~= cur);
        } else {
            assert(s.skip(p)[0] == '\n' as u8);
            assert(s.skip(p).drop_first() =~= s.skip(j + 1));
            assert(cur + s.subrange(p, j) =~= cur);
        }
    } else {
        assert(s.skip(p)[0] == s[p]);
        assert(s.skip(p).drop_first() =~= s.skip(p + 1));
        lemma_parse_lines_split(s, cur.push(s[p]), p + 1, j);
        assert(cur.push(s[p]) + s.subrange(p + 1, j) =~= cur + s.subrange(p, j));
    }
}

} // verus!
