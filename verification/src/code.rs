//! The encoder: resolves address instructions through the three symbol
//! namespaces and packs compute instructions into their fixed bit fields.

use crate::error::{AsmError, AsmErrorView};
use crate::parser::{abs_instructions, Instruction, InstructionView};
use crate::symbol::{predefined, spec_predefined, tbl_lookup, Labels, Variables,
    VARIABLES_RAM_OFFSET};
use vstd::prelude::*;
use vstd::slice::slice_to_vec;

pub use c_translation::{comp_code, dest_code, jump_code};
pub use c_translation::{spec_comp_code, spec_dest_code, spec_jump_code};

mod c_translation;

verus! {

/// A compute word: the fixed `111` opcode in the top three bits, the
/// computation code in bits 6..=12, the destination code in bits 3..=5 and
/// the jump code in bits 0..=2.
pub open spec fn spec_c_word(d: u16, c: u16, j: u16) -> u16
    recommends
        d < 8,
        c < 128,
        j < 8,
{
    (0b111 * 0x2000 + c * 0x40 + d * 8 + j) as u16
}

/// The view of an optional borrowed byte string.
pub open spec fn opt_bytes_view(o: Option<&[u8]>) -> Option<Seq<u8>> {
    match o {
        Some(s) => Some(s@),
        None => None,
    }
}

/// The view of a `Result` carrying a machine word.
pub open spec fn word_result_view(r: Result<u16, AsmError>) -> Result<u16, AsmErrorView> {
    match r {
        Ok(w) => Ok(w),
        Err(e) => Err(e@),
    }
}

/// What encoding a compute instruction yields: the packed word, or the
/// first mnemonic that no fixed table holds, checked in the order
/// computation, destination, jump. An absent destination or jump encodes
/// as all-zero bits.
pub open spec fn spec_translate_c(
    dest: Option<Seq<u8>>,
    comp: Seq<u8>,
    jump: Option<Seq<u8>>,
) -> Result<u16, AsmErrorView> {
    let c = spec_comp_code(comp);
    let d = match dest {
        Some(ds) => spec_dest_code(ds),
        None => Some(0u16),
    };
    let j = match jump {
        Some(js) => spec_jump_code(js),
        None => Some(0u16),
    };
    if c is None {
        Err(AsmErrorView::UnknownComp(comp))
    } else if d is None {
        Err(AsmErrorView::UnknownDest(dest.unwrap()))
    } else if j is None {
        Err(AsmErrorView::UnknownJump(jump.unwrap()))
    } else {
        Ok(spec_c_word(d.unwrap(), c.unwrap(), j.unwrap()))
    }
}

/// Encodes a compute instruction from its mnemonics; an absent destination
/// or jump selects the all-zero code.
pub fn translate_c_instruction(dest: Option<&[u8]>, comp: &[u8], jump: Option<&[u8]>) -> (r:
    Result<u16, AsmError>)
    ensures
        word_result_view(r) == spec_translate_c(opt_bytes_view(dest), comp@, opt_bytes_view(jump)),
{
    let c = match comp_code(comp) {
        Some(c) => c,
        None => {
            return Err(AsmError::UnknownComp(slice_to_vec(comp)));
        },
    };
    let d = match dest {
        Some(ds) => match dest_code(ds) {
            Some(d) => d,
            None => {
                return Err(AsmError::UnknownDest(slice_to_vec(ds)));
            },
        },
        None => 0u16,
    };
    let j = match jump {
        Some(js) => match jump_code(js) {
            Some(j) => j,
            None => {
                return Err(AsmError::UnknownJump(slice_to_vec(js)));
            },
        },
        None => 0u16,
    };
    proof {
        assert(c < 128);
        assert(d < 8);
        assert(j < 8);
    }
    Ok(0b111u16 * 0x2000 + c * 0x40 + d * 8 + j)
}

/// The textual rendering of one machine word: exactly 16 ASCII `0`/`1`
/// characters, most-significant bit first.
pub open spec fn spec_render_word(w: u16) -> Seq<u8> {
    Seq::new(
        16,
        |i: int|
            if (w >> ((15 - i) as u16)) & 1 == 1 {
                '1' as u8
            } else {
                '0' as u8
            },
    )
}

/// Renders one machine word as 16 binary digits, most-significant bit
/// first.
pub fn render_word(word: u16) -> (r: Vec<u8>)
    ensures
        r@ == spec_render_word(word),
{
    let mut r: Vec<u8> = Vec::new();
    let mut i: usize = 0;
    while i < 16
        invariant
            i <= 16,
            r@.len() == i,
            forall|j: int| 0 <= j < i ==> r@[j] == spec_render_word(word)[j],
        decreases 16 - i,
    {
        let shift: u16 = (15 - i) as u16;
        let bit = (word >> shift) & 1;
        r.push(if bit == 1 { '1' as u8 } else { '0' as u8 });
        i = i + 1;
    }
    proof {
        assert(r@ =~= spec_render_word(word));
    }
    r
}

/// A decimal digit.
pub open spec fn is_digit(c: u8) -> bool {
    '0' as u8 <= c && c <= '9' as u8
}

/// Whether every byte of `s` is a decimal digit.
pub open spec fn all_digits(s: Seq<u8>) -> bool {
    forall|i: int| 0 <= i < s.len() ==> is_digit(s[i])
}

/// Numeric value of a digit string.
pub open spec fn dec_val(s: Seq<u8>) -> int
    decreases s.len(),
{
    if s.len() == 0 {
        0
    } else {
        dec_val(s.drop_last()) * 10 + (s.last() - '0' as u8)
    }
}

/// The digits of a decimal literal: an optional leading `+` sign is
/// accepted and ignored.
pub open spec fn spec_dec_digits(s: Seq<u8>) -> Seq<u8> {
    if s.len() > 0 && s[0] == '+' as u8 {
        s.drop_first()
    } else {
        s
    }
}

/// What reading a symbol as a non-negative decimal literal yields: its
/// value, provided the symbol is one or more digits (after an optional
/// leading `+`) and the value fits in 16 bits; `None` otherwise, so an
/// out-of-range literal falls through to name resolution.
pub open spec fn spec_dec_value(sym: Seq<u8>) -> Option<u16> {
    let ds = spec_dec_digits(sym);
    if ds.len() > 0 && all_digits(ds) && dec_val(ds) <= 0xffff {
        Some(dec_val(ds) as u16)
    } else {
        None
    }
}

/// The value of a digit string is at least the value of any of its
/// prefixes.
proof fn lemma_dec_val_prefix(s: Seq<u8>, k: int)
    requires
        0 <= k <= s.len(),
        all_digits(s),
    ensures
        0 <= dec_val(s.take(k)) <= dec_val(s),
    decreases s.len() - k,
{
    if k == s.len() {
        assert(s.take(k) =~= s);
        lemma_dec_val_nonneg(s);
    } else {
        lemma_dec_val_prefix(s, k + 1);
        assert(s.take(k + 1).drop_last() =~= s.take(k));
        lemma_dec_val_nonneg(s.take(k));
    }
}

/// A digit string's value is non-negative.
proof fn lemma_dec_val_nonneg(s: Seq<u8>)
    requires
        all_digits(s),
    ensures
        dec_val(s) >= 0,
    decreases s.len(),
{
    if s.len() > 0 {
        assert(all_digits(s.drop_last()));
        lemma_dec_val_nonneg(s.drop_last());
    }
}

/// Reads a symbol as a non-negative 16-bit decimal literal.
fn dec_value(sym: &[u8]) -> (r: Option<u16>)
    ensures
        r == spec_dec_value(sym@),
{
    let start: usize = if sym.len() > 0 && sym[0] == '+' as u8 {
        1
    } else {
        0
    };
    let ghost ds = spec_dec_digits(sym@);
    proof {
        assert(ds =~= sym@.skip(start as int));
    }
    if sym.len() == start {
        return None;
    }
    let mut acc: u32 = 0;
    let mut i: usize = start;
    proof {
        assert(ds.take(0) =~= Seq::<u8>::empty());
    }
    while i < sym.len()
        invariant
            start <= i <= sym@.len(),
            ds == spec_dec_digits(sym@),
            ds == sym@.skip(start as int),
            all_digits(ds.take(i - start)),
            acc == dec_val(ds.take(i - start)),
            acc <= 0xffff,
        decreases sym@.len() - i,
    {
        let c = sym[i];
        if c < '0' as u8 || c > '9' as u8 {
            assert(!is_digit(ds[i - start]));
            return None;
        }
        assert(ds.take(i - start + 1).drop_last() =~= ds.take(i - start));
        acc = acc * 10 + (c - '0' as u8) as u32;
        i = i + 1;
        if acc > 0xffff {
            proof {
                if all_digits(ds) {
                    lemma_dec_val_prefix(ds, i - start);
                }
                assert(ds.take(ds.len() as int) =~= ds);
            }
            return None;
        }
    }
    proof {
        assert(ds.take(ds.len() as int) =~= ds);
    }
    Some(acc as u16)
}

/// What resolving an address symbol against the label table and the
/// variable table so far yields: the 16-bit value together with the
/// (possibly grown) variable table, trying in order a decimal literal, the
/// predefined table, the label table, and the variable namespace, where a
/// previously unseen symbol is assigned the next free address from
/// [`crate::symbol::VARIABLES_RAM_OFFSET`] on. `None` only when that next
/// address would not fit in 16 bits.
pub open spec fn spec_resolve(
    sym: Seq<u8>,
    labels: Seq<(Seq<u8>, u16)>,
    vars: Seq<(Seq<u8>, u16)>,
) -> Option<(u16, Seq<(Seq<u8>, u16)>)> {
    if spec_dec_value(sym) is Some {
        Some((spec_dec_value(sym).unwrap(), vars))
    } else if spec_predefined(sym) is Some {
        Some((spec_predefined(sym).unwrap(), vars))
    } else if tbl_lookup(labels, sym) is Some {
        Some((tbl_lookup(labels, sym).unwrap(), vars))
    } else if tbl_lookup(vars, sym) is Some {
        Some((tbl_lookup(vars, sym).unwrap(), vars))
    } else if vars.len() + VARIABLES_RAM_OFFSET <= 0xffff {
        Some(
            (
                ((VARIABLES_RAM_OFFSET + vars.len()) as u16),
                vars.push((sym, (VARIABLES_RAM_OFFSET + vars.len()) as u16)),
            ),
        )
    } else {
        None
    }
}

/// Resolves an address instruction's raw symbol to its 16-bit value,
/// assigning a fresh address to a previously unseen variable.
pub fn translate_a_instruction(symbol: &[u8], labels: &Labels, variables: &mut Variables) -> (r:
    Result<u16, AsmError>)
    ensures
        match spec_resolve(symbol@, labels@, old(variables)@) {
            Some(t) => r == Ok::<u16, AsmError>(t.0) && final(variables)@ == t.1,
            None => r matches Err(e) && e is TooManyVariables && final(variables)@ == old(
                variables,
            )@,
        },
{
    if let Some(v) = dec_value(symbol) {
        return Ok(v);
    }
    if let Some(v) = predefined(symbol) {
        return Ok(v);
    }
    if let Some(v) = labels.get(symbol) {
        return Ok(v);
    }
    if let Some(v) = variables.get(symbol) {
        return Ok(v);
    }
    let n = variables.len();
    if n <= 0xffff - VARIABLES_RAM_OFFSET as usize {
        let address = VARIABLES_RAM_OFFSET + n as u16;
        variables.insert(slice_to_vec(symbol), address);
        Ok(address)
    } else {
        Err(AsmError::TooManyVariables)
    }
}

/// Whether an instruction occupies an output word (address and compute
/// instructions do; label directives do not).
pub open spec fn instr_is_real(iv: InstructionView) -> bool {
    !(iv is L)
}

/// How many output words a program occupies: its address and compute
/// instructions, label directives counting for nothing.
pub open spec fn real_count(ivs: Seq<InstructionView>) -> int
    decreases ivs.len(),
{
    if ivs.len() == 0 {
        0
    } else {
        (if instr_is_real(ivs[0]) {
            1int
        } else {
            0int
        }) + real_count(ivs.drop_first())
    }
}

/// The word count of a program is non-negative.
proof fn lemma_real_count_nonneg(ivs: Seq<InstructionView>)
    ensures
        real_count(ivs) >= 0,
    decreases ivs.len(),
{
    if ivs.len() > 0 {
        lemma_real_count_nonneg(ivs.drop_first());
    }
}

/// The label table after scanning `ivs` with program counter `pc`,
/// starting from the bindings in `acc`: each label directive binds its name
/// to the count of address/compute instructions before it, which is the
/// index of the next emitted word.
pub open spec fn spec_label_pass(
    ivs: Seq<InstructionView>,
    pc: int,
    acc: Seq<(Seq<u8>, u16)>,
) -> Seq<(Seq<u8>, u16)>
    decreases ivs.len(),
{
    if ivs.len() == 0 {
        acc
    } else {
        match ivs[0] {
            InstructionView::L(name) => spec_label_pass(
                ivs.drop_first(),
                pc,
                acc.push((name, pc as u16)),
            ),
            _ => spec_label_pass(ivs.drop_first(), pc + 1, acc),
        }
    }
}

/// The label table of a whole program.
pub open spec fn spec_labels(ivs: Seq<InstructionView>) -> Seq<(Seq<u8>, u16)> {
    spec_label_pass(ivs, 0, Seq::empty())
}

/// Builds the label table: binds every label directive to the
/// program-counter value of the next emitted word, so that labels declared
/// after their use resolve correctly. Fails only when the program has more
/// output words than the 16-bit program counter can address.
pub fn add_entry_for(labels: &mut Labels, instructions: &Vec<Instruction>) -> (r: Result<
    (),
    AsmError,
>)
    ensures
        real_count(abs_instructions(instructions@)) <= 0xffff ==> r is Ok && final(labels)@
            == spec_label_pass(abs_instructions(instructions@), 0, old(labels)@),
        real_count(abs_instructions(instructions@)) > 0xffff ==> (r matches Err(e) && e
            is ProgramTooLarge) && final(labels)@ == old(labels)@,
{
    let ghost ivs = abs_instructions(instructions@);
    let mut count: usize = 0;
    let mut i: usize = 0;
    proof {
        assert(ivs.skip(0) =~= ivs);
    }
    while i < instructions.len()
        invariant
            i <= instructions@.len(),
            count <= i,
            ivs == abs_instructions(instructions@),
            count + real_count(ivs.skip(i as int)) == real_count(ivs),
        decreases instructions@.len() - i,
    {
        proof {
            assert(ivs.skip(i as int).drop_first() =~= ivs.skip(i + 1));
        }
        match &instructions[i] {
            Instruction::L(_) => {},
            _ => {
                proof {
                    lemma_real_count_nonneg(ivs.skip(i + 1));
                }
                count = count + 1;
            },
        }
        i = i + 1;
    }
    proof {
        assert(ivs.skip(instructions@.len() as int) =~= Seq::<InstructionView>::empty());
    }
    if count > 0xffff {
        return Err(AsmError::ProgramTooLarge);
    }
    let mut pc: u16 = 0;
    let mut i: usize = 0;
    proof {
        assert(ivs.skip(0) =~= ivs);
    }
    while i < instructions.len()
        invariant
            i <= instructions@.len(),
            ivs == abs_instructions(instructions@),
            real_count(ivs) <= 0xffff,
            pc + real_count(ivs.skip(i as int)) == real_count(ivs),
            spec_label_pass(ivs, 0, old(labels)@) == spec_label_pass(
                ivs.skip(i as int),
                pc as int,
                labels@,
            ),
        decreases instructions@.len() - i,
    {
        proof {
            assert(ivs.skip(i as int).drop_first() =~= ivs.skip(i + 1));
            lemma_real_count_nonneg(ivs.skip(i + 1));
        }
        match &instructions[i] {
            Instruction::L(name) => {
                labels.insert(slice_to_vec(name.as_slice()), pc);
            },
            _ => {
                pc = pc + 1;
            },
        }
        i = i + 1;
    }
    proof {
        assert(ivs.skip(instructions@.len() as int) =~= Seq::<InstructionView>::empty());
    }
    Ok(())
}

/// Splitting a program splits its word count.
proof fn lemma_real_count_split(ivs: Seq<InstructionView>, k: int)
    requires
        0 <= k <= ivs.len(),
    ensures
        real_count(ivs) == real_count(ivs.take(k)) + real_count(ivs.skip(k)),
    decreases k,
{
    if k == 0 {
        assert(ivs.take(0) =~= Seq::<InstructionView>::empty());
        assert(ivs.skip(0) =~= ivs);
    } else {
        lemma_real_count_split(ivs.drop_first(), k - 1);
        assert(ivs.drop_first().take(k - 1) =~= ivs.take(k).drop_first());
        assert(ivs.drop_first().skip(k - 1) =~= ivs.skip(k));
        assert(ivs.take(k)[0] == ivs[0]);
    }
}

/// A name with no label directive in `ivs` keeps whatever binding `acc`
/// already gives it.
proof fn lemma_label_pass_frame(
    ivs: Seq<InstructionView>,
    pc: int,
    acc: Seq<(Seq<u8>, u16)>,
    name: Seq<u8>,
)
    requires
        forall|t: int|
            0 <= t < ivs.len() ==> !(ivs[t] is L && ivs[t]->L_0 == name),
    ensures
        tbl_lookup(spec_label_pass(ivs, pc, acc), name) == tbl_lookup(acc, name),
    decreases ivs.len(),
{
    if ivs.len() > 0 {
        match ivs[0] {
            InstructionView::L(other) => {
                let grown = acc.push((other, pc as u16));
                assert(grown.drop_last() =~= acc);
                lemma_label_pass_frame(ivs.drop_first(), pc, grown, name);
            },
            _ => {
                lemma_label_pass_frame(ivs.drop_first(), pc + 1, acc, name);
            },
        }
    }
}

/// The binding that the label pass gives to the directive at index `i`,
/// provided no later directive re-declares the same name.
proof fn lemma_label_pass_binding(
    ivs: Seq<InstructionView>,
    pc: int,
    acc: Seq<(Seq<u8>, u16)>,
    i: int,
)
    requires
        0 <= i < ivs.len(),
        ivs[i] is L,
        forall|t: int|
            i < t < ivs.len() ==> !(ivs[t] is L && ivs[t]->L_0 == ivs[i]->L_0),
        0 <= pc,
        pc + real_count(ivs.take(i)) <= 0xffff,
    ensures
        tbl_lookup(spec_label_pass(ivs, pc, acc), ivs[i]->L_0) == Some(
            (pc + real_count(ivs.take(i))) as u16,
        ),
    decreases ivs.len(),
{
    let name = ivs[i]->L_0;
    let rest = ivs.drop_first();
    assert(forall|t: int| 0 <= t < rest.len() ==> rest[t] == ivs[t + 1]);
    if i == 0 {
        assert(ivs.take(0) =~= Seq::<InstructionView>::empty());
        let grown = acc.push((name, pc as u16));
        lemma_label_pass_frame(rest, pc, grown, name);
        assert(tbl_lookup(grown, name) == Some(pc as u16));
    } else {
        assert(rest[i - 1] == ivs[i]);
        assert(ivs.take(i)[0] == ivs[0]);
        assert(rest.take(i - 1) =~= ivs.take(i).drop_first());
        match ivs[0] {
            InstructionView::L(other) => {
                lemma_label_pass_binding(rest, pc, acc.push((other, pc as u16)), i - 1);
            },
            _ => {
                lemma_label_pass_binding(rest, pc + 1, acc, i - 1);
            },
        }
    }
}

/// Law: a label directive with no later re-declaration of the same name
/// binds that name to the count of address and compute instructions before
/// it — the index of the next emitted word, so that the label pass serves
/// forward references.
pub proof fn lemma_label_binding(ivs: Seq<InstructionView>, i: int)
    requires
        0 <= i < ivs.len(),
        ivs[i] is L,
        forall|t: int|
            i < t < ivs.len() ==> !(ivs[t] is L && ivs[t]->L_0 == ivs[i]->L_0),
        real_count(ivs) <= 0xffff,
    ensures
        tbl_lookup(spec_labels(ivs), ivs[i]->L_0) == Some(real_count(ivs.take(i)) as u16),
{
    lemma_real_count_split(ivs, i);
    lemma_real_count_nonneg(ivs.take(i));
    lemma_real_count_nonneg(ivs.skip(i));
    lemma_label_pass_binding(ivs, 0, Seq::empty(), i);
}

/// What encoding the instructions `ivs` yields, given the full label table,
/// the variable table grown so far and the words `acc` emitted so far: one
/// word per address or compute instruction, in source order, or the first
/// error.
pub open spec fn spec_encode(
    ivs: Seq<InstructionView>,
    labels: Seq<(Seq<u8>, u16)>,
    vars: Seq<(Seq<u8>, u16)>,
    acc: Seq<u16>,
) -> Result<Seq<u16>, AsmErrorView>
    decreases ivs.len(),
{
    if ivs.len() == 0 {
        Ok(acc)
    } else {
        match ivs[0] {
            InstructionView::A(sym) => match spec_resolve(sym, labels, vars) {
                Some(t) => spec_encode(ivs.drop_first(), labels, t.1, acc.push(t.0)),
                None => Err(AsmErrorView::TooManyVariables),
            },
            InstructionView::C { dest, comp, jump } => match spec_translate_c(dest, comp, jump) {
                Ok(w) => spec_encode(ivs.drop_first(), labels, vars, acc.push(w)),
                Err(e) => Err(e),
            },
            InstructionView::L(_) => spec_encode(ivs.drop_first(), labels, vars, acc),
        }
    }
}

/// What translating a whole program yields: the label pass over the full
/// instruction sequence, then one encoded word per address or compute
/// instruction, with variables assigned addresses in order of first
/// appearance; or the first error.
pub open spec fn spec_translate(ivs: Seq<InstructionView>) -> Result<Seq<u16>, AsmErrorView> {
    if real_count(ivs) > 0xffff {
        Err(AsmErrorView::ProgramTooLarge)
    } else {
        spec_encode(ivs, spec_labels(ivs), Seq::empty(), Seq::empty())
    }
}

/// Translates a parsed program into its machine words: builds the label
/// table, then encodes each instruction in order, assigning variable
/// addresses on first appearance.
pub fn translate(instructions: Vec<Instruction>) -> (r: Result<Vec<u16>, AsmError>)
    ensures
        match r {
            Ok(v) => spec_translate(abs_instructions(instructions@)) == Ok::<_, AsmErrorView>(v@),
            Err(e) => spec_translate(abs_instructions(instructions@)) == Err::<Seq<u16>, _>(e@),
        },
{
    let ghost ivs = abs_instructions(instructions@);
    let mut labels = Labels::new();
    if let Err(e) = add_entry_for(&mut labels, &instructions) {
        proof {
            if real_count(ivs) <= 0xffff {
                assert(false);
            }
        }
        return Err(e);
    }
    proof {
        if real_count(ivs) > 0xffff {
            assert(false);
        }
        assert(labels@ == spec_labels(ivs));
    }
    let mut variables = Variables::new();
    let mut result: Vec<u16> = Vec::new();
    let mut i: usize = 0;
    proof {
        assert(ivs.skip(0) =~= ivs);
        assert(result@ =~= Seq::<u16>::empty());
        assert(variables@ =~= Seq::<(Seq<u8>, u16)>::empty());
    }
    while i < instructions.len()
        invariant
            i <= instructions@.len(),
            ivs == abs_instructions(instructions@),
            labels@ == spec_labels(ivs),
            real_count(ivs) <= 0xffff,
            spec_encode(ivs, labels@, Seq::empty(), Seq::empty()) == spec_encode(
                ivs.skip(i as int),
                labels@,
                variables@,
                result@,
            ),
        decreases instructions@.len() - i,
    {
        proof {
            assert(ivs.skip(i as int).drop_first() =~= ivs.skip(i + 1));
        }
        match &instructions[i] {
            Instruction::A(sym) => {
                match translate_a_instruction(sym.as_slice(), &labels, &mut variables) {
                    Ok(w) => {
                        result.push(w);
                    },
                    Err(e) => {
                        return Err(e);
                    },
                }
            },
            Instruction::C { dest, comp, jump } => {
                let d: Option<&[u8]> = match dest {
                    Some(dv) => Some(dv.as_slice()),
                    None => None,
                };
                let j: Option<&[u8]> = match jump {
                    Some(jv) => Some(jv.as_slice()),
                    None => None,
                };
                match translate_c_instruction(d, comp.as_slice(), j) {
                    Ok(w) => {
                        result.push(w);
                    },
                    Err(e) => {
                        return Err(e);
                    },
                }
            },
            Instruction::L(_) => {},
        }
        i = i + 1;
    }
    proof {
        assert(ivs.skip(instructions@.len() as int) =~= Seq::<InstructionView>::empty());
    }
    Ok(result)
}

/// Law: decoding a compute word by its fixed bit layout recovers the
/// destination, computation and jump codes that were encoded, and the top
/// three bits are the `111` opcode.
pub proof fn lemma_c_word_round_trip(d: u16, c: u16, j: u16)
    requires
        d < 8,
        c < 128,
        j < 8,
    ensures
        spec_c_word(d, c, j) >> 13 == 7,
        (spec_c_word(d, c, j) >> 6) & 0x7f == c,
        (spec_c_word(d, c, j) >> 3) & 0x7 == d,
        spec_c_word(d, c, j) & 0x7 == j,
{
    assert(((0b111 * 0x2000 + c * 0x40 + d * 8 + j) as u16) >> 13 == 7 && (((0b111 * 0x2000 + c
        * 0x40 + d * 8 + j) as u16) >> 6) & 0x7f == c && (((0b111 * 0x2000 + c * 0x40 + d * 8
        + j) as u16) >> 3) & 0x7 == d && ((0b111 * 0x2000 + c * 0x40 + d * 8 + j) as u16) & 0x7
        == j) by (bit_vector)
        requires
            d < 8,
            c < 128,
            j < 8,
    ;
}

/// Encoding appends exactly one word per address or compute instruction to
/// the words emitted so far.
proof fn lemma_encode_word_count(
    ivs: Seq<InstructionView>,
    labels: Seq<(Seq<u8>, u16)>,
    vars: Seq<(Seq<u8>, u16)>,
    acc: Seq<u16>,
    words: Seq<u16>,
)
    requires
        spec_encode(ivs, labels, vars, acc) == Ok::<_, AsmErrorView>(words),
    ensures
        words.len() == acc.len() + real_count(ivs),
    decreases ivs.len(),
{
    if ivs.len() > 0 {
        match ivs[0] {
            InstructionView::A(sym) => {
                let t = spec_resolve(sym, labels, vars).unwrap();
                lemma_encode_word_count(ivs.drop_first(), labels, t.1, acc.push(t.0), words);
            },
            InstructionView::C { dest, comp, jump } => {
                let w = spec_translate_c(dest, comp, jump)->Ok_0;
                lemma_encode_word_count(ivs.drop_first(), labels, vars, acc.push(w), words);
            },
            InstructionView::L(_) => {
                lemma_encode_word_count(ivs.drop_first(), labels, vars, acc, words);
            },
        }
    }
}

/// Law: a program that translates successfully emits exactly one output
/// word per address or compute instruction; label directives contribute no
/// word.
pub proof fn lemma_output_word_count(ivs: Seq<InstructionView>, words: Seq<u16>)
    requires
        spec_translate(ivs) == Ok::<_, AsmErrorView>(words),
    ensures
        words.len() == real_count(ivs),
{
    lemma_encode_word_count(ivs, spec_labels(ivs), Seq::empty(), Seq::empty(), words);
}

/// Law: a symbol that is no decimal literal, not predefined, no label and
/// not yet a variable is assigned the next free address — 16 plus the
/// number of variables seen before it — and resolving the same symbol
/// again yields that same address with the variable table unchanged.
pub proof fn lemma_variable_address_assignment(
    sym: Seq<u8>,
    labels: Seq<(Seq<u8>, u16)>,
    vars: Seq<(Seq<u8>, u16)>,
)
    requires
        spec_dec_value(sym) is None,
        spec_predefined(sym) is None,
        tbl_lookup(labels, sym) is None,
        tbl_lookup(vars, sym) is None,
        vars.len() + 16 <= 0xffff,
    ensures
        spec_resolve(sym, labels, vars) == Some(
            (((16 + vars.len()) as u16), vars.push((sym, (16 + vars.len()) as u16))),
        ),
        spec_resolve(sym, labels, vars.push((sym, (16 + vars.len()) as u16))) == Some(
            (((16 + vars.len()) as u16), vars.push((sym, (16 + vars.len()) as u16))),
        ),
{
    let grown = vars.push((sym, (16 + vars.len()) as u16));
    assert(grown.last() == (sym, (16 + vars.len()) as u16));
    assert(tbl_lookup(grown, sym) == Some((16 + vars.len()) as u16));
}

} // verus!

