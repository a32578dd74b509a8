//! Loading a program: source text to positioned instructions, with its loops
//! paired up.
//!
//! Lines and columns are counted in characters. The line of a character comes
//! from line_col, which works on UTF-8 byte offsets; the lemmas below show
//! that it is the line counted in characters.

use vstd::prelude::*;
use vstd::utf8::{char_is_scalar, char_u32_cast, encode_scalar, encode_utf8, has_width_1_encoding};

use std::collections::HashMap;

use crate::ops::{op_of_char, Operation};
use crate::vm_error::VirtualMachineError;

verus! {

broadcast use vstd::std_specs::hash::group_hash_axioms;

/// An operation with the line and column at which it was written.
#[derive(Debug, Clone, Copy)]
pub struct InstructionInfo {
    operation: Operation,
    line: usize,
    column: usize,
}

impl InstructionInfo {
    /// The operation.
    pub closed spec fn spec_operation(self) -> Operation {
        self.operation
    }

    /// The 1-based line.
    pub closed spec fn spec_line(self) -> usize {
        self.line
    }

    /// The 1-based column.
    pub closed spec fn spec_column(self) -> usize {
        self.column
    }

    /// An instruction from its parts.
    pub fn new(operation: Operation, line: usize, column: usize) -> (r: Self)
        ensures
            r.spec_operation() == operation,
            r.spec_line() == line,
            r.spec_column() == column,
    {
        Self { operation, line, column }
    }

    /// The operation.
    pub fn operation(&self) -> (r: Operation)
        ensures
            r == self.spec_operation(),
    {
        self.operation
    }

    /// The line on which the instruction stands.
    pub fn line(&self) -> (r: usize)
        ensures
            r == self.spec_line(),
    {
        self.line
    }

    /// The column at which the instruction stands.
    pub fn column(&self) -> (r: usize)
        ensures
            r == self.spec_column(),
    {
        self.column
    }
}

/// The indices, in order, of the characters among the first `n` of `text`
/// that spell an operation.
pub open spec fn op_indices(text: Seq<char>, n: int) -> Seq<int>
    decreases n,
{
    if n <= 0 {
        seq![]
    } else {
        let before = op_indices(text, n - 1);
        if op_of_char(text[n - 1]) is Some {
            before.push(n - 1)
        } else {
            before
        }
    }
}

/// Line breaks among the first `i` characters.
pub open spec fn breaks_before(text: Seq<char>, i: int) -> nat
    decreases i,
{
    if i <= 0 {
        0
    } else {
        breaks_before(text, i - 1) + if text[i - 1] == '\n' {
            1nat
        } else {
            0nat
        }
    }
}

/// The index of the first character of the line that holds index `i`.
pub open spec fn line_start(text: Seq<char>, i: int) -> int
    decreases i,
{
    if i <= 0 {
        0
    } else if text[i - 1] == '\n' {
        i
    } else {
        line_start(text, i - 1)
    }
}

/// The 1-based line of the character at index `i`.
pub open spec fn line_of(text: Seq<char>, i: int) -> int {
    breaks_before(text, i) as int + 1
}

/// The 1-based column of the character at index `i`, counted in characters.
pub open spec fn column_of(text: Seq<char>, i: int) -> int {
    i - line_start(text, i) + 1
}

/// The instructions that `text` spells: one for each character that spells
/// an operation, in source order, with the line and column of that character.
pub open spec fn spells(instructions: Seq<InstructionInfo>, text: Seq<char>) -> bool {
    let indices = op_indices(text, text.len() as int);
    &&& instructions.len() == indices.len()
    &&& forall|k: int|
        0 <= k < indices.len() ==> {
            let x = #[trigger] instructions[k];
            &&& op_of_char(text[indices[k]]) == Some(x.spec_operation())
            &&& x.spec_line() == line_of(text, indices[k])
            &&& x.spec_column() == column_of(text, indices[k])
        }
}

/// Line breaks among the first `i` bytes of a UTF-8 text.
pub open spec fn byte_breaks_before(bytes: Seq<u8>, i: int) -> nat
    decreases i,
{
    if i <= 0 {
        0
    } else {
        byte_breaks_before(bytes, i - 1) + if bytes[i - 1] == 10 {
            1nat
        } else {
            0nat
        }
    }
}

/// The byte offset at which the line that holds byte offset `i` begins.
pub open spec fn byte_line_start(bytes: Seq<u8>, i: int) -> int
    decreases i,
{
    if i <= 0 {
        0
    } else if bytes[i - 1] == 10 {
        i
    } else {
        byte_line_start(bytes, i - 1)
    }
}

/// The operations of a sequence of instructions.
pub open spec fn operations(instructions: Seq<InstructionInfo>) -> Seq<Operation> {
    instructions.map_values(|x: InstructionInfo| x.spec_operation())
}

/// Pairs the brackets among the first `n` operations with a stack: an open
/// bracket is pushed; a close bracket pops the latest open one and is paired
/// with it. The result is the stack of still open brackets with the pairs
/// (open index to close index) so far, or the index of the first close
/// bracket that found the stack empty.
pub open spec fn scan_brackets(ops: Seq<Operation>, n: nat) -> Result<
    (Seq<usize>, Map<usize, usize>),
    nat,
>
    decreases n,
{
    if n == 0 {
        Ok((seq![], map![]))
    } else {
        let i = (n - 1) as nat;
        match scan_brackets(ops, i) {
            Err(k) => Err(k),
            Ok((stack, pairs)) => {
                if ops[i as int] == Operation::StartLoop {
                    Ok((stack.push(i as usize), pairs))
                } else if ops[i as int] == Operation::EndLoop {
                    if stack.len() == 0 {
                        Err(i)
                    } else {
                        Ok((stack.drop_last(), pairs.insert(stack.last(), i as usize)))
                    }
                } else {
                    Ok((stack, pairs))
                }
            },
        }
    }
}

/// The error for a bracket without a partner.
pub open spec fn unmatched(bracket: char, x: InstructionInfo) -> VirtualMachineError {
    VirtualMachineError::UnmatchedBracket { bracket, line: x.spec_line(), column: x.spec_column() }
}

/// Why the brackets of `instructions` cannot be paired, if they cannot: the
/// first close bracket with no open one before it; failing that, the latest
/// open bracket that is still open at the end.
pub open spec fn bracket_error(instructions: Seq<InstructionInfo>) -> Option<VirtualMachineError> {
    let ops = operations(instructions);
    match scan_brackets(ops, ops.len()) {
        Err(k) => Some(unmatched(']', instructions[k as int])),
        Ok((stack, _)) => if stack.len() > 0 {
            Some(unmatched('[', instructions[stack.last() as int]))
        } else {
            None
        },
    }
}

/// The pairs, open index to close index, of the brackets of `instructions`.
pub open spec fn bracket_pairs(instructions: Seq<InstructionInfo>) -> Map<usize, usize> {
    let ops = operations(instructions);
    match scan_brackets(ops, ops.len()) {
        Ok((_, pairs)) => pairs,
        Err(_) => map![],
    }
}

/// `closes` maps each close index of `pairs` back to its open index, and holds
/// nothing else.
pub open spec fn is_inverse(pairs: Map<usize, usize>, closes: Map<usize, usize>) -> bool {
    &&& forall|i: usize| #[trigger]
        pairs.contains_key(i) ==> closes.contains_key(pairs[i]) && closes[pairs[i]] == i
    &&& forall|j: usize| #[trigger]
        closes.contains_key(j) ==> pairs.contains_key(closes[j]) && pairs[closes[j]] == j
}

/// Every loop of `ops` is paired: each open index maps to a later close
/// index, each open bracket has an entry, and each close bracket is the
/// partner of exactly one open bracket (`closes` is the inverse).
pub open spec fn loops_paired(
    ops: Seq<Operation>,
    pairs: Map<usize, usize>,
    closes: Map<usize, usize>,
) -> bool {
    &&& is_inverse(pairs, closes)
    &&& forall|i: usize| #[trigger]
        pairs.contains_key(i) ==> {
            &&& i < pairs[i] < ops.len()
            &&& ops[i as int] == Operation::StartLoop
            &&& ops[pairs[i] as int] == Operation::EndLoop
        }
    &&& forall|i: int|
        0 <= i < ops.len() && #[trigger] ops[i] == Operation::StartLoop ==> pairs.contains_key(
            i as usize,
        )
    &&& forall|j: int|
        0 <= j < ops.len() && #[trigger] ops[j] == Operation::EndLoop ==> closes.contains_key(
            j as usize,
        )
}

/// What holds of the stack scan after `n` operations, when it has not failed.
pub open spec fn scan_state_ok(
    ops: Seq<Operation>,
    n: nat,
    stack: Seq<usize>,
    pairs: Map<usize, usize>,
) -> bool {
    &&& forall|k: int| 0 <= k < stack.len() ==> #[trigger] stack[k] < n
    &&& forall|k: int|
        0 <= k < stack.len() ==> ops[#[trigger] stack[k] as int] == Operation::StartLoop
    &&& forall|k: int, l: int| 0 <= k < l < stack.len() ==> #[trigger] stack[k] < #[trigger] stack[l]
    &&& forall|k: int| 0 <= k < stack.len() ==> !pairs.contains_key(#[trigger] stack[k])
    &&& forall|i: usize| #[trigger]
        pairs.contains_key(i) ==> {
            &&& i < pairs[i] < n
            &&& ops[i as int] == Operation::StartLoop
            &&& ops[pairs[i] as int] == Operation::EndLoop
        }
    &&& forall|i1: usize, i2: usize|
        pairs.contains_key(i1) && pairs.contains_key(i2) && #[trigger] pairs[i1]
            == #[trigger] pairs[i2] ==> i1 == i2
    &&& forall|i: int|
        0 <= i < n && #[trigger] ops[i] == Operation::StartLoop ==> pairs.contains_key(i as usize)
            || exists|k: int| 0 <= k < stack.len() && stack[k] == i
    &&& forall|j: int|
        0 <= j < n && #[trigger] ops[j] == Operation::EndLoop ==> exists|i: usize|
            pairs.contains_key(i) && #[trigger] pairs[i] == j
}

/// The stack scan keeps its stack increasing and made of open brackets not
/// yet paired, and pairs each open bracket with a later close bracket, no
/// close bracket twice.
pub proof fn lemma_scan_brackets(ops: Seq<Operation>, n: nat)
    requires
        n <= ops.len(),
        ops.len() <= usize::MAX,
    ensures
        scan_brackets(ops, n) is Ok ==> scan_state_ok(
            ops,
            n,
            scan_brackets(ops, n)->Ok_0.0,
            scan_brackets(ops, n)->Ok_0.1,
        ),
        scan_brackets(ops, n) is Err ==> scan_brackets(ops, n)->Err_0 < n,
    decreases n,
{
    if n > 0 {
        let i = (n - 1) as nat;
        lemma_scan_brackets(ops, i);
        if let Ok((stack, pairs)) = scan_brackets(ops, i) {
            if ops[i as int] == Operation::StartLoop {
                let st2 = stack.push(i as usize);
                assert(st2[st2.len() - 1] == i);
                assert forall|j: int|
                    0 <= j < n && #[trigger] ops[j] == Operation::StartLoop implies pairs.contains_key(
                        j as usize,
                    ) || exists|k: int| 0 <= k < st2.len() && st2[k] == j by {
                    if j < i {
                        if !pairs.contains_key(j as usize) {
                            let k = choose|k: int| 0 <= k < stack.len() && stack[k] == j;
                            assert(st2[k] == j);
                        }
                    } else {
                        assert(st2[st2.len() - 1] == j);
                    }
                }
            } else if ops[i as int] == Operation::EndLoop {
                if stack.len() > 0 {
                    let top = stack.last();
                    let st2 = stack.drop_last();
                    let p2 = pairs.insert(top, i as usize);
                    assert forall|j: int|
                        0 <= j < n && #[trigger] ops[j] == Operation::StartLoop implies p2.contains_key(
                            j as usize,
                        ) || exists|k: int| 0 <= k < st2.len() && st2[k] == j by {
                        if !pairs.contains_key(j as usize) {
                            let k = choose|k: int| 0 <= k < stack.len() && stack[k] == j;
                            if k < st2.len() {
                                assert(st2[k] == j);
                            } else {
                                assert(top == j);
                            }
                        }
                    }
                    assert forall|j: int|
                        0 <= j < n && #[trigger] ops[j] == Operation::EndLoop implies exists|
                        x: usize,
                    | p2.contains_key(x) && #[trigger] p2[x] == j by {
                        if j < i {
                            let x = choose|x: usize| pairs.contains_key(x) && #[trigger] pairs[x] == j;
                            assert(x != top);
                            assert(p2.contains_key(x) && p2[x] == j);
                        } else {
                            assert(p2.contains_key(top) && p2[top] == j);
                        }
                    }
                }
            }
        }
    }
}

/// Once the stack scan has failed, it keeps the same failure.
pub proof fn lemma_scan_failure_stays(ops: Seq<Operation>, n: nat, m: nat)
    requires
        n <= m,
        scan_brackets(ops, n) is Err,
    ensures
        scan_brackets(ops, m) == scan_brackets(ops, n),
    decreases m - n,
{
    if n < m {
        lemma_scan_failure_stays(ops, n, (m - 1) as nat);
    }
}

/// Encoding a concatenation encodes each part in turn.
proof fn lemma_encode_concat(a: Seq<char>, b: Seq<char>)
    ensures
        encode_utf8(a + b) == encode_utf8(a) + encode_utf8(b),
    decreases a.len(),
{
    if a.len() == 0 {
        assert(a + b == b);
    } else {
        lemma_encode_concat(a.drop_first(), b);
        assert((a + b).drop_first() == a.drop_first() + b);
    }
}

/// A text has at least as many bytes as characters.
proof fn lemma_encode_len(s: Seq<char>)
    ensures
        encode_utf8(s).len() >= s.len(),
    decreases s.len(),
{
    if s.len() > 0 {
        lemma_encode_len(s.drop_first());
    }
}

/// Adding one character to a text adds its encoding at the end.
proof fn lemma_encode_push(s: Seq<char>, c: char)
    ensures
        encode_utf8(s.push(c)) == encode_utf8(s) + encode_scalar(c as u32),
        encode_scalar(c as u32).len() >= 1,
{
    let one = seq![c];
    lemma_encode_concat(s, one);
    assert(s + one == s.push(c));
    assert(one.drop_first().len() == 0);
    assert(encode_utf8(one.drop_first()) == Seq::<u8>::empty());
    assert(encode_utf8(one) == encode_scalar(c as u32) + Seq::<u8>::empty());
    assert(encode_scalar(c as u32) + Seq::<u8>::empty() == encode_scalar(c as u32));
}

/// The encoding of the first `o` characters, then of the rest.
proof fn lemma_encode_take(text: Seq<char>, o: int)
    requires
        0 <= o <= text.len(),
    ensures
        encode_utf8(text) == encode_utf8(text.take(o)) + encode_utf8(text.skip(o)),
{
    lemma_encode_concat(text.take(o), text.skip(o));
    assert(text.take(o) + text.skip(o) == text);
}

/// Line breaks among the first `n` characters depend on those characters
/// alone.
proof fn lemma_breaks_prefix(s: Seq<char>, t: Seq<char>, n: int)
    requires
        0 <= n <= s.len(),
        n <= t.len(),
        forall|i: int| 0 <= i < n ==> s[i] == t[i],
    ensures
        breaks_before(s, n) == breaks_before(t, n),
    decreases n,
{
    if n > 0 {
        lemma_breaks_prefix(s, t, n - 1);
    }
}

/// Line breaks among the first `n` bytes of `a + b`, for `n` within `a`, are
/// those of `a`.
proof fn lemma_byte_breaks_prefix(a: Seq<u8>, b: Seq<u8>, n: int)
    requires
        0 <= n <= a.len(),
    ensures
        byte_breaks_before(a + b, n) == byte_breaks_before(a, n),
    decreases n,
{
    if n > 0 {
        lemma_byte_breaks_prefix(a, b, n - 1);
        assert((a + b)[n - 1] == a[n - 1]);
    }
}

/// Line breaks add up over a concatenation of bytes.
proof fn lemma_byte_breaks_concat(a: Seq<u8>, b: Seq<u8>, m: int)
    requires
        0 <= m <= b.len(),
    ensures
        byte_breaks_before(a + b, a.len() + m) == byte_breaks_before(a, a.len() as int)
            + byte_breaks_before(b, m),
    decreases m,
{
    if m == 0 {
        lemma_byte_breaks_prefix(a, b, a.len() as int);
    } else {
        lemma_byte_breaks_concat(a, b, m - 1);
        assert((a + b)[a.len() + m - 1] == b[m - 1]);
    }
}

/// A character's encoding holds the line-break byte just where the character
/// is a line break: an ASCII character is its own single byte, and every byte
/// of a longer character is outside ASCII.
proof fn lemma_scalar_breaks(c: char)
    ensures
        byte_breaks_before(encode_scalar(c as u32), encode_scalar(c as u32).len() as int) == if c
            == '\n' {
            1nat
        } else {
            0nat
        },
{
    let v = c as u32;
    let bytes = encode_scalar(v);
    char_is_scalar(c);
    if has_width_1_encoding(v) {
        assert((v & 0x7F) as u8 == v as u8) by (bit_vector)
            requires
                v <= 0x7F,
        ;
        char_u32_cast(c, v);
        assert(bytes[0] == 10 <==> c == '\n');
        reveal_with_fuel(byte_breaks_before, 2);
    } else {
        assert(forall|k: int| 0 <= k < bytes.len() ==> #[trigger] bytes[k] >= 0x80) by {
            assert(forall|x: u32| #[trigger] (0xC0u8 | ((x >> 6) & 0x1F) as u8) >= 0x80)
                by (bit_vector);
            assert(forall|x: u32| #[trigger] (0xE0u8 | ((x >> 12) & 0x0F) as u8) >= 0x80)
                by (bit_vector);
            assert(forall|x: u32| #[trigger] (0xF0u8 | ((x >> 18) & 0x7) as u8) >= 0x80)
                by (bit_vector);
            assert(forall|x: u32| #[trigger] (0x80u8 | (x & 0x3F) as u8) >= 0x80) by (bit_vector);
            assert(forall|x: u32| #[trigger] (0x80u8 | ((x >> 6) & 0x3F) as u8) >= 0x80)
                by (bit_vector);
            assert(forall|x: u32| #[trigger] (0x80u8 | ((x >> 12) & 0x3F) as u8) >= 0x80)
                by (bit_vector);
        }
        assert(c != '\n');
        reveal_with_fuel(byte_breaks_before, 5);
    }
}

/// A text's encoding holds as many line-break bytes as the text holds line
/// breaks.
proof fn lemma_encoded_breaks(s: Seq<char>)
    ensures
        byte_breaks_before(encode_utf8(s), encode_utf8(s).len() as int) == breaks_before(
            s,
            s.len() as int,
        ),
    decreases s.len(),
{
    if s.len() > 0 {
        let front = s.drop_last();
        let c = s.last();
        lemma_encoded_breaks(front);
        assert(front.push(c) == s);
        lemma_encode_push(front, c);
        lemma_scalar_breaks(c);
        let first = encode_utf8(front);
        let last = encode_scalar(c as u32);
        lemma_byte_breaks_concat(first, last, last.len() as int);
        lemma_breaks_prefix(s, front, front.len() as int);
    }
}

/// The line that line_col gives for the byte offset at which character `o`
/// begins is the line of character `o`.
proof fn lemma_line_agrees(text: Seq<char>, o: int)
    requires
        0 <= o <= text.len(),
    ensures
        byte_breaks_before(encode_utf8(text), encode_utf8(text.take(o)).len() as int)
            == breaks_before(text, o),
{
    let head = text.take(o);
    lemma_encode_take(text, o);
    lemma_byte_breaks_prefix(encode_utf8(head), encode_utf8(text.skip(o)), encode_utf8(head).len() as int);
    lemma_encoded_breaks(head);
    lemma_breaks_prefix(head, text, o);
}

/// The line of a character starts at or before it.
proof fn lemma_line_start_bounds(text: Seq<char>, i: int)
    requires
        0 <= i,
    ensures
        0 <= line_start(text, i) <= i,
    decreases i,
{
    if i > 0 {
        lemma_line_start_bounds(text, i - 1);
    }
}

/// Counting the operation characters of a text from the front.
proof fn lemma_op_indices_count(text: Seq<char>, n: int)
    requires
        0 <= n <= text.len(),
    ensures
        op_indices(text, n).len() == text.take(n).filter(|c: char| op_of_char(c) is Some).len(),
    decreases n,
{
    reveal_with_fuel(Seq::filter, 1);
    if n > 0 {
        lemma_op_indices_count(text, n - 1);
        assert(text.take(n).drop_last() == text.take(n - 1));
    } else {
        assert(text.take(n).len() == 0);
    }
}

/// One instruction per operation character: whatever else a text holds, the
/// instructions that it spells are exactly as many as its characters drawn
/// from the eight operation characters.
pub proof fn lemma_one_instruction_per_operation_character(
    text: Seq<char>,
    instructions: Seq<InstructionInfo>,
)
    requires
        spells(instructions, text),
    ensures
        instructions.len() == text.filter(|c: char| op_of_char(c) is Some).len(),
{
    lemma_op_indices_count(text, text.len() as int);
    assert(text.take(text.len() as int) == text);
}

/// The number of bytes that a character takes in UTF-8.
fn utf8_width(c: char) -> (w: usize)
    ensures
        w == encode_scalar(c as u32).len(),
{
    proof {
        char_is_scalar(c);
    }
    let v = c as u32;
    if v < 0x80 {
        1
    } else if v < 0x800 {
        2
    } else if v < 0x10000 {
        3
    } else {
        4
    }
}

/// Relies on line_col's `LineColLookup::new` and `LineColLookup::get`: for a
/// byte offset `i`, `get(i)` gives the 1-based line, one more than the line
/// breaks before `i`, and the 1-based column, one more than the bytes between
/// the start of that line and `i`. It panics past the end of the text.
#[verifier::external_body]
fn line_columns(text: &str, offsets: &Vec<usize>) -> (r: Vec<(usize, usize)>)
    requires
        forall|k: int| 0 <= k < offsets.len() ==> #[trigger] offsets[k] < encode_utf8(text@).len(),
    ensures
        r.len() == offsets.len(),
        forall|k: int|
            0 <= k < offsets.len() ==> {
                &&& #[trigger] r[k].0 == byte_breaks_before(encode_utf8(text@), offsets[k] as int) + 1
                &&& r[k].1 == offsets[k] - byte_line_start(encode_utf8(text@), offsets[k] as int) + 1
            },
{
    let lookup = line_col::LineColLookup::new(text);
    offsets.iter().map(|&i| lookup.get(i)).collect()
}

/// A loaded program: its instructions in source order, its name, and its
/// loops, paired both ways.
#[derive(Debug)]
pub struct BfProgram {
    instructions: Vec<InstructionInfo>,
    filename: String,
    bracket_matching_positions: HashMap<usize, usize>,
    closing_positions: HashMap<usize, usize>,
}

impl BfProgram {
    /// The instructions.
    pub closed spec fn spec_instructions(&self) -> Seq<InstructionInfo> {
        self.instructions@
    }

    /// The name.
    pub closed spec fn spec_filename(&self) -> Seq<char> {
        self.filename@
    }

    /// The loops, from the index of each open bracket to that of its close
    /// bracket.
    pub closed spec fn spec_pairs(&self) -> Map<usize, usize> {
        self.bracket_matching_positions@
    }

    /// The loops, from the index of each close bracket to that of its open
    /// bracket.
    pub closed spec fn spec_closes(&self) -> Map<usize, usize> {
        self.closing_positions@
    }

    /// A program holds no more instructions than a `usize` can count.
    pub proof fn lemma_instructions_fit(&self)
        ensures
            self.spec_instructions().len() <= usize::MAX,
    {
        assert(self.instructions.len() == self.instructions@.len());
    }

    /// Every loop of the program is paired, both ways.
    pub open spec fn wf(&self) -> bool {
        &&& self.spec_pairs() == bracket_pairs(self.spec_instructions())
        &&& loops_paired(operations(self.spec_instructions()), self.spec_pairs(), self.spec_closes())
    }

    /// Loads a program from its source text and its name.
    ///
    /// Every character that spells an operation becomes an instruction, at
    /// its line and column; all others are comments. Fails with an unmatched
    /// bracket where the brackets cannot be paired.
    pub fn new(contents: String, filename: &str) -> (r: Result<BfProgram, VirtualMachineError>)
        ensures
            match r {
                Ok(p) => {
                    &&& spells(p.spec_instructions(), contents@)
                    &&& bracket_error(p.spec_instructions()) is None
                    &&& p.spec_filename() == filename@
                    &&& p.wf()
                },
                Err(e) => exists|xs: Seq<InstructionInfo>|
                    spells(xs, contents@) && bracket_error(xs) == Some(e),
            },
    {
        let text = contents.as_str();
        let total = text.as_bytes().len();
        proof {
            lemma_encode_len(text@);
        }
        // Each operation with the byte offset at which its character begins,
        // for the line lookup, and its column, counted in characters.
        let mut ops: Vec<Operation> = Vec::new();
        let mut offsets: Vec<usize> = Vec::new();
        let mut columns: Vec<usize> = Vec::new();
        let mut index: usize = 0;
        let mut byte: usize = 0;
        let mut line_begin: usize = 0;
        for c in it: text.chars()
            invariant
                it.seq() == text@,
                text@ == contents@,
                index == it.index(),
                index <= text@.len(),
                text@.len() <= total,
                total == encode_utf8(text@).len(),
                byte == encode_utf8(text@.take(index as int)).len(),
                line_begin == line_start(text@, index as int),
                ops@.len() == op_indices(text@, index as int).len(),
                offsets@.len() == ops@.len(),
                columns@.len() == ops@.len(),
                forall|k: int|
                    0 <= k < ops@.len() ==> {
                        let o = #[trigger] op_indices(text@, index as int)[k];
                        &&& 0 <= o < index
                        &&& op_of_char(text@[o]) == Some(ops@[k])
                        &&& offsets@[k] == encode_utf8(text@.take(o)).len()
                        &&& offsets@[k] < total
                        &&& columns@[k] == column_of(text@, o)
                    },
        {
            proof {
                let i = index as int;
                assert(text@[i] == c);
                assert(text@.take(i + 1) == text@.take(i).push(c));
                lemma_encode_push(text@.take(i), c);
                lemma_encode_take(text@, i + 1);
                lemma_line_start_bounds(text@, i);
            }
            if let Some(op) = Operation::char_to_operation(c) {
                ops.push(op);
                offsets.push(byte);
                columns.push(index - line_begin + 1);
            }
            if c == '\n' {
                line_begin = index + 1;
            }
            byte = byte + utf8_width(c);
            index = index + 1;
        }
        assert forall|k: int| 0 <= k < offsets@.len() implies #[trigger] offsets@[k] < encode_utf8(
            text@,
        ).len() by {
            assert(op_indices(text@, index as int)[k] >= 0);
        }
        let places = line_columns(text, &offsets);
        let mut instructions: Vec<InstructionInfo> = Vec::new();
        let mut k: usize = 0;
        while k < offsets.len()
            invariant
                k <= offsets@.len(),
                instructions@.len() == k,
                places@.len() == offsets@.len(),
                ops@.len() == offsets@.len(),
                columns@.len() == offsets@.len(),
                forall|m: int|
                    0 <= m < k ==> {
                        let x = #[trigger] instructions@[m];
                        &&& x.spec_operation() == ops@[m]
                        &&& x.spec_line() == places@[m].0
                        &&& x.spec_column() == columns@[m]
                    },
            decreases offsets@.len() - k,
        {
            instructions.push(InstructionInfo::new(ops[k], places[k].0, columns[k]));
            k += 1;
        }
        assert(spells(instructions@, contents@)) by {
            let indices = op_indices(text@, text@.len() as int);
            assert forall|m: int| 0 <= m < offsets@.len() implies {
                let x = #[trigger] instructions@[m];
                &&& op_of_char(text@[indices[m]]) == Some(x.spec_operation())
                &&& x.spec_line() == line_of(text@, indices[m])
                &&& x.spec_column() == column_of(text@, indices[m])
            } by {
                assert(indices[m] == op_indices(text@, index as int)[m]);
                lemma_line_agrees(text@, indices[m]);
            }
        }
        match pair_brackets(&instructions) {
            Ok((forward, backward)) => Ok(
                BfProgram {
                    instructions,
                    filename: filename.to_owned(),
                    bracket_matching_positions: forward,
                    closing_positions: backward,
                },
            ),
            Err(e) => Err(e),
        }
    }

    /// The instructions, in source order.
    pub fn instructions(&self) -> (r: &Vec<InstructionInfo>)
        ensures
            r@ == self.spec_instructions(),
    {
        &self.instructions
    }

    /// The name of the program.
    pub fn filename(&self) -> (r: &str)
        ensures
            r@ == self.spec_filename(),
    {
        self.filename.as_str()
    }

    /// The loops: from the index of each open bracket to the index of its
    /// close bracket.
    pub fn bracket_matching_positions(&self) -> (r: &HashMap<usize, usize>)
        ensures
            r@ == self.spec_pairs(),
    {
        &self.bracket_matching_positions
    }

    /// The loops, from the index of each close bracket to the index of its
    /// open bracket.
    pub fn closing_positions(&self) -> (r: &HashMap<usize, usize>)
        ensures
            r@ == self.spec_closes(),
    {
        &self.closing_positions
    }

    /// Pairs the brackets of the program: the map from the index of each open
    /// bracket to that of its close bracket, or the error for the bracket
    /// that has no partner.
    pub fn bracket_check(&self) -> (r: Result<HashMap<usize, usize>, VirtualMachineError>)
        ensures
            match bracket_error(self.spec_instructions()) {
                Some(e) => r == Err::<HashMap<usize, usize>, VirtualMachineError>(e),
                None => r is Ok && r->Ok_0@ == bracket_pairs(self.spec_instructions()),
            },
    {
        match pair_brackets(&self.instructions) {
            Ok((forward, _)) => Ok(forward),
            Err(e) => Err(e),
        }
    }
}

/// Pairs the brackets of `instructions` with a stack, in both directions.
fn pair_brackets(instructions: &Vec<InstructionInfo>) -> (r: Result<
    (HashMap<usize, usize>, HashMap<usize, usize>),
    VirtualMachineError,
>)
    ensures
        match bracket_error(instructions@) {
            Some(e) => r == Err::<(HashMap<usize, usize>, HashMap<usize, usize>), VirtualMachineError>(e),
            None => {
                &&& r is Ok
                &&& r->Ok_0.0@ == bracket_pairs(instructions@)
                &&& loops_paired(operations(instructions@), r->Ok_0.0@, r->Ok_0.1@)
            },
        },
{
    let ghost ops = operations(instructions@);
    let mut stack: Vec<usize> = Vec::new();
    let mut forward: HashMap<usize, usize> = HashMap::new();
    let mut backward: HashMap<usize, usize> = HashMap::new();
    let mut i: usize = 0;
    while i < instructions.len()
        invariant
            i <= instructions@.len(),
            ops == operations(instructions@),
            scan_brackets(ops, i as nat) == Ok::<(Seq<usize>, Map<usize, usize>), nat>(
                (stack@, forward@),
            ),
            is_inverse(forward@, backward@),
        decreases instructions@.len() - i,
    {
        proof {
            lemma_scan_brackets(ops, i as nat);
        }
        let op = instructions[i].operation();
        assert(op == ops[i as int]);
        match op {
            Operation::StartLoop => {
                stack.push(i);
            },
            Operation::EndLoop => {
                match stack.pop() {
                    Some(open) => {
                        proof {
                            assert(!backward@.contains_key(i)) by {
                                if backward@.contains_key(i) {
                                    assert(forward@.contains_key(backward@[i]));
                                }
                            }
                        }
                        forward.insert(open, i);
                        backward.insert(i, open);
                    },
                    None => {
                        proof {
                            assert(scan_brackets(ops, (i + 1) as nat) is Err);
                            lemma_scan_failure_stays(ops, (i + 1) as nat, ops.len());
                        }
                        return Err(
                            VirtualMachineError::UnmatchedBracket {
                                bracket: ']',
                                line: instructions[i].line(),
                                column: instructions[i].column(),
                            },
                        );
                    },
                }
            },
            _ => {},
        }
        i += 1;
    }
    proof {
        lemma_scan_brackets(ops, i as nat);
    }
    if stack.len() > 0 {
        let top = stack[stack.len() - 1];
        return Err(
            VirtualMachineError::UnmatchedBracket {
                bracket: '[',
                line: instructions[top].line(),
                column: instructions[top].column(),
            },
        );
    }
    Ok((forward, backward))
}

} // verus!
