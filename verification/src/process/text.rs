//! Instructions and results as text: decimal numbers, the mnemonics of
//! the instructions, and the lines of results.
use vstd::prelude::*;

use crate::process::Instruction;

verus! {

/// The byte `0`.
pub const ZERO: u8 = 48;

/// The byte `1`.
pub const ONE: u8 = 49;

/// The byte `9`.
pub const NINE: u8 = 57;

/// The byte `+`.
pub const PLUS: u8 = 43;

/// The byte `-`.
pub const MINUS: u8 = 45;

/// The byte of a blank.
pub const SPACE: u8 = 32;

/// The byte of a carriage return.
pub const CR: u8 = 13;

/// The byte of a line feed.
pub const LF: u8 = 10;

/// A decimal digit.
pub open spec fn is_digit(b: u8) -> bool {
    ZERO <= b <= NINE
}

/// Every byte is a decimal digit.
pub open spec fn all_digits(digits: Seq<u8>) -> bool {
    forall|i: int| 0 <= i < digits.len() ==> is_digit(#[trigger] digits[i])
}

/// The number that a sequence of decimal digits denotes.
pub open spec fn digits_value(digits: Seq<u8>) -> nat
    decreases digits.len(),
{
    if digits.len() == 0 {
        0
    } else {
        digits_value(digits.drop_last()) * 10 + (digits.last() - ZERO) as nat
    }
}

/// The number that `text` denotes: an optional sign, `+` or `-`, then
/// at least one decimal digit and nothing else, with a value that a
/// 32-bit signed integer can hold.
pub open spec fn number_of(text: Seq<u8>) -> Option<int> {
    let signed = text.len() > 0 && (text[0] == PLUS || text[0] == MINUS);
    let digits = if signed {
        text.drop_first()
    } else {
        text
    };
    let value = if text.len() > 0 && text[0] == MINUS {
        -(digits_value(digits) as int)
    } else {
        digits_value(digits) as int
    };
    if digits.len() > 0 && all_digits(digits) && i32::MIN <= value <= i32::MAX {
        Some(value)
    } else {
        None
    }
}

/// More digits never denote less.
pub proof fn lemma_digits_value_grows(digits: Seq<u8>, n: int)
    requires
        0 <= n <= digits.len(),
        all_digits(digits),
    ensures
        digits_value(digits.take(n)) <= digits_value(digits),
    decreases digits.len() - n,
{
    if n < digits.len() {
        lemma_digits_value_grows(digits, n + 1);
        assert(digits.take(n + 1).drop_last() =~= digits.take(n));
    } else {
        assert(digits.take(n) =~= digits);
    }
}

/// Reads a decimal number; `None` where `text` denotes none.
pub fn parse_number(text: &[u8]) -> (number: Option<i32>)
    ensures
        match number {
            Some(n) => number_of(text@) == Some(n as int),
            None => number_of(text@) is None,
        },
{
    let n = text.len();
    if n == 0 {
        return None;
    }
    let negative = text[0] == MINUS;
    let start: usize = if text[0] == PLUS || negative {
        1
    } else {
        0
    };
    let ghost digits = text@.subrange(start as int, n as int);
    if start == n {
        return None;
    }
    let mut magnitude: i64 = 0;
    let mut i: usize = start;
    while i < n
        invariant
            start <= i <= n,
            n == text@.len(),
            n > 0,
            digits.len() == n - start,
            digits == if text@[0] == PLUS || text@[0] == MINUS {
                text@.drop_first()
            } else {
                text@
            },
            forall|j: int| 0 <= j < digits.len() ==> digits[j] == text@[start + j],
            all_digits(digits.take(i - start)),
            magnitude == digits_value(digits.take(i - start)),
            0 <= magnitude <= 2147483648,
        decreases n - i,
    {
        let b = text[i];
        if b < ZERO || b > NINE {
            return None;
        }
        proof {
            assert(digits.take(i + 1 - start).drop_last() =~= digits.take(i - start));
        }
        magnitude = magnitude * 10 + (b - ZERO) as i64;
        if magnitude > 2147483648 {
            proof {
                if all_digits(digits) {
                    lemma_digits_value_grows(digits, i + 1 - start);
                }
            }
            return None;
        }
        i += 1;
    }
    assert(digits.take(n - start) =~= digits);
    if negative {
        Some((-magnitude) as i32)
    } else if magnitude > 2147483647 {
        None
    } else {
        Some(magnitude as i32)
    }
}

/// The words of a line as sequences of bytes.
pub open spec fn words_view(words: Vec<Vec<u8>>) -> Seq<Seq<u8>> {
    Seq::new(words@.len(), |i: int| words@[i]@)
}

/// The mnemonic `in`: reset.
pub open spec fn mnemonic_init() -> Seq<u8> {
    seq![105u8, 110u8]
}

/// The mnemonic `cr`: create.
pub open spec fn mnemonic_create() -> Seq<u8> {
    seq![99u8, 114u8]
}

/// The mnemonic `de`: destroy.
pub open spec fn mnemonic_destroy() -> Seq<u8> {
    seq![100u8, 101u8]
}

/// The mnemonic `rq`: request.
pub open spec fn mnemonic_request() -> Seq<u8> {
    seq![114u8, 113u8]
}

/// The mnemonic `rl`: release.
pub open spec fn mnemonic_release() -> Seq<u8> {
    seq![114u8, 108u8]
}

/// The mnemonic `to`: timeout.
pub open spec fn mnemonic_timeout() -> Seq<u8> {
    seq![116u8, 111u8]
}

/// The number that word `i` of a line denotes, if the line has that
/// many words and the word denotes a number.
pub open spec fn argument_of(words: Seq<Seq<u8>>, i: int) -> Option<int> {
    if 0 <= i < words.len() {
        number_of(words[i])
    } else {
        None
    }
}

/// The instruction that the words of a line denote. The first word is
/// the mnemonic, the words after it are the arguments, as many as
/// the instruction takes; further words are ignored. A first word
/// that is no mnemonic makes the unknown instruction. A line without
/// words, and one with an argument missing or not a number, denotes
/// no instruction.
pub open spec fn instruction_of(words: Seq<Seq<u8>>) -> Option<Instruction> {
    if words.len() == 0 {
        None
    } else if words[0] == mnemonic_init() {
        Some(Instruction::Init)
    } else if words[0] == mnemonic_create() {
        match argument_of(words, 1) {
            Some(priority) => Some(Instruction::Create(priority as i32)),
            None => None,
        }
    } else if words[0] == mnemonic_destroy() {
        match argument_of(words, 1) {
            Some(pid) => Some(Instruction::Destroy(pid as i32)),
            None => None,
        }
    } else if words[0] == mnemonic_request() {
        match (argument_of(words, 1), argument_of(words, 2)) {
            (Some(rid), Some(units)) => Some(Instruction::Request(rid as i32, units as i32)),
            _ => None,
        }
    } else if words[0] == mnemonic_release() {
        match (argument_of(words, 1), argument_of(words, 2)) {
            (Some(rid), Some(units)) => Some(Instruction::Release(rid as i32, units as i32)),
            _ => None,
        }
    } else if words[0] == mnemonic_timeout() {
        Some(Instruction::Timeout)
    } else {
        Some(Instruction::Unknown)
    }
}

/// Whether `word` is made of the two bytes `first` and `second`.
fn is_pair(word: &[u8], first: u8, second: u8) -> (same: bool)
    ensures
        same == (word@ == seq![first, second]),
{
    if word.len() == 2 && word[0] == first && word[1] == second {
        assert(word@ =~= seq![first, second]);
        true
    } else {
        false
    }
}

/// Reads word `i` of a line as a number.
fn parse_argument(words: &Vec<Vec<u8>>, i: usize) -> (number: Option<i32>)
    ensures
        match number {
            Some(n) => argument_of(words_view(*words), i as int) == Some(n as int),
            None => argument_of(words_view(*words), i as int) is None,
        },
{
    if i < words.len() {
        parse_number(words[i].as_slice())
    } else {
        None
    }
}

/// Reads the words of a line as an instruction; `None` where they
/// denote none.
pub fn parse_instruction(words: &Vec<Vec<u8>>) -> (instruction: Option<Instruction>)
    ensures
        instruction == instruction_of(words_view(*words)),
{
    if words.len() == 0 {
        return None;
    }
    let mnemonic = words[0].as_slice();
    if is_pair(mnemonic, 105, 110) {
        Some(Instruction::Init)
    } else if is_pair(mnemonic, 99, 114) {
        match parse_argument(words, 1) {
            Some(priority) => Some(Instruction::Create(priority)),
            None => None,
        }
    } else if is_pair(mnemonic, 100, 101) {
        match parse_argument(words, 1) {
            Some(pid) => Some(Instruction::Destroy(pid)),
            None => None,
        }
    } else if is_pair(mnemonic, 114, 113) {
        let rid = parse_argument(words, 1);
        let units = parse_argument(words, 2);
        match (rid, units) {
            (Some(rid), Some(units)) => Some(Instruction::Request(rid, units)),
            _ => None,
        }
    } else if is_pair(mnemonic, 114, 108) {
        let rid = parse_argument(words, 1);
        let units = parse_argument(words, 2);
        match (rid, units) {
            (Some(rid), Some(units)) => Some(Instruction::Release(rid, units)),
            _ => None,
        }
    } else if is_pair(mnemonic, 116, 111) {
        Some(Instruction::Timeout)
    } else {
        Some(Instruction::Unknown)
    }
}

/// The decimal digits of `n`, without leading zeros.
pub open spec fn decimal(n: nat) -> Seq<u8>
    decreases n,
{
    if n < 10 {
        seq![(ZERO + n) as u8]
    } else {
        decimal(n / 10).push((ZERO + n % 10) as u8)
    }
}

/// One result as text: the id of the running process in decimal, or
/// `-1` for a failure.
pub open spec fn rendered_result(result: Option<usize>) -> Seq<u8> {
    match result {
        Some(pid) => decimal(pid as nat),
        None => seq![MINUS, ONE],
    }
}

/// The results of one batch as text, a blank between each two.
pub open spec fn rendered_batch(results: Seq<Option<usize>>) -> Seq<u8>
    decreases results.len(),
{
    if results.len() == 0 {
        Seq::empty()
    } else if results.len() == 1 {
        rendered_result(results[0])
    } else {
        rendered_batch(results.drop_last()) + seq![SPACE] + rendered_result(results.last())
    }
}

/// The results of batches as lines of text, each line ended by a
/// carriage return and a line feed.
pub open spec fn rendered_lines(batches: Seq<Seq<Option<usize>>>) -> Seq<u8>
    decreases batches.len(),
{
    if batches.len() == 0 {
        Seq::empty()
    } else {
        rendered_lines(batches.drop_last()) + rendered_batch(batches.last()) + seq![CR, LF]
    }
}

/// The results of all batches as text: one line for each batch; a
/// blank in place of a line end after the last; nothing at all
/// without batches.
pub open spec fn rendered_output(batches: Seq<Seq<Option<usize>>>) -> Seq<u8> {
    if batches.len() == 0 {
        Seq::empty()
    } else {
        rendered_lines(batches.drop_last()) + rendered_batch(batches.last()) + seq![SPACE]
    }
}

/// The results of batches as sequences.
pub open spec fn results_view(batches: Vec<Vec<Option<usize>>>) -> Seq<Seq<Option<usize>>> {
    Seq::new(batches@.len(), |i: int| batches@[i]@)
}

/// The decimal digits of `n`, and none for zero: what stands before
/// the last digit of a number.
pub open spec fn leading_digits(n: nat) -> Seq<u8> {
    if n == 0 {
        Seq::empty()
    } else {
        decimal(n)
    }
}

/// Appends the decimal digits of `n` to `out`.
fn push_decimal(out: &mut Vec<u8>, n: usize)
    ensures
        final(out)@ == old(out)@ + decimal(n as nat),
{
    let mut reversed: Vec<u8> = Vec::new();
    reversed.push(ZERO + (n % 10) as u8);
    let mut rest = n / 10;
    while rest > 0
        invariant
            decimal(n as nat) == leading_digits(rest as nat) + reversed@.reverse(),
        decreases rest,
    {
        reversed.push(ZERO + (rest % 10) as u8);
        rest = rest / 10;
    }
    let mut i = reversed.len();
    while i > 0
        invariant
            i <= reversed.len(),
            out@ == old(out)@ + reversed@.reverse().take(reversed.len() - i),
        decreases i,
    {
        i -= 1;
        out.push(reversed[i]);
    }
}

/// Appends one result to `out`.
fn push_result(out: &mut Vec<u8>, result: Option<usize>)
    ensures
        final(out)@ == old(out)@ + rendered_result(result),
{
    match result {
        Some(pid) => push_decimal(out, pid),
        None => {
            out.push(MINUS);
            out.push(ONE);
        },
    }
}

/// Appends the results of one batch to `out`, a blank between each two.
fn push_batch(out: &mut Vec<u8>, results: &Vec<Option<usize>>)
    ensures
        final(out)@ == old(out)@ + rendered_batch(results@),
{
    let mut i: usize = 0;
    while i < results.len()
        invariant
            i <= results.len(),
            out@ == old(out)@ + rendered_batch(results@.take(i as int)),
        decreases results.len() - i,
    {
        if i > 0 {
            out.push(SPACE);
        }
        push_result(out, results[i]);
        assert(results@.take(i + 1).drop_last() =~= results@.take(i as int));
        i += 1;
    }
    assert(results@.take(results.len() as int) =~= results@);
}

/// The results of all batches as text: one line for each batch, the
/// results of a batch with a blank between each two and `-1` for a
/// failure. Each line ends with carriage return and line feed, but
/// the last, which ends with a blank.
pub fn render_output(output: &Vec<Vec<Option<usize>>>) -> (text: Vec<u8>)
    ensures
        text@ == rendered_output(results_view(*output)),
{
    let mut text: Vec<u8> = Vec::new();
    let ghost batches = results_view(*output);
    let n = output.len();
    if n == 0 {
        return text;
    }
    let mut i: usize = 0;
    while i < n - 1
        invariant
            n == output.len(),
            n > 0,
            i <= n - 1,
            batches == results_view(*output),
            text@ == rendered_lines(batches.drop_last().take(i as int)),
        decreases n - i,
    {
        push_batch(&mut text, &output[i]);
        text.push(CR);
        text.push(LF);
        assert(batches.drop_last().take(i + 1).drop_last() =~= batches.drop_last().take(i as int));
        i += 1;
    }
    assert(batches.drop_last().take(n - 1) =~= batches.drop_last());
    push_batch(&mut text, &output[n - 1]);
    text.push(SPACE);
    text
}

} // verus!
