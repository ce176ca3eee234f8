//! The bytecode reader: a sequential cursor over a buffer of
//! twelve-byte instruction records, with random-access seek for
//! control flow.

use vstd::prelude::*;
use vstd::string::StrSliceExecFns;

use crate::errors::AsmError;
use crate::errors::VmError;
use crate::instructions::Instruction;
use crate::instructions::OpCode;
use crate::instructions::op_code_value;
use crate::symbol_table::SymbolTable;
use crate::utils::be_bytes;
use crate::utils::be_i32;
use crate::utils::be_val;
use crate::utils::decode_signed;
use crate::utils::unsign_val;
use crate::utils::decode_unsigned;

verus! {

/// How many bytes one instruction record occupies.
pub const INSTRUCTION_SIZE: usize = 12;

/// A cursor over a bytecode buffer: the buffer and the index of the
/// next instruction to fetch.
pub struct ByteCodeParser<'a> {
    pub byte_code: &'a [u8],
    pub instruction_counter: usize,
}

/// What a fetch at instruction index `ic` of `code` must produce.
/// The record's twelve bytes start at `ic * 12`: four of opcode,
/// four of operand, four of offset, each big-endian.
pub open spec fn fetch_ok(code: Seq<u8>, ic: int, inst: Instruction) -> bool {
    let idx = ic * 12;
    &&& idx + 12 <= code.len()
    &&& op_code_value(inst.opcode) == be_val(code.subrange(idx, idx + 4))
    &&& inst.operand == be_i32(code.subrange(idx + 4, idx + 8))
    &&& inst.offset == be_val(code.subrange(idx + 8, idx + 12))
}

/// Whether the opcode field at instruction index `ic` holds an
/// assigned opcode number.
pub open spec fn fetch_opcode_assigned(code: Seq<u8>, ic: int) -> bool {
    exists|op: OpCode| op_code_value(op) == be_val(code.subrange(ic * 12, ic * 12 + 4))
}

impl<'a> ByteCodeParser<'a> {
    /// A cursor at the start of the buffer.
    pub fn new(byte_code: &'a [u8]) -> (r: ByteCodeParser<'a>)
        ensures
            r.byte_code@ == byte_code@,
            r.instruction_counter == 0,
    {
        ByteCodeParser { byte_code, instruction_counter: 0 }
    }

    /// How many bytes one instruction record occupies.
    pub fn get_instruction_size() -> (r: usize)
        ensures
            r == INSTRUCTION_SIZE,
    {
        INSTRUCTION_SIZE
    }

    /// Reads the record at the instruction counter and advances the
    /// counter. A record whose twelve bytes would run past the buffer
    /// ends the stream: the program lacks a halt, or a function its
    /// return.
    pub fn parse_instruction(&mut self) -> (r: Result<Instruction, VmError>)
        ensures
            final(self).byte_code == old(self).byte_code,
            ({
                let code = old(self).byte_code@;
                let ic = old(self).instruction_counter as int;
                if ic * 12 + 12 > code.len() {
                    r == Err::<Instruction, VmError>(VmError::Truncation)
                        && *final(self) == *old(self)
                } else if !fetch_opcode_assigned(code, ic) {
                    r == Err::<Instruction, VmError>(VmError::BadOpcode)
                        && *final(self) == *old(self)
                } else {
                    (r matches Ok(inst) && fetch_ok(code, ic, inst)
                        && final(self).instruction_counter == ic + 1)
                }
            }),
    {
        let len = self.byte_code.len();
        let ic = self.instruction_counter;
        if len < 12 || ic > (len - 12) / 12 {
            proof {
                assert(ic * 12 + 12 > len) by (nonlinear_arith)
                    requires
                        len < 12 || ic > (len - 12) / 12,
                {}
            }
            return Err(VmError::Truncation);
        }
        proof {
            assert(ic * 12 + 12 <= len) by (nonlinear_arith)
                requires
                    len >= 12,
                    ic <= (len - 12) / 12,
            {}
        }
        let index = ic * 12;
        let op_code = match decode_unsigned(index, self.byte_code) {
            Ok(v) => v,
            Err(e) => {
                return Err(e);
            },
        };
        let op_code = match OpCode::from_op_code(op_code) {
            Some(op) => op,
            None => {
                return Err(VmError::BadOpcode);
            },
        };
        let operand = match decode_signed(index + 4, self.byte_code) {
            Ok(v) => v,
            Err(e) => {
                return Err(e);
            },
        };
        let offset = match decode_unsigned(index + 8, self.byte_code) {
            Ok(v) => v,
            Err(e) => {
                return Err(e);
            },
        };
        self.go_to(ic + 1);
        Ok(Instruction { opcode: op_code, operand, offset })
    }

    /// Seeks to an instruction index.
    pub fn go_to(&mut self, instruction_count: usize)
        ensures
            final(self).byte_code == old(self).byte_code,
            final(self).instruction_counter == instruction_count,
    {
        self.instruction_counter = instruction_count;
    }
}

/// The value of one digit character in the given radix: decimal
/// digits, then letters of either case, refused at the radix.
pub open spec fn digit_val(c: char, radix: int) -> Option<int> {
    let v = if '0' <= c && c <= '9' {
        c as int - 48
    } else if 'a' <= c && c <= 'f' {
        c as int - 87
    } else if 'A' <= c && c <= 'F' {
        c as int - 55
    } else {
        -1
    };
    if 0 <= v < radix {
        Some(v)
    } else {
        None
    }
}

/// The value of an unsigned digit string, most significant first;
/// nothing for an empty string or one with a bad digit.
pub open spec fn num_val(s: Seq<char>, radix: int) -> Option<int>
    decreases s.len(),
{
    if s.len() == 0 {
        None
    } else if s.len() == 1 {
        digit_val(s[0], radix)
    } else {
        match (num_val(s.drop_last(), radix), digit_val(s.last(), radix)) {
            (Some(v), Some(d)) => Some(v * radix + d),
            _ => None,
        }
    }
}

/// The value of a digit string with an optional leading sign.
pub open spec fn int_str_val(s: Seq<char>, radix: int) -> Option<int> {
    if s.len() >= 1 && s[0] == '-' {
        match num_val(s.subrange(1, s.len() as int), radix) {
            Some(v) => Some(-v),
            None => None,
        }
    } else if s.len() >= 1 && s[0] == '+' {
        num_val(s.subrange(1, s.len() as int), radix)
    } else {
        num_val(s, radix)
    }
}

/// What `parse_number` accepts: a `0b` prefix reads binary, a `0x`
/// prefix hexadecimal, anything else decimal; the value must fit a
/// signed 32-bit word.
pub open spec fn parse_number_spec(s: Seq<char>) -> Option<i32> {
    let body = if s.len() >= 2 && s[0] == '0' && s[1] == 'b' {
        int_str_val(s.subrange(2, s.len() as int), 2)
    } else if s.len() >= 2 && s[0] == '0' && s[1] == 'x' {
        int_str_val(s.subrange(2, s.len() as int), 16)
    } else {
        int_str_val(s, 10)
    };
    match body {
        Some(v) => if i32::MIN <= v <= i32::MAX {
            Some(v as i32)
        } else {
            None
        },
        None => None,
    }
}

/// A digit string's value is never negative.
pub proof fn lemma_num_val_nonneg(s: Seq<char>, radix: int)
    requires
        radix >= 2,
        num_val(s, radix) is Some,
    ensures
        num_val(s, radix)->0 >= 0,
    decreases s.len(),
{
    if s.len() > 1 {
        lemma_num_val_nonneg(s.drop_last(), radix);
    }
}

/// One bad digit anywhere spoils the whole string.
pub proof fn lemma_num_val_bad_digit(s: Seq<char>, radix: int, k: int)
    requires
        0 <= k < s.len(),
        digit_val(s[k], radix) is None,
    ensures
        num_val(s, radix) is None,
    decreases s.len(),
{
    if s.len() > 1 && k < s.len() - 1 {
        assert(s.drop_last()[k] == s[k]);
        lemma_num_val_bad_digit(s.drop_last(), radix, k);
    }
}

/// Appending digits never shrinks the value.
pub proof fn lemma_num_val_extend_ge(s: Seq<char>, radix: int, k: int)
    requires
        radix >= 2,
        1 <= k <= s.len(),
        num_val(s.subrange(0, k), radix) is Some,
    ensures
        num_val(s, radix) is None || num_val(s, radix)->0 >= num_val(s.subrange(0, k), radix)->0,
    decreases s.len() - k,
{
    if k == s.len() {
        assert(s.subrange(0, k) =~= s);
    } else {
        let p = s.subrange(0, k);
        let q = s.subrange(0, k + 1);
        assert(q.drop_last() =~= p);
        match digit_val(s[k], radix) {
            Some(d) => {
                lemma_num_val_nonneg(p, radix);
                assert(num_val(q, radix) == Some(num_val(p, radix)->0 * radix + d));
                assert(num_val(p, radix)->0 * radix + d >= num_val(p, radix)->0)
                    by (nonlinear_arith)
                    requires
                        radix >= 2,
                        d >= 0,
                        num_val(p, radix)->0 >= 0,
                {}
                lemma_num_val_extend_ge(s, radix, k + 1);
            },
            None => {
                lemma_num_val_bad_digit(s, radix, k);
            },
        }
    }
}

/// Reads a digit string with optional sign at `from`, in the given
/// radix; the value must fit a signed 32-bit word.
#[verifier::loop_isolation(false)]
#[verifier::rlimit(100)]
#[verifier::spinoff_prover]
fn parse_radix(s: &str, from: usize, radix: u32) -> (r: Option<i32>)
    requires
        2 <= radix <= 16,
        from <= s@.len(),
    ensures
        r == (match int_str_val(s@.subrange(from as int, s@.len() as int), radix as int) {
            Some(v) => if i32::MIN <= v <= i32::MAX {
                Some(v as i32)
            } else {
                None::<i32>
            },
            None => None::<i32>,
        }),
{
    let n = s.unicode_len();
    let ghost body_full = s@.subrange(from as int, n as int);
    if from == n {
        return None;
    }
    let first = s.get_char(from);
    let neg = first == '-';
    let plus = first == '+';
    let bs: usize = if neg || plus {
        from + 1
    } else {
        from
    };
    let ghost body = s@.subrange(bs as int, n as int);
    proof {
        if neg || plus {
            assert(body =~= body_full.subrange(1, body_full.len() as int));
        } else {
            assert(body =~= body_full);
        }
    }
    if bs == n {
        return None;
    }
    let limit: i64 = if neg {
        2147483648i64
    } else {
        2147483647i64
    };
    let mut acc: i64 = 0;
    let mut j: usize = bs;
    while j < n
        invariant
            limit <= 2147483648i64,
            0 <= acc <= limit,
            bs <= j <= n,
            j > bs ==> num_val(s@.subrange(bs as int, j as int), radix as int) == Some(
                acc as int,
            ),
            j == bs ==> acc == 0,
        decreases n - j,
    {
        let c = s.get_char(j);
        let u = c as u32;
        let d: u32 = if 48 <= u && u <= 57 {
            u - 48
        } else if 97 <= u && u <= 102 {
            u - 87
        } else if 65 <= u && u <= 70 {
            u - 55
        } else {
            proof {
                assert(digit_val(s@[j as int], radix as int) is None);
                lemma_num_val_bad_digit(body, radix as int, j - bs);
            }
            return None;
        };
        if d >= radix {
            proof {
                assert(digit_val(s@[j as int], radix as int) is None);
                lemma_num_val_bad_digit(body, radix as int, j - bs);
            }
            return None;
        }
        proof {
            assert(digit_val(s@[j as int], radix as int) == Some(d as int));
        }
        proof {
            assert(0 <= acc * (radix as i64) <= 0x800000000i64) by (nonlinear_arith)
                requires
                    0 <= acc <= 0x80000000i64,
                    2 <= radix <= 16,
            {}
        }
        acc = acc * (radix as i64) + (d as i64);
        proof {
            let prefix = s@.subrange(bs as int, j + 1);
            assert(prefix =~= s@.subrange(bs as int, j as int).push(s@[j as int]));
            assert(prefix.len() == j + 1 - bs);
            assert(prefix.last() == s@[j as int]);
            if j > bs {
                assert(prefix.drop_last() =~= s@.subrange(bs as int, j as int));
                assert(num_val(prefix.drop_last(), radix as int) is Some);
            } else {
                assert(prefix.len() == 1);
            }
            assert(num_val(prefix, radix as int) == Some(acc as int));
        }
        if acc > limit {
            proof {
                let prefix = s@.subrange(bs as int, j + 1);
                assert(prefix =~= body.subrange(0, j + 1 - bs));
                lemma_num_val_extend_ge(body, radix as int, j + 1 - bs);
            }
            return None;
        }
        j = j + 1;
    }
    proof {
        assert(s@.subrange(bs as int, n as int) =~= body);
    }
    if neg {
        Some((-acc) as i32)
    } else {
        Some(acc as i32)
    }
}

/// Reads a number: `0b` binary, `0x` hexadecimal, else decimal.
pub fn parse_number(s: &str) -> (r: Option<i32>)
    ensures
        r == parse_number_spec(s@),
{
    let n = s.unicode_len();
    if n >= 2 && s.get_char(0) == '0' && s.get_char(1) == 'b' {
        parse_radix(s, 2, 2)
    } else if n >= 2 && s.get_char(0) == '0' && s.get_char(1) == 'x' {
        parse_radix(s, 2, 16)
    } else {
        proof {
            assert(s@.subrange(0, s@.len() as int) =~= s@);
        }
        parse_radix(s, 0, 10)
    }
}

/// Whether the character separates tokens.
pub open spec fn is_space_char(c: char) -> bool {
    c == ' ' || c == '\t' || c == '\n' || c == '\r'
}

/// The position of the first separator at or after `from`.
pub open spec fn first_space(s: Seq<char>, from: int) -> int
    recommends
        0 <= from <= s.len(),
    decreases s.len() - from,
{
    if from < 0 || from >= s.len() {
        s.len() as int
    } else if is_space_char(s[from]) {
        from
    } else {
        first_space(s, from + 1)
    }
}

/// The first separator position is bounded, separates, and nothing
/// before it does.
pub proof fn lemma_first_space(s: Seq<char>, from: int)
    requires
        0 <= from <= s.len(),
    ensures
        from <= first_space(s, from) <= s.len(),
        first_space(s, from) < s.len() ==> is_space_char(s[first_space(s, from)]),
        forall|i: int| from <= i < first_space(s, from) ==> !is_space_char(s[i]),
    decreases s.len() - from,
{
    if from < s.len() && !is_space_char(s[from]) {
        lemma_first_space(s, from + 1);
    }
}

/// The separator-delimited tokens of the text from `from` on.
pub open spec fn split_from(s: Seq<char>, from: int) -> Seq<Seq<char>>
    recommends
        0 <= from <= s.len(),
    decreases s.len() - from,
    when 0 <= from <= s.len()
    via split_from_decreases
{
    if from >= s.len() {
        Seq::empty()
    } else if is_space_char(s[from]) {
        split_from(s, from + 1)
    } else {
        let e = first_space(s, from + 1);
        seq![s.subrange(from, e)] + split_from(s, e)
    }
}

#[via_fn]
proof fn split_from_decreases(s: Seq<char>, from: int) {
    if 0 <= from < s.len() && !is_space_char(s[from]) {
        lemma_first_space(s, from + 1);
    }
}

/// The separator-delimited tokens of the whole text.
pub open spec fn spec_tokens(s: Seq<char>) -> Seq<Seq<char>> {
    split_from(s, 0)
}

/// Whether the character at `j` separates tokens.
fn sep_at(s: &str, j: usize) -> (r: bool)
    requires
        j < s@.len(),
    ensures
        r == is_space_char(s@[j as int]),
{
    let u = s.get_char(j) as u32;
    u == 32 || u == 9 || u == 10 || u == 13
}

/// Splits text on blanks, tabs and line breaks.
#[verifier::loop_isolation(false)]
#[verifier::rlimit(50)]
pub fn split_tokens(s: &str) -> (r: Vec<String>)
    ensures
        r.deep_view() == spec_tokens(s@),
{
    let n = s.unicode_len();
    let mut tokens: Vec<String> = Vec::new();
    let mut i: usize = 0;
    while i < n
        invariant
            0 <= i <= n,
            spec_tokens(s@) == tokens.deep_view() + split_from(s@, i as int),
        decreases n - i,
    {
        if sep_at(s, i) {
            i = i + 1;
        } else {
            proof {
                lemma_first_space(s@, i + 1);
            }
            let mut token = String::new();
            crate::utils::push_char(&mut token, s.get_char(i));
            let mut j: usize = i + 1;
            while j < n && !sep_at(s, j)
                invariant
                    i < j <= n,
                    j <= first_space(s@, i + 1),
                    token@ == s@.subrange(i as int, j as int),
                decreases n - j,
            {
                proof {
                    if j + 1 > first_space(s@, i + 1) {
                        assert(is_space_char(s@[first_space(s@, i + 1)]));
                    }
                }
                crate::utils::push_char(&mut token, s.get_char(j));
                proof {
                    assert(s@.subrange(i as int, j + 1) =~= s@.subrange(i as int, j as int).push(
                        s@[j as int],
                    ));
                }
                j = j + 1;
            }
            proof {
                let e = first_space(s@, i + 1);
                assert(j == e) by {
                    if j < e {
                        assert(!is_space_char(s@[j as int]));
                    }
                }
            }
            let ghost before = tokens.deep_view();
            let ghost token_view = token@;
            tokens.push(token);
            proof {
                assert(tokens.deep_view() =~= before.push(token_view));
            }
            i = j;
        }
    }
    tokens
}

/// What assembling a token stream produces: three tokens per
/// instruction — a numeric opcode, an operand that is a number, a
/// foreign function's name (after an FFCALL opcode), or a label in
/// the symbol table, and a numeric offset — each instruction packed
/// as twelve big-endian bytes.
#[verifier::opaque]
pub open spec fn translate_spec(tokens: Seq<Seq<char>>, table: SymbolTable) -> Result<
    Seq<u8>,
    AsmError,
>
    decreases tokens.len(),
{
    if tokens.len() == 0 {
        Ok(Seq::empty())
    } else if tokens.len() < 3 {
        Err(AsmError::MissingToken)
    } else {
        match record_spec(tokens[0], tokens[1], tokens[2], table) {
            Err(e) => Err(e),
            Ok(rec) => match translate_spec(tokens.skip(3), table) {
                Ok(rest) => Ok(rec + rest),
                Err(e) => Err(e),
            },
        }
    }
}

/// What one instruction's three tokens assemble to: a numeric
/// opcode, an operand that is a number, a foreign function's name
/// (after an FFCALL opcode), or a label in the symbol table, and a
/// numeric offset, packed as twelve big-endian bytes.
#[verifier::opaque]
pub open spec fn record_spec(t0: Seq<char>, t1: Seq<char>, t2: Seq<char>, table: SymbolTable) -> Result<
    Seq<u8>,
    AsmError,
> {
    match parse_number_spec(t0) {
        None => Err(AsmError::InvalidOpcode),
        Some(opn) => {
            let opc = unsign_val(opn);
            let operand_res: Result<i32, AsmError> = match parse_number_spec(t1) {
                Some(v) => Ok(v),
                None => if opc == op_code_value(OpCode::FFCALL) {
                    if t1 == "println"@ {
                        Ok(0i32)
                    } else {
                        Err(AsmError::UnknownSymbol)
                    }
                } else {
                    match table.lookup(t1) {
                        Some(v) => Ok(crate::utils::sign_val(v)),
                        None => Err(AsmError::UnknownSymbol),
                    }
                },
            };
            match operand_res {
                Err(e) => Err(e),
                Ok(operand) => match parse_number_spec(t2) {
                    None => Err(AsmError::InvalidOffset),
                    Some(off) => Ok(
                        be_bytes(opc) + crate::utils::be_bytes_i32(operand) + be_bytes(
                            unsign_val(off),
                        ),
                    ),
                },
            }
        },
    }
}

/// The assembler's back end: packs a preprocessed text of
/// whitespace-separated numeric fields into bytecode records,
/// resolving labels against a symbol table and foreign names against
/// the catalog.
pub struct ByteCodeTranslator<'a> {
    pub content: String,
    pub symbol_table: &'a SymbolTable,
}

impl<'a> ByteCodeTranslator<'a> {
    /// A translator over the given text and symbol table.
    pub fn new(content: &str, symbol_table: &'a SymbolTable) -> (r: ByteCodeTranslator<'a>)
        ensures
            r.content@ == content@,
            r.symbol_table == symbol_table,
    {
        ByteCodeTranslator { content: content.to_owned(), symbol_table }
    }

    /// Reads a number: `0b` binary, `0x` hexadecimal, else decimal.
    pub fn parse_number(&self, s: &str) -> (r: Option<i32>)
        ensures
            r == parse_number_spec(s@),
    {
        parse_number(s)
    }

    /// Assembles one instruction's three tokens into its record.
    #[verifier::rlimit(50)]
    fn encode_record(&self, t0: &str, t1: &str, t2: &str) -> (r: Result<Vec<u8>, AsmError>)
        requires
            self.symbol_table.wf(),
        ensures
            (match r {
                Ok(rec) => record_spec(t0@, t1@, t2@, *self.symbol_table) == Ok::<
                    Seq<u8>,
                    AsmError,
                >(rec@),
                Err(e) => record_spec(t0@, t1@, t2@, *self.symbol_table) == Err::<
                    Seq<u8>,
                    AsmError,
                >(e),
            }),
    {
        proof {
            reveal(record_spec);
        }
        let opn = match self.parse_number(t0) {
            Some(v) => v,
            None => {
                return Err(AsmError::InvalidOpcode);
            },
        };
        let op_code = crate::utils::unsign_of_signed(opn);
        let operand = match self.parse_number(t1) {
            Some(v) => v,
            None => {
                if op_code == OpCode::FFCALL.code() {
                    match crate::ffi::FFIFunction::get_index(t1) {
                        Some(_) => 0i32,
                        None => {
                            return Err(AsmError::UnknownSymbol);
                        },
                    }
                } else {
                    match self.symbol_table.get_symbol(t1) {
                        Some(v) => {
                            proof {
                                self.symbol_table.lemma_lookup(t1@, *v);
                            }
                            crate::utils::sign_of_unsigned(*v)
                        },
                        None => {
                            return Err(AsmError::UnknownSymbol);
                        },
                    }
                }
            },
        };
        let offset = match self.parse_number(t2) {
            Some(v) => crate::utils::unsign_of_signed(v),
            None => {
                return Err(AsmError::InvalidOffset);
            },
        };
        let mut record: Vec<u8> = Vec::new();
        let op_bytes = crate::utils::encode_unsigned(op_code);
        record.extend_from_slice(op_bytes.as_slice());
        let operand_bytes = crate::utils::encode_signed(operand);
        record.extend_from_slice(operand_bytes.as_slice());
        let offset_bytes = crate::utils::encode_unsigned(offset);
        record.extend_from_slice(offset_bytes.as_slice());
        proof {
            assert(record@ =~= be_bytes(op_code) + crate::utils::be_bytes_i32(operand) + be_bytes(
                offset,
            ));
        }
        Ok(record)
    }

    /// Assembles the text into bytecode records.
    #[verifier::rlimit(100)]
    #[verifier::spinoff_prover]
    pub fn translate(&self) -> (r: Result<Vec<u8>, AsmError>)
        requires
            self.symbol_table.wf(),
        ensures
            (match r {
                Ok(bytes) => translate_spec(spec_tokens(self.content@), *self.symbol_table)
                    == Ok::<Seq<u8>, AsmError>(bytes@),
                Err(e) => translate_spec(spec_tokens(self.content@), *self.symbol_table)
                    == Err::<Seq<u8>, AsmError>(e),
            }),
    {
        let tokens = split_tokens(self.content.as_str());
        let ghost tv = tokens.deep_view();
        let mut byte_code: Vec<u8> = Vec::new();
        let mut i: usize = 0;
        proof {
            assert(tv.skip(0) =~= tv);
            if translate_spec(tv, *self.symbol_table) is Ok {
                assert(byte_code@ + translate_spec(tv, *self.symbol_table)->Ok_0 =~= translate_spec(
                    tv,
                    *self.symbol_table,
                )->Ok_0);
            }
        }
        while i < tokens.len()
            invariant
                self.symbol_table.wf(),
                0 <= i <= tv.len(),
                tokens.deep_view() == tv,
                tv == spec_tokens(self.content@),
                translate_spec(tv, *self.symbol_table) == (match translate_spec(
                    tv.skip(i as int),
                    *self.symbol_table,
                ) {
                    Ok(rest) => Ok::<Seq<u8>, AsmError>(byte_code@ + rest),
                    Err(e) => Err::<Seq<u8>, AsmError>(e),
                }),
            decreases tv.len() - i,
        {
            let ghost rem = tv.skip(i as int);
            proof {
                reveal(translate_spec);
                assert(rem[0] == tokens@[i as int]@);
            }
            if tokens.len() - i < 3 {
                return Err(AsmError::MissingToken);
            }
            proof {
                assert(rem[1] == tokens@[i + 1]@);
                assert(rem[2] == tokens@[i + 2]@);
            }
            let record = match self.encode_record(
                tokens[i].as_str(),
                tokens[i + 1].as_str(),
                tokens[i + 2].as_str(),
            ) {
                Ok(record) => record,
                Err(e) => {
                    return Err(e);
                },
            };
            let ghost before = byte_code@;
            byte_code.extend_from_slice(record.as_slice());
            proof {
                assert(byte_code@ =~= before + record@);
                assert(rem.skip(3) =~= tv.skip(i + 3));
                if translate_spec(rem.skip(3), *self.symbol_table) is Ok {
                    assert(before + (record@ + translate_spec(rem.skip(3), *self.symbol_table)->Ok_0)
                        =~= byte_code@ + translate_spec(rem.skip(3), *self.symbol_table)->Ok_0);
                }
            }
            i = i + 3;
        }
        proof {
            reveal(translate_spec);
            assert(tv.skip(i as int) =~= Seq::<Seq<char>>::empty());
            assert(byte_code@ + Seq::<u8>::empty() =~= byte_code@);
        }
        Ok(byte_code)
    }
}

} // verus!
