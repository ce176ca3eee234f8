//! The assembler's front end: turns mnemonic source text into the
//! numeric three-token form the translator packs. Each source line
//! holds any number of `name:` labels and then at most one
//! instruction: an opcode written as a mnemonic or a number, an
//! optional operand, and an optional offset defaulting to 4. Labels
//! are collected into a symbol table, bound to the index of the next
//! instruction.

use vstd::prelude::*;
use vstd::string::StrSliceExecFns;

use crate::errors::AsmError;
use crate::instructions::OpCode;
use crate::instructions::mnemonic_op;
use crate::instructions::op_code_value;
use crate::loading::parse_number_spec;
use crate::loading::spec_tokens;
use crate::loading::split_tokens;
use crate::symbol_table::SymbolTable;
use crate::utils::chars_of_bytes;
use crate::utils::dec_bytes;
use crate::utils::push_char;
use crate::utils::to_decimal_string;
use crate::utils::unsign_val;

verus! {

/// The character with lowercase letters raised to capitals.
pub open spec fn upper_char(c: char) -> char {
    if 'a' <= c && c <= 'z' {
        (c as int - 32) as char
    } else {
        c
    }
}

/// The text with lowercase letters raised to capitals.
pub open spec fn upper_chars(s: Seq<char>) -> Seq<char> {
    s.map_values(|c: char| upper_char(c))
}

/// Raises lowercase letters to capitals.
fn to_upper(s: &str) -> (r: String)
    ensures
        r@ == upper_chars(s@),
{
    let n = s.unicode_len();
    let mut out = String::new();
    let mut i: usize = 0;
    while i < n
        invariant
            0 <= i <= n,
            n == s@.len(),
            out@ == upper_chars(s@.subrange(0, i as int)),
        decreases n - i,
    {
        let c = s.get_char(i);
        let u = c as u32;
        if 97 <= u && u <= 122 {
            push_char(&mut out, ((u - 32) as u8) as char);
        } else {
            push_char(&mut out, c);
        }
        proof {
            assert(upper_chars(s@.subrange(0, i + 1)) =~= upper_chars(
                s@.subrange(0, i as int),
            ).push(upper_char(s@[i as int])));
        }
        i = i + 1;
    }
    proof {
        assert(s@.subrange(0, n as int) =~= s@);
    }
    out
}

/// Whether the character ends a line.
pub open spec fn is_line_break(c: char) -> bool {
    c == '\n'
}

/// The position of the first line break at or after `from`.
pub open spec fn first_break(s: Seq<char>, from: int) -> int
    recommends
        0 <= from <= s.len(),
    decreases s.len() - from,
{
    if from < 0 || from >= s.len() {
        s.len() as int
    } else if is_line_break(s[from]) {
        from
    } else {
        first_break(s, from + 1)
    }
}

/// The first line break is bounded, breaks, and nothing before it
/// does.
pub proof fn lemma_first_break(s: Seq<char>, from: int)
    requires
        0 <= from <= s.len(),
    ensures
        from <= first_break(s, from) <= s.len(),
        first_break(s, from) < s.len() ==> is_line_break(s[first_break(s, from)]),
        forall|i: int| from <= i < first_break(s, from) ==> !is_line_break(s[i]),
    decreases s.len() - from,
{
    if from < s.len() && !is_line_break(s[from]) {
        lemma_first_break(s, from + 1);
    }
}

/// The non-empty lines of the text from `from` on.
pub open spec fn lines_from(s: Seq<char>, from: int) -> Seq<Seq<char>>
    recommends
        0 <= from <= s.len(),
    decreases s.len() - from,
    when 0 <= from <= s.len()
    via lines_from_decreases
{
    if from >= s.len() {
        Seq::empty()
    } else if is_line_break(s[from]) {
        lines_from(s, from + 1)
    } else {
        let e = first_break(s, from + 1);
        seq![s.subrange(from, e)] + lines_from(s, e)
    }
}

#[via_fn]
proof fn lines_from_decreases(s: Seq<char>, from: int) {
    if 0 <= from < s.len() && !is_line_break(s[from]) {
        lemma_first_break(s, from + 1);
    }
}

/// The non-empty lines of the whole text.
pub open spec fn spec_lines(s: Seq<char>) -> Seq<Seq<char>> {
    lines_from(s, 0)
}

/// Whether the character at `j` ends a line.
fn break_at(s: &str, j: usize) -> (r: bool)
    requires
        j < s@.len(),
    ensures
        r == is_line_break(s@[j as int]),
{
    s.get_char(j) == '\n'
}

/// Splits text into its non-empty lines.
#[verifier::loop_isolation(false)]
#[verifier::rlimit(50)]
pub fn split_lines(s: &str) -> (r: Vec<String>)
    ensures
        r.deep_view() == spec_lines(s@),
{
    let n = s.unicode_len();
    let mut lines: Vec<String> = Vec::new();
    let mut i: usize = 0;
    while i < n
        invariant
            0 <= i <= n,
            spec_lines(s@) == lines.deep_view() + lines_from(s@, i as int),
        decreases n - i,
    {
        if break_at(s, i) {
            i = i + 1;
        } else {
            proof {
                lemma_first_break(s@, i + 1);
            }
            let mut line = String::new();
            push_char(&mut line, s.get_char(i));
            let mut j: usize = i + 1;
            while j < n && !break_at(s, j)
                invariant
                    i < j <= n,
                    j <= first_break(s@, i + 1),
                    line@ == s@.subrange(i as int, j as int),
                decreases n - j,
            {
                proof {
                    if j + 1 > first_break(s@, i + 1) {
                        assert(is_line_break(s@[first_break(s@, i + 1)]));
                    }
                }
                push_char(&mut line, s.get_char(j));
                proof {
                    assert(s@.subrange(i as int, j + 1) =~= s@.subrange(i as int, j as int).push(
                        s@[j as int],
                    ));
                }
                j = j + 1;
            }
            proof {
                let e = first_break(s@, i + 1);
                assert(j == e) by {
                    if j < e {
                        assert(!is_line_break(s@[j as int]));
                    }
                }
            }
            let ghost before = lines.deep_view();
            let ghost line_view = line@;
            lines.push(line);
            proof {
                assert(lines.deep_view() =~= before.push(line_view));
            }
            i = j;
        }
    }
    lines
}

/// Whether a token declares a label: a name ending in a colon.
pub open spec fn is_label_tok(t: Seq<char>) -> bool {
    t.len() >= 1 && t.last() == ':'
}

/// The index of a line's first token that is not a label.
pub open spec fn first_code_tok(toks: Seq<Seq<char>>, from: int) -> int
    recommends
        0 <= from <= toks.len(),
    decreases toks.len() - from,
{
    if from < 0 || from >= toks.len() {
        toks.len() as int
    } else if is_label_tok(toks[from]) {
        first_code_tok(toks, from + 1)
    } else {
        from
    }
}

/// The first code token is bounded, is no label, and only labels
/// precede it.
pub proof fn lemma_first_code_tok(toks: Seq<Seq<char>>, from: int)
    requires
        0 <= from <= toks.len(),
    ensures
        from <= first_code_tok(toks, from) <= toks.len(),
        first_code_tok(toks, from) < toks.len() ==> !is_label_tok(
            toks[first_code_tok(toks, from)],
        ),
        forall|i: int| from <= i < first_code_tok(toks, from) ==> is_label_tok(#[trigger] toks[i]),
    decreases toks.len() - from,
{
    if from < toks.len() && is_label_tok(toks[from]) {
        lemma_first_code_tok(toks, from + 1);
    }
}

/// The numeric opcode a token names: its number, or its mnemonic's
/// assignment, read with lowercase letters raised.
pub open spec fn opcode_num(t: Seq<char>) -> Option<u32> {
    match parse_number_spec(t) {
        Some(v) => Some(unsign_val(v)),
        None => match mnemonic_op(upper_chars(t)) {
            Some(op) => Some(op_code_value(op)),
            None => None,
        },
    }
}

/// One processed line: the opcode's number in decimal (read back as
/// a signed value), the operand token or its default 0, the offset
/// token or its default 4, and a line break.
pub open spec fn line_text(code: u32, toks: Seq<Seq<char>>, k: int) -> Seq<char> {
    chars_of_bytes(dec_bytes(crate::utils::sign_val(code) as int)) + seq![' '] + (if k + 1
        < toks.len() {
        toks[k + 1]
    } else {
        seq!['0']
    }) + seq![' '] + (if k + 2 < toks.len() {
        toks[k + 2]
    } else {
        seq!['4']
    }) + seq!['\n']
}

/// What processing the lines from a given instruction count on
/// produces: the emitted text and the label bindings in order.
pub open spec fn process_lines(lines: Seq<Seq<char>>, count: int) -> Result<
    (Seq<char>, Seq<(Seq<char>, u32)>),
    AsmError,
>
    decreases lines.len(),
{
    if lines.len() == 0 {
        Ok((Seq::empty(), Seq::empty()))
    } else {
        let toks = spec_tokens(lines[0]);
        let k = first_code_tok(toks, 0);
        let labels = Seq::new(k as nat, |i: int| (toks[i].drop_last(), count as u32));
        if k == toks.len() {
            match process_lines(lines.drop_first(), count) {
                Ok((text, binds)) => Ok((text, labels + binds)),
                Err(e) => Err(e),
            }
        } else if toks.len() > k + 3 {
            Err(AsmError::ExtraToken)
        } else {
            match opcode_num(toks[k]) {
                None => Err(AsmError::InvalidOpcode),
                Some(code) => match process_lines(lines.drop_first(), count + 1) {
                    Ok((text, binds)) => Ok((line_text(code, toks, k) + text, labels + binds)),
                    Err(e) => Err(e),
                },
            }
        }
    }
}

/// Looking a name up in an ordered binding list: the latest binding
/// wins.
pub open spec fn binds_lookup(binds: Seq<(Seq<char>, u32)>, name: Seq<char>) -> Option<u32>
    decreases binds.len(),
{
    if binds.len() == 0 {
        None
    } else if binds.last().0 == name {
        Some(binds.last().1)
    } else {
        binds_lookup(binds.drop_last(), name)
    }
}

/// A text has at most as many lines as characters.
pub proof fn lemma_lines_count(s: Seq<char>, from: int)
    requires
        0 <= from <= s.len(),
    ensures
        lines_from(s, from).len() <= s.len() - from,
    decreases s.len() - from,
{
    if from < s.len() {
        if is_line_break(s[from]) {
            lemma_lines_count(s, from + 1);
        } else {
            lemma_first_break(s, from + 1);
            lemma_lines_count(s, first_break(s, from + 1));
        }
    }
}

/// Adding a binding to the table matches appending it to the list:
/// the new name looks up to the new value, every other name as
/// before.
pub proof fn lemma_lookup_step(
    pre: SymbolTable,
    post: SymbolTable,
    binds: Seq<(Seq<char>, u32)>,
    name: Seq<char>,
    value: u32,
)
    requires
        pre.wf(),
        post.wf(),
        post.binds(name, value),
        forall|n: Seq<char>, v: u32| n != name ==> (#[trigger] post.binds(n, v) <==> pre.binds(n, v)),
        forall|n: Seq<char>| n != name ==> (#[trigger] post.has(n) <==> pre.has(n)),
        forall|n: Seq<char>| #[trigger] pre.lookup(n) == binds_lookup(binds, n),
    ensures
        forall|n: Seq<char>| #[trigger] post.lookup(n) == binds_lookup(binds.push((name, value)), n),
{
    let pushed = binds.push((name, value));
    assert forall|n: Seq<char>| #[trigger] post.lookup(n) == binds_lookup(pushed, n) by {
        assert(pushed.last() == (name, value));
        assert(pushed.drop_last() =~= binds);
        if n == name {
            post.lemma_lookup(name, value);
        } else {
            assert(pre.lookup(n) == binds_lookup(binds, n));
            if post.has(n) {
                let idx = choose|i: int|
                    0 <= i < post.entries().len() && (#[trigger] post.entries()[i]).0@ == n;
                let w = post.entries()[idx].1;
                assert(post.binds(n, w));
                assert(pre.binds(n, w));
                pre.lemma_lookup(n, w);
                post.lemma_lookup(n, w);
            } else {
                assert(!pre.has(n));
            }
        }
    }
}

/// Whether the token declares a label.
fn is_label(t: &String) -> (r: bool)
    ensures
        r == is_label_tok(t@),
{
    let n = t.as_str().unicode_len();
    n >= 1 && t.as_str().get_char(n - 1) == ':'
}

/// The token without its final character.
fn drop_last_char(t: &String) -> (r: String)
    requires
        t@.len() >= 1,
    ensures
        r@ == t@.drop_last(),
{
    let n = t.as_str().unicode_len();
    let mut out = String::new();
    let mut i: usize = 0;
    while i < n - 1
        invariant
            0 <= i <= n - 1,
            n == t@.len(),
            out@ == t@.subrange(0, i as int),
        decreases n - 1 - i,
    {
        push_char(&mut out, t.as_str().get_char(i));
        proof {
            assert(t@.subrange(0, i + 1) =~= t@.subrange(0, i as int).push(t@[i as int]));
        }
        i = i + 1;
    }
    proof {
        assert(t@.subrange(0, n - 1) =~= t@.drop_last());
    }
    out
}

/// Processes mnemonic source text into the numeric form and the
/// label table.
#[verifier::rlimit(100)]
#[verifier::spinoff_prover]
pub fn process(content: &str) -> (r: Result<(String, SymbolTable), AsmError>)
    requires
        content@.len() < 0x100000000,
    ensures
        (match r {
            Ok(p) => (process_lines(spec_lines(content@), 0) matches Ok(q) && p.0@ == q.0
                && p.1.wf() && (forall|n: Seq<char>|
                #[trigger] p.1.lookup(n) == binds_lookup(q.1, n))),
            Err(e) => process_lines(spec_lines(content@), 0) == Err::<
                (Seq<char>, Seq<(Seq<char>, u32)>),
                AsmError,
            >(e),
        }),
{
    let lines = split_lines(content);
    let ghost lv = lines.deep_view();
    proof {
        lemma_lines_count(content@, 0);
    }
    let mut table = SymbolTable::new();
    let mut out = String::new();
    let mut count: u32 = 0;
    let ghost mut done: Seq<(Seq<char>, u32)> = Seq::empty();
    let mut li: usize = 0;
    proof {
        assert(lv.skip(0) =~= lv);
        assert forall|n: Seq<char>| #[trigger] table.lookup(n) == binds_lookup(done, n) by {
            assert(!table.has(n));
        }
        if process_lines(lv, 0) is Ok {
            let q = process_lines(lv, 0)->Ok_0;
            assert(out@ + q.0 =~= q.0);
            assert(done + q.1 =~= q.1);
        }
    }
    while li < lines.len()
        invariant
            table.wf(),
            lines.deep_view() == lv,
            lv == spec_lines(content@),
            lv.len() <= content@.len() < 0x100000000,
            0 <= li <= lv.len(),
            count <= li,
            forall|n: Seq<char>| #[trigger] table.lookup(n) == binds_lookup(done, n),
            process_lines(lv, 0) == (match process_lines(lv.skip(li as int), count as int) {
                Ok(q) => Ok::<(Seq<char>, Seq<(Seq<char>, u32)>), AsmError>(
                    (out@ + q.0, done + q.1),
                ),
                Err(e) => Err::<(Seq<char>, Seq<(Seq<char>, u32)>), AsmError>(e),
            }),
        decreases lv.len() - li,
    {
        let ghost rem = lv.skip(li as int);
        proof {
            assert(rem[0] == lines@[li as int]@);
        }
        let line = &lines[li];
        let toks = split_tokens(line.as_str());
        let ghost tv = toks.deep_view();
        proof {
            lemma_first_code_tok(tv, 0);
        }
        let ghost kk = first_code_tok(tv, 0);
        let ghost labels = Seq::new(kk as nat, |i: int| (tv[i].drop_last(), count as u32));
        let ghost done0 = done;
        let ghost out0 = out@;
        let mut k: usize = 0;
        while k < toks.len() && is_label(&toks[k])
            invariant
                table.wf(),
                toks.deep_view() == tv,
                kk == first_code_tok(tv, 0),
                0 <= kk <= tv.len(),
                forall|i: int| 0 <= i < kk ==> is_label_tok(#[trigger] tv[i]),
                kk < tv.len() ==> !is_label_tok(tv[kk as int]),
                labels == Seq::new(kk as nat, |i: int| (tv[i].drop_last(), count as u32)),
                0 <= k <= kk,
                done == done0 + Seq::new(k as nat, |i: int| (tv[i].drop_last(), count as u32)),
                forall|n: Seq<char>| #[trigger] table.lookup(n) == binds_lookup(done, n),
            decreases tv.len() - k,
        {
            proof {
                if k + 1 > kk {
                    assert(is_label_tok(tv[k as int]));
                    assert(false);
                }
            }
            let name = drop_last_char(&toks[k]);
            let ghost pre_table = table;
            let ghost name_view = name@;
            table.add_symbol(name, count);
            proof {
                lemma_lookup_step(pre_table, table, done, name_view, count);
                done = done.push((tv[k as int].drop_last(), count as u32));
                assert(done =~= done0 + Seq::new(
                    (k + 1) as nat,
                    |i: int| (tv[i].drop_last(), count as u32),
                ));
            }
            k = k + 1;
        }
        proof {
            assert(k == kk) by {
                if k < kk {
                    assert(is_label_tok(tv[k as int]));
                }
            }
            assert(done =~= done0 + labels);
            assert(rem.drop_first() =~= lv.skip(li + 1));
            assert(spec_tokens(rem[0]) == tv);
        }
        if k == toks.len() {
            proof {
                if process_lines(lv.skip(li + 1), count as int) is Ok {
                    let q = process_lines(lv.skip(li + 1), count as int)->Ok_0;
                    assert((done0 + labels) + q.1 =~= done0 + (labels + q.1));
                }
            }
            li = li + 1;
        } else {
            if toks.len() - k > 3 {
                return Err(AsmError::ExtraToken);
            }
            let tok = &toks[k];
            let code: u32 = match crate::loading::parse_number(tok.as_str()) {
                Some(v) => crate::utils::unsign_of_signed(v),
                None => {
                    let upper = to_upper(tok.as_str());
                    match OpCode::from_mnemonic(upper.as_str()) {
                        Some(op) => op.code(),
                        None => {
                            return Err(AsmError::InvalidOpcode);
                        },
                    }
                },
            };
            let code_str = to_decimal_string(crate::utils::sign_of_unsigned(code));
            out.append(code_str.as_str());
            out.append(" ");
            if toks.len() - k > 1 {
                out.append(toks[k + 1].as_str());
            } else {
                out.append("0");
            }
            out.append(" ");
            if toks.len() - k > 2 {
                out.append(toks[k + 2].as_str());
            } else {
                out.append("4");
            }
            out.append("\n");
            proof {
                crate::utils::lemma_unsign_sign(code);
                reveal_strlit(" ");
                reveal_strlit("0");
                reveal_strlit("4");
                reveal_strlit("\n");
                assert(" "@ =~= seq![' ']);
                assert("0"@ =~= seq!['0']);
                assert("4"@ =~= seq!['4']);
                assert("\n"@ =~= seq!['\n']);
                assert(out@ =~= out0 + line_text(code, tv, kk));
                if process_lines(lv.skip(li + 1), count + 1) is Ok {
                    let q = process_lines(lv.skip(li + 1), count + 1)->Ok_0;
                    assert((out0 + line_text(code, tv, kk)) + q.0 =~= out0 + (line_text(
                        code,
                        tv,
                        kk,
                    ) + q.0));
                    assert((done0 + labels) + q.1 =~= done0 + (labels + q.1));
                }
            }
            count = count + 1;
            li = li + 1;
        }
    }
    proof {
        assert(lv.skip(li as int) =~= Seq::<Seq<char>>::empty());
        if process_lines(lv, 0) is Ok {
            let q = process_lines(lv, 0)->Ok_0;
            assert(out@ + Seq::<char>::empty() =~= out@);
            assert(done + Seq::<(Seq<char>, u32)>::empty() =~= done);
        }
    }
    Ok((out, table))
}

/// The assembler's front end, holding the source and the labels it
/// collects.
pub struct PreProcessor {
    pub symbol_table: SymbolTable,
    pub content: String,
}

impl PreProcessor {
    /// A fresh front end over the given source.
    pub fn new(content: &str) -> (r: PreProcessor)
        ensures
            r.content@ == content@,
            r.symbol_table.wf(),
            r.symbol_table.entries() =~= Seq::<(String, u32)>::empty(),
    {
        PreProcessor { symbol_table: SymbolTable::new(), content: content.to_owned() }
    }

    /// Processes the source, collecting its labels into the table
    /// and returning the numeric text.
    pub fn process(&mut self) -> (r: Result<String, AsmError>)
        requires
            old(self).content@.len() < 0x100000000,
        ensures
            final(self).content == old(self).content,
            (match r {
                Ok(text) => (process_lines(spec_lines(old(self).content@), 0) matches Ok(q)
                    && text@ == q.0 && final(self).symbol_table.wf() && (forall|n: Seq<char>|
                    #[trigger] final(self).symbol_table.lookup(n) == binds_lookup(q.1, n))),
                Err(e) => process_lines(spec_lines(old(self).content@), 0) == Err::<
                    (Seq<char>, Seq<(Seq<char>, u32)>),
                    AsmError,
                >(e) && *final(self) == *old(self),
            }),
    {
        match process(self.content.as_str()) {
            Ok((text, table)) => {
                self.symbol_table = table;
                Ok(text)
            },
            Err(e) => Err(e),
        }
    }
}

} // verus!
