use vstd::prelude::*;

use crate::instruction::Instruction;
use crate::register::Reg;
use vstd::string::StrSliceExecFns;
use vstd::string::StringExecFns;

verus! {

/// Why a piece of assembly text was rejected. Each variant carries the
/// 1-based number of the offending line.
#[derive(Clone, Copy, Debug, PartialEq, Eq, Structural)]
pub enum ParseError {
    /// The line's first token names no instruction.
    UnknownMnemonic { line: usize },
    /// The line holds more or fewer operands than its mnemonic takes.
    WrongArity { line: usize },
    /// An operand is not a register name `R0` through `R15`, or not a
    /// decimal integer in its operand's range.
    BadOperand { line: usize },
}

/// What one line of assembly means: nothing (blank or comment), one
/// instruction, or one of the three rejections.
#[derive(Clone, Copy, Debug, PartialEq, Eq, Structural)]
pub enum LineParse {
    Empty,
    Instr(Instruction),
    BadMnemonic,
    BadArity,
    BadOperand,
}

/// Whitespace that separates tokens within a line. A carriage return before
/// the line feed counts as plain whitespace, so text with either line ending
/// reads the same.
pub open spec fn is_space(c: char) -> bool {
    c == ' ' || c == '\t' || c == '\r'
}

/// A decimal digit.
pub open spec fn is_digit(c: char) -> bool {
    ('0' as u32) <= (c as u32) && (c as u32) <= ('9' as u32)
}

/// The numeric value of a decimal digit.
pub open spec fn digit_val(c: char) -> int {
    (c as u32) - ('0' as u32)
}

/// Every character of `s` is a decimal digit.
pub open spec fn all_digits(s: Seq<char>) -> bool {
    forall|i: int| 0 <= i < s.len() ==> #[trigger] is_digit(s[i])
}

/// The value of a digit string, most significant digit first.
pub open spec fn digits_val(s: Seq<char>) -> int
    decreases s.len(),
{
    if s.len() == 0 {
        0
    } else {
        digits_val(s.drop_last()) * 10 + digit_val(s.last())
    }
}

/// An unsigned 16-bit operand: an optional plus sign, then decimal digits
/// whose value fits.
pub open spec fn parse_u16(tok: Seq<char>) -> Option<u16> {
    let body = if tok.len() > 0 && tok[0] == '+' {
        tok.skip(1)
    } else {
        tok
    };
    if body.len() > 0 && all_digits(body) && digits_val(body) <= 65535 {
        Some(digits_val(body) as u16)
    } else {
        None
    }
}

/// A signed 16-bit operand: an optional sign, then decimal digits whose
/// value fits.
pub open spec fn parse_i16(tok: Seq<char>) -> Option<i16> {
    if tok.len() > 0 && tok[0] == '-' {
        let body = tok.skip(1);
        if body.len() > 0 && all_digits(body) && digits_val(body) <= 32768 {
            Some((-digits_val(body)) as i16)
        } else {
            None
        }
    } else {
        let body = if tok.len() > 0 && tok[0] == '+' {
            tok.skip(1)
        } else {
            tok
        };
        if body.len() > 0 && all_digits(body) && digits_val(body) <= 32767 {
            Some(digits_val(body) as i16)
        } else {
            None
        }
    }
}

/// A register operand: `R` followed by the register's decimal ordinal,
/// 0 through 15.
pub open spec fn parse_reg(tok: Seq<char>) -> Option<Reg> {
    if tok.len() >= 2 && tok[0] == 'R' && all_digits(tok.skip(1)) && digits_val(tok.skip(1))
        <= 15 {
        Reg::spec_from_ordinal(digits_val(tok.skip(1)))
    } else {
        None
    }
}

/// A token list, wrapped only when the pending token is nonempty.
pub open spec fn emit(cur: Seq<char>) -> Seq<Seq<char>> {
    if cur.len() == 0 {
        seq![]
    } else {
        seq![cur]
    }
}

/// Whitespace tokenization of the rest of a line, with `cur` the token
/// collected so far.
pub open spec fn tokens_acc(s: Seq<char>, cur: Seq<char>) -> Seq<Seq<char>>
    decreases s.len(),
{
    if s.len() == 0 {
        emit(cur)
    } else if is_space(s[0]) {
        emit(cur) + tokens_acc(s.skip(1), seq![])
    } else {
        tokens_acc(s.skip(1), cur.push(s[0]))
    }
}

/// The whitespace-separated tokens of one line, in order, each nonempty.
pub open spec fn tokens(s: Seq<char>) -> Seq<Seq<char>> {
    tokens_acc(s, seq![])
}

/// Split of a text into lines at every line feed, with `cur` the line
/// collected so far. A text always holds at least one line, and a trailing
/// line feed ends with an empty one.
pub open spec fn lines_acc(s: Seq<char>, cur: Seq<char>) -> Seq<Seq<char>>
    decreases s.len(),
{
    if s.len() == 0 {
        seq![cur]
    } else if s[0] == '\n' {
        seq![cur] + lines_acc(s.skip(1), seq![])
    } else {
        lines_acc(s.skip(1), cur.push(s[0]))
    }
}

/// The lines of a text, split at every line feed.
pub open spec fn split_lines(s: Seq<char>) -> Seq<Seq<char>> {
    lines_acc(s, seq![])
}

/// Whether `m` is the mnemonic of a two-register instruction.
pub open spec fn is_two_reg_mnemonic(m: Seq<char>) -> bool {
    ||| m == "copyrr"@
    ||| m == "add"@
    ||| m == "sub"@
    ||| m == "mul"@
    ||| m == "div"@
    ||| m == "eq"@
    ||| m == "neq"@
    ||| m == "lt"@
    ||| m == "lte"@
    ||| m == "gt"@
    ||| m == "gte"@
}

/// The two-register instruction of its mnemonic. Only the mnemonics of
/// [`is_two_reg_mnemonic`] reach this function.
pub open spec fn two_reg_mnemonic_instr(m: Seq<char>, r1: Reg, r2: Reg) -> Instruction {
    if m == "copyrr"@ {
        Instruction::CopyRR(r1, r2)
    } else if m == "add"@ {
        Instruction::Add(r1, r2)
    } else if m == "sub"@ {
        Instruction::Sub(r1, r2)
    } else if m == "mul"@ {
        Instruction::Mul(r1, r2)
    } else if m == "eq"@ {
        Instruction::Eq(r1, r2)
    } else if m == "neq"@ {
        Instruction::Neq(r1, r2)
    } else if m == "lt"@ {
        Instruction::Lt(r1, r2)
    } else if m == "lte"@ {
        Instruction::Lte(r1, r2)
    } else if m == "gt"@ {
        Instruction::Gt(r1, r2)
    } else if m == "gte"@ {
        Instruction::Gte(r1, r2)
    } else {
        Instruction::Div(r1, r2)
    }
}

/// Whether `m` is the mnemonic of a jump instruction.
pub open spec fn is_jump_mnemonic(m: Seq<char>) -> bool {
    m == "jump"@ || m == "jumptrue"@ || m == "jumpfalse"@
}

/// The jump instruction of its mnemonic. Only the mnemonics of
/// [`is_jump_mnemonic`] reach this function.
pub open spec fn jump_mnemonic_instr(m: Seq<char>, offset: i16) -> Instruction {
    if m == "jump"@ {
        Instruction::Jump(offset)
    } else if m == "jumptrue"@ {
        Instruction::JumpTrue(offset)
    } else {
        Instruction::JumpFalse(offset)
    }
}

/// The meaning of a tokenized instruction line: the first token selects the
/// mnemonic, the rest are its operands, in the instruction's own operand
/// order.
pub open spec fn parse_fields(toks: Seq<Seq<char>>) -> LineParse {
    let m = toks[0];
    if m == "ret"@ {
        if toks.len() == 1 {
            LineParse::Instr(Instruction::Ret)
        } else {
            LineParse::BadArity
        }
    } else if m == "putreg"@ || m == "copysr"@ {
        if toks.len() != 3 {
            LineParse::BadArity
        } else {
            match (parse_u16(toks[1]), parse_reg(toks[2])) {
                (Some(v), Some(r)) => LineParse::Instr(
                    if m == "putreg"@ {
                        Instruction::PutReg(v, r)
                    } else {
                        Instruction::CopySR(v, r)
                    },
                ),
                _ => LineParse::BadOperand,
            }
        }
    } else if m == "copyrs"@ {
        if toks.len() != 3 {
            LineParse::BadArity
        } else {
            match (parse_reg(toks[1]), parse_u16(toks[2])) {
                (Some(r), Some(v)) => LineParse::Instr(Instruction::CopyRS(r, v)),
                _ => LineParse::BadOperand,
            }
        }
    } else if is_two_reg_mnemonic(m) {
        if toks.len() != 3 {
            LineParse::BadArity
        } else {
            match (parse_reg(toks[1]), parse_reg(toks[2])) {
                (Some(r1), Some(r2)) => LineParse::Instr(two_reg_mnemonic_instr(m, r1, r2)),
                _ => LineParse::BadOperand,
            }
        }
    } else if m == "printreg"@ {
        if toks.len() != 2 {
            LineParse::BadArity
        } else {
            match parse_reg(toks[1]) {
                Some(r) => LineParse::Instr(Instruction::PrintReg(r)),
                None => LineParse::BadOperand,
            }
        }
    } else if is_jump_mnemonic(m) {
        if toks.len() != 2 {
            LineParse::BadArity
        } else {
            match parse_i16(toks[1]) {
                Some(off) => LineParse::Instr(jump_mnemonic_instr(m, off)),
                None => LineParse::BadOperand,
            }
        }
    } else {
        LineParse::BadMnemonic
    }
}

/// The meaning of one line: blank lines and lines whose first token starts
/// with `#` produce nothing; every other line must be an instruction.
pub open spec fn parse_line(line: Seq<char>) -> LineParse {
    let toks = tokens(line);
    if toks.len() == 0 {
        LineParse::Empty
    } else if toks[0].len() > 0 && toks[0][0] == '#' {
        LineParse::Empty
    } else {
        parse_fields(toks)
    }
}

/// The meaning of a list of lines, numbering them from `lineno`: the
/// instructions of the instruction lines in order, or the first rejection
/// with its line number.
pub open spec fn parse_lines(ls: Seq<Seq<char>>, lineno: int) -> Result<
    Seq<Instruction>,
    ParseError,
>
    decreases ls.len(),
{
    if ls.len() == 0 {
        Ok(seq![])
    } else {
        match parse_line(ls[0]) {
            LineParse::Empty => parse_lines(ls.skip(1), lineno + 1),
            LineParse::Instr(x) => match parse_lines(ls.skip(1), lineno + 1) {
                Ok(rest) => Ok(seq![x] + rest),
                Err(e) => Err(e),
            },
            LineParse::BadMnemonic => Err(ParseError::UnknownMnemonic { line: lineno as usize }),
            LineParse::BadArity => Err(ParseError::WrongArity { line: lineno as usize }),
            LineParse::BadOperand => Err(ParseError::BadOperand { line: lineno as usize }),
        }
    }
}

/// The meaning of a whole assembly text: lines split at line feeds and
/// numbered from 1. Parsing is a pure function of the text, and a rejection
/// returns no partial program.
pub open spec fn spec_parse_asm(text: Seq<char>) -> Result<Seq<Instruction>, ParseError> {
    parse_lines(split_lines(text), 1)
}

/// The views of a list of character vectors.
pub open spec fn views_of(ls: Seq<Vec<char>>) -> Seq<Seq<char>> {
    ls.map_values(|l: Vec<char>| l@)
}

/// Reads the digits of `tok` from `start` on. `None` when there is no digit
/// or a non-digit appears; otherwise the digits' value, with every value
/// over 65535 reported as 70000 — no operand admits such a value.
fn scan_digits(tok: &Vec<char>, start: usize) -> (r: Option<u32>)
    requires
        start <= tok@.len(),
    ensures
        match r {
            None => !(tok@.len() > start && all_digits(tok@.skip(start as int))),
            Some(v) => tok@.len() > start && all_digits(tok@.skip(start as int)) && v == (
            if digits_val(tok@.skip(start as int)) <= 65535 {
                digits_val(tok@.skip(start as int))
            } else {
                70000
            }),
        },
{
    let n = tok.len();
    if start >= n {
        return None;
    }
    let mut acc: u32 = 0;
    let mut i: usize = start;
    while i < n
        invariant
            start <= i <= n,
            n == tok@.len(),
            all_digits(tok@.subrange(start as int, i as int)),
            acc == (if digits_val(tok@.subrange(start as int, i as int)) <= 65535 {
                digits_val(tok@.subrange(start as int, i as int))
            } else {
                70000
            }),
        decreases n - i,
    {
        let c = tok[i];
        if (c as u32) < ('0' as u32) || (c as u32) > ('9' as u32) {
            proof {
                assert(0 <= i - start < tok@.skip(start as int).len());
                assert(tok@.skip(start as int)[i - start] == tok@[i as int]);
                assert(!is_digit(tok@[i as int]));
                assert(!all_digits(tok@.skip(start as int)));
            }
            return None;
        }
        let d = (c as u32) - ('0' as u32);
        if acc <= 65535 {
            acc = acc * 10 + d;
            if acc > 65535 {
                acc = 70000;
            }
        }
        proof {
            assert(tok@.subrange(start as int, i + 1).drop_last() =~= tok@.subrange(
                start as int,
                i as int,
            ));
            assert(tok@.subrange(start as int, i + 1).last() == tok@[i as int]);
        }
        i = i + 1;
    }
    proof {
        assert(tok@.subrange(start as int, n as int) =~= tok@.skip(start as int));
    }
    Some(acc)
}

/// An unsigned 16-bit operand.
fn parse_u16_token(tok: &Vec<char>) -> (r: Option<u16>)
    ensures
        r == parse_u16(tok@),
{
    let start: usize = if tok.len() > 0 && tok[0] == '+' {
        1
    } else {
        0
    };
    match scan_digits(tok, start) {
        Some(v) => {
            if v <= 65535 {
                proof {
                    if start == 0 {
                        assert(tok@.skip(0) =~= tok@);
                    }
                }
                Some(v as u16)
            } else {
                None
            }
        },
        None => None,
    }
}

/// A signed 16-bit operand.
fn parse_i16_token(tok: &Vec<char>) -> (r: Option<i16>)
    ensures
        r == parse_i16(tok@),
{
    if tok.len() > 0 && tok[0] == '-' {
        match scan_digits(tok, 1) {
            Some(v) => {
                if v <= 32768 {
                    Some((-(v as i32)) as i16)
                } else {
                    None
                }
            },
            None => None,
        }
    } else {
        let start: usize = if tok.len() > 0 && tok[0] == '+' {
            1
        } else {
            0
        };
        match scan_digits(tok, start) {
            Some(v) => {
                if v <= 32767 {
                    proof {
                        if start == 0 {
                            assert(tok@.skip(0) =~= tok@);
                        }
                    }
                    Some(v as i16)
                } else {
                    None
                }
            },
            None => None,
        }
    }
}

/// A register operand.
fn parse_reg_token(tok: &Vec<char>) -> (r: Option<Reg>)
    ensures
        r == parse_reg(tok@),
{
    if tok.len() >= 2 && tok[0] == 'R' {
        match scan_digits(tok, 1) {
            Some(v) => {
                if v <= 15 {
                    Reg::from_u8(v as u8)
                } else {
                    None
                }
            },
            None => None,
        }
    } else {
        None
    }
}

/// Appending one collected vector appends its view.
proof fn lemma_views_push(ls: Seq<Vec<char>>, l: Vec<char>)
    ensures
        views_of(ls.push(l)) == views_of(ls) + seq![l@],
{
    assert(views_of(ls.push(l)) =~= views_of(ls) + seq![l@]);
}

/// The characters of a string, in order.
fn str_chars(s: &str) -> (v: Vec<char>)
    ensures
        v@ == s@,
{
    let n = s.unicode_len();
    let mut v: Vec<char> = Vec::new();
    let mut i: usize = 0;
    while i < n
        invariant
            i <= n,
            n == s@.len(),
            v@ == s@.subrange(0, i as int),
        decreases n - i,
    {
        let c = s.get_char(i);
        v.push(c);
        proof {
            assert(v@ =~= s@.subrange(0, i + 1));
        }
        i = i + 1;
    }
    proof {
        assert(s@.subrange(0, n as int) =~= s@);
    }
    v
}

/// Whether a collected token spells exactly the string `s`.
fn token_eq(tok: &Vec<char>, s: &str) -> (b: bool)
    ensures
        b == (tok@ == s@),
{
    let n = s.unicode_len();
    if tok.len() != n {
        return false;
    }
    let mut i: usize = 0;
    while i < n
        invariant
            i <= n,
            n == s@.len(),
            n == tok@.len(),
            forall|k: int| 0 <= k < i ==> tok@[k] == s@[k],
        decreases n - i,
    {
        if tok[i] != s.get_char(i) {
            return false;
        }
        i = i + 1;
    }
    proof {
        assert(tok@ =~= s@);
    }
    true
}

/// Splits one line into its whitespace-separated tokens.
fn tokenize(line: &Vec<char>) -> (toks: Vec<Vec<char>>)
    ensures
        views_of(toks@) == tokens(line@),
{
    let mut toks: Vec<Vec<char>> = Vec::new();
    let mut cur: Vec<char> = Vec::new();
    let n = line.len();
    let mut i: usize = 0;
    proof {
        assert(views_of(toks@) =~= Seq::<Seq<char>>::empty());
        assert(line@.skip(0) =~= line@);
        assert(cur@ =~= Seq::<char>::empty());
        assert(views_of(toks@) + tokens_acc(line@, cur@) =~= tokens_acc(line@, cur@));
    }
    while i < n
        invariant
            i <= n,
            n == line@.len(),
            tokens(line@) == views_of(toks@) + tokens_acc(line@.skip(i as int), cur@),
        decreases n - i,
    {
        let c = line[i];
        proof {
            assert(line@.skip(i as int)[0] == line@[i as int]);
            assert(line@.skip(i as int).skip(1) =~= line@.skip(i + 1));
        }
        if c == ' ' || c == '\t' || c == '\r' {
            if cur.len() > 0 {
                let ghost old_toks = toks@;
                let ghost old_cur = cur@;
                toks.push(cur);
                cur = Vec::new();
                proof {
                    lemma_views_push(old_toks, toks@[toks@.len() - 1]);
                    assert(views_of(toks@) == views_of(old_toks) + seq![old_cur]);
                    assert(emit(old_cur) == seq![old_cur]);
                    assert((views_of(old_toks) + seq![old_cur]) + tokens_acc(
                        line@.skip(i + 1),
                        Seq::empty(),
                    ) =~= views_of(old_toks) + (seq![old_cur] + tokens_acc(
                        line@.skip(i + 1),
                        Seq::empty(),
                    )));
                    assert(cur@ =~= Seq::<char>::empty());
                }
            } else {
                proof {
                    assert(emit(cur@) =~= Seq::<Seq<char>>::empty());
                    assert(emit(cur@) + tokens_acc(line@.skip(i + 1), Seq::empty()) =~= tokens_acc(
                        line@.skip(i + 1),
                        Seq::empty(),
                    ));
                    assert(cur@ =~= Seq::<char>::empty());
                }
            }
        } else {
            cur.push(c);
        }
        i = i + 1;
    }
    if cur.len() > 0 {
        let ghost old_toks = toks@;
        let ghost old_cur = cur@;
        toks.push(cur);
        proof {
            lemma_views_push(old_toks, toks@[toks@.len() - 1]);
            assert(tokens(line@) =~= views_of(toks@));
        }
    } else {
        proof {
            assert(views_of(toks@) + emit(cur@) =~= views_of(toks@));
        }
    }
    toks
}

/// Splits a text into its lines at every line feed.
fn split_text(chars: &Vec<char>) -> (ls: Vec<Vec<char>>)
    ensures
        views_of(ls@) == split_lines(chars@),
{
    let mut ls: Vec<Vec<char>> = Vec::new();
    let mut cur: Vec<char> = Vec::new();
    let n = chars.len();
    let mut i: usize = 0;
    proof {
        assert(views_of(ls@) =~= Seq::<Seq<char>>::empty());
        assert(chars@.skip(0) =~= chars@);
        assert(cur@ =~= Seq::<char>::empty());
        assert(views_of(ls@) + lines_acc(chars@, cur@) =~= lines_acc(chars@, cur@));
    }
    while i < n
        invariant
            i <= n,
            n == chars@.len(),
            split_lines(chars@) == views_of(ls@) + lines_acc(chars@.skip(i as int), cur@),
        decreases n - i,
    {
        let c = chars[i];
        proof {
            assert(chars@.skip(i as int)[0] == chars@[i as int]);
            assert(chars@.skip(i as int).skip(1) =~= chars@.skip(i + 1));
        }
        if c == '\n' {
            let ghost old_ls = ls@;
            let ghost old_cur = cur@;
            ls.push(cur);
            cur = Vec::new();
            proof {
                lemma_views_push(old_ls, ls@[ls@.len() - 1]);
                assert((views_of(old_ls) + seq![old_cur]) + lines_acc(
                    chars@.skip(i + 1),
                    Seq::empty(),
                ) =~= views_of(old_ls) + (seq![old_cur] + lines_acc(
                    chars@.skip(i + 1),
                    Seq::empty(),
                )));
                assert(cur@ =~= Seq::<char>::empty());
            }
        } else {
            cur.push(c);
        }
        i = i + 1;
    }
    let ghost old_ls = ls@;
    let ghost old_cur = cur@;
    ls.push(cur);
    proof {
        lemma_views_push(old_ls, ls@[ls@.len() - 1]);
        assert(split_lines(chars@) =~= views_of(ls@));
    }
    ls
}

/// The meaning of one collected line.
fn parse_line_vec(line: &Vec<char>) -> (r: LineParse)
    ensures
        r == parse_line(line@),
{
    let toks = tokenize(line);
    let ghost stoks = tokens(line@);
    if toks.len() == 0 {
        return LineParse::Empty;
    }
    proof {
        assert(stoks[0] == toks@[0]@);
    }
    if toks[0].len() > 0 && toks[0][0] == '#' {
        return LineParse::Empty;
    }
    parse_fields_vec(&toks)
}

/// The meaning of a tokenized instruction line.
fn parse_fields_vec(toks: &Vec<Vec<char>>) -> (r: LineParse)
    requires
        toks@.len() > 0,
    ensures
        r == parse_fields(views_of(toks@)),
{
    proof {
        assert forall|k: int| 0 <= k < toks@.len() implies views_of(toks@)[k] == toks@[k]@ by {}
    }
    let first = &toks[0];
    if token_eq(first, "ret") {
        if toks.len() == 1 {
            LineParse::Instr(Instruction::Ret)
        } else {
            LineParse::BadArity
        }
    } else if token_eq(first, "putreg") || token_eq(first, "copysr") {
        if toks.len() != 3 {
            LineParse::BadArity
        } else {
            match (parse_u16_token(&toks[1]), parse_reg_token(&toks[2])) {
                (Some(v), Some(r)) => {
                    if token_eq(first, "putreg") {
                        LineParse::Instr(Instruction::PutReg(v, r))
                    } else {
                        LineParse::Instr(Instruction::CopySR(v, r))
                    }
                },
                _ => LineParse::BadOperand,
            }
        }
    } else if token_eq(first, "copyrs") {
        if toks.len() != 3 {
            LineParse::BadArity
        } else {
            match (parse_reg_token(&toks[1]), parse_u16_token(&toks[2])) {
                (Some(r), Some(v)) => LineParse::Instr(Instruction::CopyRS(r, v)),
                _ => LineParse::BadOperand,
            }
        }
    } else if token_eq(first, "copyrr") || token_eq(first, "add") || token_eq(first, "sub")
        || token_eq(first, "mul") || token_eq(first, "div") || token_eq(first, "eq") || token_eq(
        first,
        "neq",
    ) || token_eq(first, "lt") || token_eq(first, "lte") || token_eq(first, "gt") || token_eq(
        first,
        "gte",
    ) {
        if toks.len() != 3 {
            LineParse::BadArity
        } else {
            match (parse_reg_token(&toks[1]), parse_reg_token(&toks[2])) {
                (Some(r1), Some(r2)) => {
                    let x = if token_eq(first, "copyrr") {
                        Instruction::CopyRR(r1, r2)
                    } else if token_eq(first, "add") {
                        Instruction::Add(r1, r2)
                    } else if token_eq(first, "sub") {
                        Instruction::Sub(r1, r2)
                    } else if token_eq(first, "mul") {
                        Instruction::Mul(r1, r2)
                    } else if token_eq(first, "eq") {
                        Instruction::Eq(r1, r2)
                    } else if token_eq(first, "neq") {
                        Instruction::Neq(r1, r2)
                    } else if token_eq(first, "lt") {
                        Instruction::Lt(r1, r2)
                    } else if token_eq(first, "lte") {
                        Instruction::Lte(r1, r2)
                    } else if token_eq(first, "gt") {
                        Instruction::Gt(r1, r2)
                    } else if token_eq(first, "gte") {
                        Instruction::Gte(r1, r2)
                    } else {
                        Instruction::Div(r1, r2)
                    };
                    LineParse::Instr(x)
                },
                _ => LineParse::BadOperand,
            }
        }
    } else if token_eq(first, "printreg") {
        if toks.len() != 2 {
            LineParse::BadArity
        } else {
            match parse_reg_token(&toks[1]) {
                Some(r) => LineParse::Instr(Instruction::PrintReg(r)),
                None => LineParse::BadOperand,
            }
        }
    } else if token_eq(first, "jump") || token_eq(first, "jumptrue") || token_eq(
        first,
        "jumpfalse",
    ) {
        if toks.len() != 2 {
            LineParse::BadArity
        } else {
            match parse_i16_token(&toks[1]) {
                Some(off) => {
                    let x = if token_eq(first, "jump") {
                        Instruction::Jump(off)
                    } else if token_eq(first, "jumptrue") {
                        Instruction::JumpTrue(off)
                    } else {
                        Instruction::JumpFalse(off)
                    };
                    LineParse::Instr(x)
                },
                None => LineParse::BadOperand,
            }
        }
    } else {
        LineParse::BadMnemonic
    }
}

/// Joins already-parsed instructions with the meaning of the lines after
/// them.
pub open spec fn prepend_parsed(
    pre: Seq<Instruction>,
    rest: Result<Seq<Instruction>, ParseError>,
) -> Result<Seq<Instruction>, ParseError> {
    match rest {
        Ok(s) => Ok(pre + s),
        Err(e) => Err(e),
    }
}

/// Pushing one parsed instruction onto the prefix commutes with consing it
/// onto the meaning of the remaining lines.
proof fn lemma_parse_step(
    pre: Seq<Instruction>,
    x: Instruction,
    rest: Result<Seq<Instruction>, ParseError>,
)
    ensures
        prepend_parsed(pre, match rest {
            Ok(s) => Ok::<Seq<Instruction>, ParseError>(seq![x] + s),
            Err(e) => Err(e),
        }) == prepend_parsed(pre.push(x), rest),
{
    match rest {
        Ok(s) => {
            assert(pre + (seq![x] + s) =~= pre.push(x) + s);
        },
        Err(_) => {},
    }
}

/// Assembles a text into instructions, or reports the first offending line:
/// an unknown mnemonic, a wrong operand count, or an operand that does not
/// parse. Blank lines and lines starting with `#` are skipped; nothing
/// partial comes back on a rejection.
pub fn asm_to_instructions(s: &str) -> (r: Result<Vec<Instruction>, ParseError>)
    ensures
        match r {
            Ok(v) => spec_parse_asm(s@) == Ok::<Seq<Instruction>, ParseError>(v@),
            Err(e) => spec_parse_asm(s@) == Err::<Seq<Instruction>, ParseError>(e),
        },
{
    let chars = str_chars(s);
    let lines = split_text(&chars);
    let mut instructions: Vec<Instruction> = Vec::new();
    let n = lines.len();
    let mut idx: usize = 0;
    proof {
        assert(views_of(lines@).skip(0) =~= views_of(lines@));
        assert(instructions@ =~= Seq::<Instruction>::empty());
        match parse_lines(views_of(lines@), 1) {
            Ok(rest) => {
                assert(instructions@ + rest =~= rest);
            },
            Err(_) => {},
        }
    }
    while idx < n
        invariant
            idx <= n,
            n == lines@.len(),
            views_of(lines@) == split_lines(s@),
            spec_parse_asm(s@) == prepend_parsed(
                instructions@,
                parse_lines(views_of(lines@).skip(idx as int), idx + 1),
            ),
        decreases n - idx,
    {
        let ghost suffix = views_of(lines@).skip(idx as int);
        proof {
            assert(suffix.len() == n - idx);
            assert(suffix[0] == views_of(lines@)[idx as int]);
            assert(views_of(lines@)[idx as int] == lines@[idx as int]@);
            assert(suffix.skip(1) =~= views_of(lines@).skip(idx + 1));
        }
        let lp = parse_line_vec(&lines[idx]);
        match lp {
            LineParse::Empty => {},
            LineParse::Instr(x) => {
                proof {
                    lemma_parse_step(
                        instructions@,
                        x,
                        parse_lines(views_of(lines@).skip(idx + 1), idx + 2),
                    );
                }
                instructions.push(x);
            },
            LineParse::BadMnemonic => {
                return Err(ParseError::UnknownMnemonic { line: idx + 1 });
            },
            LineParse::BadArity => {
                return Err(ParseError::WrongArity { line: idx + 1 });
            },
            LineParse::BadOperand => {
                return Err(ParseError::BadOperand { line: idx + 1 });
            },
        }
        idx = idx + 1;
    }
    proof {
        assert(views_of(lines@).skip(n as int) =~= Seq::<Seq<char>>::empty());
        assert(instructions@ + Seq::<Instruction>::empty() =~= instructions@);
    }
    Ok(instructions)
}

/// The character of a decimal digit.
pub open spec fn digit_char(d: int) -> char {
    if d == 0 {
        '0'
    } else if d == 1 {
        '1'
    } else if d == 2 {
        '2'
    } else if d == 3 {
        '3'
    } else if d == 4 {
        '4'
    } else if d == 5 {
        '5'
    } else if d == 6 {
        '6'
    } else if d == 7 {
        '7'
    } else if d == 8 {
        '8'
    } else {
        '9'
    }
}

/// The decimal spelling of a nonnegative number, most significant digit
/// first, with no sign and no leading zero.
pub open spec fn spec_dec(n: int) -> Seq<char>
    decreases n,
{
    if n < 10 {
        seq![digit_char(n)]
    } else {
        spec_dec(n / 10) + seq![digit_char(n % 10)]
    }
}

/// A single space, the separator the disassembler writes between fields.
pub open spec fn sp() -> Seq<char> {
    seq![' ']
}

/// The textual name of a register: `R` and its decimal ordinal.
pub open spec fn spec_reg_name(r: Reg) -> Seq<char> {
    seq!['R'] + spec_dec(r.ordinal())
}

/// The decimal spelling of a signed jump offset.
pub open spec fn spec_i16_dec(x: i16) -> Seq<char> {
    if x < 0 {
        seq!['-'] + spec_dec(-(x as int))
    } else {
        spec_dec(x as int)
    }
}

/// The assembly line of one instruction: its mnemonic, then its operands in
/// the instruction's own order, single-space-separated.
pub open spec fn spec_line(i: Instruction) -> Seq<char> {
    match i {
        Instruction::Ret => "ret"@,
        Instruction::PutReg(imm, reg) => "putreg"@ + sp() + spec_dec(imm as int) + sp()
            + spec_reg_name(reg),
        Instruction::CopySR(pos, reg) => "copysr"@ + sp() + spec_dec(pos as int) + sp()
            + spec_reg_name(reg),
        Instruction::CopyRR(r1, r2) => "copyrr"@ + sp() + spec_reg_name(r1) + sp()
            + spec_reg_name(r2),
        Instruction::CopyRS(reg, pos) => "copyrs"@ + sp() + spec_reg_name(reg) + sp() + spec_dec(
            pos as int,
        ),
        Instruction::Add(r1, r2) => "add"@ + sp() + spec_reg_name(r1) + sp() + spec_reg_name(r2),
        Instruction::Sub(r1, r2) => "sub"@ + sp() + spec_reg_name(r1) + sp() + spec_reg_name(r2),
        Instruction::Mul(r1, r2) => "mul"@ + sp() + spec_reg_name(r1) + sp() + spec_reg_name(r2),
        Instruction::Div(r1, r2) => "div"@ + sp() + spec_reg_name(r1) + sp() + spec_reg_name(r2),
        Instruction::PrintReg(reg) => "printreg"@ + sp() + spec_reg_name(reg),
        Instruction::Jump(offset) => "jump"@ + sp() + spec_i16_dec(offset),
        Instruction::JumpTrue(offset) => "jumptrue"@ + sp() + spec_i16_dec(offset),
        Instruction::JumpFalse(offset) => "jumpfalse"@ + sp() + spec_i16_dec(offset),
        Instruction::Eq(r1, r2) => "eq"@ + sp() + spec_reg_name(r1) + sp() + spec_reg_name(r2),
        Instruction::Neq(r1, r2) => "neq"@ + sp() + spec_reg_name(r1) + sp() + spec_reg_name(r2),
        Instruction::Lt(r1, r2) => "lt"@ + sp() + spec_reg_name(r1) + sp() + spec_reg_name(r2),
        Instruction::Lte(r1, r2) => "lte"@ + sp() + spec_reg_name(r1) + sp() + spec_reg_name(r2),
        Instruction::Gt(r1, r2) => "gt"@ + sp() + spec_reg_name(r1) + sp() + spec_reg_name(r2),
        Instruction::Gte(r1, r2) => "gte"@ + sp() + spec_reg_name(r1) + sp() + spec_reg_name(r2),
    }
}

/// Appends one decimal digit.
fn append_digit(s: &mut String, d: u32)
    requires
        d < 10,
    ensures
        final(s)@ == old(s)@ + seq![digit_char(d as int)],
{
    if d == 0 {
        s.append("0");
        proof {
            reveal_strlit("0");
            assert("0"@ =~= seq![digit_char(0)]);
        }
    } else if d == 1 {
        s.append("1");
        proof {
            reveal_strlit("1");
            assert("1"@ =~= seq![digit_char(1)]);
        }
    } else if d == 2 {
        s.append("2");
        proof {
            reveal_strlit("2");
            assert("2"@ =~= seq![digit_char(2)]);
        }
    } else if d == 3 {
        s.append("3");
        proof {
            reveal_strlit("3");
            assert("3"@ =~= seq![digit_char(3)]);
        }
    } else if d == 4 {
        s.append("4");
        proof {
            reveal_strlit("4");
            assert("4"@ =~= seq![digit_char(4)]);
        }
    } else if d == 5 {
        s.append("5");
        proof {
            reveal_strlit("5");
            assert("5"@ =~= seq![digit_char(5)]);
        }
    } else if d == 6 {
        s.append("6");
        proof {
            reveal_strlit("6");
            assert("6"@ =~= seq![digit_char(6)]);
        }
    } else if d == 7 {
        s.append("7");
        proof {
            reveal_strlit("7");
            assert("7"@ =~= seq![digit_char(7)]);
        }
    } else if d == 8 {
        s.append("8");
        proof {
            reveal_strlit("8");
            assert("8"@ =~= seq![digit_char(8)]);
        }
    } else {
        s.append("9");
        proof {
            reveal_strlit("9");
            assert("9"@ =~= seq![digit_char(9)]);
        }
    }
}

/// Appends the decimal spelling of `n`.
fn append_dec(s: &mut String, n: u32)
    ensures
        final(s)@ == old(s)@ + spec_dec(n as int),
    decreases n,
{
    if n >= 10 {
        append_dec(s, n / 10);
        append_digit(s, n % 10);
        proof {
            assert(old(s)@ + spec_dec(n as int / 10) + seq![digit_char(n as int % 10)] =~= old(s)@
                + spec_dec(n as int));
        }
    } else {
        append_digit(s, n);
    }
}

/// Appends one space.
fn append_sp(s: &mut String)
    ensures
        final(s)@ == old(s)@ + sp(),
{
    s.append(" ");
    proof {
        reveal_strlit(" ");
        assert(" "@ =~= sp());
    }
}

/// Appends the textual name of a register.
fn append_reg(s: &mut String, r: Reg)
    ensures
        final(s)@ == old(s)@ + spec_reg_name(r),
{
    s.append("R");
    append_dec(s, r.to_u8() as u32);
    proof {
        reveal_strlit("R");
        assert("R"@ =~= seq!['R']);
        assert(old(s)@ + "R"@ + spec_dec(r.ordinal()) =~= old(s)@ + spec_reg_name(r));
    }
}

/// Appends the decimal spelling of a signed jump offset.
fn append_i16(s: &mut String, x: i16)
    ensures
        final(s)@ == old(s)@ + spec_i16_dec(x),
{
    if x < 0 {
        s.append("-");
        let mag = (-(x as i32)) as u32;
        append_dec(s, mag);
        proof {
            reveal_strlit("-");
            assert("-"@ =~= seq!['-']);
            assert(old(s)@ + "-"@ + spec_dec(mag as int) =~= old(s)@ + spec_i16_dec(x));
        }
    } else {
        append_dec(s, x as u32);
    }
}

/// A line of a mnemonic alone.
fn line_plain(m: &str) -> (r: String)
    ensures
        r@ == m@,
{
    String::from_str(m)
}

/// A line of a mnemonic, an unsigned operand and a register.
fn line_u16_reg(m: &str, v: u16, reg: Reg) -> (r: String)
    ensures
        r@ == m@ + sp() + spec_dec(v as int) + sp() + spec_reg_name(reg),
{
    let mut s = String::from_str(m);
    append_sp(&mut s);
    append_dec(&mut s, v as u32);
    append_sp(&mut s);
    append_reg(&mut s, reg);
    s
}

/// A line of a mnemonic, a register and an unsigned operand.
fn line_reg_u16(m: &str, reg: Reg, v: u16) -> (r: String)
    ensures
        r@ == m@ + sp() + spec_reg_name(reg) + sp() + spec_dec(v as int),
{
    let mut s = String::from_str(m);
    append_sp(&mut s);
    append_reg(&mut s, reg);
    append_sp(&mut s);
    append_dec(&mut s, v as u32);
    s
}

/// A line of a mnemonic and two registers.
fn line_two_regs(m: &str, r1: Reg, r2: Reg) -> (r: String)
    ensures
        r@ == m@ + sp() + spec_reg_name(r1) + sp() + spec_reg_name(r2),
{
    let mut s = String::from_str(m);
    append_sp(&mut s);
    append_reg(&mut s, r1);
    append_sp(&mut s);
    append_reg(&mut s, r2);
    s
}

/// A line of a mnemonic and one register.
fn line_reg(m: &str, reg: Reg) -> (r: String)
    ensures
        r@ == m@ + sp() + spec_reg_name(reg),
{
    let mut s = String::from_str(m);
    append_sp(&mut s);
    append_reg(&mut s, reg);
    s
}

/// A line of a mnemonic and a signed offset.
fn line_i16(m: &str, x: i16) -> (r: String)
    ensures
        r@ == m@ + sp() + spec_i16_dec(x),
{
    let mut s = String::from_str(m);
    append_sp(&mut s);
    append_i16(&mut s, x);
    s
}

impl Instruction {
    /// The instruction's assembly line, exactly as [`spec_line`] spells it.
    pub fn to_string(&self) -> (r: String)
        ensures
            r@ == spec_line(*self),
    {
        match *self {
            Instruction::Ret => line_plain("ret"),
            Instruction::PutReg(imm, reg) => line_u16_reg("putreg", imm, reg),
            Instruction::CopySR(pos, reg) => line_u16_reg("copysr", pos, reg),
            Instruction::CopyRR(r1, r2) => line_two_regs("copyrr", r1, r2),
            Instruction::CopyRS(reg, pos) => line_reg_u16("copyrs", reg, pos),
            Instruction::Add(r1, r2) => line_two_regs("add", r1, r2),
            Instruction::Sub(r1, r2) => line_two_regs("sub", r1, r2),
            Instruction::Mul(r1, r2) => line_two_regs("mul", r1, r2),
            Instruction::Div(r1, r2) => line_two_regs("div", r1, r2),
            Instruction::PrintReg(reg) => line_reg("printreg", reg),
            Instruction::Jump(offset) => line_i16("jump", offset),
            Instruction::JumpTrue(offset) => line_i16("jumptrue", offset),
            Instruction::JumpFalse(offset) => line_i16("jumpfalse", offset),
            Instruction::Eq(r1, r2) => line_two_regs("eq", r1, r2),
            Instruction::Neq(r1, r2) => line_two_regs("neq", r1, r2),
            Instruction::Lt(r1, r2) => line_two_regs("lt", r1, r2),
            Instruction::Lte(r1, r2) => line_two_regs("lte", r1, r2),
            Instruction::Gt(r1, r2) => line_two_regs("gt", r1, r2),
            Instruction::Gte(r1, r2) => line_two_regs("gte", r1, r2),
        }
    }
}

/// The assembly lines of a program, one instruction per line, in order.
pub fn instructions_to_asm(instructions: &[Instruction]) -> (r: Vec<String>)
    ensures
        r@.len() == instructions@.len(),
        forall|k: int| 0 <= k < r@.len() ==> (#[trigger] r@[k])@ == spec_line(instructions@[k]),
{
    let mut asm_lines: Vec<String> = Vec::new();
    let n = instructions.len();
    let mut idx: usize = 0;
    while idx < n
        invariant
            idx <= n,
            n == instructions@.len(),
            asm_lines@.len() == idx,
            forall|k: int|
                0 <= k < idx ==> (#[trigger] asm_lines@[k])@ == spec_line(instructions@[k]),
        decreases n - idx,
    {
        let line = instructions[idx].to_string();
        asm_lines.push(line);
        idx = idx + 1;
    }
    asm_lines
}

/// No character of `s` is token-separating whitespace.
pub open spec fn no_space(s: Seq<char>) -> bool {
    forall|i: int| 0 <= i < s.len() ==> !is_space(#[trigger] s[i])
}

/// No character of `s` is a line feed.
pub open spec fn no_newline(s: Seq<char>) -> bool {
    forall|i: int| 0 <= i < s.len() ==> (#[trigger] s[i]) != '\n'
}

/// A well-behaved field of a formatted line: nonempty, with no whitespace
/// and no line feed in it.
pub open spec fn good_token(s: Seq<char>) -> bool {
    s.len() > 0 && no_space(s) && no_newline(s)
}

/// A decimal spelling is a good token of digits only.
proof fn lemma_dec_token(n: int)
    requires
        n >= 0,
    ensures
        spec_dec(n).len() >= 1,
        all_digits(spec_dec(n)),
        good_token(spec_dec(n)),
        digits_val(spec_dec(n)) == n,
    decreases n,
{
    if n < 10 {
        assert(is_digit(digit_char(n)));
        assert(spec_dec(n) =~= seq![digit_char(n)]);
        assert(seq![digit_char(n)].drop_last() =~= Seq::<char>::empty());
        assert(digit_val(digit_char(n)) == n);
        assert(digits_val(Seq::<char>::empty()) == 0);
        assert(seq![digit_char(n)].last() == digit_char(n));
        assert(digits_val(spec_dec(n)) == n);
    } else {
        lemma_dec_token(n / 10);
        assert forall|i: int| 0 <= i < spec_dec(n).len() implies #[trigger] is_digit(
            spec_dec(n)[i],
        ) by {
            if i < spec_dec(n / 10).len() {
                assert(spec_dec(n)[i] == spec_dec(n / 10)[i]);
            } else {
                assert(spec_dec(n)[i] == digit_char(n % 10));
                assert(is_digit(digit_char(n % 10)));
            }
        }
        assert(spec_dec(n).drop_last() =~= spec_dec(n / 10));
        assert(spec_dec(n).last() == digit_char(n % 10));
        assert(digit_val(digit_char(n % 10)) == n % 10);
        assert(digits_val(spec_dec(n)) == n);
    }
    assert forall|i: int| 0 <= i < spec_dec(n).len() implies !is_space(
        #[trigger] spec_dec(n)[i],
    ) && spec_dec(n)[i] != '\n' && spec_dec(n)[i] != '+' && spec_dec(n)[i] != '-' by {
        assert(is_digit(spec_dec(n)[i]));
    }
}

/// A parsed decimal spelling gives back its number.
proof fn lemma_parse_u16_dec(v: u16)
    ensures
        parse_u16(spec_dec(v as int)) == Some(v),
{
    lemma_dec_token(v as int);
    let tok = spec_dec(v as int);
    assert(is_digit(tok[0]));
    assert(tok[0] != '+');
}

/// A parsed signed decimal spelling gives back its number.
proof fn lemma_parse_i16_dec(x: i16)
    ensures
        parse_i16(spec_i16_dec(x)) == Some(x),
        good_token(spec_i16_dec(x)),
{
    if x >= 0 {
        lemma_dec_token(x as int);
        let tok = spec_dec(x as int);
        assert(is_digit(tok[0]));
        assert(tok[0] != '-');
        assert(tok[0] != '+');
    } else {
        lemma_dec_token(-(x as int));
        let body = spec_dec(-(x as int));
        let tok = seq!['-'] + body;
        assert(tok[0] == '-');
        assert(tok.skip(1) =~= body);
        assert(digits_val(body) == -(x as int) <= 32768);
        assert((-digits_val(body)) as i16 == x);
        assert forall|i: int| 0 <= i < tok.len() implies !is_space(#[trigger] tok[i]) && tok[i]
            != '\n' by {
            if i >= 1 {
                assert(tok[i] == body[i - 1]);
                assert(is_digit(body[i - 1]));
            }
        }
    }
}

/// A parsed register name gives back its register.
proof fn lemma_parse_reg_name(r: Reg)
    ensures
        parse_reg(spec_reg_name(r)) == Some(r),
        good_token(spec_reg_name(r)),
        spec_reg_name(r)[0] == 'R',
{
    crate::register::lemma_reg_ordinal_roundtrip(r);
    lemma_dec_token(r.ordinal());
    let body = spec_dec(r.ordinal());
    let tok = spec_reg_name(r);
    assert(tok[0] == 'R');
    assert(tok.skip(1) =~= body);
    assert(digits_val(body) == r.ordinal() <= 15);
    assert forall|i: int| 0 <= i < tok.len() implies !is_space(#[trigger] tok[i]) && tok[i]
        != '\n' by {
        if i >= 1 {
            assert(tok[i] == body[i - 1]);
            assert(is_digit(body[i - 1]));
        }
    }
}

/// Tokenization walks through a whitespace-free stretch by growing the
/// pending token.
proof fn lemma_tokens_acc_nonspace(t: Seq<char>, rest: Seq<char>, cur: Seq<char>)
    requires
        no_space(t),
    ensures
        tokens_acc(t + rest, cur) == tokens_acc(rest, cur + t),
    decreases t.len(),
{
    if t.len() == 0 {
        assert(t + rest =~= rest);
        assert(cur + t =~= cur);
    } else {
        assert((t + rest)[0] == t[0]);
        assert(!is_space(t[0]));
        assert((t + rest).skip(1) =~= t.skip(1) + rest);
        assert(no_space(t.skip(1))) by {
            assert forall|i: int| 0 <= i < t.skip(1).len() implies !is_space(
                #[trigger] t.skip(1)[i],
            ) by {
                assert(t.skip(1)[i] == t[i + 1]);
            }
        }
        lemma_tokens_acc_nonspace(t.skip(1), rest, cur.push(t[0]));
        assert(cur.push(t[0]) + t.skip(1) =~= cur + t);
    }
}

/// One good token alone tokenizes to itself.
proof fn lemma_tokens_one(m: Seq<char>)
    requires
        m.len() > 0,
        no_space(m),
    ensures
        tokens(m) == seq![m],
{
    assert(m =~= m + Seq::<char>::empty());
    lemma_tokens_acc_nonspace(m, Seq::empty(), Seq::empty());
    assert(Seq::<char>::empty() + m =~= m);
    assert(tokens_acc(Seq::<char>::empty(), m) == emit(m));
    assert(emit(m) =~= seq![m]);
}

/// Two good tokens separated by one space tokenize to the pair.
proof fn lemma_tokens_two(m: Seq<char>, a: Seq<char>)
    requires
        m.len() > 0,
        no_space(m),
        a.len() > 0,
        no_space(a),
    ensures
        tokens(m + sp() + a) == seq![m, a],
{
    let s = m + sp() + a;
    assert(s =~= m + (sp() + a));
    lemma_tokens_acc_nonspace(m, sp() + a, Seq::empty());
    assert(Seq::<char>::empty() + m =~= m);
    assert((sp() + a)[0] == ' ');
    assert((sp() + a).skip(1) =~= a);
    assert(tokens_acc(sp() + a, m) == emit(m) + tokens_acc(a, Seq::empty()));
    assert(a =~= a + Seq::<char>::empty());
    lemma_tokens_acc_nonspace(a, Seq::empty(), Seq::empty());
    assert(Seq::<char>::empty() + a =~= a);
    assert(tokens_acc(Seq::<char>::empty(), a) == emit(a));
    assert(emit(m) + emit(a) =~= seq![m, a]);
}

/// Three good tokens separated by single spaces tokenize to the triple.
proof fn lemma_tokens_three(m: Seq<char>, a: Seq<char>, b: Seq<char>)
    requires
        m.len() > 0,
        no_space(m),
        a.len() > 0,
        no_space(a),
        b.len() > 0,
        no_space(b),
    ensures
        tokens(m + sp() + a + sp() + b) == seq![m, a, b],
{
    let s = m + sp() + a + sp() + b;
    assert(s =~= m + (sp() + (a + sp() + b)));
    lemma_tokens_acc_nonspace(m, sp() + (a + sp() + b), Seq::empty());
    assert(Seq::<char>::empty() + m =~= m);
    assert((sp() + (a + sp() + b))[0] == ' ');
    assert((sp() + (a + sp() + b)).skip(1) =~= a + sp() + b);
    assert(tokens_acc(sp() + (a + sp() + b), m) == emit(m) + tokens_acc(
        a + sp() + b,
        Seq::empty(),
    ));
    assert(a + sp() + b =~= a + (sp() + b));
    lemma_tokens_acc_nonspace(a, sp() + b, Seq::empty());
    assert(Seq::<char>::empty() + a =~= a);
    assert((sp() + b)[0] == ' ');
    assert((sp() + b).skip(1) =~= b);
    assert(tokens_acc(sp() + b, a) == emit(a) + tokens_acc(b, Seq::empty()));
    assert(b =~= b + Seq::<char>::empty());
    lemma_tokens_acc_nonspace(b, Seq::empty(), Seq::empty());
    assert(Seq::<char>::empty() + b =~= b);
    assert(tokens_acc(Seq::<char>::empty(), b) == emit(b));
    assert(emit(m) + (emit(a) + emit(b)) =~= seq![m, a, b]);
}

/// Good tokens concatenated with their separators hold no line feed.
proof fn lemma_no_newline_concat(a: Seq<char>, b: Seq<char>)
    requires
        no_newline(a),
        no_newline(b),
    ensures
        no_newline(a + b),
{
    assert forall|i: int| 0 <= i < (a + b).len() implies (#[trigger] (a + b)[i]) != '\n' by {
        if i < a.len() {
            assert((a + b)[i] == a[i]);
        } else {
            assert((a + b)[i] == b[i - a.len()]);
        }
    }
}

/// A formatted instruction line of the shape mnemonic + two registers reads
/// back as its instruction.
proof fn lemma_parse_format_two_regs(m: Seq<char>, r1: Reg, r2: Reg)
    requires
        good_token(m),
        m[0] != '#',
        is_two_reg_mnemonic(m),
        m != "ret"@,
        m != "putreg"@,
        m != "copysr"@,
        m != "copyrs"@,
    ensures
        parse_line(m + sp() + spec_reg_name(r1) + sp() + spec_reg_name(r2)) == LineParse::Instr(
            two_reg_mnemonic_instr(m, r1, r2),
        ),
        no_newline(m + sp() + spec_reg_name(r1) + sp() + spec_reg_name(r2)),
{
    lemma_parse_reg_name(r1);
    lemma_parse_reg_name(r2);
    lemma_tokens_three(m, spec_reg_name(r1), spec_reg_name(r2));
    assert(no_newline(sp()));
    lemma_no_newline_concat(m, sp());
    lemma_no_newline_concat(m + sp(), spec_reg_name(r1));
    lemma_no_newline_concat(m + sp() + spec_reg_name(r1), sp());
    lemma_no_newline_concat(m + sp() + spec_reg_name(r1) + sp(), spec_reg_name(r2));
}

/// A formatted jump line reads back as its instruction.
proof fn lemma_parse_format_jump(m: Seq<char>, off: i16)
    requires
        good_token(m),
        m[0] != '#',
        is_jump_mnemonic(m),
        m != "ret"@,
        m != "putreg"@,
        m != "copysr"@,
        m != "copyrs"@,
        m != "printreg"@,
        !is_two_reg_mnemonic(m),
    ensures
        parse_line(m + sp() + spec_i16_dec(off)) == LineParse::Instr(jump_mnemonic_instr(m, off)),
        no_newline(m + sp() + spec_i16_dec(off)),
{
    lemma_parse_i16_dec(off);
    lemma_tokens_two(m, spec_i16_dec(off));
    assert(no_newline(sp()));
    lemma_no_newline_concat(m, sp());
    lemma_no_newline_concat(m + sp(), spec_i16_dec(off));
}

/// A formatted line of the shape mnemonic + number + register reads back as
/// its operands.
proof fn lemma_parse_format_u16_reg(m: Seq<char>, v: u16, reg: Reg)
    requires
        good_token(m),
        m[0] != '#',
        m != "ret"@,
        m == "putreg"@ || m == "copysr"@,
    ensures
        parse_line(m + sp() + spec_dec(v as int) + sp() + spec_reg_name(reg))
            == LineParse::Instr(
            if m == "putreg"@ {
                Instruction::PutReg(v, reg)
            } else {
                Instruction::CopySR(v, reg)
            },
        ),
        no_newline(m + sp() + spec_dec(v as int) + sp() + spec_reg_name(reg)),
{
    lemma_dec_token(v as int);
    lemma_parse_u16_dec(v);
    lemma_parse_reg_name(reg);
    lemma_tokens_three(m, spec_dec(v as int), spec_reg_name(reg));
    assert(no_newline(sp()));
    lemma_no_newline_concat(m, sp());
    lemma_no_newline_concat(m + sp(), spec_dec(v as int));
    lemma_no_newline_concat(m + sp() + spec_dec(v as int), sp());
    lemma_no_newline_concat(m + sp() + spec_dec(v as int) + sp(), spec_reg_name(reg));
}

/// A formatted line of the shape mnemonic + register + number reads back as
/// its operands.
proof fn lemma_parse_format_reg_u16(m: Seq<char>, reg: Reg, v: u16)
    requires
        good_token(m),
        m[0] != '#',
        m != "ret"@,
        m != "putreg"@,
        m != "copysr"@,
        m == "copyrs"@,
    ensures
        parse_line(m + sp() + spec_reg_name(reg) + sp() + spec_dec(v as int))
            == LineParse::Instr(Instruction::CopyRS(reg, v)),
        no_newline(m + sp() + spec_reg_name(reg) + sp() + spec_dec(v as int)),
{
    lemma_dec_token(v as int);
    lemma_parse_u16_dec(v);
    lemma_parse_reg_name(reg);
    lemma_tokens_three(m, spec_reg_name(reg), spec_dec(v as int));
    assert(no_newline(sp()));
    lemma_no_newline_concat(m, sp());
    lemma_no_newline_concat(m + sp(), spec_reg_name(reg));
    lemma_no_newline_concat(m + sp() + spec_reg_name(reg), sp());
    lemma_no_newline_concat(m + sp() + spec_reg_name(reg) + sp(), spec_dec(v as int));
}

/// The disassembly of one instruction parses back to exactly that
/// instruction, and holds no line feed.
/// The disassembly of a `Ret` parses back.
proof fn lemma_pf_ret()
    ensures
        parse_line(spec_line(Instruction::Ret)) == LineParse::Instr(Instruction::Ret),
        no_newline(spec_line(Instruction::Ret)),
{
    reveal_strlit("ret");
    assert forall|i: int| 0 <= i < "ret"@.len() implies !is_space(#[trigger] "ret"@[i])
        && "ret"@[i] != '\n' by {}
    lemma_tokens_one("ret"@);
}

/// The disassembly of a `PutReg` or `CopySR` parses back.
#[verifier::rlimit(100)]
#[verifier::spinoff_prover]
proof fn lemma_pf_put_copy(x: Instruction)
    requires
        x is PutReg || x is CopySR,
    ensures
        parse_line(spec_line(x)) == LineParse::Instr(x),
        no_newline(spec_line(x)),
{
    reveal_strlit("ret");
    reveal_strlit("putreg");
    reveal_strlit("copysr");
    assert("putreg"@ != "copysr"@) by {
        assert("putreg"@[0] != "copysr"@[0]);
    }
    match x {
        Instruction::PutReg(imm, reg) => {
        assert forall|i: int| 0 <= i < "putreg"@.len() implies !is_space(#[trigger] "putreg"@[i])
        && "putreg"@[i] != '\n' by {}
            lemma_parse_format_u16_reg("putreg"@, imm, reg);
        },
        _ => {
            let (pos, reg) = match x {
                Instruction::CopySR(pos, reg) => (pos, reg),
                _ => (0u16, Reg::R0),
            };
            assert forall|i: int| 0 <= i < "copysr"@.len() implies !is_space(#[trigger] "copysr"@[i])
        && "copysr"@[i] != '\n' by {}
            lemma_parse_format_u16_reg("copysr"@, pos, reg);
        },
    }
}

/// The disassembly of a `CopyRS` parses back.
proof fn lemma_pf_copyrs(reg: Reg, pos: u16)
    ensures
        parse_line(spec_line(Instruction::CopyRS(reg, pos))) == LineParse::Instr(
            Instruction::CopyRS(reg, pos),
        ),
        no_newline(spec_line(Instruction::CopyRS(reg, pos))),
{
    reveal_strlit("ret");
    reveal_strlit("putreg");
    reveal_strlit("copysr");
    reveal_strlit("copyrs");
    assert forall|i: int| 0 <= i < "copyrs"@.len() implies !is_space(#[trigger] "copyrs"@[i])
        && "copyrs"@[i] != '\n' by {}
    assert("copyrs"@ != "putreg"@) by {
        assert("copyrs"@[0] != "putreg"@[0]);
    }
    assert("copyrs"@ != "copysr"@) by {
        assert("copyrs"@[4] != "copysr"@[4]);
    }
    lemma_parse_format_reg_u16("copyrs"@, reg, pos);
}

/// The disassembly of a register-to-register move or an arithmetic
/// instruction parses back.
#[verifier::rlimit(60)]
proof fn lemma_pf_arith(x: Instruction)
    requires
        x is CopyRR || x is Add || x is Sub || x is Mul || x is Div,
    ensures
        parse_line(spec_line(x)) == LineParse::Instr(x),
        no_newline(spec_line(x)),
{
    reveal_strlit("ret");
    reveal_strlit("putreg");
    reveal_strlit("copysr");
    reveal_strlit("copyrs");
    reveal_strlit("copyrr");
    reveal_strlit("add");
    reveal_strlit("sub");
    reveal_strlit("mul");
    reveal_strlit("div");
    reveal_strlit("eq");
    reveal_strlit("neq");
    reveal_strlit("lt");
    reveal_strlit("lte");
    reveal_strlit("gt");
    reveal_strlit("gte");
    match x {
        Instruction::CopyRR(r1, r2) => {
            assert forall|i: int| 0 <= i < "copyrr"@.len() implies !is_space(#[trigger] "copyrr"@[i])
                && "copyrr"@[i] != '\n' by {}
            assert("copyrr"@ != "putreg"@) by {
                assert("copyrr"@[0] != "putreg"@[0]);
            }
            assert("copyrr"@ != "copysr"@) by {
                assert("copyrr"@[4] != "copysr"@[4]);
            }
            assert("copyrr"@ != "copyrs"@) by {
                assert("copyrr"@[5] != "copyrs"@[5]);
            }
            lemma_parse_format_two_regs("copyrr"@, r1, r2);
        },
        Instruction::Add(r1, r2) => {
            assert forall|i: int| 0 <= i < "add"@.len() implies !is_space(#[trigger] "add"@[i])
                && "add"@[i] != '\n' by {}
            assert("add"@ != "ret"@) by {
                assert("add"@[0] != "ret"@[0]);
            }
            lemma_parse_format_two_regs("add"@, r1, r2);
        },
        Instruction::Sub(r1, r2) => {
            assert forall|i: int| 0 <= i < "sub"@.len() implies !is_space(#[trigger] "sub"@[i])
                && "sub"@[i] != '\n' by {}
            assert("sub"@ != "ret"@) by {
                assert("sub"@[0] != "ret"@[0]);
            }
            assert("sub"@ != "add"@) by {
                assert("sub"@[0] != "add"@[0]);
            }
            lemma_parse_format_two_regs("sub"@, r1, r2);
        },
        Instruction::Mul(r1, r2) => {
            assert forall|i: int| 0 <= i < "mul"@.len() implies !is_space(#[trigger] "mul"@[i])
                && "mul"@[i] != '\n' by {}
            assert("mul"@ != "ret"@) by {
                assert("mul"@[0] != "ret"@[0]);
            }
            assert("mul"@ != "add"@) by {
                assert("mul"@[0] != "add"@[0]);
            }
            assert("mul"@ != "sub"@) by {
                assert("mul"@[0] != "sub"@[0]);
            }
            lemma_parse_format_two_regs("mul"@, r1, r2);
        },
        _ => {
            let (r1, r2) = match x {
                Instruction::Div(r1, r2) => (r1, r2),
                _ => (Reg::R0, Reg::R0),
            };
            assert forall|i: int| 0 <= i < "div"@.len() implies !is_space(#[trigger] "div"@[i])
                && "div"@[i] != '\n' by {}
            assert("div"@ != "ret"@) by {
                assert("div"@[0] != "ret"@[0]);
            }
            assert("div"@ != "add"@) by {
                assert("div"@[0] != "add"@[0]);
            }
            assert("div"@ != "sub"@) by {
                assert("div"@[0] != "sub"@[0]);
            }
            assert("div"@ != "mul"@) by {
                assert("div"@[0] != "mul"@[0]);
            }
            assert("div"@ != "neq"@) by {
                assert("div"@[0] != "neq"@[0]);
            }
            assert("div"@ != "lte"@) by {
                assert("div"@[0] != "lte"@[0]);
            }
            assert("div"@ != "gte"@) by {
                assert("div"@[0] != "gte"@[0]);
            }
            lemma_parse_format_two_regs("div"@, r1, r2);
        },
    }
}

/// The disassembly of a comparison parses back.
#[verifier::rlimit(60)]
proof fn lemma_pf_compare(x: Instruction)
    requires
        x is Eq || x is Neq || x is Lt || x is Lte || x is Gt || x is Gte,
    ensures
        parse_line(spec_line(x)) == LineParse::Instr(x),
        no_newline(spec_line(x)),
{
    reveal_strlit("ret");
    reveal_strlit("putreg");
    reveal_strlit("copysr");
    reveal_strlit("copyrs");
    reveal_strlit("copyrr");
    reveal_strlit("add");
    reveal_strlit("sub");
    reveal_strlit("mul");
    reveal_strlit("div");
    reveal_strlit("eq");
    reveal_strlit("neq");
    reveal_strlit("lt");
    reveal_strlit("lte");
    reveal_strlit("gt");
    reveal_strlit("gte");
    match x {
        Instruction::Eq(r1, r2) => {
            assert forall|i: int| 0 <= i < "eq"@.len() implies !is_space(#[trigger] "eq"@[i])
                && "eq"@[i] != '\n' by {}
            lemma_parse_format_two_regs("eq"@, r1, r2);
        },
        Instruction::Neq(r1, r2) => {
            assert forall|i: int| 0 <= i < "neq"@.len() implies !is_space(#[trigger] "neq"@[i])
                && "neq"@[i] != '\n' by {}
            assert("neq"@ != "ret"@) by {
                assert("neq"@[0] != "ret"@[0]);
            }
            assert("neq"@ != "add"@) by {
                assert("neq"@[0] != "add"@[0]);
            }
            assert("neq"@ != "sub"@) by {
                assert("neq"@[0] != "sub"@[0]);
            }
            assert("neq"@ != "mul"@) by {
                assert("neq"@[0] != "mul"@[0]);
            }
            lemma_parse_format_two_regs("neq"@, r1, r2);
        },
        Instruction::Lt(r1, r2) => {
            assert forall|i: int| 0 <= i < "lt"@.len() implies !is_space(#[trigger] "lt"@[i])
                && "lt"@[i] != '\n' by {}
            assert("lt"@ != "eq"@) by {
                assert("lt"@[0] != "eq"@[0]);
            }
            lemma_parse_format_two_regs("lt"@, r1, r2);
        },
        Instruction::Lte(r1, r2) => {
            assert forall|i: int| 0 <= i < "lte"@.len() implies !is_space(#[trigger] "lte"@[i])
                && "lte"@[i] != '\n' by {}
            assert("lte"@ != "ret"@) by {
                assert("lte"@[0] != "ret"@[0]);
            }
            assert("lte"@ != "add"@) by {
                assert("lte"@[0] != "add"@[0]);
            }
            assert("lte"@ != "sub"@) by {
                assert("lte"@[0] != "sub"@[0]);
            }
            assert("lte"@ != "mul"@) by {
                assert("lte"@[0] != "mul"@[0]);
            }
            assert("lte"@ != "neq"@) by {
                assert("lte"@[0] != "neq"@[0]);
            }
            lemma_parse_format_two_regs("lte"@, r1, r2);
        },
        Instruction::Gt(r1, r2) => {
            assert forall|i: int| 0 <= i < "gt"@.len() implies !is_space(#[trigger] "gt"@[i])
                && "gt"@[i] != '\n' by {}
            assert("gt"@ != "eq"@) by {
                assert("gt"@[0] != "eq"@[0]);
            }
            assert("gt"@ != "lt"@) by {
                assert("gt"@[0] != "lt"@[0]);
            }
            lemma_parse_format_two_regs("gt"@, r1, r2);
        },
        _ => {
            let (r1, r2) = match x {
                Instruction::Gte(r1, r2) => (r1, r2),
                _ => (Reg::R0, Reg::R0),
            };
            assert forall|i: int| 0 <= i < "gte"@.len() implies !is_space(#[trigger] "gte"@[i])
                && "gte"@[i] != '\n' by {}
            assert("gte"@ != "ret"@) by {
                assert("gte"@[0] != "ret"@[0]);
            }
            assert("gte"@ != "add"@) by {
                assert("gte"@[0] != "add"@[0]);
            }
            assert("gte"@ != "sub"@) by {
                assert("gte"@[0] != "sub"@[0]);
            }
            assert("gte"@ != "mul"@) by {
                assert("gte"@[0] != "mul"@[0]);
            }
            assert("gte"@ != "neq"@) by {
                assert("gte"@[0] != "neq"@[0]);
            }
            assert("gte"@ != "lte"@) by {
                assert("gte"@[0] != "lte"@[0]);
            }
            lemma_parse_format_two_regs("gte"@, r1, r2);
        },
    }
}

/// The disassembly of a `PrintReg` parses back.
#[verifier::rlimit(60)]
proof fn lemma_pf_printreg(reg: Reg)
    ensures
        parse_line(spec_line(Instruction::PrintReg(reg))) == LineParse::Instr(
            Instruction::PrintReg(reg),
        ),
        no_newline(spec_line(Instruction::PrintReg(reg))),
{
    reveal_strlit("ret");
    reveal_strlit("putreg");
    reveal_strlit("copysr");
    reveal_strlit("copyrs");
    reveal_strlit("copyrr");
    reveal_strlit("add");
    reveal_strlit("sub");
    reveal_strlit("mul");
    reveal_strlit("div");
    reveal_strlit("eq");
    reveal_strlit("neq");
    reveal_strlit("lt");
    reveal_strlit("lte");
    reveal_strlit("gt");
    reveal_strlit("gte");
    reveal_strlit("printreg");
    assert forall|i: int| 0 <= i < "printreg"@.len() implies !is_space(#[trigger] "printreg"@[i])
        && "printreg"@[i] != '\n' by {}
    lemma_parse_reg_name(reg);
    lemma_tokens_two("printreg"@, spec_reg_name(reg));
    assert(no_newline(sp()));
    lemma_no_newline_concat("printreg"@, sp());
    lemma_no_newline_concat("printreg"@ + sp(), spec_reg_name(reg));
}

/// The disassembly of a jump parses back.
#[verifier::rlimit(60)]
proof fn lemma_pf_jump(x: Instruction)
    requires
        x is Jump || x is JumpTrue || x is JumpFalse,
    ensures
        parse_line(spec_line(x)) == LineParse::Instr(x),
        no_newline(spec_line(x)),
{
    reveal_strlit("ret");
    reveal_strlit("putreg");
    reveal_strlit("copysr");
    reveal_strlit("copyrs");
    reveal_strlit("copyrr");
    reveal_strlit("add");
    reveal_strlit("sub");
    reveal_strlit("mul");
    reveal_strlit("div");
    reveal_strlit("eq");
    reveal_strlit("neq");
    reveal_strlit("lt");
    reveal_strlit("lte");
    reveal_strlit("gt");
    reveal_strlit("gte");
    reveal_strlit("printreg");
    reveal_strlit("jump");
    reveal_strlit("jumptrue");
    reveal_strlit("jumpfalse");
    match x {
        Instruction::Jump(offset) => {
            assert forall|i: int| 0 <= i < "jump"@.len() implies !is_space(#[trigger] "jump"@[i])
                && "jump"@[i] != '\n' by {}
            lemma_parse_format_jump("jump"@, offset);
        },
        Instruction::JumpTrue(offset) => {
            assert forall|i: int| 0 <= i < "jumptrue"@.len() implies !is_space(#[trigger] "jumptrue"@[i])
                && "jumptrue"@[i] != '\n' by {}
            assert("jumptrue"@ != "printreg"@) by {
                assert("jumptrue"@[0] != "printreg"@[0]);
            }
            lemma_parse_format_jump("jumptrue"@, offset);
        },
        _ => {
            let offset = match x {
                Instruction::JumpFalse(offset) => offset,
                _ => 0i16,
            };
            assert forall|i: int| 0 <= i < "jumpfalse"@.len() implies !is_space(#[trigger] "jumpfalse"@[i])
                && "jumpfalse"@[i] != '\n' by {}
            lemma_parse_format_jump("jumpfalse"@, offset);
        },
    }
}

/// The disassembly of one instruction parses back to exactly that
/// instruction, and holds no line feed.
proof fn lemma_parse_format(x: Instruction)
    ensures
        parse_line(spec_line(x)) == LineParse::Instr(x),
        no_newline(spec_line(x)),
{
    match x {
        Instruction::Ret => lemma_pf_ret(),
        Instruction::PutReg(..) | Instruction::CopySR(..) => lemma_pf_put_copy(x),
        Instruction::CopyRS(reg, pos) => lemma_pf_copyrs(reg, pos),
        Instruction::CopyRR(..) | Instruction::Add(..) | Instruction::Sub(..)
            | Instruction::Mul(..) | Instruction::Div(..) => lemma_pf_arith(x),
        Instruction::Eq(..) | Instruction::Neq(..) | Instruction::Lt(..) | Instruction::Lte(..)
            | Instruction::Gt(..) | Instruction::Gte(..) => lemma_pf_compare(x),
        Instruction::PrintReg(reg) => lemma_pf_printreg(reg),
        Instruction::Jump(..) | Instruction::JumpTrue(..) | Instruction::JumpFalse(..) => lemma_pf_jump(x),
    }
}

/// The lines of a program's disassembly, one per instruction, in order.
pub open spec fn spec_disassemble(instrs: Seq<Instruction>) -> Seq<Seq<char>> {
    Seq::new(instrs.len(), |i: int| spec_line(instrs[i]))
}

/// Lines joined by single line feeds, with no trailing one.
pub open spec fn join_lines(ls: Seq<Seq<char>>) -> Seq<char>
    decreases ls.len(),
{
    if ls.len() == 0 {
        Seq::empty()
    } else if ls.len() == 1 {
        ls[0]
    } else {
        ls[0] + seq!['\n'] + join_lines(ls.skip(1))
    }
}

/// A text without line feeds is one line.
proof fn lemma_lines_acc_no_newline(l: Seq<char>, cur: Seq<char>)
    requires
        no_newline(l),
    ensures
        lines_acc(l, cur) == seq![cur + l],
    decreases l.len(),
{
    if l.len() == 0 {
        assert(cur + l =~= cur);
    } else {
        assert(l[0] != '\n');
        assert(no_newline(l.skip(1))) by {
            assert forall|i: int| 0 <= i < l.skip(1).len() implies (#[trigger] l.skip(1)[i])
                != '\n' by {
                assert(l.skip(1)[i] == l[i + 1]);
            }
        }
        lemma_lines_acc_no_newline(l.skip(1), cur.push(l[0]));
        assert(cur.push(l[0]) + l.skip(1) =~= cur + l);
    }
}

/// The first line feed after a line-feed-free stretch closes one line.
proof fn lemma_lines_acc_split(l: Seq<char>, rest: Seq<char>, cur: Seq<char>)
    requires
        no_newline(l),
    ensures
        lines_acc(l + seq!['\n'] + rest, cur) == seq![cur + l] + lines_acc(rest, Seq::empty()),
    decreases l.len(),
{
    let s = l + seq!['\n'] + rest;
    if l.len() == 0 {
        assert(s =~= seq!['\n'] + rest);
        assert(s[0] == '\n');
        assert(s.skip(1) =~= rest);
        assert(cur + l =~= cur);
    } else {
        assert(s[0] == l[0]);
        assert(l[0] != '\n');
        assert(s.skip(1) =~= l.skip(1) + seq!['\n'] + rest);
        assert(no_newline(l.skip(1))) by {
            assert forall|i: int| 0 <= i < l.skip(1).len() implies (#[trigger] l.skip(1)[i])
                != '\n' by {
                assert(l.skip(1)[i] == l[i + 1]);
            }
        }
        lemma_lines_acc_split(l.skip(1), rest, cur.push(l[0]));
        assert(cur.push(l[0]) + l.skip(1) =~= cur + l);
    }
}

/// Splitting the line-feed join of line-feed-free lines gives the lines
/// back.
proof fn lemma_split_join(ls: Seq<Seq<char>>)
    requires
        ls.len() >= 1,
        forall|i: int| 0 <= i < ls.len() ==> no_newline(#[trigger] ls[i]),
    ensures
        split_lines(join_lines(ls)) == ls,
    decreases ls.len(),
{
    if ls.len() == 1 {
        lemma_lines_acc_no_newline(ls[0], Seq::empty());
        assert(Seq::<char>::empty() + ls[0] =~= ls[0]);
        assert(seq![ls[0]] =~= ls);
    } else {
        lemma_lines_acc_split(ls[0], join_lines(ls.skip(1)), Seq::empty());
        assert(forall|i: int|
            0 <= i < ls.skip(1).len() ==> no_newline(#[trigger] ls.skip(1)[i]));
        lemma_split_join(ls.skip(1));
        assert(Seq::<char>::empty() + ls[0] =~= ls[0]);
        assert(seq![ls[0]] + ls.skip(1) =~= ls);
    }
}

/// The disassembly's lines, read in order, parse back to the program.
proof fn lemma_parse_lines_format(instrs: Seq<Instruction>, lineno: int)
    ensures
        parse_lines(spec_disassemble(instrs), lineno) == Ok::<Seq<Instruction>, ParseError>(
            instrs,
        ),
    decreases instrs.len(),
{
    let ls = spec_disassemble(instrs);
    if instrs.len() == 0 {
        assert(instrs =~= Seq::<Instruction>::empty());
    } else {
        lemma_parse_format(instrs[0]);
        assert(ls[0] == spec_line(instrs[0]));
        assert(ls.skip(1) =~= spec_disassemble(instrs.skip(1)));
        lemma_parse_lines_format(instrs.skip(1), lineno + 1);
        assert(seq![instrs[0]] + instrs.skip(1) =~= instrs);
    }
}

/// Round trip: assembling a program's disassembly — its lines joined by
/// line feeds — yields exactly the program again.
pub proof fn lemma_assemble_disassemble(instrs: Seq<Instruction>)
    ensures
        spec_parse_asm(join_lines(spec_disassemble(instrs))) == Ok::<Seq<Instruction>, ParseError>(
            instrs,
        ),
{
    let ls = spec_disassemble(instrs);
    if instrs.len() == 0 {
        assert(join_lines(ls) =~= Seq::<char>::empty());
        assert(split_lines(Seq::<char>::empty()) =~= seq![Seq::<char>::empty()]);
        assert(tokens(Seq::<char>::empty()) =~= Seq::<Seq<char>>::empty());
        assert(parse_line(Seq::<char>::empty()) == LineParse::Empty);
        assert(seq![Seq::<char>::empty()].skip(1) =~= Seq::<Seq<char>>::empty());
        assert(parse_lines(Seq::<Seq<char>>::empty(), 2) == Ok::<Seq<Instruction>, ParseError>(
            Seq::<Instruction>::empty(),
        ));
        assert(parse_lines(seq![Seq::<char>::empty()], 1) == Ok::<Seq<Instruction>, ParseError>(
            Seq::<Instruction>::empty(),
        ));
        assert(instrs =~= Seq::<Instruction>::empty());
    } else {
        assert forall|i: int| 0 <= i < ls.len() implies no_newline(#[trigger] ls[i]) by {
            lemma_parse_format(instrs[i]);
        }
        lemma_split_join(ls);
        lemma_parse_lines_format(instrs, 1);
    }
}

} // verus!
