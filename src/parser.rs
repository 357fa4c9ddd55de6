//! The textual assembly: a line holds a mnemonic and its operands,
//! separated by whitespace.
use vstd::prelude::*;
use crate::interpreter::Instruction;

verus! {

/// An operand as written: `R2` / `r2` names a register, anything else is a
/// plain number.
#[derive(Clone, Copy, PartialEq, Eq, Debug, Structural)]
pub enum Operand {
    Register(i32),
    Number(i32),
}

/// Why a line of assembly was rejected.
#[derive(Clone, Copy, PartialEq, Eq, Debug, Structural)]
pub enum ParseError {
    /// The line holds no token at all.
    BlankLine,
    /// An operand token with no characters.
    EmptyOperand,
    /// A register prefix with nothing after it.
    MissingRegisterNumber,
    /// A register prefix followed by something that is not an `i32`.
    InvalidRegister,
    /// An operand that is neither a register nor an `i32`.
    InvalidNumber,
    /// The mnemonic names no instruction.
    UnknownInstruction,
    /// The operands do not have the kinds that the mnemonic asks for.
    BadArguments,
}

/// A line of a program that was rejected: its number, counting from one,
/// and why.
#[derive(Clone, Copy, PartialEq, Eq, Debug, Structural)]
pub struct LineError {
    pub line: usize,
    pub error: ParseError,
}

pub open spec fn is_digit(c: char) -> bool {
    '0' <= c && c <= '9'
}

pub open spec fn all_digits(s: Seq<char>) -> bool {
    forall|i: int| 0 <= i < s.len() ==> is_digit(#[trigger] s[i])
}

/// The value of a string of decimal digits, most significant first.
pub open spec fn digits_value(s: Seq<char>) -> int
    decreases s.len(),
{
    if s.len() == 0 {
        0
    } else {
        digits_value(s.drop_last()) * 10 + (s.last() as u32 - '0' as u32)
    }
}

/// The integer that `s` writes in decimal: an optional `+` or `-`, then one
/// or more digits.
pub open spec fn decimal_value(s: Seq<char>) -> Option<int> {
    let signed = s.len() > 0 && (s[0] == '-' || s[0] == '+');
    let body = if signed { s.drop_first() } else { s };
    if body.len() > 0 && all_digits(body) {
        Some(if signed && s[0] == '-' { -digits_value(body) } else { digits_value(body) })
    } else {
        None
    }
}

/// `s` read as an `i32`, when it is a decimal integer in range.
pub open spec fn i32_value(s: Seq<char>) -> Option<i32> {
    match decimal_value(s) {
        Some(v) => if i32::MIN <= v <= i32::MAX {
            Some(v as i32)
        } else {
            None
        },
        None => None,
    }
}

proof fn lemma_digits_value_step(s: Seq<char>, i: int)
    requires
        0 <= i < s.len(),
    ensures
        digits_value(s.take(i + 1)) == digits_value(s.take(i)) * 10 + (s[i] as u32 - '0' as u32),
{
    assert(s.take(i + 1).drop_last() =~= s.take(i));
}

/// Reads `t` as a decimal `i32`.
fn parse_i32(t: &str) -> (r: Option<i32>)
    ensures
        r == i32_value(t@),
{
    let n = t.unicode_len();
    let mut i: usize = 0;
    let mut negative = false;
    if n > 0 {
        let c = t.get_char(0);
        if c == '-' {
            negative = true;
            i = 1;
        } else if c == '+' {
            i = 1;
        }
    }
    if i >= n {
        return None;
    }
    let start = i;
    let ghost body = t@.subrange(start as int, n as int);
    let mut acc: u64 = 0;
    let mut big = false;
    while i < n
        invariant
            start <= i <= n,
            n == t@.len(),
            start == (if t@.len() > 0 && (t@[0] == '-' || t@[0] == '+') { 1int } else { 0 }),
            negative == (t@.len() > 0 && t@[0] == '-'),
            body == t@.subrange(start as int, n as int),
            all_digits(body.take(i - start)),
            acc <= 2147483648,
            !big ==> acc == digits_value(body.take(i - start)),
            big ==> digits_value(body.take(i - start)) > 2147483648,
        decreases n - i,
    {
        let c = t.get_char(i);
        if !('0' <= c && c <= '9') {
            assert(!is_digit(body[i - start]));
            return None;
        }
        proof {
            lemma_digits_value_step(body, i - start);
            assert(body.take(i + 1 - start) =~= body.take(i - start).push(c));
        }
        if !big {
            let v = acc * 10 + (c as u32 - '0' as u32) as u64;
            if v > 2147483648 {
                big = true;
            } else {
                acc = v;
            }
        }
        i = i + 1;
    }
    assert(body.take(n - start) =~= body);
    if start == 1 {
        assert(body =~= t@.drop_first());
    } else {
        assert(body =~= t@);
    }
    if big {
        None
    } else if negative {
        Some((0 - acc as i64) as i32)
    } else if acc <= 2147483647 {
        Some(acc as i32)
    } else {
        None
    }
}

impl Operand {
    /// The integer that the operand carries.
    pub open spec fn value(self) -> i32 {
        match self {
            Operand::Register(x) => x,
            Operand::Number(x) => x,
        }
    }

    pub fn is_register(&self) -> (r: bool)
        ensures
            r == (*self is Register),
    {
        match self {
            Operand::Register(_) => true,
            _ => false,
        }
    }

    pub fn is_number(&self) -> (r: bool)
        ensures
            r == (*self is Number),
    {
        match self {
            Operand::Number(_) => true,
            _ => false,
        }
    }

    /// Whether both operands are of the same kind, whatever their values.
    pub fn type_matches(&self, other: &Operand) -> (r: bool)
        ensures
            r == same_kind(*self, *other),
    {
        self.is_register() == other.is_register()
    }

    pub fn inner(&self) -> (r: i32)
        ensures
            r == self.value(),
    {
        match self {
            Operand::Register(x) => *x,
            Operand::Number(x) => *x,
        }
    }
}

pub open spec fn same_kind(a: Operand, b: Operand) -> bool {
    (a is Register) == (b is Register)
}

/// What a single operand token stands for.
pub open spec fn operand_spec(t: Seq<char>) -> Result<Operand, ParseError> {
    if t.len() == 0 {
        Err(ParseError::EmptyOperand)
    } else if t[0] == 'R' || t[0] == 'r' {
        if t.len() == 1 {
            Err(ParseError::MissingRegisterNumber)
        } else {
            match i32_value(t.drop_first()) {
                Some(v) => Ok(Operand::Register(v)),
                None => Err(ParseError::InvalidRegister),
            }
        }
    } else {
        match i32_value(t) {
            Some(v) => Ok(Operand::Number(v)),
            None => Err(ParseError::InvalidNumber),
        }
    }
}

/// The operands of a sequence of tokens, or the error of the first token
/// that is not one.
pub open spec fn operands_spec(ts: Seq<Seq<char>>) -> Result<Seq<Operand>, ParseError>
    decreases ts.len(),
{
    if ts.len() == 0 {
        Ok(Seq::empty())
    } else {
        match operands_spec(ts.drop_last()) {
            Err(e) => Err(e),
            Ok(ops) => match operand_spec(ts.last()) {
                Err(e) => Err(e),
                Ok(o) => Ok(ops.push(o)),
            },
        }
    }
}

pub open spec fn is_space(c: char) -> bool {
    c == ' ' || c == '\t' || c == '\n' || c == '\x0B' || c == '\x0C' || c == '\r'
}

fn is_whitespace(c: char) -> (r: bool)
    ensures
        r == is_space(c),
{
    c == ' ' || c == '\t' || c == '\n' || c == '\x0B' || c == '\x0C' || c == '\r'
}

/// Reading `s` from the left: the tokens completed so far, and the token
/// being read (empty between tokens).
pub open spec fn word_scan(s: Seq<char>) -> (Seq<Seq<char>>, Seq<char>)
    decreases s.len(),
{
    if s.len() == 0 {
        (Seq::empty(), Seq::empty())
    } else {
        let (done, cur) = word_scan(s.drop_last());
        if !is_space(s.last()) {
            (done, cur.push(s.last()))
        } else if cur.len() > 0 {
            (done.push(cur), Seq::empty())
        } else {
            (done, cur)
        }
    }
}

/// The maximal runs of non-whitespace characters of `s`, in order.
pub open spec fn words(s: Seq<char>) -> Seq<Seq<char>> {
    let (done, cur) = word_scan(s);
    if cur.len() > 0 {
        done.push(cur)
    } else {
        done
    }
}

pub open spec fn views(ws: Seq<&str>) -> Seq<Seq<char>> {
    ws.map_values(|w: &str| w@)
}

/// Splits `s` into its whitespace-separated tokens.
fn split_words<'a>(s: &'a str) -> (r: Vec<&'a str>)
    ensures
        views(r@) == words(s@),
{
    let n = s.unicode_len();
    let mut toks: Vec<&'a str> = Vec::new();
    let mut start: usize = 0;
    let mut i: usize = 0;
    while i < n
        invariant
            start <= i <= n,
            n == s@.len(),
            views(toks@) == word_scan(s@.take(i as int)).0,
            s@.subrange(start as int, i as int) == word_scan(s@.take(i as int)).1,
        decreases n - i,
    {
        let c = s.get_char(i);
        proof {
            assert(s@.take(i + 1).drop_last() =~= s@.take(i as int));
        }
        if is_whitespace(c) {
            if start < i {
                let w = s.substring_char(start, i);
                let ghost before = toks@;
                toks.push(w);
                assert(views(toks@) =~= views(before).push(w@));
            }
            start = i + 1;
        } else {
            assert(s@.subrange(start as int, i + 1) =~= s@.subrange(start as int, i as int).push(c));
        }
        i = i + 1;
    }
    assert(s@.take(n as int) =~= s@);
    if start < n {
        let w = s.substring_char(start, n);
        let ghost before = toks@;
        toks.push(w);
        assert(views(toks@) =~= views(before).push(w@));
    }
    assert(views(toks@) =~= words(s@));
    toks
}

/// Reads one operand token.
pub fn parse_operand(t: &str) -> (r: Result<Operand, ParseError>)
    ensures
        r == operand_spec(t@),
{
    let n = t.unicode_len();
    if n == 0 {
        return Err(ParseError::EmptyOperand);
    }
    let first = t.get_char(0);
    if first == 'R' || first == 'r' {
        if n == 1 {
            return Err(ParseError::MissingRegisterNumber);
        }
        let rest = t.substring_char(1, n);
        assert(rest@ =~= t@.drop_first());
        match parse_i32(rest) {
            Some(v) => Ok(Operand::Register(v)),
            None => Err(ParseError::InvalidRegister),
        }
    } else {
        match parse_i32(t) {
            Some(v) => Ok(Operand::Number(v)),
            None => Err(ParseError::InvalidNumber),
        }
    }
}

/// Once a prefix of the tokens has failed, the whole sequence fails with the
/// same error.
proof fn lemma_operands_error_persists(ts: Seq<Seq<char>>, k: int)
    requires
        0 <= k <= ts.len(),
        operands_spec(ts.take(k)) is Err,
    ensures
        operands_spec(ts) == operands_spec(ts.take(k)),
    decreases ts.len(),
{
    if k == ts.len() {
        assert(ts.take(k) =~= ts);
    } else {
        assert(ts.drop_last().take(k) =~= ts.take(k));
        lemma_operands_error_persists(ts.drop_last(), k);
    }
}

impl std::str::FromStr for Operand {
    type Err = ParseError;

    /// Same as `parse_operand`.
    fn from_str(t: &str) -> (r: Result<Operand, ParseError>)
        ensures
            r == operand_spec(t@),
    {
        parse_operand(t)
    }
}

/// Reads the tokens `words[from..]` as operands.
fn parse_operands_from(words: &Vec<&str>, from: usize) -> (r: Result<Vec<Operand>, ParseError>)
    requires
        from <= words.len(),
    ensures
        match operands_spec(views(words@).subrange(from as int, words.len() as int)) {
            Ok(ops) => r is Ok && r->Ok_0@ == ops,
            Err(e) => r == Err::<Vec<Operand>, ParseError>(e),
        },
{
    let ghost ts = views(words@).subrange(from as int, words.len() as int);
    let mut ops: Vec<Operand> = Vec::new();
    let mut i: usize = from;
    while i < words.len()
        invariant
            from <= i <= words.len(),
            ts == views(words@).subrange(from as int, words.len() as int),
            operands_spec(ts.take(i - from)) == Ok::<Seq<Operand>, ParseError>(ops@),
        decreases words.len() - i,
    {
        let o = parse_operand(words[i]);
        assert(ts.take(i + 1 - from).drop_last() =~= ts.take(i - from));
        assert(ts.take(i + 1 - from).last() == words@[i as int]@);
        match o {
            Ok(op) => ops.push(op),
            Err(e) => {
                proof {
                    lemma_operands_error_persists(ts, i + 1 - from);
                }
                return Err(e);
            },
        }
        i = i + 1;
    }
    assert(ts.take(words.len() - from) =~= ts);
    Ok(ops)
}

/// Reads every token of `operands` as an operand; the first token that is
/// not one decides the error.
pub fn parse_operands(operands: &Vec<&str>) -> (r: Result<Vec<Operand>, ParseError>)
    ensures
        match operands_spec(views(operands@)) {
            Ok(ops) => r is Ok && r->Ok_0@ == ops,
            Err(e) => r == Err::<Vec<Operand>, ParseError>(e),
        },
{
    assert(views(operands@).subrange(0, operands.len() as int) =~= views(operands@));
    parse_operands_from(operands, 0)
}

fn str_eq(a: &str, b: &str) -> (r: bool)
    ensures
        r == (a@ == b@),
{
    let n = a.unicode_len();
    if n != b.unicode_len() {
        return false;
    }
    let mut i: usize = 0;
    while i < n
        invariant
            i <= n,
            n == a@.len(),
            n == b@.len(),
            a@.take(i as int) == b@.take(i as int),
        decreases n - i,
    {
        if a.get_char(i) != b.get_char(i) {
            return false;
        }
        assert(a@.take(i + 1) =~= a@.take(i as int).push(a@[i as int]));
        assert(b@.take(i + 1) =~= b@.take(i as int).push(b@[i as int]));
        i = i + 1;
    }
    assert(a@.take(n as int) =~= a@);
    assert(b@.take(n as int) =~= b@);
    true
}

/// The instruction that a mnemonic names, with its operands still zero.
pub open spec fn template(m: Seq<char>) -> Option<Instruction> {
    if m == "NOOP"@ {
        Some(Instruction::NOOP())
    } else if m == "LOAD"@ {
        Some(Instruction::LOAD(0))
    } else if m == "R2A_LOAD"@ {
        Some(Instruction::R2A_LOAD(0))
    } else if m == "M2R_LOAD"@ {
        Some(Instruction::M2R_LOAD(0, 0))
    } else if m == "M2A_LOAD"@ {
        Some(Instruction::M2A_LOAD(0))
    } else if m == "A2R_STORE"@ {
        Some(Instruction::A2R_STORE(0))
    } else if m == "A2M_STORE"@ {
        Some(Instruction::A2M_STORE(0))
    } else if m == "R2M_STORE"@ {
        Some(Instruction::R2M_STORE(0, 0))
    } else if m == "I_ADD"@ {
        Some(Instruction::I_ADD(0))
    } else if m == "JUMP"@ {
        Some(Instruction::JUMP(0))
    } else if m == "JUMP_NEG"@ {
        Some(Instruction::JUMP_NEG(0))
    } else {
        None
    }
}

/// The kinds of operand that an instruction is written with, in order.
pub open spec fn format_of(ins: Instruction) -> Seq<Operand> {
    match ins {
        Instruction::NOOP() => seq![],
        Instruction::LOAD(_) => seq![Operand::Number(0)],
        Instruction::R2A_LOAD(_) => seq![Operand::Register(0)],
        Instruction::M2R_LOAD(_, _) => seq![Operand::Number(0), Operand::Register(0)],
        Instruction::M2A_LOAD(_) => seq![Operand::Number(0)],
        Instruction::A2R_STORE(_) => seq![Operand::Register(0)],
        Instruction::A2M_STORE(_) => seq![Operand::Number(0)],
        Instruction::R2M_STORE(_, _) => seq![Operand::Register(0), Operand::Number(0)],
        Instruction::I_ADD(_) => seq![Operand::Number(0)],
        Instruction::R_ADD(_) => seq![Operand::Register(0)],
        Instruction::JUMP(_) => seq![Operand::Number(0)],
        Instruction::JUMP_NEG(_) => seq![Operand::Number(0)],
    }
}

/// `ins` with its operands taken, in order, from `ops`.
pub open spec fn fill(ins: Instruction, ops: Seq<Operand>) -> Instruction {
    match ins {
        Instruction::NOOP() => Instruction::NOOP(),
        Instruction::LOAD(_) => Instruction::LOAD(ops[0].value()),
        Instruction::R2A_LOAD(_) => Instruction::R2A_LOAD(ops[0].value()),
        Instruction::M2R_LOAD(_, _) => Instruction::M2R_LOAD(ops[0].value(), ops[1].value()),
        Instruction::M2A_LOAD(_) => Instruction::M2A_LOAD(ops[0].value()),
        Instruction::A2R_STORE(_) => Instruction::A2R_STORE(ops[0].value()),
        Instruction::A2M_STORE(_) => Instruction::A2M_STORE(ops[0].value()),
        Instruction::R2M_STORE(_, _) => Instruction::R2M_STORE(ops[0].value(), ops[1].value()),
        Instruction::I_ADD(_) => Instruction::I_ADD(ops[0].value()),
        Instruction::R_ADD(_) => Instruction::R_ADD(ops[0].value()),
        Instruction::JUMP(_) => Instruction::JUMP(ops[0].value()),
        Instruction::JUMP_NEG(_) => Instruction::JUMP_NEG(ops[0].value()),
    }
}

/// Whether `x` and `y` have the same length and agree on the kind of each
/// operand.
pub open spec fn kinds_match(x: Seq<Operand>, y: Seq<Operand>) -> bool {
    x.len() == y.len() && forall|i: int| 0 <= i < x.len() ==> same_kind(#[trigger] x[i], y[i])
}

/// What a line of assembly stands for.
pub open spec fn instruction_spec(line: Seq<char>) -> Result<Instruction, ParseError> {
    let ws = words(line);
    if ws.len() == 0 {
        Err(ParseError::BlankLine)
    } else {
        match operands_spec(ws.drop_first()) {
            Err(e) => Err(e),
            Ok(ops) => match template(ws[0]) {
                None => Err(ParseError::UnknownInstruction),
                Some(t) => if kinds_match(ops, format_of(t)) {
                    Ok(fill(t, ops))
                } else {
                    Err(ParseError::BadArguments)
                },
            },
        }
    }
}

fn template_of(m: &str) -> (r: Option<Instruction>)
    ensures
        r == template(m@),
{
    if str_eq(m, "NOOP") {
        Some(Instruction::NOOP())
    } else if str_eq(m, "LOAD") {
        Some(Instruction::LOAD(0))
    } else if str_eq(m, "R2A_LOAD") {
        Some(Instruction::R2A_LOAD(0))
    } else if str_eq(m, "M2R_LOAD") {
        Some(Instruction::M2R_LOAD(0, 0))
    } else if str_eq(m, "M2A_LOAD") {
        Some(Instruction::M2A_LOAD(0))
    } else if str_eq(m, "A2R_STORE") {
        Some(Instruction::A2R_STORE(0))
    } else if str_eq(m, "A2M_STORE") {
        Some(Instruction::A2M_STORE(0))
    } else if str_eq(m, "R2M_STORE") {
        Some(Instruction::R2M_STORE(0, 0))
    } else if str_eq(m, "I_ADD") {
        Some(Instruction::I_ADD(0))
    } else if str_eq(m, "JUMP") {
        Some(Instruction::JUMP(0))
    } else if str_eq(m, "JUMP_NEG") {
        Some(Instruction::JUMP_NEG(0))
    } else {
        None
    }
}

fn format_for(ins: Instruction) -> (r: Vec<Operand>)
    ensures
        r@ == format_of(ins),
{
    let r = match ins {
        Instruction::NOOP() => vec![],
        Instruction::LOAD(_) => vec![Operand::Number(0)],
        Instruction::R2A_LOAD(_) => vec![Operand::Register(0)],
        Instruction::M2R_LOAD(_, _) => vec![Operand::Number(0), Operand::Register(0)],
        Instruction::M2A_LOAD(_) => vec![Operand::Number(0)],
        Instruction::A2R_STORE(_) => vec![Operand::Register(0)],
        Instruction::A2M_STORE(_) => vec![Operand::Number(0)],
        Instruction::R2M_STORE(_, _) => vec![Operand::Register(0), Operand::Number(0)],
        Instruction::I_ADD(_) => vec![Operand::Number(0)],
        Instruction::R_ADD(_) => vec![Operand::Register(0)],
        Instruction::JUMP(_) => vec![Operand::Number(0)],
        Instruction::JUMP_NEG(_) => vec![Operand::Number(0)],
    };
    assert(r@ =~= format_of(ins));
    r
}

/// Whether `x` has the operand kinds of `y`, one for one.
pub fn matching_operand_formats(x: &Vec<Operand>, y: &Vec<Operand>) -> (r: bool)
    ensures
        r == kinds_match(x@, y@),
{
    if x.len() != y.len() {
        return false;
    }
    let mut i: usize = 0;
    while i < x.len()
        invariant
            i <= x.len(),
            x.len() == y.len(),
            forall|j: int| 0 <= j < i ==> same_kind(#[trigger] x@[j], y@[j]),
        decreases x.len() - i,
    {
        if !x[i].type_matches(&y[i]) {
            return false;
        }
        i = i + 1;
    }
    true
}

/// Reads one line of assembly: a mnemonic followed by its operands.
/// Operand errors come first, then an unknown mnemonic, then operands of
/// the wrong kinds or number.
pub fn parse_instruction(s: &str) -> (r: Result<Instruction, ParseError>)
    ensures
        r == instruction_spec(s@),
{
    let tokens = split_words(s);
    if tokens.len() == 0 {
        return Err(ParseError::BlankLine);
    }
    proof {
        assert(views(tokens@).subrange(1, tokens.len() as int) =~= words(s@).drop_first());
    }
    let ops = match parse_operands_from(&tokens, 1) {
        Ok(ops) => ops,
        Err(e) => {
            return Err(e);
        },
    };
    let instruction = match template_of(tokens[0]) {
        Some(t) => t,
        None => {
            return Err(ParseError::UnknownInstruction);
        },
    };
    let arg_fmt = format_for(instruction);
    if !matching_operand_formats(&ops, &arg_fmt) {
        return Err(ParseError::BadArguments);
    }
    let r = match instruction {
        Instruction::NOOP() => Instruction::NOOP(),
        Instruction::LOAD(_) => Instruction::LOAD(ops[0].inner()),
        Instruction::R2A_LOAD(_) => Instruction::R2A_LOAD(ops[0].inner()),
        Instruction::M2R_LOAD(_, _) => Instruction::M2R_LOAD(ops[0].inner(), ops[1].inner()),
        Instruction::M2A_LOAD(_) => Instruction::M2A_LOAD(ops[0].inner()),
        Instruction::A2R_STORE(_) => Instruction::A2R_STORE(ops[0].inner()),
        Instruction::A2M_STORE(_) => Instruction::A2M_STORE(ops[0].inner()),
        Instruction::R2M_STORE(_, _) => Instruction::R2M_STORE(ops[0].inner(), ops[1].inner()),
        Instruction::I_ADD(_) => Instruction::I_ADD(ops[0].inner()),
        Instruction::R_ADD(_) => Instruction::R_ADD(ops[0].inner()),
        Instruction::JUMP(_) => Instruction::JUMP(ops[0].inner()),
        Instruction::JUMP_NEG(_) => Instruction::JUMP_NEG(ops[0].inner()),
    };
    Ok(r)
}

/// Reading `s` from the left: the lines completed so far, and the line
/// being read.
pub open spec fn line_scan(s: Seq<char>) -> (Seq<Seq<char>>, Seq<char>)
    decreases s.len(),
{
    if s.len() == 0 {
        (Seq::empty(), Seq::empty())
    } else {
        let (done, cur) = line_scan(s.drop_last());
        if s.last() == '\n' {
            (done.push(cur), Seq::empty())
        } else {
            (done, cur.push(s.last()))
        }
    }
}

/// The lines of `s`: the text between line feeds, in order.
pub open spec fn lines(s: Seq<char>) -> Seq<Seq<char>> {
    line_scan(s).0.push(line_scan(s).1)
}

/// The program that a sequence of lines holds: one instruction for each
/// line that is not blank, or the first line that is rejected.
pub open spec fn program_spec(ls: Seq<Seq<char>>) -> Result<Seq<Instruction>, LineError>
    decreases ls.len(),
{
    if ls.len() == 0 {
        Ok(Seq::empty())
    } else {
        match program_spec(ls.drop_last()) {
            Err(e) => Err(e),
            Ok(p) => if words(ls.last()).len() == 0 {
                Ok(p)
            } else {
                match instruction_spec(ls.last()) {
                    Ok(ins) => Ok(p.push(ins)),
                    Err(e) => Err(LineError { line: ls.len() as usize, error: e }),
                }
            },
        }
    }
}

/// The lines completed after reading a prefix of `s` are the first lines
/// of `s`.
proof fn lemma_line_scan_prefix(s: Seq<char>, k: int)
    requires
        0 <= k <= s.len(),
    ensures
        ({
            let a = line_scan(s.take(k)).0;
            let b = line_scan(s).0;
            a.len() <= b.len() && b.take(a.len() as int) =~= a
        }),
    decreases s.len(),
{
    if k == s.len() {
        assert(s.take(k) =~= s);
    } else {
        assert(s.drop_last().take(k) =~= s.take(k));
        lemma_line_scan_prefix(s.drop_last(), k);
    }
}

proof fn lemma_program_error_persists(ls: Seq<Seq<char>>, k: int)
    requires
        0 <= k <= ls.len(),
        program_spec(ls.take(k)) is Err,
    ensures
        program_spec(ls) == program_spec(ls.take(k)),
    decreases ls.len(),
{
    if k == ls.len() {
        assert(ls.take(k) =~= ls);
    } else {
        assert(ls.drop_last().take(k) =~= ls.take(k));
        lemma_program_error_persists(ls.drop_last(), k);
    }
}

/// An operand error is never the one of a blank line.
proof fn lemma_operands_error_not_blank(ts: Seq<Seq<char>>)
    ensures
        operands_spec(ts) != Err::<Seq<Operand>, ParseError>(ParseError::BlankLine),
    decreases ts.len(),
{
    if ts.len() > 0 {
        lemma_operands_error_not_blank(ts.drop_last());
    }
}

/// Adds the instruction of `line`, the `line_no`-th line, to `prog`; a blank
/// line adds nothing.
fn add_line(prog: &mut Vec<Instruction>, line: &str, line_no: usize) -> (r: Result<(), LineError>)
    ensures
        words(line@).len() == 0 ==> r is Ok && final(prog)@ == old(prog)@,
        words(line@).len() > 0 ==> match instruction_spec(line@) {
            Ok(ins) => r is Ok && final(prog)@ == old(prog)@.push(ins),
            Err(e) => r == Err::<(), LineError>(LineError { line: line_no, error: e }),
        },
{
    proof {
        lemma_operands_error_not_blank(words(line@).drop_first());
    }
    match parse_instruction(line) {
        Ok(ins) => {
            prog.push(ins);
            Ok(())
        },
        Err(ParseError::BlankLine) => Ok(()),
        Err(e) => Err(LineError { line: line_no, error: e }),
    }
}

/// Reads a whole program, one instruction per line; blank lines are
/// skipped.
pub fn parse_code(src: &str) -> (r: Result<Vec<Instruction>, LineError>)
    ensures
        match program_spec(lines(src@)) {
            Ok(p) => r is Ok && r->Ok_0@ == p,
            Err(e) => r == Err::<Vec<Instruction>, LineError>(e),
        },
{
    let n = src.unicode_len();
    let mut prog: Vec<Instruction> = Vec::new();
    let mut start: usize = 0;
    let mut line_no: usize = 0;
    let mut i: usize = 0;
    while i < n
        invariant
            start <= i <= n,
            n == src@.len(),
            line_no <= start,
            line_scan(src@.take(i as int)).0.len() == line_no,
            line_scan(src@.take(i as int)).1 == src@.subrange(start as int, i as int),
            program_spec(line_scan(src@.take(i as int)).0) == Ok::<Seq<Instruction>, LineError>(prog@),
        decreases n - i,
    {
        let c = src.get_char(i);
        let ghost done = line_scan(src@.take(i as int)).0;
        proof {
            assert(src@.take(i + 1).drop_last() =~= src@.take(i as int));
        }
        if c == '\n' {
            let line = src.substring_char(start, i);
            line_no = line_no + 1;
            let ghost ls = done.push(line@);
            assert(ls.drop_last() =~= done);
            match add_line(&mut prog, line, line_no) {
                Ok(()) => {},
                Err(e) => {
                    proof {
                        lemma_line_scan_prefix(src@, i + 1);
                        assert(lines(src@).take(ls.len() as int) =~= ls);
                        lemma_program_error_persists(lines(src@), ls.len() as int);
                    }
                    return Err(e);
                },
            }
            start = i + 1;
        } else {
            assert(src@.subrange(start as int, i + 1) =~= src@.subrange(start as int, i as int).push(c));
        }
        i = i + 1;
    }
    assert(src@.take(n as int) =~= src@);
    let ghost done = line_scan(src@).0;
    assert(lines(src@).drop_last() =~= done);
    if start == n {
        assert(words(lines(src@).last()) =~= Seq::<Seq<char>>::empty());
        return Ok(prog);
    }
    let line = src.substring_char(start, n);
    match add_line(&mut prog, line, line_no + 1) {
        Ok(()) => Ok(prog),
        Err(e) => Err(e),
    }
}

} // verus!
