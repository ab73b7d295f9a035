//! The translator: from a line of text to lexemes, and from lexemes and the
//! numbers read off their operands to instructions.
//!
//! `translate` does it all, with the reading of numerals handed in as a
//! function; `lex` and `assemble` are its two halves.

use crate::instruction::Instruction;
use crate::value::Value;
use vstd::prelude::*;
use vstd::string::*;

verus! {

/// The mnemonics that take a numeric operand after a colon.
#[derive(Clone, Copy, Debug, PartialEq, Eq)]
pub enum Prefix {
    /// `ldc:`, with a number of any kind.
    LoadConst,
    /// `ldv:`, with an index.
    LoadVar,
    /// `stv:`, with an index.
    StoreVar,
    /// `br:`, with an index.
    Branch,
    /// `brtrue:`, with an index.
    BranchIfTrue,
    /// `brfalse:`, with an index.
    BranchIfFalse,
}

/// What a token of the line is, once its mnemonic is looked up.
#[derive(Clone, Copy, Debug, PartialEq, Eq)]
pub enum Lexeme<'a> {
    /// A mnemonic without operand, which is an instruction as it stands.
    Bare(Instruction),
    /// A mnemonic with the text of its operand, which is still to be read as a
    /// number. The text is cut out of the line, without the white space around
    /// it.
    Prefixed(Prefix, &'a str),
    /// A token with no mnemonic that the translator knows: the token, without
    /// the white space around it.
    Unknown(&'a str),
}

/// A lexeme as a mathematical value.
pub enum LexemeView {
    Bare(Instruction),
    Prefixed(Prefix, Seq<char>),
    Unknown(Seq<char>),
}

/// Why a token gave no instruction. Such a token is left out of the program,
/// and the translation goes on with the next.
#[derive(Clone, Copy, Debug, PartialEq, Eq)]
pub enum Skip {
    /// The token starts with no mnemonic that the translator knows.
    UnknownMnemonic,
    /// The operand is no numeral.
    BadNumeral,
    /// The operand is a number, but no index: it is below zero, not whole, or
    /// not finite.
    BadIndex,
}

impl<'a> View for Lexeme<'a> {
    type V = LexemeView;

    open spec fn view(&self) -> LexemeView {
        match *self {
            Lexeme::Bare(instruction) => LexemeView::Bare(instruction),
            Lexeme::Prefixed(mnemonic, text) => LexemeView::Prefixed(mnemonic, text@),
            Lexeme::Unknown(text) => LexemeView::Unknown(text@),
        }
    }
}

/// The characters with the Unicode property White_Space.
pub open spec fn is_whitespace(c: char) -> bool {
    let code = c as u32;
    ||| 0x09 <= code <= 0x0D
    ||| code == 0x20
    ||| code == 0x85
    ||| code == 0xA0
    ||| code == 0x1680
    ||| 0x2000 <= code <= 0x200A
    ||| code == 0x2028
    ||| code == 0x2029
    ||| code == 0x202F
    ||| code == 0x205F
    ||| code == 0x3000
}

/// The lower-case form of an ASCII capital; any other character as it is.
pub open spec fn fold(c: char) -> char {
    if 'A' <= c <= 'Z' {
        ((c as u8) + 32) as char
    } else {
        c
    }
}

/// The text with every ASCII capital in lower case.
pub open spec fn folded(text: Seq<char>) -> Seq<char> {
    text.map_values(|c: char| fold(c))
}

/// The text without the white space at its start.
pub open spec fn trim_start(text: Seq<char>) -> Seq<char>
    decreases text.len(),
{
    if text.len() > 0 && is_whitespace(text[0]) {
        trim_start(text.drop_first())
    } else {
        text
    }
}

/// The text without the white space at its end.
pub open spec fn trim_end(text: Seq<char>) -> Seq<char>
    decreases text.len(),
{
    if text.len() > 0 && is_whitespace(text.last()) {
        trim_end(text.drop_last())
    } else {
        text
    }
}

/// The text without the white space at either end.
pub open spec fn trimmed(text: Seq<char>) -> Seq<char> {
    trim_end(trim_start(text))
}

/// The lexeme for a mnemonic `name` that takes an operand, if `token` starts
/// with the name in any case: the operand is the rest, trimmed.
pub open spec fn prefixed(token: Seq<char>, name: Seq<char>, mnemonic: Prefix) -> Option<
    LexemeView,
> {
    if name.is_prefix_of(folded(token)) {
        Some(LexemeView::Prefixed(mnemonic, trimmed(token.skip(name.len() as int))))
    } else {
        None
    }
}

/// The lexeme of one token; none where the token is empty or all white space.
/// The token is trimmed first, and its mnemonic is matched without regard to
/// case.
pub open spec fn lex_token(token: Seq<char>) -> Option<LexemeView> {
    let t = trimmed(token);
    let word = folded(t);
    if t.len() == 0 {
        None
    } else if word == "add"@ {
        Some(LexemeView::Bare(Instruction::Add))
    } else if word == "sub"@ {
        Some(LexemeView::Bare(Instruction::Sub))
    } else if word == "mul"@ {
        Some(LexemeView::Bare(Instruction::Mul))
    } else if word == "div"@ {
        Some(LexemeView::Bare(Instruction::Div))
    } else if word == "neg"@ {
        Some(LexemeView::Bare(Instruction::Negate))
    } else if word == "ceq"@ {
        Some(LexemeView::Bare(Instruction::CmpEq))
    } else if word == "cgt"@ {
        Some(LexemeView::Bare(Instruction::CmpGt))
    } else if word == "clt"@ {
        Some(LexemeView::Bare(Instruction::CmpLt))
    } else if word == "dup"@ {
        Some(LexemeView::Bare(Instruction::Dup))
    } else if word == "pop"@ {
        Some(LexemeView::Bare(Instruction::Pop))
    } else if prefixed(t, "ldc:"@, Prefix::LoadConst) is Some {
        prefixed(t, "ldc:"@, Prefix::LoadConst)
    } else if prefixed(t, "ldv:"@, Prefix::LoadVar) is Some {
        prefixed(t, "ldv:"@, Prefix::LoadVar)
    } else if prefixed(t, "stv:"@, Prefix::StoreVar) is Some {
        prefixed(t, "stv:"@, Prefix::StoreVar)
    } else if prefixed(t, "brfalse:"@, Prefix::BranchIfFalse) is Some {
        prefixed(t, "brfalse:"@, Prefix::BranchIfFalse)
    } else if prefixed(t, "brtrue:"@, Prefix::BranchIfTrue) is Some {
        prefixed(t, "brtrue:"@, Prefix::BranchIfTrue)
    } else if prefixed(t, "br:"@, Prefix::Branch) is Some {
        prefixed(t, "br:"@, Prefix::Branch)
    } else {
        Some(LexemeView::Unknown(t))
    }
}

/// The length of the first token of a line: the number of characters before
/// its first space, or all of them.
pub open spec fn token_length(line: Seq<char>) -> nat
    decreases line.len(),
{
    if line.len() == 0 || line[0] == ' ' {
        0
    } else {
        1 + token_length(line.drop_first())
    }
}

/// No lexeme or one, as a sequence.
pub open spec fn zero_or_one<T>(item: Option<T>) -> Seq<T> {
    match item {
        Some(x) => seq![x],
        None => Seq::empty(),
    }
}

/// The lexemes of a line. The line is cut at each single space; every piece
/// is a token and is looked at by itself. An empty token leaves no trace, and
/// the tokens around it count as they would without it.
pub open spec fn lex_spec(line: Seq<char>) -> Seq<LexemeView>
    decreases line.len(),
{
    let length = token_length(line);
    let head = zero_or_one(lex_token(line.take(length as int)));
    if length >= line.len() {
        head
    } else {
        head + lex_spec(line.skip(length as int + 1))
    }
}

/// The views of the lexemes in a vector.
pub open spec fn views(lexemes: Seq<Lexeme>) -> Seq<LexemeView> {
    lexemes.map_values(|l: Lexeme| l@)
}

/// Whether the character has the Unicode property White_Space.
fn whitespace(c: char) -> (r: bool)
    ensures
        r == is_whitespace(c),
{
    let code: u32 = c as u32;
    (0x09 <= code && code <= 0x0D) || code == 0x20 || code == 0x85 || code == 0xA0 || code
        == 0x1680 || (0x2000 <= code && code <= 0x200A) || code == 0x2028 || code == 0x2029 || code
        == 0x202F || code == 0x205F || code == 0x3000
}

/// The character with an ASCII capital in lower case.
fn lower(c: char) -> (r: char)
    ensures
        r == fold(c),
{
    if 'A' <= c && c <= 'Z' {
        ((c as u8) + 32) as char
    } else {
        c
    }
}

/// The characters of a line, one by one.
fn characters(line: &str) -> (chars: Vec<char>)
    ensures
        chars@ == line@,
{
    let mut chars: Vec<char> = Vec::new();
    for c in it: line.chars()
        invariant
            chars@ == it.seq().take(it.index() as int),
    {
        chars.push(c);
    }
    chars
}

/// The bounds of the piece between `low` and `high` once trimmed.
fn trim(chars: &Vec<char>, low: usize, high: usize) -> (bounds: (usize, usize))
    requires
        low <= high <= chars.len(),
    ensures
        low <= bounds.0 <= bounds.1 <= high,
        chars@.subrange(bounds.0 as int, bounds.1 as int) == trimmed(
            chars@.subrange(low as int, high as int),
        ),
{
    let mut from: usize = low;
    while from < high && whitespace(chars[from])
        invariant
            low <= from <= high <= chars.len(),
            trim_start(chars@.subrange(from as int, high as int)) == trim_start(
                chars@.subrange(low as int, high as int),
            ),
        decreases high - from,
    {
        assert(chars@.subrange(from as int, high as int).drop_first() =~= chars@.subrange(
            from + 1,
            high as int,
        ));
        from = from + 1;
    }
    let mut to: usize = high;
    while from < to && whitespace(chars[to - 1])
        invariant
            from <= to <= high <= chars.len(),
            trim_end(chars@.subrange(from as int, to as int)) == trim_end(
                chars@.subrange(from as int, high as int),
            ),
        decreases to - from,
    {
        assert(chars@.subrange(from as int, to as int).drop_last() =~= chars@.subrange(
            from as int,
            to - 1,
        ));
        to = to - 1;
    }
    (from, to)
}

/// Whether the piece between `from` and `to` starts with `word`, capitals
/// counting as their lower-case letters.
fn spelled(chars: &Vec<char>, from: usize, to: usize, word: &str) -> (r: bool)
    requires
        from <= to <= chars.len(),
    ensures
        r == word@.is_prefix_of(folded(chars@.subrange(from as int, to as int))),
{
    let length = word.unicode_len();
    if to - from < length {
        return false;
    }
    let ghost piece = folded(chars@.subrange(from as int, to as int));
    let mut i: usize = 0;
    while i < length
        invariant
            i <= length == word@.len() <= to - from,
            to <= chars.len(),
            piece == folded(chars@.subrange(from as int, to as int)),
            forall|j: int| 0 <= j < i ==> word@[j] == piece[j],
        decreases length - i,
    {
        if lower(chars[from + i]) != word.get_char(i) {
            assert(piece.subrange(0, word@.len() as int)[i as int] != word@[i as int]);
            return false;
        }
        i = i + 1;
    }
    true
}

/// Whether the piece between `from` and `to` is `word`, capitals counting as
/// their lower-case letters.
fn named(chars: &Vec<char>, from: usize, to: usize, word: &str) -> (r: bool)
    requires
        from <= to <= chars.len(),
    ensures
        r == (folded(chars@.subrange(from as int, to as int)) == word@),
{
    let r = to - from == word.unicode_len() && spelled(chars, from, to, word);
    proof {
        let piece = folded(chars@.subrange(from as int, to as int));
        if r {
            assert(piece =~= piece.subrange(0, word@.len() as int));
        }
    }
    r
}

/// The lexeme of a mnemonic with operand, where the piece between `from` and
/// `to` starts with its name.
fn prefixed_lexeme<'a>(
    line: &'a str,
    chars: &Vec<char>,
    from: usize,
    to: usize,
    name: &str,
    mnemonic: Prefix,
) -> (r: Option<Lexeme<'a>>)
    requires
        chars@ == line@,
        from <= to <= chars.len(),
    ensures
        r is Some == prefixed(chars@.subrange(from as int, to as int), name@, mnemonic) is Some,
        r is Some ==> Some(r->0@) == prefixed(
            chars@.subrange(from as int, to as int),
            name@,
            mnemonic,
        ),
{
    if !spelled(chars, from, to, name) {
        return None;
    }
    let start = from + name.unicode_len();
    assert(chars@.subrange(from as int, to as int).skip(name@.len() as int) =~= chars@.subrange(
        start as int,
        to as int,
    ));
    let (first, last) = trim(chars, start, to);
    Some(Lexeme::Prefixed(mnemonic, line.substring_char(first, last)))
}

/// The lexeme that the token between `low` and `high` stands for, if any.
fn token<'a>(line: &'a str, chars: &Vec<char>, low: usize, high: usize) -> (r: Option<Lexeme<'a>>)
    requires
        chars@ == line@,
        low <= high <= chars.len(),
    ensures
        r is Some == lex_token(chars@.subrange(low as int, high as int)) is Some,
        r is Some ==> Some(r->0@) == lex_token(chars@.subrange(low as int, high as int)),
{
    let (from, to) = trim(chars, low, high);
    if from == to {
        return None;
    }
    if named(chars, from, to, "add") {
        return Some(Lexeme::Bare(Instruction::Add));
    }
    if named(chars, from, to, "sub") {
        return Some(Lexeme::Bare(Instruction::Sub));
    }
    if named(chars, from, to, "mul") {
        return Some(Lexeme::Bare(Instruction::Mul));
    }
    if named(chars, from, to, "div") {
        return Some(Lexeme::Bare(Instruction::Div));
    }
    if named(chars, from, to, "neg") {
        return Some(Lexeme::Bare(Instruction::Negate));
    }
    if named(chars, from, to, "ceq") {
        return Some(Lexeme::Bare(Instruction::CmpEq));
    }
    if named(chars, from, to, "cgt") {
        return Some(Lexeme::Bare(Instruction::CmpGt));
    }
    if named(chars, from, to, "clt") {
        return Some(Lexeme::Bare(Instruction::CmpLt));
    }
    if named(chars, from, to, "dup") {
        return Some(Lexeme::Bare(Instruction::Dup));
    }
    if named(chars, from, to, "pop") {
        return Some(Lexeme::Bare(Instruction::Pop));
    }
    let constant = prefixed_lexeme(line, chars, from, to, "ldc:", Prefix::LoadConst);
    if constant.is_some() {
        return constant;
    }
    let load = prefixed_lexeme(line, chars, from, to, "ldv:", Prefix::LoadVar);
    if load.is_some() {
        return load;
    }
    let store = prefixed_lexeme(line, chars, from, to, "stv:", Prefix::StoreVar);
    if store.is_some() {
        return store;
    }
    let if_false = prefixed_lexeme(line, chars, from, to, "brfalse:", Prefix::BranchIfFalse);
    if if_false.is_some() {
        return if_false;
    }
    let if_true = prefixed_lexeme(line, chars, from, to, "brtrue:", Prefix::BranchIfTrue);
    if if_true.is_some() {
        return if_true;
    }
    let branch = prefixed_lexeme(line, chars, from, to, "br:", Prefix::Branch);
    if branch.is_some() {
        return branch;
    }
    Some(Lexeme::Unknown(line.substring_char(from, to)))
}

/// Where no space stands among the first `count` characters, and the line
/// ends or has a space there, the first token has `count` characters.
proof fn lemma_token_length(line: Seq<char>, count: nat)
    requires
        count <= line.len(),
        forall|i: int| 0 <= i < count ==> line[i] != ' ',
        count == line.len() || line[count as int] == ' ',
    ensures
        token_length(line) == count,
    decreases count,
{
    if count > 0 {
        lemma_token_length(line.drop_first(), (count - 1) as nat);
    }
}

/// Cuts a line into tokens at each single space and gives their lexemes, in
/// the order of the line. Empty tokens are passed over.
pub fn lex<'a>(line: &'a str) -> (lexemes: Vec<Lexeme<'a>>)
    ensures
        views(lexemes@) == lex_spec(line@),
{
    let chars = characters(line);
    let mut lexemes: Vec<Lexeme<'a>> = Vec::new();
    let mut start: usize = 0;
    assert(chars@.skip(0) =~= chars@);
    assert(views(lexemes@) =~= Seq::empty());
    loop
        invariant_except_break
            start <= chars.len(),
            views(lexemes@) + lex_spec(chars@.skip(start as int)) == lex_spec(line@),
        invariant
            chars@ == line@,
        ensures
            views(lexemes@) == lex_spec(line@),
        decreases chars.len() - start,
    {
        let mut stop: usize = start;
        while stop < chars.len() && chars[stop] != ' '
            invariant
                start <= stop <= chars.len(),
                forall|i: int| start <= i < stop ==> chars@[i] != ' ',
            decreases chars.len() - stop,
        {
            stop = stop + 1;
        }
        let ghost rest = chars@.skip(start as int);
        let ghost before = views(lexemes@);
        proof {
            lemma_token_length(rest, (stop - start) as nat);
            assert(rest.take(stop - start) =~= chars@.subrange(start as int, stop as int));
        }
        match token(line, &chars, start, stop) {
            Some(lexeme) => {
                lexemes.push(lexeme);
                assert(views(lexemes@) =~= before + seq![lexeme@]);
            },
            None => {
                assert(before + Seq::<LexemeView>::empty() =~= before);
            },
        }
        if stop >= chars.len() {
            break;
        }
        proof {
            assert(rest.skip(stop - start + 1) =~= chars@.skip(stop + 1));
            let head = zero_or_one(lex_token(rest.take(stop - start)));
            let tail = lex_spec(chars@.skip(stop + 1));
            assert(before + (head + tail) =~= (before + head) + tail);
        }
        start = stop + 1;
    }
    lexemes
}

impl Prefix {
    /// The instruction for this mnemonic with `number` as its operand. `ldc:`
    /// takes any number. The others take an index: the number must be finite,
    /// not below zero, and whole; else there is no instruction.
    pub open spec fn instruction(self, number: Value) -> Option<Instruction> {
        match self {
            Prefix::LoadConst => Some(Instruction::LoadConst(number)),
            _ => match number.index() {
                None => None,
                Some(index) => Some(
                    match self {
                        Prefix::LoadVar => Instruction::LoadVar(index),
                        Prefix::StoreVar => Instruction::StoreVar(index),
                        Prefix::Branch => Instruction::Branch(index),
                        Prefix::BranchIfTrue => Instruction::BranchIfTrue(index),
                        _ => Instruction::BranchIfFalse(index),
                    },
                ),
            },
        }
    }
}

/// The instruction that a lexeme gives, or why it gives none. `number` is
/// what the operand text was read as, `None` where it is no numeral; only a
/// mnemonic with operand looks at it.
pub open spec fn resolve_spec(lexeme: LexemeView, number: Option<Value>) -> Result<
    Instruction,
    Skip,
> {
    match lexeme {
        LexemeView::Bare(instruction) => Ok(instruction),
        LexemeView::Prefixed(mnemonic, _) => match number {
            None => Err(Skip::BadNumeral),
            Some(value) => match mnemonic.instruction(value) {
                Some(instruction) => Ok(instruction),
                None => Err(Skip::BadIndex),
            },
        },
        LexemeView::Unknown(_) => Err(Skip::UnknownMnemonic),
    }
}

/// The instruction of a lexeme that gives one, as a sequence.
pub open spec fn given(outcome: Result<Instruction, Skip>) -> Seq<Instruction> {
    match outcome {
        Ok(instruction) => seq![instruction],
        Err(_) => Seq::empty(),
    }
}

/// The reason of a lexeme that gives no instruction, as a sequence.
pub open spec fn refused(outcome: Result<Instruction, Skip>) -> Seq<Skip> {
    match outcome {
        Ok(_) => Seq::empty(),
        Err(skip) => seq![skip],
    }
}

/// The number at `position`, or `None` past the end.
pub open spec fn number_at(numbers: Seq<Option<Value>>, position: int) -> Option<Value> {
    if 0 <= position < numbers.len() {
        numbers[position]
    } else {
        None
    }
}

/// The instructions of a sequence of lexemes, in its order: each lexeme gives
/// its instruction or nothing, whatever the others give. `numbers` holds, at
/// the position of each lexeme, what its operand was read as.
pub open spec fn assemble_spec(lexemes: Seq<LexemeView>, numbers: Seq<Option<Value>>) -> Seq<
    Instruction,
>
    decreases lexemes.len(),
{
    if lexemes.len() == 0 {
        Seq::empty()
    } else {
        let last = lexemes.len() - 1;
        assemble_spec(lexemes.drop_last(), numbers) + given(
            resolve_spec(lexemes[last], number_at(numbers, last)),
        )
    }
}

/// Why the lexemes that give no instruction give none, in the order of the
/// lexemes.
pub open spec fn skips_spec(lexemes: Seq<LexemeView>, numbers: Seq<Option<Value>>) -> Seq<Skip>
    decreases lexemes.len(),
{
    if lexemes.len() == 0 {
        Seq::empty()
    } else {
        let last = lexemes.len() - 1;
        skips_spec(lexemes.drop_last(), numbers) + refused(
            resolve_spec(lexemes[last], number_at(numbers, last)),
        )
    }
}

/// What each lexeme's operand is read as by `read`, position by position; a
/// bare mnemonic has nothing to read.
pub open spec fn operand_numbers(
    lexemes: Seq<LexemeView>,
    read: spec_fn(Seq<char>) -> Option<Value>,
) -> Seq<Option<Value>> {
    lexemes.map_values(
        |l: LexemeView|
            match l {
                LexemeView::Prefixed(_, text) => read(text),
                _ => None,
            },
    )
}

/// The instruction that one token gives, if it gives one, where `read` is the
/// reading of numerals.
pub open spec fn token_instruction(
    token: Seq<char>,
    read: spec_fn(Seq<char>) -> Option<Value>,
) -> Option<Instruction> {
    match lex_token(token) {
        None => None,
        Some(LexemeView::Prefixed(mnemonic, text)) => match resolve_spec(
            LexemeView::Prefixed(mnemonic, text),
            read(text),
        ) {
            Ok(instruction) => Some(instruction),
            Err(_) => None,
        },
        Some(lexeme) => match resolve_spec(lexeme, None) {
            Ok(instruction) => Some(instruction),
            Err(_) => None,
        },
    }
}

/// The program that a line stands for, where `read` is the reading of
/// numerals.
pub open spec fn translate_spec(line: Seq<char>, read: spec_fn(Seq<char>) -> Option<Value>) -> Seq<
    Instruction,
> {
    assemble_spec(lex_spec(line), operand_numbers(lex_spec(line), read))
}

/// Why the tokens of a line that give no instruction give none, in the order
/// of the line, where `read` is the reading of numerals.
pub open spec fn translate_skips(line: Seq<char>, read: spec_fn(Seq<char>) -> Option<Value>) -> Seq<
    Skip,
> {
    skips_spec(lex_spec(line), operand_numbers(lex_spec(line), read))
}

impl<'a> Lexeme<'a> {
    /// The text of the operand, for a mnemonic that takes one.
    pub fn operand_text(&self) -> (text: Option<&'a str>)
        ensures
            match self@ {
                LexemeView::Prefixed(_, t) => text is Some && text->0@ == t,
                _ => text is None,
            },
    {
        match *self {
            Lexeme::Prefixed(_, text) => Some(text),
            _ => None,
        }
    }

    /// The instruction that the lexeme gives once its operand is read, or why
    /// it gives none: `number` is the number read, or `None` where the text is
    /// no numeral.
    pub fn resolve(&self, number: Option<Value>) -> (r: Result<Instruction, Skip>)
        ensures
            r == resolve_spec(self@, number),
    {
        match *self {
            Lexeme::Bare(instruction) => Ok(instruction),
            Lexeme::Unknown(_) => Err(Skip::UnknownMnemonic),
            Lexeme::Prefixed(mnemonic, _) => match number {
                None => Err(Skip::BadNumeral),
                Some(value) => match mnemonic {
                    Prefix::LoadConst => Ok(Instruction::LoadConst(value)),
                    _ => match value.to_index() {
                        None => Err(Skip::BadIndex),
                        Some(index) => Ok(
                            match mnemonic {
                                Prefix::LoadVar => Instruction::LoadVar(index),
                                Prefix::StoreVar => Instruction::StoreVar(index),
                                Prefix::Branch => Instruction::Branch(index),
                                Prefix::BranchIfTrue => Instruction::BranchIfTrue(index),
                                _ => Instruction::BranchIfFalse(index),
                            },
                        ),
                    },
                },
            },
        }
    }
}

/// Puts the program together from the lexemes of a line and the numbers read
/// off their operands: `numbers` holds at each lexeme's position what its
/// operand text was read as, `None` where it is no numeral; a position past
/// the end of `numbers` counts as `None`. A lexeme that gives no instruction
/// is left out and its reason appended to `skipped`; the others keep their
/// order.
pub fn assemble(lexemes: &[Lexeme], numbers: &[Option<Value>], skipped: &mut Vec<Skip>) -> (program:
    Vec<Instruction>)
    ensures
        program@ == assemble_spec(views(lexemes@), numbers@),
        final(skipped)@ == old(skipped)@ + skips_spec(views(lexemes@), numbers@),
{
    let mut program: Vec<Instruction> = Vec::new();
    let mut i: usize = 0;
    assert(views(lexemes@).take(0) =~= Seq::empty());
    assert(old(skipped)@ + Seq::<Skip>::empty() =~= old(skipped)@);
    while i < lexemes.len()
        invariant
            i <= lexemes.len(),
            program@ == assemble_spec(views(lexemes@).take(i as int), numbers@),
            skipped@ == old(skipped)@ + skips_spec(views(lexemes@).take(i as int), numbers@),
        decreases lexemes.len() - i,
    {
        let number = if i < numbers.len() {
            numbers[i]
        } else {
            None
        };
        let ghost before = program@;
        let ghost skips = skips_spec(views(lexemes@).take(i as int), numbers@);
        proof {
            let all = views(lexemes@);
            assert(all.take(i + 1).drop_last() =~= all.take(i as int));
            assert(all.take(i + 1)[i as int] == lexemes@[i as int]@);
        }
        match lexemes[i].resolve(number) {
            Ok(instruction) => {
                program.push(instruction);
                assert(program@ =~= before + seq![instruction]);
                assert(skips + Seq::<Skip>::empty() =~= skips);
            },
            Err(skip) => {
                skipped.push(skip);
                assert(before + Seq::<Instruction>::empty() =~= before);
                assert(skipped@ =~= old(skipped)@ + (skips + seq![skip]));
            },
        }
        i = i + 1;
    }
    assert(views(lexemes@).take(i as int) =~= views(lexemes@));
    program
}

/// Whether `numbers` holds, at the position of each lexeme, what `read` can
/// return for its operand text, and `None` for a lexeme without operand.
pub open spec fn read_by<F: Fn(&str) -> Option<Value>>(
    read: F,
    lexemes: Seq<LexemeView>,
    numbers: Seq<Option<Value>>,
) -> bool {
    &&& numbers.len() == lexemes.len()
    &&& forall|i: int|
        0 <= i < lexemes.len() ==> match #[trigger] lexemes[i] {
            LexemeView::Prefixed(_, text) => exists|operand: &str|
                operand@ == text && #[trigger] call_ensures(read, (operand,), numbers[i]),
            _ => numbers[i] is None,
        }
}

/// Translates a line into a program. The line is cut into tokens at each
/// single space; a token that stands for an instruction gives it, in the order
/// of the line. Any other token but an empty one is left out, with its reason
/// appended to `skipped`, and the translation goes on. `read` reads the
/// numerals: it is given the text of an operand and returns the number, or
/// `None` where the text is no numeral.
///
/// The program and the reasons are what `assemble` makes of the lexemes of the
/// line and of numbers that `read` returned for their operands.
pub fn translate<F: Fn(&str) -> Option<Value>>(line: &str, read: F, skipped: &mut Vec<Skip>) -> (program:
    Vec<Instruction>)
    requires
        forall|text: &str| call_requires(read, (text,)),
    ensures
        exists|numbers: Seq<Option<Value>>|
            {
                &&& read_by(read, lex_spec(line@), numbers)
                &&& program@ == #[trigger] assemble_spec(lex_spec(line@), numbers)
                &&& final(skipped)@ == old(skipped)@ + skips_spec(lex_spec(line@), numbers)
            },
{
    let lexemes = lex(line);
    let mut numbers: Vec<Option<Value>> = Vec::new();
    let mut i: usize = 0;
    while i < lexemes.len()
        invariant
            i <= lexemes.len(),
            forall|text: &str| call_requires(read, (text,)),
            read_by(read, views(lexemes@).take(i as int), numbers@),
        decreases lexemes.len() - i,
    {
        let number = match lexemes[i].operand_text() {
            Some(text) => read(text),
            None => None,
        };
        let ghost before = numbers@;
        numbers.push(number);
        proof {
            let so_far = views(lexemes@).take(i as int);
            let now = views(lexemes@).take(i + 1);
            assert forall|j: int| 0 <= j < now.len() implies match #[trigger] now[j] {
                LexemeView::Prefixed(_, text) => exists|operand: &str|
                    operand@ == text && #[trigger] call_ensures(read, (operand,), numbers@[j]),
                _ => numbers@[j] is None,
            } by {
                if j < i {
                    assert(now[j] == so_far[j]);
                    assert(numbers@[j] == before[j]);
                } else {
                    assert(now[j] == lexemes@[i as int]@);
                }
            }
        }
        i = i + 1;
    }
    assert(views(lexemes@).take(i as int) =~= views(lexemes@));
    assemble(lexemes.as_slice(), numbers.as_slice(), skipped)
}

/// The first token ends where `token_length` says: no space stands before
/// that place, and the line ends there or has a space.
pub proof fn law_first_token_ends_at_a_space(line: Seq<char>)
    ensures
        token_length(line) <= line.len(),
        forall|i: int| 0 <= i < token_length(line) ==> line[i] != ' ',
        token_length(line) == line.len() || line[token_length(line) as int] == ' ',
    decreases line.len(),
{
    if line.len() > 0 && line[0] != ' ' {
        let rest = line.drop_first();
        law_first_token_ends_at_a_space(rest);
        assert forall|i: int| 0 <= i < token_length(line) implies line[i] != ' ' by {
            if i > 0 {
                assert(line[i] == rest[i - 1]);
            }
        }
    }
}

/// The lexemes of two lines joined by a space are those of the first line
/// followed by those of the second: what a token stands for depends on no
/// other token.
pub proof fn law_lexemes_of_joined_lines(a: Seq<char>, b: Seq<char>)
    ensures
        lex_spec(a + seq![' '] + b) == lex_spec(a) + lex_spec(b),
    decreases a.len(),
{
    let joined = a + seq![' '] + b;
    let length = token_length(a);
    law_first_token_ends_at_a_space(a);
    lemma_token_length(joined, length);
    assert(joined.take(length as int) =~= a.take(length as int));
    let head = zero_or_one(lex_token(a.take(length as int)));
    if length >= a.len() {
        assert(joined.skip(length as int + 1) =~= b);
    } else {
        let rest = a.skip(length as int + 1);
        assert(joined.skip(length as int + 1) =~= rest + seq![' '] + b);
        law_lexemes_of_joined_lines(rest, b);
        assert(head + (lex_spec(rest) + lex_spec(b)) =~= (head + lex_spec(rest)) + lex_spec(b));
    }
}

/// Numbers past the last lexeme are not looked at.
proof fn lemma_assemble_ignores_rest(
    lexemes: Seq<LexemeView>,
    numbers: Seq<Option<Value>>,
    more: Seq<Option<Value>>,
)
    requires
        lexemes.len() <= numbers.len(),
    ensures
        assemble_spec(lexemes, numbers + more) == assemble_spec(lexemes, numbers),
        skips_spec(lexemes, numbers + more) == skips_spec(lexemes, numbers),
    decreases lexemes.len(),
{
    if lexemes.len() > 0 {
        lemma_assemble_ignores_rest(lexemes.drop_last(), numbers, more);
    }
}

/// The program of two sequences of lexemes, one after the other, is the
/// program of the first followed by that of the second, and so it is with the
/// reasons for what was left out.
pub proof fn law_programs_of_joined_lexemes(
    first: Seq<LexemeView>,
    first_numbers: Seq<Option<Value>>,
    second: Seq<LexemeView>,
    second_numbers: Seq<Option<Value>>,
)
    requires
        first_numbers.len() == first.len(),
    ensures
        assemble_spec(first + second, first_numbers + second_numbers) == assemble_spec(
            first,
            first_numbers,
        ) + assemble_spec(second, second_numbers),
        skips_spec(first + second, first_numbers + second_numbers) == skips_spec(
            first,
            first_numbers,
        ) + skips_spec(second, second_numbers),
    decreases second.len(),
{
    let lexemes = first + second;
    let numbers = first_numbers + second_numbers;
    let program = assemble_spec(first, first_numbers);
    let skips = skips_spec(first, first_numbers);
    if second.len() == 0 {
        assert(lexemes =~= first);
        lemma_assemble_ignores_rest(first, first_numbers, second_numbers);
        assert(program + Seq::<Instruction>::empty() =~= program);
        assert(skips + Seq::<Skip>::empty() =~= skips);
    } else {
        let last = second.len() - 1;
        let rest = second.drop_last();
        assert(lexemes.drop_last() =~= first + rest);
        law_programs_of_joined_lexemes(first, first_numbers, rest, second_numbers);
        assert(number_at(numbers, lexemes.len() - 1) == number_at(second_numbers, last));
        let outcome = resolve_spec(second[last], number_at(second_numbers, last));
        assert((program + assemble_spec(rest, second_numbers)) + given(outcome) =~= program + (
        assemble_spec(rest, second_numbers) + given(outcome)));
        assert((skips + skips_spec(rest, second_numbers)) + refused(outcome) =~= skips + (
        skips_spec(rest, second_numbers) + refused(outcome)));
    }
}

/// Translation goes token by token: the program of two lines joined by a
/// space is the program of the first line followed by that of the second,
/// however numerals are read, and so it is with the reasons for what was left
/// out. So a token that gives no instruction takes no other token's
/// instruction away.
pub proof fn law_tokens_translate_independently(
    a: Seq<char>,
    b: Seq<char>,
    read: spec_fn(Seq<char>) -> Option<Value>,
)
    ensures
        translate_spec(a + seq![' '] + b, read) == translate_spec(a, read) + translate_spec(
            b,
            read,
        ),
        translate_skips(a + seq![' '] + b, read) == translate_skips(a, read) + translate_skips(
            b,
            read,
        ),
{
    law_lexemes_of_joined_lines(a, b);
    let first = lex_spec(a);
    let second = lex_spec(b);
    assert(operand_numbers(first + second, read) =~= operand_numbers(first, read)
        + operand_numbers(second, read));
    law_programs_of_joined_lexemes(
        first,
        operand_numbers(first, read),
        second,
        operand_numbers(second, read),
    );
}

/// Where the reader of numerals returns for each text what the function
/// `reading` gives, the numbers it can have read are those of `reading`, and
/// the program and the reasons are those that `translate_spec` and
/// `translate_skips` give with it.
pub proof fn law_translation_follows_the_reader<F: Fn(&str) -> Option<Value>>(
    read: F,
    reading: spec_fn(Seq<char>) -> Option<Value>,
    line: Seq<char>,
    numbers: Seq<Option<Value>>,
)
    requires
        forall|text: &str, number: Option<Value>| #[trigger]
            call_ensures(read, (text,), number) ==> number == reading(text@),
        read_by(read, lex_spec(line), numbers),
    ensures
        numbers == operand_numbers(lex_spec(line), reading),
        assemble_spec(lex_spec(line), numbers) == translate_spec(line, reading),
        skips_spec(lex_spec(line), numbers) == translate_skips(line, reading),
{
    let lexemes = lex_spec(line);
    assert forall|i: int| 0 <= i < lexemes.len() implies numbers[i] == operand_numbers(
        lexemes,
        reading,
    )[i] by {
        match lexemes[i] {
            LexemeView::Prefixed(_, text) => {
                let operand = choose|operand: &str|
                    operand@ == text && #[trigger] call_ensures(read, (operand,), numbers[i]);
            },
            _ => {},
        }
    }
    assert(numbers =~= operand_numbers(lexemes, reading));
}

/// Every token but an empty one gives an instruction or a reason, never both:
/// a line has as many lexemes as its program has instructions and its
/// translation has reasons, taken together.
pub proof fn law_every_lexeme_is_accounted_for(
    lexemes: Seq<LexemeView>,
    numbers: Seq<Option<Value>>,
)
    ensures
        assemble_spec(lexemes, numbers).len() + skips_spec(lexemes, numbers).len()
            == lexemes.len(),
    decreases lexemes.len(),
{
    if lexemes.len() > 0 {
        law_every_lexeme_is_accounted_for(lexemes.drop_last(), numbers);
    }
}

/// A token that gives no instruction, between two lines, leaves no trace in
/// the program: it is that of the two lines joined.
pub proof fn law_bad_token_is_dropped(
    a: Seq<char>,
    bad: Seq<char>,
    b: Seq<char>,
    read: spec_fn(Seq<char>) -> Option<Value>,
)
    requires
        forall|i: int| 0 <= i < bad.len() ==> bad[i] != ' ',
        token_instruction(bad, read) is None,
    ensures
        translate_spec(a + seq![' '] + bad + seq![' '] + b, read) == translate_spec(a, read)
            + translate_spec(b, read),
{
    lemma_token_length(bad, bad.len());
    assert(bad.take(bad.len() as int) =~= bad);
    law_tokens_translate_independently(a, bad, read);
    law_tokens_translate_independently(a + seq![' '] + bad, b, read);
    let lexemes = lex_spec(bad);
    let numbers = operand_numbers(lexemes, read);
    if lexemes.len() > 0 {
        assert(lexemes.len() == 1);
        assert(lexemes[0] == lex_token(bad)->0);
        assert(lexemes.drop_last() =~= Seq::empty());
        assert(assemble_spec(lexemes.drop_last(), numbers) =~= Seq::empty());
        assert(resolve_spec(lexemes[0], number_at(numbers, 0)) is Err);
        assert(assemble_spec(lexemes, numbers) =~= Seq::empty());
    }
    assert(translate_spec(a, read) + Seq::<Instruction>::empty() =~= translate_spec(a, read));
}

} // verus!
