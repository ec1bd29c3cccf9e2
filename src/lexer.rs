//! The lexer: a source line into tokens.
use vstd::prelude::*;

use crate::error::Error;
use crate::isa::{Opcode, Register};
use crate::literal::{literal_range, literal_text, Literal};
use crate::text::{chars_of, substring};

verus! {

/// The separators between operands.
#[derive(Clone, Copy, Debug, PartialEq, Eq, Structural)]
pub enum Separator {
    /// `,`
    Comma,
    /// `[`
    OpenBrace,
    /// `]`
    CloseBrace,
}

/// A symbolic name for an instruction index.
#[derive(Clone, Debug, PartialEq, Eq, Hash)]
pub enum Label {
    Name(String),
}

impl View for Label {
    type V = Seq<char>;

    open spec fn view(&self) -> Seq<char> {
        match self {
            Label::Name(s) => s@,
        }
    }
}

/// A lexeme of a source line.
#[derive(Clone, Debug, PartialEq, Eq)]
pub enum Token {
    Opcode(Opcode),
    Register(Register),
    /// The text of an immediate, without its `#`.
    Literal(Literal),
    Separator(Separator),
    Label(Label),
}

/// A token as the contracts speak of it: its kind and its text.
pub enum TokenView {
    Opcode(Opcode),
    Register(Register),
    Literal(Seq<char>),
    Separator(Separator),
    Label(Seq<char>),
}

impl View for Token {
    type V = TokenView;

    open spec fn view(&self) -> TokenView {
        match self {
            Token::Opcode(op) => TokenView::Opcode(*op),
            Token::Register(r) => TokenView::Register(*r),
            Token::Literal(l) => TokenView::Literal(l@),
            Token::Separator(s) => TokenView::Separator(*s),
            Token::Label(l) => TokenView::Label(l@),
        }
    }
}

/// The views of a sequence of tokens.
pub open spec fn token_views(ts: Seq<Token>) -> Seq<TokenView> {
    ts.map_values(|t: Token| t@)
}

/// White space, as Unicode's `White_Space` property has it.
pub open spec fn is_ws(c: char) -> bool {
    c == ' ' || c == '\t' || c == '\n' || c == '\u{0B}' || c == '\u{0C}' || c == '\r' || c == '\u{85}'
        || c == '\u{A0}' || c == '\u{1680}' || ('\u{2000}' <= c && c <= '\u{200A}') || c == '\u{2028}'
        || c == '\u{2029}' || c == '\u{202F}' || c == '\u{205F}' || c == '\u{3000}'
}

/// The characters that stand as words of their own: the separators and `;`.
pub open spec fn is_sep_char(c: char) -> bool {
    c == ',' || c == '[' || c == ']' || c == ';'
}

pub open spec fn flush(cur: Seq<char>) -> Seq<Seq<char>> {
    if cur.len() == 0 {
        seq![]
    } else {
        seq![cur]
    }
}

/// The words of `s`, after the word `cur` that is being read: white space
/// separates words, and each separator character is a word of its own.
pub open spec fn split_words(s: Seq<char>, cur: Seq<char>) -> Seq<Seq<char>>
    decreases s.len(),
{
    if s.len() == 0 {
        flush(cur)
    } else if is_ws(s[0]) {
        flush(cur) + split_words(s.drop_first(), seq![])
    } else if is_sep_char(s[0]) {
        flush(cur) + seq![seq![s[0]]] + split_words(s.drop_first(), seq![])
    } else {
        split_words(s.drop_first(), cur.push(s[0]))
    }
}

pub open spec fn separator_of(w: Seq<char>) -> Option<Separator> {
    if w == seq![','] {
        Some(Separator::Comma)
    } else if w == seq!['['] {
        Some(Separator::OpenBrace)
    } else if w == seq![']'] {
        Some(Separator::CloseBrace)
    } else {
        None
    }
}

/// The name a label word gives: the word, without one trailing `:`.
pub open spec fn label_name(w: Seq<char>) -> Seq<char> {
    if w.len() > 1 && w.last() == ':' {
        w.drop_last()
    } else {
        w
    }
}

/// The token of a word, tried in order: opcode, register, separator,
/// literal; any other word is a label.
pub open spec fn classify(w: Seq<char>) -> TokenView {
    match spec_opcode_of(w) {
        Some(op) => TokenView::Opcode(op),
        None => match spec_register_of(w) {
            Some(r) => TokenView::Register(r),
            None => match separator_of(w) {
                Some(s) => TokenView::Separator(s),
                None => match literal_text(w) {
                    Some(t) => TokenView::Literal(t),
                    None => TokenView::Label(label_name(w)),
                },
            },
        },
    }
}

/// A letter's code with lower case folded to upper case; any other
/// character keeps its code.
pub open spec fn fold(c: char) -> u32 {
    if 'a' <= c <= 'z' {
        (c as u32 - 32) as u32
    } else {
        c as u32
    }
}

/// Two words that differ at most in the case of their letters.
pub open spec fn same_letters(a: Seq<char>, b: Seq<char>) -> bool {
    a.len() == b.len() && forall|i: int| 0 <= i < a.len() ==> fold(#[trigger] a[i]) == fold(b[i])
}

/// A word that starts with `#` but is no valid literal.
pub open spec fn malformed_literal(w: Seq<char>) -> bool {
    w.len() > 0 && w[0] == '#' && literal_text(w) is None
}

/// `p` put in front of the tokens of `r`, if `r` has tokens.
pub open spec fn prepend(p: Seq<TokenView>, r: Result<Seq<TokenView>, Error>) -> Result<
    Seq<TokenView>,
    Error,
> {
    match r {
        Ok(t) => Ok(p + t),
        Err(e) => Err(e),
    }
}

/// The tokens of a sequence of words, up to the first `;`; a malformed
/// literal before it is a lexical error.
pub open spec fn tokens_of_words(ws: Seq<Seq<char>>) -> Result<Seq<TokenView>, Error>
    decreases ws.len(),
{
    if ws.len() == 0 {
        Ok(seq![])
    } else if ws[0] == seq![';'] {
        Ok(seq![])
    } else if malformed_literal(ws[0]) {
        Err(Error::LexError)
    } else {
        prepend(seq![classify(ws[0])], tokens_of_words(ws.drop_first()))
    }
}

/// The tokens of a source line.
pub open spec fn spec_lexer(line: Seq<char>) -> Result<Seq<TokenView>, Error> {
    tokens_of_words(split_words(line, seq![]))
}

/// The opcode a word names: its mnemonic, in any mix of upper and lower case.
pub open spec fn spec_opcode_of(w: Seq<char>) -> Option<Opcode> {
    if same_letters(w, seq!['A', 'D', 'D']) {
        Some(Opcode::ADD)
    } else if same_letters(w, seq!['A', 'N', 'D']) {
        Some(Opcode::AND)
    } else if same_letters(w, seq!['E', 'O', 'R']) {
        Some(Opcode::EOR)
    } else if same_letters(w, seq!['M', 'U', 'L']) {
        Some(Opcode::MUL)
    } else if same_letters(w, seq!['O', 'R', 'R']) {
        Some(Opcode::ORR)
    } else if same_letters(w, seq!['S', 'U', 'B']) {
        Some(Opcode::SUB)
    } else if same_letters(w, seq!['M', 'O', 'V']) {
        Some(Opcode::MOV)
    } else if same_letters(w, seq!['M', 'V', 'N']) {
        Some(Opcode::MVN)
    } else if same_letters(w, seq!['S', 'T', 'R']) {
        Some(Opcode::STR)
    } else if same_letters(w, seq!['L', 'D', 'R']) {
        Some(Opcode::LDR)
    } else if same_letters(w, seq!['C', 'M', 'P']) {
        Some(Opcode::CMP)
    } else if same_letters(w, seq!['B']) {
        Some(Opcode::B)
    } else if same_letters(w, seq!['B', 'E', 'Q']) {
        Some(Opcode::BEQ)
    } else if same_letters(w, seq!['B', 'N', 'E']) {
        Some(Opcode::BNE)
    } else if same_letters(w, seq!['B', 'H', 'S']) {
        Some(Opcode::BHS)
    } else if same_letters(w, seq!['B', 'L', 'O']) {
        Some(Opcode::BLO)
    } else if same_letters(w, seq!['B', 'M', 'I']) {
        Some(Opcode::BMI)
    } else if same_letters(w, seq!['B', 'P', 'L']) {
        Some(Opcode::BPL)
    } else if same_letters(w, seq!['B', 'V', 'S']) {
        Some(Opcode::BVS)
    } else if same_letters(w, seq!['B', 'V', 'C']) {
        Some(Opcode::BVC)
    } else if same_letters(w, seq!['B', 'H', 'I']) {
        Some(Opcode::BHI)
    } else if same_letters(w, seq!['B', 'L', 'S']) {
        Some(Opcode::BLS)
    } else if same_letters(w, seq!['B', 'G', 'E']) {
        Some(Opcode::BGE)
    } else if same_letters(w, seq!['B', 'L', 'T']) {
        Some(Opcode::BLT)
    } else if same_letters(w, seq!['B', 'G', 'T']) {
        Some(Opcode::BGT)
    } else if same_letters(w, seq!['B', 'L', 'E']) {
        Some(Opcode::BLE)
    } else if same_letters(w, seq!['B', 'A', 'L']) {
        Some(Opcode::B)
    } else {
        None
    }
}

fn opcode_of(w: &Vec<char>) -> (r: Option<Opcode>)
    ensures
        r == spec_opcode_of(w@),
{
    if same_letters_exec(w, &chars3('A', 'D', 'D')) {
        return Some(Opcode::ADD);
    }
    if same_letters_exec(w, &chars3('A', 'N', 'D')) {
        return Some(Opcode::AND);
    }
    if same_letters_exec(w, &chars3('E', 'O', 'R')) {
        return Some(Opcode::EOR);
    }
    if same_letters_exec(w, &chars3('M', 'U', 'L')) {
        return Some(Opcode::MUL);
    }
    if same_letters_exec(w, &chars3('O', 'R', 'R')) {
        return Some(Opcode::ORR);
    }
    if same_letters_exec(w, &chars3('S', 'U', 'B')) {
        return Some(Opcode::SUB);
    }
    if same_letters_exec(w, &chars3('M', 'O', 'V')) {
        return Some(Opcode::MOV);
    }
    if same_letters_exec(w, &chars3('M', 'V', 'N')) {
        return Some(Opcode::MVN);
    }
    if same_letters_exec(w, &chars3('S', 'T', 'R')) {
        return Some(Opcode::STR);
    }
    if same_letters_exec(w, &chars3('L', 'D', 'R')) {
        return Some(Opcode::LDR);
    }
    if same_letters_exec(w, &chars3('C', 'M', 'P')) {
        return Some(Opcode::CMP);
    }
    if same_letters_exec(w, &chars1('B')) {
        return Some(Opcode::B);
    }
    if same_letters_exec(w, &chars3('B', 'E', 'Q')) {
        return Some(Opcode::BEQ);
    }
    if same_letters_exec(w, &chars3('B', 'N', 'E')) {
        return Some(Opcode::BNE);
    }
    if same_letters_exec(w, &chars3('B', 'H', 'S')) {
        return Some(Opcode::BHS);
    }
    if same_letters_exec(w, &chars3('B', 'L', 'O')) {
        return Some(Opcode::BLO);
    }
    if same_letters_exec(w, &chars3('B', 'M', 'I')) {
        return Some(Opcode::BMI);
    }
    if same_letters_exec(w, &chars3('B', 'P', 'L')) {
        return Some(Opcode::BPL);
    }
    if same_letters_exec(w, &chars3('B', 'V', 'S')) {
        return Some(Opcode::BVS);
    }
    if same_letters_exec(w, &chars3('B', 'V', 'C')) {
        return Some(Opcode::BVC);
    }
    if same_letters_exec(w, &chars3('B', 'H', 'I')) {
        return Some(Opcode::BHI);
    }
    if same_letters_exec(w, &chars3('B', 'L', 'S')) {
        return Some(Opcode::BLS);
    }
    if same_letters_exec(w, &chars3('B', 'G', 'E')) {
        return Some(Opcode::BGE);
    }
    if same_letters_exec(w, &chars3('B', 'L', 'T')) {
        return Some(Opcode::BLT);
    }
    if same_letters_exec(w, &chars3('B', 'G', 'T')) {
        return Some(Opcode::BGT);
    }
    if same_letters_exec(w, &chars3('B', 'L', 'E')) {
        return Some(Opcode::BLE);
    }
    if same_letters_exec(w, &chars3('B', 'A', 'L')) {
        return Some(Opcode::B);
    }
    None
}

/// The register a word names: its mnemonic, in any mix of upper and lower case.
pub open spec fn spec_register_of(w: Seq<char>) -> Option<Register> {
    if same_letters(w, seq!['R', '0']) {
        Some(Register::R0)
    } else if same_letters(w, seq!['R', '1']) {
        Some(Register::R1)
    } else if same_letters(w, seq!['R', '2']) {
        Some(Register::R2)
    } else if same_letters(w, seq!['R', '3']) {
        Some(Register::R3)
    } else if same_letters(w, seq!['R', '4']) {
        Some(Register::R4)
    } else if same_letters(w, seq!['R', '5']) {
        Some(Register::R5)
    } else if same_letters(w, seq!['R', '6']) {
        Some(Register::R6)
    } else if same_letters(w, seq!['R', '7']) {
        Some(Register::R7)
    } else if same_letters(w, seq!['R', '8']) {
        Some(Register::R8)
    } else if same_letters(w, seq!['R', '9']) {
        Some(Register::R9)
    } else if same_letters(w, seq!['R', '1', '0']) {
        Some(Register::R10)
    } else if same_letters(w, seq!['R', '1', '1']) {
        Some(Register::R11)
    } else if same_letters(w, seq!['R', '1', '2']) {
        Some(Register::R12)
    } else if same_letters(w, seq!['S', 'P']) {
        Some(Register::SP)
    } else if same_letters(w, seq!['L', 'R']) {
        Some(Register::LR)
    } else if same_letters(w, seq!['P', 'C']) {
        Some(Register::PC)
    } else {
        None
    }
}

fn register_of(w: &Vec<char>) -> (r: Option<Register>)
    ensures
        r == spec_register_of(w@),
{
    if same_letters_exec(w, &chars2('R', '0')) {
        return Some(Register::R0);
    }
    if same_letters_exec(w, &chars2('R', '1')) {
        return Some(Register::R1);
    }
    if same_letters_exec(w, &chars2('R', '2')) {
        return Some(Register::R2);
    }
    if same_letters_exec(w, &chars2('R', '3')) {
        return Some(Register::R3);
    }
    if same_letters_exec(w, &chars2('R', '4')) {
        return Some(Register::R4);
    }
    if same_letters_exec(w, &chars2('R', '5')) {
        return Some(Register::R5);
    }
    if same_letters_exec(w, &chars2('R', '6')) {
        return Some(Register::R6);
    }
    if same_letters_exec(w, &chars2('R', '7')) {
        return Some(Register::R7);
    }
    if same_letters_exec(w, &chars2('R', '8')) {
        return Some(Register::R8);
    }
    if same_letters_exec(w, &chars2('R', '9')) {
        return Some(Register::R9);
    }
    if same_letters_exec(w, &chars3('R', '1', '0')) {
        return Some(Register::R10);
    }
    if same_letters_exec(w, &chars3('R', '1', '1')) {
        return Some(Register::R11);
    }
    if same_letters_exec(w, &chars3('R', '1', '2')) {
        return Some(Register::R12);
    }
    if same_letters_exec(w, &chars2('S', 'P')) {
        return Some(Register::SP);
    }
    if same_letters_exec(w, &chars2('L', 'R')) {
        return Some(Register::LR);
    }
    if same_letters_exec(w, &chars2('P', 'C')) {
        return Some(Register::PC);
    }
    None
}

/// Two words with the same letters up to case stand in the same relation to
/// any third word.
proof fn lemma_same_letters_swap(a: Seq<char>, b: Seq<char>, m: Seq<char>)
    requires
        same_letters(a, b),
    ensures
        same_letters(a, m) == same_letters(b, m),
{
    if same_letters(a, m) {
        assert forall|i: int| 0 <= i < b.len() implies fold(#[trigger] b[i]) == fold(m[i]) by {
            assert(fold(a[i]) == fold(b[i]));
        }
    }
    if same_letters(b, m) {
        assert forall|i: int| 0 <= i < a.len() implies fold(#[trigger] a[i]) == fold(m[i]) by {
            assert(fold(a[i]) == fold(b[i]));
        }
    }
}

/// Mnemonics are case-insensitive: two words with the same letters up to case
/// name the same opcode and the same register.
pub proof fn lemma_mnemonic_case(a: Seq<char>, b: Seq<char>)
    requires
        same_letters(a, b),
    ensures
        spec_opcode_of(a) == spec_opcode_of(b),
        spec_register_of(a) == spec_register_of(b),
{
    assert forall|m: Seq<char>| #[trigger] same_letters(a, m) == same_letters(b, m) by {
        lemma_same_letters_swap(a, b, m);
    }
}

/// A line whose words differ from those of another line at most in the case
/// of the letters of opcode and register mnemonics gives the same tokens.
pub proof fn lemma_lexer_case_insensitive(line1: Seq<char>, line2: Seq<char>)
    requires
        split_words(line1, seq![]).len() == split_words(line2, seq![]).len(),
        forall|i: int|
            0 <= i < split_words(line1, seq![]).len() ==> {
                let w1 = #[trigger] split_words(line1, seq![])[i];
                let w2 = split_words(line2, seq![])[i];
                w1 == w2 || (same_letters(w1, w2) && (spec_opcode_of(w1) is Some || spec_register_of(
                    w1,
                ) is Some))
            },
    ensures
        spec_lexer(line1) == spec_lexer(line2),
{
    lemma_words_case_insensitive(split_words(line1, seq![]), split_words(line2, seq![]));
}

/// A mnemonic written in another letter case is read as the same token, is
/// no comment marker and no malformed literal.
proof fn lemma_word_case(w1: Seq<char>, w2: Seq<char>)
    requires
        same_letters(w1, w2),
        spec_opcode_of(w1) is Some || spec_register_of(w1) is Some,
    ensures
        classify(w1) == classify(w2),
        w1 != seq![';'],
        w2 != seq![';'],
        !malformed_literal(w1),
        !malformed_literal(w2),
{
    lemma_mnemonic_case(w1, w2);
    if w2 =~= seq![';'] {
        assert(fold(w1[0]) == fold(w2[0]));
        assert(w1 =~= seq![';']);
    }
    if w2.len() > 0 && w2[0] == '#' {
        assert(fold(w1[0]) == fold(w2[0]));
        assert(w1[0] == '#');
    }
}

#[verifier::spinoff_prover]
proof fn lemma_words_case_insensitive(ws1: Seq<Seq<char>>, ws2: Seq<Seq<char>>)
    requires
        ws1.len() == ws2.len(),
        forall|i: int|
            0 <= i < ws1.len() ==> #[trigger] ws1[i] == ws2[i] || (same_letters(ws1[i], ws2[i]) && (
            spec_opcode_of(ws1[i]) is Some || spec_register_of(ws1[i]) is Some)),
    ensures
        tokens_of_words(ws1) == tokens_of_words(ws2),
    decreases ws1.len(),
{
    if ws1.len() > 0 {
        let r1 = ws1.drop_first();
        let r2 = ws2.drop_first();
        if ws1[0] != ws2[0] {
            lemma_word_case(ws1[0], ws2[0]);
        }
        assert forall|i: int| 0 <= i < r1.len() implies #[trigger] r1[i] == r2[i] || (same_letters(
            r1[i],
            r2[i],
        ) && (spec_opcode_of(r1[i]) is Some || spec_register_of(r1[i]) is Some)) by {
            assert(ws1[i + 1] == r1[i]);
        }
        lemma_words_case_insensitive(r1, r2);
    }
}

fn fold_char(c: char) -> (r: u32)
    ensures
        r == fold(c),
{
    if 'a' <= c && c <= 'z' {
        (c as u32) - 32
    } else {
        c as u32
    }
}

fn same_letters_exec(a: &Vec<char>, b: &Vec<char>) -> (r: bool)
    ensures
        r == same_letters(a@, b@),
{
    if a.len() != b.len() {
        return false;
    }
    let mut i: usize = 0;
    while i < a.len()
        invariant
            a.len() == b.len(),
            i <= a.len(),
            forall|k: int| 0 <= k < i ==> fold(#[trigger] a@[k]) == fold(b@[k]),
        decreases a.len() - i,
    {
        if fold_char(a[i]) != fold_char(b[i]) {
            return false;
        }
        i += 1;
    }
    true
}

fn chars1(a: char) -> (r: Vec<char>)
    ensures
        r@ == seq![a],
{
    let mut r: Vec<char> = Vec::new();
    r.push(a);
    assert(r@ =~= seq![a]);
    r
}

fn chars2(a: char, b: char) -> (r: Vec<char>)
    ensures
        r@ == seq![a, b],
{
    let mut r = chars1(a);
    r.push(b);
    assert(r@ =~= seq![a, b]);
    r
}

fn chars3(a: char, b: char, c: char) -> (r: Vec<char>)
    ensures
        r@ == seq![a, b, c],
{
    let mut r = chars2(a, b);
    r.push(c);
    assert(r@ =~= seq![a, b, c]);
    r
}

fn is_ws_char(c: char) -> (r: bool)
    ensures
        r == is_ws(c),
{
    c == ' ' || c == '\t' || c == '\n' || c == '\u{0B}' || c == '\u{0C}' || c == '\r' || c == '\u{85}'
        || c == '\u{A0}' || c == '\u{1680}' || ('\u{2000}' <= c && c <= '\u{200A}') || c == '\u{2028}'
        || c == '\u{2029}' || c == '\u{202F}' || c == '\u{205F}' || c == '\u{3000}'
}

pub open spec fn words_at(chars: Seq<char>, r: Seq<(usize, usize)>) -> Seq<Seq<char>> {
    r.map_values(|p: (usize, usize)| chars.subrange(p.0 as int, p.1 as int))
}

/// Where the words of `chars` lie, as ranges of indices.
fn word_ranges(chars: &Vec<char>) -> (r: Vec<(usize, usize)>)
    ensures
        forall|k: int| 0 <= k < r.len() ==> (#[trigger] r@[k]).0 <= r@[k].1 <= chars.len(),
        words_at(chars@, r@) == split_words(chars@, seq![]),
{
    let mut r: Vec<(usize, usize)> = Vec::new();
    let mut start: usize = 0;
    let mut i: usize = 0;
    assert(chars@.skip(0) =~= chars@);
    assert(chars@.subrange(0, 0) =~= Seq::<char>::empty());
    while i < chars.len()
        invariant
            start <= i <= chars.len(),
            forall|k: int| 0 <= k < r.len() ==> (#[trigger] r@[k]).0 <= r@[k].1 <= chars.len(),
            words_at(chars@, r@) + split_words(chars@.skip(i as int), chars@.subrange(start as int, i as int))
                == split_words(chars@, seq![]),
        decreases chars.len() - i,
    {
        let c = chars[i];
        let ghost s = chars@.skip(i as int);
        let ghost cur = chars@.subrange(start as int, i as int);
        let ghost r0 = r@;
        assert(s[0] == c);
        assert(s.drop_first() =~= chars@.skip(i + 1));
        if is_ws_char(c) || c == ',' || c == '[' || c == ']' || c == ';' {
            if start < i {
                r.push((start, i));
                assert(words_at(chars@, r@) =~= words_at(chars@, r0) + flush(cur));
            } else {
                assert(words_at(chars@, r@) =~= words_at(chars@, r0) + flush(cur));
            }
            if !is_ws_char(c) {
                let ghost r1 = r@;
                r.push((i, i + 1));
                assert(chars@.subrange(i as int, i + 1) =~= seq![c]);
                assert(words_at(chars@, r@) =~= words_at(chars@, r1) + seq![seq![c]]);
            }
            start = i + 1;
            assert(chars@.subrange(start as int, i + 1) =~= Seq::<char>::empty());
        } else {
            assert(chars@.subrange(start as int, i + 1) =~= cur.push(c));
        }
        i += 1;
    }
    let ghost cur = chars@.subrange(start as int, i as int);
    let ghost r0 = r@;
    if start < i {
        r.push((start, i));
    }
    assert(words_at(chars@, r@) =~= words_at(chars@, r0) + flush(cur));
    r
}

/// The characters of `chars` from `a` up to `b`.
fn sub_chars(chars: &Vec<char>, a: usize, b: usize) -> (r: Vec<char>)
    requires
        a <= b <= chars.len(),
    ensures
        r@ == chars@.subrange(a as int, b as int),
{
    let mut r: Vec<char> = Vec::new();
    let mut i: usize = a;
    while i < b
        invariant
            a <= i <= b <= chars.len(),
            r@ == chars@.subrange(a as int, i as int),
        decreases b - i,
    {
        r.push(chars[i]);
        i += 1;
        assert(r@ =~= chars@.subrange(a as int, i as int));
    }
    r
}

/// The token of the word `line[a..b]`, whose characters are `w`.
fn classify_word(w: &Vec<char>, line: &str, a: usize, b: usize) -> (t: Token)
    requires
        a <= b <= line@.len(),
        w@ == line@.subrange(a as int, b as int),
    ensures
        t@ == classify(w@),
{
    if let Some(op) = opcode_of(w) {
        return Token::Opcode(op);
    }
    if let Some(r) = register_of(w) {
        return Token::Register(r);
    }
    if w.len() == 1 && w[0] == ',' {
        assert(w@ =~= seq![',']);
        return Token::Separator(Separator::Comma);
    }
    if w.len() == 1 && w[0] == '[' {
        assert(w@ =~= seq!['[']);
        return Token::Separator(Separator::OpenBrace);
    }
    if w.len() == 1 && w[0] == ']' {
        assert(w@ =~= seq![']']);
        return Token::Separator(Separator::CloseBrace);
    }
    assert(separator_of(w@) is None);
    match literal_range(w) {
        Some((x, y)) => {
            assert(line@.subrange(a + x, a + y) =~= w@.subrange(x as int, y as int));
            Token::Literal(Literal::Immediate(substring(line, a + x, a + y)))
        },
        None => {
            if w.len() > 1 && w[w.len() - 1] == ':' {
                assert(line@.subrange(a as int, b - 1) =~= w@.drop_last());
                Token::Label(Label::Name(substring(line, a, b - 1)))
            } else {
                Token::Label(Label::Name(substring(line, a, b)))
            }
        },
    }
}

/// Convert a source line into tokens. White space separates words; each of
/// `,`, `[`, `]` and `;` is a word of its own; a `;` ends the line. A word
/// before it that starts with `#` but is no valid literal is a lexical error.
pub fn lexer(buf: String) -> (r: Result<Vec<Token>, Error>)
    ensures
        match spec_lexer(buf@) {
            Ok(ts) => r is Ok && token_views(r->Ok_0@) == ts,
            Err(e) => r == Err::<Vec<Token>, Error>(e),
        },
{
    let line = buf.as_str();
    let chars = chars_of(line);
    let ranges = word_ranges(&chars);
    let ghost ws = split_words(chars@, seq![]);
    let mut tokens: Vec<Token> = Vec::new();
    let mut k: usize = 0;
    let mut done = false;
    assert(ws.skip(0) =~= ws);
    assert(token_views(tokens@) =~= Seq::<TokenView>::empty());
    proof {
        match tokens_of_words(ws) {
            Ok(t) => assert(Seq::<TokenView>::empty() + t =~= t),
            Err(_) => {},
        }
    }
    while k < ranges.len() && !done
        invariant
            k <= ranges.len(),
            chars@ == line@,
            line@ == buf@,
            ws == split_words(chars@, seq![]),
            words_at(chars@, ranges@) == ws,
            forall|j: int| 0 <= j < ranges.len() ==> (#[trigger] ranges@[j]).0 <= ranges@[j].1 <= chars.len(),
            done ==> tokens_of_words(ws.skip(k as int)) == Ok::<Seq<TokenView>, Error>(
                Seq::<TokenView>::empty(),
            ),
            prepend(token_views(tokens@), tokens_of_words(ws.skip(k as int))) == tokens_of_words(ws),
        decreases ranges.len() - k + (if done { 0usize } else { 1usize }),
    {
        let (a, b) = ranges[k];
        let w = sub_chars(&chars, a, b);
        let ghost rest = ws.skip(k as int);
        assert(rest[0] == w@);
        assert(rest.drop_first() =~= ws.skip(k + 1));
        if w.len() == 1 && w[0] == ';' {
            assert(w@ =~= seq![';']);
            done = true;
        } else if w.len() > 0 && w[0] == '#' && literal_range(&w).is_none() {
            assert(malformed_literal(w@));
            assert(!(w@ =~= seq![';']));
            assert(tokens_of_words(rest) == Err::<Seq<TokenView>, Error>(Error::LexError));
            assert(line@ == buf@);
            return Err(Error::LexError);
        } else {
            let ghost t0 = token_views(tokens@);
            let t = classify_word(&w, line, a, b);
            tokens.push(t);
            assert(token_views(tokens@) =~= t0.push(t@));
            proof {
                match tokens_of_words(ws.skip(k + 1)) {
                    Ok(tt) => assert(t0.push(t@) + tt =~= t0 + (seq![t@] + tt)),
                    Err(_) => {},
                }
            }
            k += 1;
        }
    }
    if !done {
        assert(ws.skip(k as int) =~= Seq::<Seq<char>>::empty());
    }
    assert(token_views(tokens@) =~= token_views(tokens@) + Seq::<TokenView>::empty());
    Ok(tokens)
}

} // verus!
