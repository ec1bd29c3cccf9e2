//! The assembler: a label registry and a two-pass driver from source lines to
//! instruction words.
use vstd::hash_map::{HashMapWithView, StringHashMap};
use vstd::prelude::*;

use crate::codec::{
    decode_field, decodes_to, encode_field, instr_word, lemma_decode_encode, opcode_payload,
    EncoderDecoder, Payload,
};
use crate::error::Error;
use crate::isa::{Form, Opcode};
use crate::lexer::{lexer, spec_lexer, token_views, Label, Token, TokenView};
use crate::literal::{literal_value, literal_value_of, Literal};
use crate::parser::{run, spec_parse};
use crate::text::chars_of;

verus! {

broadcast use vstd::std_specs::hash::group_hash_axioms;

/// The registry as the contracts speak of it.
pub struct RegistryView {
    /// The index of the instruction being assembled.
    pub instr_ptr: u32,
    /// Each declared label, with the index of the instruction it names.
    pub declaration: Map<Seq<char>, u32>,
    /// Each branch instruction, by index, with the label it branches to.
    pub reference: Map<u32, Seq<char>>,
}

/// The labels of a program: where each is declared, and which branch refers
/// to which.
pub struct LabelRegistry {
    instr_ptr: u32,
    declaration: StringHashMap<u32>,
    reference: HashMapWithView<u32, String>,
}

impl View for LabelRegistry {
    type V = RegistryView;

    closed spec fn view(&self) -> RegistryView {
        RegistryView {
            instr_ptr: self.instr_ptr,
            declaration: self.declaration@,
            reference: self.reference@.map_values(|s: String| s@),
        }
    }
}

/// The index a branch at `i` resolves to: the index declared for the label
/// it refers to; `None` when `i` has no reference or its label is not declared.
pub open spec fn spec_target(r: RegistryView, i: u32) -> Option<u32> {
    if r.reference.contains_key(i) && r.declaration.contains_key(r.reference[i]) {
        Some(r.declaration[r.reference[i]])
    } else {
        None
    }
}

impl LabelRegistry {
    /// An empty registry at instruction zero.
    pub fn new() -> (r: LabelRegistry)
        ensures
            r@.instr_ptr == 0,
            r@.declaration == Map::<Seq<char>, u32>::empty(),
            r@.reference == Map::<u32, Seq<char>>::empty(),
    {
        let r = LabelRegistry {
            instr_ptr: 0,
            declaration: StringHashMap::new(),
            reference: HashMapWithView::new(),
        };
        assert(r@.reference =~= Map::<u32, Seq<char>>::empty());
        r
    }

    /// The index of the instruction being assembled.
    pub fn instr_ptr(&self) -> (r: u32)
        ensures
            r == self@.instr_ptr,
    {
        self.instr_ptr
    }

    /// Record that the current instruction branches to `label`.
    pub fn register_variable_reference(&mut self, label: Label)
        ensures
            final(self)@ == (RegistryView {
                reference: old(self)@.reference.insert(old(self)@.instr_ptr, label@),
                ..old(self)@
            }),
    {
        let Label::Name(name) = label;
        self.reference.insert(self.instr_ptr, name);
        assert(self@.reference =~= old(self)@.reference.insert(old(self)@.instr_ptr, label@));
    }

    /// Declare `label` as naming the current instruction. A label can be
    /// declared once only.
    pub fn register_variable_declaration(&mut self, label: Label) -> (r: Result<(), Error>)
        ensures
            old(self)@.declaration.contains_key(label@) ==> r == Err::<(), Error>(Error::LabelError)
                && final(self)@ == old(self)@,
            !old(self)@.declaration.contains_key(label@) ==> r == Ok::<(), Error>(()) && final(self)@
                == (RegistryView {
                declaration: old(self)@.declaration.insert(label@, old(self)@.instr_ptr),
                ..old(self)@
            }),
    {
        let Label::Name(name) = label;
        if self.declaration.contains_key(name.as_str()) {
            return Err(Error::LabelError);
        }
        self.declaration.insert(name, self.instr_ptr);
        Ok(())
    }

    /// The index the branch at the current instruction resolves to.
    pub fn get_reference(&self) -> (r: Result<u32, Error>)
        ensures
            match spec_target(self@, self@.instr_ptr) {
                Some(t) => r == Ok::<u32, Error>(t),
                None => r == Err::<u32, Error>(Error::LabelError),
            },
    {
        match self.reference.get(&self.instr_ptr) {
            Some(name) => match self.declaration.get(name.as_str()) {
                Some(idx) => Ok(*idx),
                None => Err(Error::LabelError),
            },
            None => Err(Error::LabelError),
        }
    }

    /// Move on to the next instruction.
    pub fn incr_instr_ptr(&mut self)
        requires
            old(self)@.instr_ptr < u32::MAX,
        ensures
            final(self)@ == (RegistryView { instr_ptr: (old(self)@.instr_ptr + 1) as u32, ..old(self)@ }),
    {
        self.instr_ptr = self.instr_ptr + 1;
    }

    /// Go back to the first instruction.
    pub fn reset_instr_ptr(&mut self)
        ensures
            final(self)@ == (RegistryView { instr_ptr: 0, ..old(self)@ }),
    {
        self.instr_ptr = 0;
    }

    fn set_instr_ptr(&mut self, i: u32)
        ensures
            final(self)@ == (RegistryView { instr_ptr: i, ..old(self)@ }),
    {
        self.instr_ptr = i;
    }
}

/// The value of a literal's text; zero where the text has none.
pub open spec fn value_or_zero(text: Seq<char>) -> u32 {
    match literal_value(text) {
        Some(v) => v,
        None => 0,
    }
}

/// The word built from tokens in source order, starting from `word`: the
/// opcode writes its field; registers fill DR, RX and then RY; an immediate
/// writes the 16-bit field in form four and the 20-bit field in form five;
/// other tokens write nothing.
pub open spec fn encode_walk(ts: Seq<TokenView>, form: Form, word: u32, cursor: int) -> u32
    decreases ts.len(),
{
    if ts.len() == 0 {
        word
    } else {
        let rest = ts.drop_first();
        match ts[0] {
            TokenView::Opcode(op) => encode_walk(
                rest,
                form,
                match op.spec_bytecode(form) {
                    Some(b) => encode_field(word, opcode_payload(op), b),
                    None => word,
                },
                cursor,
            ),
            TokenView::Register(r) => if cursor == 0 {
                encode_walk(rest, form, encode_field(word, Payload::DR, r.spec_addr() as u32), 1)
            } else if cursor == 1 {
                encode_walk(rest, form, encode_field(word, Payload::RX, r.spec_addr() as u32), 2)
            } else {
                encode_walk(rest, form, encode_field(word, Payload::RY, r.spec_addr() as u32), 2)
            },
            TokenView::Literal(text) => encode_walk(
                rest,
                form,
                if form == Form::Four {
                    encode_field(word, Payload::Immed16, value_or_zero(text))
                } else if form == Form::Five {
                    encode_field(word, Payload::Immed20, value_or_zero(text))
                } else {
                    word
                },
                cursor,
            ),
            _ => encode_walk(rest, form, word, cursor),
        }
    }
}

/// The word of tokens in source order.
pub open spec fn spec_encode(ts: Seq<TokenView>, form: Form) -> u32 {
    encode_walk(ts, form, 0, 0)
}

/// Encode `tokens` in source order, or from the last to the first.
fn encode_tokens(tokens: &Vec<Token>, form: Form, from_end: bool) -> (r: u32)
    ensures
        r == spec_encode(
            if from_end {
                token_views(tokens@).reverse()
            } else {
                token_views(tokens@)
            },
            form,
        ),
{
    let ghost ts = if from_end {
        token_views(tokens@).reverse()
    } else {
        token_views(tokens@)
    };
    let n = tokens.len();
    let mut enc = EncoderDecoder::new(None);
    let mut cursor: usize = 0;
    let mut k: usize = 0;
    assert(ts.len() == n);
    assert(ts.skip(0) =~= ts);
    while k < n
        invariant
            k <= n,
            n == tokens.len(),
            ts.len() == n,
            ts == (if from_end {
                token_views(tokens@).reverse()
            } else {
                token_views(tokens@)
            }),
            cursor <= 2,
            encode_walk(ts.skip(k as int), form, enc.instr, cursor as int) == spec_encode(ts, form),
        decreases n - k,
    {
        let idx = if from_end {
            n - 1 - k
        } else {
            k
        };
        let ghost rest = ts.skip(k as int);
        assert(rest[0] == tokens@[idx as int]@);
        assert(rest.drop_first() =~= ts.skip(k + 1));
        match &tokens[idx] {
            Token::Opcode(op) => enc.set_opcode(form, *op),
            Token::Register(r) => {
                if cursor == 0 {
                    enc.set_dr(*r);
                    cursor = 1;
                } else if cursor == 1 {
                    enc.set_rx(*r);
                    cursor = 2;
                } else {
                    enc.set_ry(*r);
                }
            },
            Token::Literal(Literal::Immediate(s)) => {
                let v = match literal_value_of(&chars_of(s.as_str())) {
                    Some(v) => v,
                    None => 0,
                };
                if form == Form::Four {
                    enc.set_immed16(v);
                } else if form == Form::Five {
                    enc.set_immed20(v);
                }
            },
            _ => {},
        }
        k += 1;
    }
    enc.get_instr()
}

/// The bytecode of a line's tokens in the given form. The tokens come last
/// first, the way the parser stacks them; separators and labels write
/// nothing, and a branch target is left zero.
pub fn get_bytecode(tokens: &Vec<Token>, form: Form) -> (r: u32)
    ensures
        r == spec_encode(token_views(tokens@).reverse(), form),
{
    encode_tokens(tokens, form, true)
}

/// A parsed line kept for the second pass: its form and the tokens that take
/// part in the encoding, in source order.
pub struct Expression {
    pub tokens: Vec<Token>,
    pub form: Form,
}

impl View for Expression {
    type V = (Form, Seq<TokenView>);

    open spec fn view(&self) -> (Form, Seq<TokenView>) {
        (self.form, token_views(self.tokens@))
    }
}

/// The assembler as the contracts speak of it.
pub struct AssemblerView {
    pub registry: RegistryView,
    pub program: Seq<(Form, Seq<TokenView>)>,
}

/// Whether a token takes part in the encoding.
pub open spec fn encodes(t: TokenView) -> bool {
    t is Opcode || t is Register || t is Literal
}

/// The first pass over one parsed line: a leading label is declared at the
/// current index; the target of a branch is recorded as the reference of the
/// current index; a line with a form is kept and takes the next index. A
/// label declared twice is an error, and then nothing changes.
pub open spec fn spec_record(s: AssemblerView, ts: Seq<TokenView>, form: Option<Form>) -> Result<
    AssemblerView,
    Error,
> {
    let r = s.registry;
    let declares = ts.len() > 0 && ts[0] is Label;
    if declares && r.declaration.contains_key(ts[0]->Label_0) {
        Err(Error::LabelError)
    } else {
        let declaration = if declares {
            r.declaration.insert(ts[0]->Label_0, r.instr_ptr)
        } else {
            r.declaration
        };
        let reference = if form == Some(Form::Six) {
            r.reference.insert(r.instr_ptr, ts.last()->Label_0)
        } else {
            r.reference
        };
        match form {
            Some(f) => Ok(
                AssemblerView {
                    registry: RegistryView {
                        instr_ptr: (r.instr_ptr + 1) as u32,
                        declaration,
                        reference,
                    },
                    program: s.program.push((f, ts.filter(|t: TokenView| encodes(t)))),
                },
            ),
            None => Ok(
                AssemblerView {
                    registry: RegistryView { instr_ptr: r.instr_ptr, declaration, reference },
                    program: s.program,
                },
            ),
        }
    }
}

/// The first pass over one source line: lex it, parse it, and record it.
pub open spec fn spec_read_line(s: AssemblerView, line: Seq<char>) -> Result<AssemblerView, Error> {
    match spec_lexer(line) {
        Err(e) => Err(e),
        Ok(ts) => match spec_parse(ts) {
            Ok(form) => spec_record(s, ts, form),
            Err(e) => Err(e),
        },
    }
}

/// The word of the `i`-th kept line: its tokens encoded, and for a branch the
/// resolved target in the 20-bit field. `None` when a branch does not
/// resolve, or its target index does not fit the 20-bit field.
pub open spec fn spec_word(r: RegistryView, i: u32, e: (Form, Seq<TokenView>)) -> Option<u32> {
    let base = spec_encode(e.1, e.0);
    if e.0 == Form::Six {
        match spec_target(r, i) {
            Some(t) => if t <= 0xFFFFF {
                Some(encode_field(base, Payload::Immed20, t))
            } else {
                None
            },
            None => None,
        }
    } else {
        Some(base)
    }
}

/// A bare-label line emits no word and declares its label at the index that
/// the next line with an instruction takes.
pub proof fn lemma_bare_label(s: AssemblerView, line: Seq<char>, name: Seq<char>, next: Seq<char>)
    requires
        s.registry.instr_ptr == s.program.len(),
        spec_lexer(line) == Ok::<Seq<TokenView>, Error>(seq![TokenView::Label(name)]),
        !s.registry.declaration.contains_key(name),
    ensures
        spec_read_line(s, line) is Ok,
        ({
            let s2 = spec_read_line(s, line).unwrap();
            &&& s2.program == s.program
            &&& s2.registry.instr_ptr == s.registry.instr_ptr
            &&& s2.registry.declaration == s.registry.declaration.insert(name, s.registry.instr_ptr)
            &&& forall|s3: AssemblerView|
                spec_read_line(s2, next) == Ok::<AssemblerView, Error>(s3) && s3.program.len()
                    > s2.program.len() ==> s3.program.len() == s2.program.len() + 1
                    && s3.registry.declaration[name] == s3.program.len() - 1
        }),
{
    let ts = seq![TokenView::Label(name)];
    assert(ts.drop_first() =~= Seq::<TokenView>::empty());
    let s2 = spec_read_line(s, line).unwrap();
    assert forall|s3: AssemblerView|
        spec_read_line(s2, next) == Ok::<AssemblerView, Error>(s3) && s3.program.len()
            > s2.program.len() implies s3.program.len() == s2.program.len() + 1
            && s3.registry.declaration[name] == s3.program.len() - 1 by {
        if let Ok(t2) = spec_lexer(next) {
            if t2.len() > 0 && t2[0] is Label {
                assert(t2[0]->Label_0 != name);
            }
        }
    }
}

/// A branch assembles to a word that decodes to the branch and whose 20-bit
/// field holds the index declared for its target label. The branch line itself
/// keeps its opcode alone and records its target at its own index.
pub proof fn lemma_branch_target(r: RegistryView, i: u32, op: Opcode)
    requires
        op.spec_is_bcc(),
        r.reference.contains_key(i),
        r.declaration.contains_key(r.reference[i]),
        r.declaration[r.reference[i]] <= 0xFFFFF,
    ensures
        spec_word(r, i, (Form::Six, seq![TokenView::Opcode(op)])) is Some,
        decode_field(spec_word(r, i, (Form::Six, seq![TokenView::Opcode(op)])).unwrap(), Payload::Immed20)
            == r.declaration[r.reference[i]],
        decodes_to(spec_word(r, i, (Form::Six, seq![TokenView::Opcode(op)])).unwrap(), Form::Six, op),
{
    let t = r.declaration[r.reference[i]];
    let ts = seq![TokenView::Opcode(op)];
    let b = op.spec_bytecode(Form::Six).unwrap();
    assert(ts.drop_first() =~= Seq::<TokenView>::empty());
    let base = encode_field(0, Payload::Bcc, b);
    reveal_with_fuel(encode_walk, 2);
    assert(spec_encode(ts, Form::Six) == base);
    let w = encode_field(base, Payload::Immed20, t);
    assert(w == instr_word(op, Form::Six, 0, 0, 0, t));
    lemma_decode_encode(op, Form::Six, 0, 0, 0, t);
    assert((((0u32 | ((b & 0xFFFu32) << 20u32)) | ((t & 0xFFFFFu32) << 0u32)) & 0xFFFFFu32) >> 0u32 == t)
        by (bit_vector)
        requires
            t <= 0xFFFFFu32,
    ;
}

/// A branch line, with or without a leading label, keeps its opcode alone and
/// records its target label at its own index.
pub proof fn lemma_branch_line(s: AssemblerView, ts: Seq<TokenView>, op: Opcode, target: Seq<char>)
    requires
        s.registry.instr_ptr < u32::MAX,
        ts == seq![TokenView::Opcode(op), TokenView::Label(target)] || (ts.len() == 3 && ts[0] is Label
            && ts[1] == TokenView::Opcode(op) && ts[2] == TokenView::Label(target)),
        spec_record(s, ts, Some(Form::Six)) is Ok,
    ensures
        ({
            let s2 = spec_record(s, ts, Some(Form::Six)).unwrap();
            &&& s2.program == s.program.push((Form::Six, seq![TokenView::Opcode(op)]))
            &&& s2.registry.reference[s.registry.instr_ptr] == target
        }),
{
    reveal_with_fuel(Seq::filter, 4);
    let pred = |t: TokenView| encodes(t);
    if ts.len() == 2 {
        assert(ts.drop_last() =~= seq![TokenView::Opcode(op)]);
        assert(ts.drop_last().drop_last() =~= Seq::<TokenView>::empty());
        assert(ts.filter(pred) =~= seq![TokenView::Opcode(op)]);
    } else {
        assert(ts.drop_last() =~= seq![ts[0], TokenView::Opcode(op)]);
        assert(ts.drop_last().drop_last() =~= seq![ts[0]]);
        assert(ts.drop_last().drop_last().drop_last() =~= Seq::<TokenView>::empty());
        assert(ts.filter(pred) =~= seq![TokenView::Opcode(op)]);
    }
}

/// The assembler moved to instruction index `index`.
pub open spec fn at_index(s: AssemblerView, index: u32) -> AssemblerView {
    AssemblerView { registry: RegistryView { instr_ptr: index, ..s.registry }, ..s }
}

/// What assembling one line at once as the instruction at `index` gives: the
/// first pass over the line there, then the word of the line if it has one.
pub open spec fn spec_read_eval(s: AssemblerView, line: Seq<char>, index: u32) -> Result<Option<u32>, Error> {
    let s1 = at_index(s, index);
    match spec_read_line(s1, line) {
        Err(e) => Err(e),
        Ok(s2) => if s2.program.len() > s1.program.len() {
            match spec_word(s2.registry, index, s2.program.last()) {
                Some(w) => Ok(Some(w)),
                None => Err(Error::LabelError),
            }
        } else {
            Ok(None)
        },
    }
}

/// Assembles source lines into instruction words.
pub struct Assembler {
    registry: LabelRegistry,
    program: Vec<Expression>,
}

impl View for Assembler {
    type V = AssemblerView;

    closed spec fn view(&self) -> AssemblerView {
        AssemblerView {
            registry: self.registry@,
            program: self.program@.map_values(|e: Expression| e@),
        }
    }
}

impl Assembler {
    /// An assembler with no lines and no labels.
    pub fn new() -> (r: Assembler)
        ensures
            r@.registry.instr_ptr == 0,
            r@.registry.declaration == Map::<Seq<char>, u32>::empty(),
            r@.registry.reference == Map::<u32, Seq<char>>::empty(),
            r@.program == Seq::<(Form, Seq<TokenView>)>::empty(),
    {
        let r = Assembler { registry: LabelRegistry::new(), program: Vec::new() };
        assert(r@.program =~= Seq::<(Form, Seq<TokenView>)>::empty());
        r
    }

    /// The number of lines kept for the second pass.
    pub fn instruction_count(&self) -> (r: usize)
        ensures
            r == self@.program.len(),
    {
        self.program.len()
    }

    /// The index of the instruction the next kept line takes.
    pub fn instr_ptr(&self) -> (r: u32)
        ensures
            r == self@.registry.instr_ptr,
    {
        self.registry.instr_ptr()
    }

    /// Record one parsed line (first pass): declare its leading label, record
    /// the target of a branch, and keep the opcode, register and literal
    /// tokens of a line that has a form.
    pub fn optimized_tokens(&mut self, tokens: &Vec<Token>, form: Option<Form>) -> (r: Result<(), Error>)
        requires
            old(self)@.registry.instr_ptr < u32::MAX,
            form == Some(Form::Six) ==> tokens.len() > 0 && tokens@.last()@ is Label,
        ensures
            match spec_record(old(self)@, token_views(tokens@), form) {
                Ok(s) => r == Ok::<(), Error>(()) && final(self)@ == s,
                Err(e) => r == Err::<(), Error>(e) && final(self)@ == old(self)@,
            },
    {
        let ghost ts = token_views(tokens@);
        let ghost pred = |t: TokenView| encodes(t);
        let n = tokens.len();
        if n > 0 {
            if let Token::Label(Label::Name(name)) = &tokens[0] {
                let decl = self.registry.register_variable_declaration(Label::Name(name.clone()));
                if decl.is_err() {
                    return decl;
                }
            }
        }
        if form == Some(Form::Six) {
            if let Token::Label(Label::Name(name)) = &tokens[n - 1] {
                self.registry.register_variable_reference(Label::Name(name.clone()));
            }
        }
        let mut kept: Vec<Token> = Vec::new();
        let mut i: usize = 0;
        while i < n
            invariant
                i <= n,
                n == tokens.len(),
                ts == token_views(tokens@),
                pred == (|t: TokenView| encodes(t)),
                token_views(kept@) == ts.take(i as int).filter(pred),
            decreases n - i,
        {
            let ghost k0 = token_views(kept@);
            let t = match &tokens[i] {
                Token::Opcode(op) => Some(Token::Opcode(*op)),
                Token::Register(r) => Some(Token::Register(*r)),
                Token::Literal(Literal::Immediate(s)) => Some(Token::Literal(Literal::Immediate(s.clone()))),
                _ => None,
            };
            let ghost ti = ts[i as int];
            assert(ti == tokens@[i as int]@);
            match t {
                Some(t) => {
                    assert(t@ == ti);
                    kept.push(t);
                    assert(token_views(kept@) =~= k0.push(ti));
                },
                None => {},
            }
            proof {
                let s = ts.take(i + 1);
                assert(s.drop_last() =~= ts.take(i as int));
                assert(s.last() == ti);
                reveal(Seq::filter);
                assert(s.filter(pred) == (if pred(ti) { k0.push(ti) } else { k0 }));
            }
            i += 1;
        }
        assert(ts.take(n as int) =~= ts);
        match form {
            Some(f) => {
                self.program.push(Expression { tokens: kept, form: f });
                self.registry.incr_instr_ptr();
                assert(self@.program =~= old(self)@.program.push((f, ts.filter(pred))));
            },
            None => {},
        }
        Ok(())
    }

    /// The first pass over one source line: lex it, parse it and record it. A line that fails leaves the assembler
    /// as it was.
    pub fn read_line(&mut self, line: String) -> (r: Result<(), Error>)
        requires
            old(self)@.registry.instr_ptr < u32::MAX,
        ensures
            match spec_read_line(old(self)@, line@) {
                Ok(s) => r == Ok::<(), Error>(()) && final(self)@ == s,
                Err(e) => r == Err::<(), Error>(e) && final(self)@ == old(self)@,
            },
    {
        let tokens = lexer(line)?;
        let ghost ts = token_views(tokens@);
        let form = run(&tokens)?;
        proof {
            if form == Some(Form::Six) {
                assert(tokens.len() > 0 && tokens@.last()@ is Label) by {
                    let labelled = ts.len() > 0 && ts[0] is Label;
                    let body = if labelled {
                        ts.drop_first()
                    } else {
                        ts
                    };
                    let operands = body.drop_first();
                    let op = body[0]->Opcode_0;
                    assert(crate::parser::matches_form(op, Form::Six, operands));
                    assert(crate::parser::fits(op.spec_is_mem(), Form::Six, 0, operands[0]));
                    assert(operands[0] == ts.last());
                }
            }
        }
        self.optimized_tokens(&tokens, form)
    }

    /// The word of the `k`-th kept line when it stands at instruction index
    /// `index`: a branch resolves the reference recorded at `index`.
    fn word_of(&mut self, k: usize, index: u32) -> (r: Result<u32, Error>)
        requires
            k < old(self)@.program.len(),
        ensures
            final(self)@ == (AssemblerView {
                registry: RegistryView { instr_ptr: index, ..old(self)@.registry },
                ..old(self)@
            }),
            match spec_word(old(self)@.registry, index, old(self)@.program[k as int]) {
                Some(w) => r == Ok::<u32, Error>(w),
                None => r == Err::<u32, Error>(Error::LabelError),
            },
    {
        self.registry.set_instr_ptr(index);
        let expr = &self.program[k];
        let base = encode_tokens(&expr.tokens, expr.form, false);
        if expr.form == Form::Six {
            let target = self.registry.get_reference()?;
            if target > 0xFFFFF {
                return Err(Error::LabelError);
            }
            let mut enc = EncoderDecoder::new(Some(base));
            enc.set_immed20(target);
            Ok(enc.get_instr())
        } else {
            Ok(base)
        }
    }

    /// The word of the `i`-th kept line (second pass).
    pub fn get_bytecode(&mut self, i: usize) -> (r: Result<u32, Error>)
        requires
            i < old(self)@.program.len(),
            i <= u32::MAX,
        ensures
            final(self)@ == (AssemblerView {
                registry: RegistryView { instr_ptr: i as u32, ..old(self)@.registry },
                ..old(self)@
            }),
            match spec_word(old(self)@.registry, i as u32, old(self)@.program[i as int]) {
                Some(w) => r == Ok::<u32, Error>(w),
                None => r == Err::<u32, Error>(Error::LabelError),
            },
    {
        self.word_of(i, i as u32)
    }

    /// Assemble one line at once, as the instruction at `index`: its leading
    /// label is declared at `index`, and a branch resolves against the labels
    /// declared so far. `Ok(None)` for a bare label.
    pub fn read_eval(&mut self, line: String, index: u32) -> (r: Result<Option<u32>, Error>)
        requires
            index < u32::MAX,
        ensures
            r == spec_read_eval(old(self)@, line@, index),
            spec_read_line(at_index(old(self)@, index), line@) matches Ok(s2) ==> final(self)@.program
                == s2.program && final(self)@.registry.declaration == s2.registry.declaration
                && final(self)@.registry.reference == s2.registry.reference,
    {
        self.registry.set_instr_ptr(index);
        let before = self.program.len();
        assert(self.program@.len() == self@.program.len());
        self.read_line(line)?;
        assert(self.program@.len() == self@.program.len());
        if self.program.len() > before {
            let w = self.word_of(self.program.len() - 1, index)?;
            Ok(Some(w))
        } else {
            Ok(None)
        }
    }

    /// The second pass: the word of every kept line, in order. A branch whose
    /// label is not declared (or lies beyond the 20-bit target field) is a
    /// label error.
    pub fn assemble(&mut self) -> (r: Result<Vec<u32>, Error>)
        requires
            old(self)@.program.len() <= u32::MAX,
        ensures
            final(self)@.program == old(self)@.program,
            final(self)@.registry.declaration == old(self)@.registry.declaration,
            final(self)@.registry.reference == old(self)@.registry.reference,
            match r {
                Ok(words) => words.len() == old(self)@.program.len() && forall|i: int|
                    0 <= i < words.len() ==> spec_word(old(self)@.registry, i as u32, old(self)@.program[i])
                        == Some(#[trigger] words@[i]),
                Err(e) => e == Error::LabelError && exists|i: int|
                    0 <= i < old(self)@.program.len() && spec_word(
                        old(self)@.registry,
                        i as u32,
                        #[trigger] old(self)@.program[i],
                    ) is None,
            },
    {
        self.registry.reset_instr_ptr();
        assert(self.program@.len() == self@.program.len());
        let mut words: Vec<u32> = Vec::new();
        let mut i: usize = 0;
        while i < self.program.len()
            invariant
                i <= self.program.len() <= u32::MAX,
                self.program.len() == old(self)@.program.len(),
                self@.program == old(self)@.program,
                self@.registry.declaration == old(self)@.registry.declaration,
                self@.registry.reference == old(self)@.registry.reference,
                words.len() == i,
                forall|j: int|
                    0 <= j < i ==> spec_word(old(self)@.registry, j as u32, old(self)@.program[j])
                        == Some(#[trigger] words@[j]),
            decreases self.program.len() - i,
        {
            let ghost reg = self@.registry;
            assert(spec_word(reg, i as u32, self@.program[i as int]) == spec_word(
                old(self)@.registry,
                i as u32,
                old(self)@.program[i as int],
            ));
            let w = self.get_bytecode(i)?;
            assert(self.program@.len() == self@.program.len());
            words.push(w);
            i += 1;
        }
        Ok(words)
    }
}

} // verus!
