//! The parser: a state machine that walks the tokens of a line and decides
//! its form.
//!
//! Each form has an operand template per opcode kind (plain, or `LDR`/`STR`
//! with brackets). The machine starts from the forms the opcode admits whose
//! expression length matches the token count, and at each operand token keeps
//! the forms whose template expects that token there; an immediate must also
//! fit the width of the form. The line is accepted when a form survives to
//! the end.
use vstd::prelude::*;

use crate::error::Error;
use crate::isa::{reducer, Form, Opcode};
use crate::lexer::{token_views, Separator, Token, TokenView};
use crate::literal::{literal_value, literal_value_of, Literal};
use crate::text::chars_of;

verus! {

/// The kind of an operand token.
#[derive(Clone, Copy, Debug, PartialEq, Eq, Structural)]
pub enum Kind {
    Reg,
    Comma,
    Open,
    Close,
    Lit,
    Lab,
}

/// The state of the machine: where it stands after the last token it read.
#[derive(Clone, Copy, Debug, PartialEq, Eq, Structural)]
pub enum State {
    Ready,
    Label,
    Opcode,
    Register,
    Comma,
    OpenBrace,
    Immediate,
    CloseBrace,
}

/// The kind of an operand token; `None` for an opcode.
pub open spec fn kind_of(t: TokenView) -> Option<Kind> {
    match t {
        TokenView::Opcode(_) => None,
        TokenView::Register(_) => Some(Kind::Reg),
        TokenView::Literal(_) => Some(Kind::Lit),
        TokenView::Separator(Separator::Comma) => Some(Kind::Comma),
        TokenView::Separator(Separator::OpenBrace) => Some(Kind::Open),
        TokenView::Separator(Separator::CloseBrace) => Some(Kind::Close),
        TokenView::Label(_) => Some(Kind::Lab),
    }
}

/// The operands that follow the opcode in each form; `mem` is for `LDR` and
/// `STR`, whose address operand stands in brackets.
pub open spec fn template(mem: bool, f: Form) -> Seq<Kind> {
    if !mem {
        match f {
            Form::One => seq![Kind::Reg, Kind::Comma, Kind::Reg, Kind::Comma, Kind::Reg],
            Form::Two => seq![Kind::Reg, Kind::Comma, Kind::Reg],
            Form::Four => seq![Kind::Reg, Kind::Comma, Kind::Reg, Kind::Comma, Kind::Lit],
            Form::Five => seq![Kind::Reg, Kind::Comma, Kind::Lit],
            Form::Six => seq![Kind::Lab],
        }
    } else {
        match f {
            Form::One => seq![
                Kind::Reg,
                Kind::Comma,
                Kind::Open,
                Kind::Reg,
                Kind::Comma,
                Kind::Reg,
                Kind::Close,
            ],
            Form::Two => seq![Kind::Reg, Kind::Comma, Kind::Open, Kind::Reg, Kind::Close],
            Form::Four => seq![
                Kind::Reg,
                Kind::Comma,
                Kind::Open,
                Kind::Reg,
                Kind::Comma,
                Kind::Lit,
                Kind::Close,
            ],
            Form::Five => seq![Kind::Reg, Kind::Comma, Kind::Open, Kind::Lit, Kind::Close],
            Form::Six => seq![Kind::Lab],
        }
    }
}

/// The largest immediate a form can hold.
pub open spec fn width(f: Form) -> u32 {
    match f {
        Form::Four => 0xFFFFu32,
        Form::Five => 0xFFFFFu32,
        _ => 0xFFFF_FFFFu32,
    }
}

/// Operand token `t` fits position `p` of the template of form `f`: it has the
/// expected kind and, if it is an immediate, a value within the width of `f`.
pub open spec fn fits(mem: bool, f: Form, p: int, t: TokenView) -> bool {
    &&& 0 <= p < template(mem, f).len()
    &&& kind_of(t) == Some(template(mem, f)[p])
    &&& (t matches TokenView::Literal(text) ==> literal_value(text) is Some && literal_value(
        text,
    ).unwrap() <= width(f))
}

/// The operands of opcode `op` follow the pattern of form `f`, which `op` admits.
pub open spec fn matches_form(op: Opcode, f: Form, operands: Seq<TokenView>) -> bool {
    &&& op.admits(f)
    &&& operands.len() == template(op.spec_is_mem(), f).len()
    &&& forall|p: int| 0 <= p < operands.len() ==> fits(op.spec_is_mem(), f, p, #[trigger] operands[p])
}

/// The form of an expression that starts with opcode `op`.
pub open spec fn form_of(op: Opcode, operands: Seq<TokenView>) -> Option<Form> {
    if matches_form(op, Form::One, operands) {
        Some(Form::One)
    } else if matches_form(op, Form::Two, operands) {
        Some(Form::Two)
    } else if matches_form(op, Form::Four, operands) {
        Some(Form::Four)
    } else if matches_form(op, Form::Five, operands) {
        Some(Form::Five)
    } else if matches_form(op, Form::Six, operands) {
        Some(Form::Six)
    } else {
        None
    }
}

/// What the parser decides for a line of tokens: an optional leading label,
/// then either nothing (a bare label, `Ok(None)`) or an opcode and operands
/// that follow the pattern of one of its forms (`Ok(Some(form))`). Anything
/// else is a syntax error.
pub open spec fn spec_parse(t: Seq<TokenView>) -> Result<Option<Form>, Error> {
    let labelled = t.len() > 0 && t[0] is Label;
    let body = if labelled {
        t.drop_first()
    } else {
        t
    };
    if labelled && body.len() == 0 {
        Ok(None)
    } else if body.len() > 0 && body[0] is Opcode {
        match form_of(body[0]->Opcode_0, body.drop_first()) {
            Some(f) => Ok(Some(f)),
            None => Err(Error::SyntaxError),
        }
    } else {
        Err(Error::SyntaxError)
    }
}

/// The machine that decides the form of a line.
pub struct StateMachine<'a> {
    /// Where the machine stands.
    pub state: State,
    /// The tokens of the line, in source order.
    pub tokens: &'a Vec<Token>,
    /// The forms the line may still take.
    pub forms: Vec<Form>,
}

fn kind_of_token(t: &Token) -> (r: Option<Kind>)
    ensures
        r == kind_of(t@),
{
    match t {
        Token::Opcode(_) => None,
        Token::Register(_) => Some(Kind::Reg),
        Token::Literal(_) => Some(Kind::Lit),
        Token::Separator(Separator::Comma) => Some(Kind::Comma),
        Token::Separator(Separator::OpenBrace) => Some(Kind::Open),
        Token::Separator(Separator::CloseBrace) => Some(Kind::Close),
        Token::Label(_) => Some(Kind::Lab),
    }
}

fn template_kind(mem: bool, f: Form, p: usize) -> (r: Option<Kind>)
    ensures
        match r {
            Some(k) => p < template(mem, f).len() && k == template(mem, f)[p as int],
            None => p >= template(mem, f).len(),
        },
{
    let t: Vec<Kind> = if !mem {
        match f {
            Form::One => vec![Kind::Reg, Kind::Comma, Kind::Reg, Kind::Comma, Kind::Reg],
            Form::Two => vec![Kind::Reg, Kind::Comma, Kind::Reg],
            Form::Four => vec![Kind::Reg, Kind::Comma, Kind::Reg, Kind::Comma, Kind::Lit],
            Form::Five => vec![Kind::Reg, Kind::Comma, Kind::Lit],
            Form::Six => vec![Kind::Lab],
        }
    } else {
        match f {
            Form::One => vec![
                Kind::Reg,
                Kind::Comma,
                Kind::Open,
                Kind::Reg,
                Kind::Comma,
                Kind::Reg,
                Kind::Close,
            ],
            Form::Two => vec![Kind::Reg, Kind::Comma, Kind::Open, Kind::Reg, Kind::Close],
            Form::Four => vec![
                Kind::Reg,
                Kind::Comma,
                Kind::Open,
                Kind::Reg,
                Kind::Comma,
                Kind::Lit,
                Kind::Close,
            ],
            Form::Five => vec![Kind::Reg, Kind::Comma, Kind::Open, Kind::Lit, Kind::Close],
            Form::Six => vec![Kind::Lab],
        }
    };
    assert(t@ =~= template(mem, f));
    if p < t.len() {
        Some(t[p])
    } else {
        None
    }
}

fn width_of(f: Form) -> (r: u32)
    ensures
        r == width(f),
{
    match f {
        Form::Four => 0xFFFF,
        Form::Five => 0xFFFFF,
        _ => 0xFFFF_FFFF,
    }
}

/// The value of a literal token, if its text has one.
fn token_value(t: &Token) -> (r: Option<u32>)
    ensures
        t@ matches TokenView::Literal(text) ==> r == literal_value(text),
{
    match t {
        Token::Literal(Literal::Immediate(s)) => literal_value_of(&chars_of(s.as_str())),
        _ => None,
    }
}

/// Keep the forms for which operand token `t` fits position `p`.
fn keep_fitting(forms: &Vec<Form>, mem: bool, p: usize, t: &Token) -> (r: Vec<Form>)
    ensures
        forall|f: Form| r@.contains(f) <==> forms@.contains(f) && fits(mem, f, p as int, t@),
{
    let ghost pred = |f: Form| fits(mem, f, p as int, t@);
    let kind = kind_of_token(t);
    let value = token_value(t);
    let mut r: Vec<Form> = Vec::new();
    let mut i: usize = 0;
    while i < forms.len()
        invariant
            i <= forms.len(),
            kind == kind_of(t@),
            t@ matches TokenView::Literal(text) ==> value == literal_value(text),
            pred == (|f: Form| fits(mem, f, p as int, t@)),
            r@ == forms@.take(i as int).filter(pred),
        decreases forms.len() - i,
    {
        let f = forms[i];
        let ok = match (template_kind(mem, f, p), kind) {
            (Some(k), Some(k2)) => k == k2 && match t {
                Token::Literal(_) => match value {
                    Some(v) => v <= width_of(f),
                    None => false,
                },
                _ => true,
            },
            _ => false,
        };
        let ghost r0 = r@;
        if ok {
            r.push(f);
        }
        proof {
            let s = forms@.take(i + 1);
            assert(s.drop_last() =~= forms@.take(i as int));
            assert(s.last() == f);
            assert(ok == pred(f));
            reveal(Seq::filter);
            assert(s.filter(pred) == (if pred(f) { r0.push(f) } else { r0 }));
        }
        i += 1;
    }
    assert(forms@.take(i as int) =~= forms@);
    proof {
        assert forall|f: Form| r@.contains(f) <==> forms@.contains(f) && pred(f) by {
            if r@.contains(f) {
                forms@.lemma_filter_contains_rev(pred, f);
                let k = choose|k: int| 0 <= k < r@.len() && r@[k] == f;
                forms@.lemma_filter_pred(pred, k);
            }
            if forms@.contains(f) && pred(f) {
                let j = choose|j: int| 0 <= j < forms@.len() && forms@[j] == f;
                forms@.lemma_filter_contains(pred, j);
            }
        }
    }
    r
}

/// The state after reading a token of the given kind.
fn state_after(k: Kind) -> (r: State) {
    match k {
        Kind::Reg => State::Register,
        Kind::Comma => State::Comma,
        Kind::Open => State::OpenBrace,
        Kind::Close => State::CloseBrace,
        Kind::Lit => State::Immediate,
        Kind::Lab => State::Label,
    }
}

/// Two forms never both fit the same operands.
pub proof fn lemma_form_unique(op: Opcode, f: Form, g: Form, operands: Seq<TokenView>)
    requires
        matches_form(op, f, operands),
        matches_form(op, g, operands),
    ensures
        f == g,
{
    let mem = op.spec_is_mem();
    if f != g {
        let n = operands.len();
        assert(fits(mem, f, n - 1, operands[n - 1]));
        assert(fits(mem, g, n - 1, operands[n - 1]));
        if n >= 2 {
            assert(fits(mem, f, n - 2, operands[n - 2]));
            assert(fits(mem, g, n - 2, operands[n - 2]));
        }
    }
}

/// Every admissible form pattern is parsed as that form, with or without a
/// leading label.
pub proof fn lemma_parse_accepts_patterns(op: Opcode, f: Form, operands: Seq<TokenView>, label: Seq<char>)
    requires
        matches_form(op, f, operands),
    ensures
        spec_parse(seq![TokenView::Opcode(op)] + operands) == Ok::<Option<Form>, Error>(Some(f)),
        spec_parse(seq![TokenView::Label(label), TokenView::Opcode(op)] + operands) == Ok::<
            Option<Form>,
            Error,
        >(Some(f)),
{
    let t1 = seq![TokenView::Opcode(op)] + operands;
    let t2 = seq![TokenView::Label(label), TokenView::Opcode(op)] + operands;
    assert(t1.drop_first() =~= operands);
    assert(t2.drop_first() =~= t1);
    assert(t1[0] == TokenView::Opcode(op));
    assert(t2[0] == TokenView::Label(label));
    if matches_form(op, Form::One, operands) {
        lemma_form_unique(op, f, Form::One, operands);
    }
    if matches_form(op, Form::Two, operands) {
        lemma_form_unique(op, f, Form::Two, operands);
    }
    if matches_form(op, Form::Four, operands) {
        lemma_form_unique(op, f, Form::Four, operands);
    }
    if matches_form(op, Form::Five, operands) {
        lemma_form_unique(op, f, Form::Five, operands);
    }
}

/// A line that is neither a bare label nor an opcode, with or without a
/// leading label, whose operands follow the pattern of one of its forms, is a
/// syntax error.
pub proof fn lemma_parse_rejects_others(t: Seq<TokenView>)
    requires
        !(t.len() == 1 && t[0] is Label),
        forall|op: Opcode, f: Form, operands: Seq<TokenView>|
            !(t == seq![TokenView::Opcode(op)] + operands && matches_form(op, f, operands)),
        forall|label: Seq<char>, op: Opcode, f: Form, operands: Seq<TokenView>|
            !(t == seq![TokenView::Label(label), TokenView::Opcode(op)] + operands && matches_form(
                op,
                f,
                operands,
            )),
    ensures
        spec_parse(t) == Err::<Option<Form>, Error>(Error::SyntaxError),
{
    let labelled = t.len() > 0 && t[0] is Label;
    let body = if labelled {
        t.drop_first()
    } else {
        t
    };
    if body.len() > 0 && body[0] is Opcode {
        let op = body[0]->Opcode_0;
        let operands = body.drop_first();
        if let Some(f) = form_of(op, operands) {
            if labelled {
                assert(t =~= seq![t[0], TokenView::Opcode(op)] + operands);
                assert(t =~= seq![TokenView::Label(t[0]->Label_0), TokenView::Opcode(op)] + operands);
            } else {
                assert(t =~= seq![TokenView::Opcode(op)] + operands);
            }
        }
    }
}

/// An immediate wider than its form allows is rejected: operands shaped like
/// form four (or five) whose immediate exceeds `0xFFFF` (or `0xFFFFF`) are a
/// syntax error.
pub proof fn lemma_wide_immediate_rejected(op: Opcode, f: Form, operands: Seq<TokenView>, p: int)
    requires
        f == Form::Four || f == Form::Five,
        operands.len() == template(op.spec_is_mem(), f).len(),
        forall|q: int|
            0 <= q < operands.len() ==> kind_of(#[trigger] operands[q]) == Some(
                template(op.spec_is_mem(), f)[q],
            ),
        0 <= p < operands.len(),
        operands[p] is Literal,
        literal_value(operands[p]->Literal_0) is Some,
        literal_value(operands[p]->Literal_0).unwrap() > width(f),
    ensures
        spec_parse(seq![TokenView::Opcode(op)] + operands) == Err::<Option<Form>, Error>(
            Error::SyntaxError,
        ),
{
    let t = seq![TokenView::Opcode(op)] + operands;
    let mem = op.spec_is_mem();
    assert(t.drop_first() =~= operands);
    assert(t[0] == TokenView::Opcode(op));
    assert(kind_of(operands[p]) == Some(Kind::Lit));
    assert forall|g: Form| !matches_form(op, g, operands) by {
        if matches_form(op, g, operands) {
            assert(fits(mem, g, p, operands[p]));
            let n = operands.len();
            assert(kind_of(operands[n - 1]) == Some(template(mem, f)[n - 1]));
            assert(fits(mem, g, n - 1, operands[n - 1]));
            if n >= 2 {
                assert(kind_of(operands[n - 2]) == Some(template(mem, f)[n - 2]));
                assert(fits(mem, g, n - 2, operands[n - 2]));
            }
        }
    }
}

impl<'a> StateMachine<'a> {
    /// A machine in the ready state over the given tokens.
    pub fn new(tokens: &'a Vec<Token>) -> (r: Self)
        ensures
            r.state == State::Ready,
            r.tokens == tokens,
            r.forms@.len() == 0,
    {
        StateMachine { state: State::Ready, tokens, forms: Vec::new() }
    }

    /// Run the machine to the end of the tokens.
    pub fn handler(self) -> (r: Result<Option<Form>, Error>)
        ensures
            r == spec_parse(token_views(self.tokens@)),
    {
        let mut m = self;
        let ghost tv = token_views(m.tokens@);
        let n = m.tokens.len();
        let mut i: usize = 0;
        if n > 0 {
            if let Token::Label(_) = &m.tokens[0] {
                m.state = State::Label;
                i = 1;
                if n == 1 {
                    return Ok(None);
                }
            }
        }
        if i >= n {
            return Err(Error::SyntaxError);
        }
        let op = match &m.tokens[i] {
            Token::Opcode(op) => *op,
            _ => {
                assert(!(tv[i as int] is Opcode));
                return Err(Error::SyntaxError);
            },
        };
        let ghost body = tv.skip(i as int);
        let ghost operands = body.drop_first();
        assert(body =~= if i == 1 {
            tv.drop_first()
        } else {
            tv
        });
        assert(body[0] == TokenView::Opcode(op));
        m.state = State::Opcode;
        let mem = match op {
            Opcode::LDR | Opcode::STR => true,
            _ => false,
        };
        let count = n - i;
        let all = op.get_forms();
        m.forms = reducer(all, &op, count);
        proof {
            assert forall|f: Form| op.admits(f) implies (f.spec_expr_length(op) == count <==> template(
                mem,
                f,
            ).len() == operands.len()) by {}
        }
        let mut j: usize = i + 1;
        assert(operands.take(0) =~= Seq::<TokenView>::empty());
        while j < n
            invariant
                i < j <= n,
                n == m.tokens.len(),
                tv == token_views(m.tokens@),
                tv == token_views(self.tokens@),
                body == tv.skip(i as int),
                body == (if tv.len() > 0 && tv[0] is Label {
                    tv.drop_first()
                } else {
                    tv
                }),
                body.len() > 0,
                body[0] == TokenView::Opcode(op),
                operands == body.drop_first(),
                operands.len() == n - i - 1,
                mem == op.spec_is_mem(),
                forall|f: Form|
                    #![trigger m.forms@.contains(f)]
                    m.forms@.contains(f) <==> op.admits(f) && template(mem, f).len() == operands.len()
                        && forall|p: int| 0 <= p < j - i - 1 ==> fits(mem, f, p, #[trigger] operands[p]),
            decreases n - j,
        {
            let p = j - i - 1;
            assert(operands[p as int] == m.tokens@[j as int]@);
            let ghost old_forms = m.forms@;
            let kept = keep_fitting(&m.forms, mem, p, &m.tokens[j]);
            m.forms = kept;
            if m.forms.len() == 0 {
                proof {
                    assert forall|f: Form| !matches_form(op, f, operands) by {
                        if matches_form(op, f, operands) {
                            assert(fits(mem, f, p as int, operands[p as int]));
                            assert(old_forms.contains(f));
                            assert(m.forms@.contains(f));
                        }
                    }
                }
                return Err(Error::SyntaxError);
            }
            let k = kind_of_token(&m.tokens[j]);
            if let Some(k) = k {
                m.state = state_after(k);
            }
            proof {
                assert forall|f: Form|
                    #![trigger m.forms@.contains(f)]
                    m.forms@.contains(f) <==> op.admits(f) && template(mem, f).len()
                        == operands.len() && forall|q: int|
                        0 <= q < j + 1 - i - 1 ==> fits(mem, f, q, #[trigger] operands[q]) by {
                    if op.admits(f) && template(mem, f).len() == operands.len() && forall|q: int|
                        0 <= q < j + 1 - i - 1 ==> fits(mem, f, q, #[trigger] operands[q]) {
                        assert(fits(mem, f, p as int, operands[p as int]));
                    }
                }
            }
            j += 1;
        }
        if m.forms.len() == 0 {
            proof {
                assert forall|f: Form| !matches_form(op, f, operands) by {
                    if matches_form(op, f, operands) {
                        assert(m.forms@.contains(f));
                    }
                }
            }
            return Err(Error::SyntaxError);
        }
        let f = m.forms[0];
        proof {
            assert(m.forms@.contains(f));
            assert(matches_form(op, f, operands));
            if matches_form(op, Form::One, operands) {
                lemma_form_unique(op, f, Form::One, operands);
            }
            if matches_form(op, Form::Two, operands) {
                lemma_form_unique(op, f, Form::Two, operands);
            }
            if matches_form(op, Form::Four, operands) {
                lemma_form_unique(op, f, Form::Four, operands);
            }
            if matches_form(op, Form::Five, operands) {
                lemma_form_unique(op, f, Form::Five, operands);
            }
        }
        Ok(Some(f))
    }
}

/// Decide the form of a line of tokens, given in source order.
pub fn run(tokens: &Vec<Token>) -> (r: Result<Option<Form>, Error>)
    ensures
        r == spec_parse(token_views(tokens@)),
{
    StateMachine::new(tokens).handler()
}

} // verus!
