use vstd::prelude::*;

verus! {

broadcast use {
    vstd::std_specs::vec::axiom_vec_decreases_to_view,
    vstd::std_specs::vec::axiom_vec_index_decreases,
    vstd::seq::axiom_seq_index_decreases,
};

/// The closed set of token kinds the lexer produces and the evaluator
/// consumes.  Immutable once produced.  A float literal is carried as the
/// IEEE-754 binary64 bit pattern of its value, so the token stream stays
/// within the types the verifier can reason about.
#[derive(Debug)]
pub enum Token {
    /// A spliced file: the complete token sequence of another source file,
    /// to be inlined into the caller's stream.
    Inline(Vec<Token>),
    SysCall(String),
    Def(String),
    Insert(String),
    Identifier(Option<String>, String),
    Function(String),
    Call(String, String),
    Bool(bool),
    Integer(i64),
    Float(u64),
    Str(String),
    Add,
    Sub,
    Multiply,
    Divide,
    Mod,
    Equals,
    Neq,
    Lt,
    Gt,
    LtEq,
    GtEq,
    Or,
    And,
    Xor,
    Comment(String),
    LParen,
    RParen,
    LBrack,
    RBrack,
    Semicolon,
    Argreg(Option<String>),
    Loop(Option<String>, String),
    Break,
    If(Option<String>, String),
    Output(Option<String>, String),
    OutputStr,
    Input(Option<String>, String),
    Assign(Option<String>, String),
    Kill(Option<String>, String),
    EOF,
    Illegal(usize, String),
}

/// Mathematical mirror of `Token`: strings become `Seq<char>`, nested token
/// vectors become `Seq<TokenS>`.  Contracts speak about this type, so that
/// two tokens built from different heap allocations but with the same text
/// are the same value.
#[verifier::ext_equal]
pub enum TokenS {
    Inline(Seq<TokenS>),
    SysCall(Seq<char>),
    Def(Seq<char>),
    Insert(Seq<char>),
    Identifier(Option<Seq<char>>, Seq<char>),
    Function(Seq<char>),
    Call(Seq<char>, Seq<char>),
    Bool(bool),
    Integer(i64),
    Float(u64),
    Str(Seq<char>),
    Add,
    Sub,
    Multiply,
    Divide,
    Mod,
    Equals,
    Neq,
    Lt,
    Gt,
    LtEq,
    GtEq,
    Or,
    And,
    Xor,
    Comment(Seq<char>),
    LParen,
    RParen,
    LBrack,
    RBrack,
    Semicolon,
    Argreg(Option<Seq<char>>),
    Loop(Option<Seq<char>>, Seq<char>),
    Break,
    If(Option<Seq<char>>, Seq<char>),
    Output(Option<Seq<char>>, Seq<char>),
    OutputStr,
    Input(Option<Seq<char>>, Seq<char>),
    Assign(Option<Seq<char>>, Seq<char>),
    Kill(Option<Seq<char>>, Seq<char>),
    EOF,
    Illegal(int, Seq<char>),
}

pub open spec fn opt_view(o: Option<String>) -> Option<Seq<char>> {
    match o {
        Option::Some(s) => Option::Some(s@),
        Option::None => Option::None,
    }
}

pub open spec fn token_view(t: Token) -> TokenS
    decreases t, 0int,
    via token_view_dec
{
    match t {
        Token::Inline(v) => TokenS::Inline(tape_view(v@)),
        Token::SysCall(s) => TokenS::SysCall(s@),
        Token::Def(s) => TokenS::Def(s@),
        Token::Insert(s) => TokenS::Insert(s@),
        Token::Identifier(i, s) => TokenS::Identifier(opt_view(i), s@),
        Token::Function(s) => TokenS::Function(s@),
        Token::Call(s, a) => TokenS::Call(s@, a@),
        Token::Bool(b) => TokenS::Bool(b),
        Token::Integer(n) => TokenS::Integer(n),
        Token::Float(f) => TokenS::Float(f),
        Token::Str(s) => TokenS::Str(s@),
        Token::Add => TokenS::Add,
        Token::Sub => TokenS::Sub,
        Token::Multiply => TokenS::Multiply,
        Token::Divide => TokenS::Divide,
        Token::Mod => TokenS::Mod,
        Token::Equals => TokenS::Equals,
        Token::Neq => TokenS::Neq,
        Token::Lt => TokenS::Lt,
        Token::Gt => TokenS::Gt,
        Token::LtEq => TokenS::LtEq,
        Token::GtEq => TokenS::GtEq,
        Token::Or => TokenS::Or,
        Token::And => TokenS::And,
        Token::Xor => TokenS::Xor,
        Token::Comment(s) => TokenS::Comment(s@),
        Token::LParen => TokenS::LParen,
        Token::RParen => TokenS::RParen,
        Token::LBrack => TokenS::LBrack,
        Token::RBrack => TokenS::RBrack,
        Token::Semicolon => TokenS::Semicolon,
        Token::Argreg(i) => TokenS::Argreg(opt_view(i)),
        Token::Loop(i, s) => TokenS::Loop(opt_view(i), s@),
        Token::Break => TokenS::Break,
        Token::If(i, s) => TokenS::If(opt_view(i), s@),
        Token::Output(i, s) => TokenS::Output(opt_view(i), s@),
        Token::OutputStr => TokenS::OutputStr,
        Token::Input(i, s) => TokenS::Input(opt_view(i), s@),
        Token::Assign(i, s) => TokenS::Assign(opt_view(i), s@),
        Token::Kill(i, s) => TokenS::Kill(opt_view(i), s@),
        Token::EOF => TokenS::EOF,
        Token::Illegal(p, s) => TokenS::Illegal(p as int, s@),
    }
}

#[via_fn]
proof fn token_view_dec(t: Token) {
    match t {
        Token::Inline(v) => {
            assert(decreases_to!(t => v));
            assert(decreases_to!(v => v@));
        },
        _ => {},
    }
}

/// The view of a whole token tape, element for element.
pub open spec fn tape_view(s: Seq<Token>) -> Seq<TokenS>
    decreases s, 1int,
    via tape_view_dec
{
    if s.len() == 0 {
        Seq::empty()
    } else {
        tape_view(s.drop_last()).push(token_view(s.last()))
    }
}

#[via_fn]
proof fn tape_view_dec(s: Seq<Token>) {
    if s.len() > 0 {
        assert(s.drop_last() == s.subrange(0, s.len() - 1));
        vstd::seq::axiom_seq_subrange_decreases(s, 0, s.len() - 1);
        vstd::seq::axiom_seq_index_decreases(s, s.len() - 1);
    }
}

/// Length of and elements of a tape view.
pub broadcast proof fn lemma_tape_view(s: Seq<Token>)
    ensures
        #[trigger] tape_view(s).len() == s.len(),
        forall|i: int| 0 <= i < s.len() ==> tape_view(s)[i] == token_view(s[i]),
    decreases s.len(),
{
    if s.len() > 0 {
        lemma_tape_view(s.drop_last());
    }
}

impl View for Token {
    type V = TokenS;

    open spec fn view(&self) -> TokenS {
        token_view(*self)
    }
}

/// Structural copy of an optional index string; the copy's view equals the
/// original's.
pub fn copy_opt_string(o: &Option<String>) -> (r: Option<String>)
    ensures
        r == *o,
{
    match o {
        Option::Some(s) => Option::Some(s.clone()),
        Option::None => Option::None,
    }
}

/// Deep copy of one token; the copy has the same view as the original.
#[verifier::loop_isolation(false)]
pub fn copy_token(t: &Token) -> (r: Token)
    ensures
        r@ == t@,
    decreases *t,
{
    match t {
        Token::Inline(v) => {
            let mut inner: Vec<Token> = Vec::new();
            let mut i: usize = 0;
            while i < v.len()
                invariant
                    i <= v.len(),
                    inner@.len() == i,
                    forall|j: int| 0 <= j < i ==> token_view(inner@[j]) == token_view(v@[j]),
                decreases v.len() - i,
            {
                proof {
                    assert(decreases_to!(*t => t->Inline_0));
                    assert(t->Inline_0 == *v);
                    assert(decreases_to!(*v => v@));
                    assert(decreases_to!(v@ => v@[i as int]));
                }
                let c = copy_token(&v[i]);
                inner.push(c);
                i = i + 1;
            }
            proof {
                broadcast use lemma_tape_view;

                assert(tape_view(inner@) =~= tape_view(v@));
            }
            Token::Inline(inner)
        },
        Token::SysCall(s) => Token::SysCall(s.clone()),
        Token::Def(s) => Token::Def(s.clone()),
        Token::Insert(s) => Token::Insert(s.clone()),
        Token::Identifier(i, s) => Token::Identifier(copy_opt_string(i), s.clone()),
        Token::Function(s) => Token::Function(s.clone()),
        Token::Call(s, a) => Token::Call(s.clone(), a.clone()),
        Token::Bool(b) => Token::Bool(*b),
        Token::Integer(n) => Token::Integer(*n),
        Token::Float(f) => Token::Float(*f),
        Token::Str(s) => Token::Str(s.clone()),
        Token::Add => Token::Add,
        Token::Sub => Token::Sub,
        Token::Multiply => Token::Multiply,
        Token::Divide => Token::Divide,
        Token::Mod => Token::Mod,
        Token::Equals => Token::Equals,
        Token::Neq => Token::Neq,
        Token::Lt => Token::Lt,
        Token::Gt => Token::Gt,
        Token::LtEq => Token::LtEq,
        Token::GtEq => Token::GtEq,
        Token::Or => Token::Or,
        Token::And => Token::And,
        Token::Xor => Token::Xor,
        Token::Comment(s) => Token::Comment(s.clone()),
        Token::LParen => Token::LParen,
        Token::RParen => Token::RParen,
        Token::LBrack => Token::LBrack,
        Token::RBrack => Token::RBrack,
        Token::Semicolon => Token::Semicolon,
        Token::Argreg(i) => Token::Argreg(copy_opt_string(i)),
        Token::Loop(i, s) => Token::Loop(copy_opt_string(i), s.clone()),
        Token::Break => Token::Break,
        Token::If(i, s) => Token::If(copy_opt_string(i), s.clone()),
        Token::Output(i, s) => Token::Output(copy_opt_string(i), s.clone()),
        Token::OutputStr => Token::OutputStr,
        Token::Input(i, s) => Token::Input(copy_opt_string(i), s.clone()),
        Token::Assign(i, s) => Token::Assign(copy_opt_string(i), s.clone()),
        Token::Kill(i, s) => Token::Kill(copy_opt_string(i), s.clone()),
        Token::EOF => Token::EOF,
        Token::Illegal(p, s) => Token::Illegal(*p, s.clone()),
    }
}

/// Deep copy of a token sequence, element for element.
#[verifier::loop_isolation(false)]
pub fn copy_tokens(v: &Vec<Token>) -> (r: Vec<Token>)
    ensures
        tape_view(r@) == tape_view(v@),
        r@.len() == v@.len(),
{
    let mut out: Vec<Token> = Vec::new();
    let mut i: usize = 0;
    while i < v.len()
        invariant
            i <= v.len(),
            out@.len() == i,
            forall|j: int| 0 <= j < i ==> token_view(out@[j]) == token_view(v@[j]),
        decreases v.len() - i,
    {
        out.push(copy_token(&v[i]));
        i = i + 1;
    }
    proof {
        broadcast use lemma_tape_view;

        assert(tape_view(out@) =~= tape_view(v@));
    }
    out
}


/// One-level splice of a token stream: each spliced-file token contributes
/// its captured sequence in place, every other token stands for itself.
/// The splice is one level deep, as the driver's is: a nested spliced file
/// inside the sequence stays as it is.
pub open spec fn flat_view(s: Seq<TokenS>) -> Seq<TokenS>
    decreases s.len(),
{
    if s.len() == 0 {
        Seq::empty()
    } else {
        flat_view(s.drop_last()) + (match s.last() {
            TokenS::Inline(v) => v,
            t => seq![t],
        })
    }
}

/// Splicing distributes over concatenation.
pub proof fn lemma_flat_concat(a: Seq<TokenS>, b: Seq<TokenS>)
    ensures
        flat_view(a + b) == flat_view(a) + flat_view(b),
    decreases b.len(),
{
    if b.len() == 0 {
        assert(a + b =~= a);
        assert(flat_view(a) + flat_view(b) =~= flat_view(a));
    } else {
        lemma_flat_concat(a, b.drop_last());
        assert((a + b).drop_last() =~= a + b.drop_last());
        assert((a + b).last() == b.last());
        assert(flat_view(a + b) =~= flat_view(a) + flat_view(b));
    }
}

/// Splicing a file token in the middle of a stream yields exactly the
/// surrounding stream with the file's token sequence set in at that spot:
/// lexing a file that pulls in another is the same as writing the other
/// file's tokens there by hand.
pub proof fn lemma_inline_splice(pre: Seq<TokenS>, body: Seq<TokenS>, post: Seq<TokenS>)
    ensures
        flat_view(pre + seq![TokenS::Inline(body)] + post) == flat_view(pre) + body + flat_view(
            post,
        ),
{
    lemma_flat_concat(pre + seq![TokenS::Inline(body)], post);
    lemma_flat_concat(pre, seq![TokenS::Inline(body)]);
    assert(flat_view(seq![TokenS::Inline(body)]) =~= body) by {
        let single = seq![TokenS::Inline(body)];
        assert(single.len() == 1);
        assert(single.last() == TokenS::Inline(body));
        assert(single.drop_last() =~= Seq::<TokenS>::empty());
        assert(flat_view(single.drop_last()) =~= Seq::<TokenS>::empty());
        assert(flat_view(single) == flat_view(single.drop_last()) + body);
        assert(Seq::<TokenS>::empty() + body =~= body);
    }
}

/// Splice every spliced-file token of a tape in place, one level deep.
#[verifier::loop_isolation(false)]
pub fn flatten(tokens: &Vec<Token>) -> (r: Vec<Token>)
    ensures
        tape_view(r@) == flat_view(tape_view(tokens@)),
{
    let mut out: Vec<Token> = Vec::new();
    let mut i: usize = 0;
    proof {
        broadcast use lemma_tape_view;

        assert(tape_view(tokens@.subrange(0, 0)) =~= Seq::<TokenS>::empty());
    }
    loop
        invariant
            i <= tokens@.len(),
            tape_view(out@) =~= flat_view(tape_view(tokens@.subrange(0, i as int))),
        decreases tokens@.len() - i,
    {
        proof {
            broadcast use lemma_tape_view;

        }
        if i >= tokens.len() {
            proof {
                assert(tokens@.subrange(0, i as int) =~= tokens@);
            }
            break ;
        }
        let ghost prefix = tape_view(tokens@.subrange(0, i as int));
        let ghost now = tape_view(tokens@.subrange(0, i as int + 1));
        proof {
            assert(now.drop_last() =~= prefix);
            assert(now.last() == token_view(tokens@[i as int]));
        }
        match &tokens[i] {
            Token::Inline(v) => {
                let mut j: usize = 0;
                loop
                    invariant
                        j <= v@.len(),
                        tape_view(out@) =~= flat_view(prefix) + tape_view(v@.subrange(0, j as int)),
                    decreases v@.len() - j,
                {
                    proof {
                        broadcast use lemma_tape_view;

                    }
                    if j >= v.len() {
                        break ;
                    }
                    let c = copy_token(&v[j]);
                    let ghost pre_out = out@;
                    out.push(c);
                    proof {
                        assert(out@.drop_last() =~= pre_out);
                        assert(tape_view(out@) =~= tape_view(pre_out).push(token_view(c)));
                        assert(v@.subrange(0, j as int + 1).drop_last() =~= v@.subrange(
                            0,
                            j as int,
                        ));
                        assert(v@.subrange(0, j as int + 1).last() == v@[j as int]);
                        assert(tape_view(v@.subrange(0, j as int + 1)) =~= tape_view(
                            v@.subrange(0, j as int),
                        ).push(token_view(v@[j as int])));
                        assert(tape_view(out@) =~= flat_view(prefix) + tape_view(
                            v@.subrange(0, j as int + 1),
                        ));
                    }
                    j = j + 1;
                }
                proof {
                    assert(v@.subrange(0, v@.len() as int) =~= v@);
                    assert(token_view(tokens@[i as int]) == TokenS::Inline(tape_view(v@)));
                    assert(flat_view(now) =~= flat_view(prefix) + tape_view(v@));
                }
            },
            _ => {
                let c = copy_token(&tokens[i]);
                let ghost pre_out = out@;
                out.push(c);
                proof {
                    assert(out@.drop_last() =~= pre_out);
                    assert(tape_view(out@) =~= tape_view(pre_out).push(token_view(c)));
                    assert(flat_view(now) =~= flat_view(prefix) + seq![
                        token_view(tokens@[i as int]),
                    ]);
                    assert(tape_view(out@) =~= flat_view(now));
                }
            },
        }
        i = i + 1;
    }
    out
}

} // verus!
