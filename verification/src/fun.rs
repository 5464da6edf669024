use vstd::prelude::*;
use crate::token::{Token, TokenS, tape_view, opt_view, copy_token, copy_tokens, copy_opt_string};
use crate::expr::{Expr, ExprS, Fault, to_bool_s, to_seq_s};
use crate::binop::{self, RECURS_LIMIT};
use crate::maps::{Bucket, Scope, TokenMap};
use vstd::string::StringExecFns;

verus! {

/// One evaluator instance: its own token tape, cursor, scope and
/// control-flow bookkeeping.  The shared registers live in `Registers`.
pub struct Frame {
    pub tokens: Vec<Token>,
    pub vars: Scope,
    pub position: usize,
    pub loop_start: Vec<usize>,
    pub paren_counter: Vec<i64>,
}

/// The process-wide registers every nested evaluator instance shares: the
/// macro table, the function registry, the one-slot argument channel, the
/// append-only output buffer, and the queue that answers input requests.
pub struct Registers {
    pub defs: TokenMap,
    pub funcs: TokenMap,
    pub argreg: Bucket,
    pub output: String,
    pub input_lines: Vec<String>,
}

impl Frame {
    pub open spec fn wf(&self) -> bool {
        self.vars.wf()
    }
}

impl Registers {
    pub open spec fn wf(&self) -> bool {
        self.defs.wf() && self.funcs.wf() && self.argreg.wf()
    }
}

/// A tape view distributes over concatenation.
pub proof fn lemma_tape_view_concat(a: Seq<Token>, b: Seq<Token>)
    ensures
        tape_view(a + b) == tape_view(a) + tape_view(b),
{
    broadcast use crate::token::lemma_tape_view;

    assert(tape_view(a + b) =~= tape_view(a) + tape_view(b)) by {
        assert(forall|i: int|
            0 <= i < a.len() ==> (a + b)[i] == a[i]);
        assert(forall|i: int|
            a.len() <= i < a.len() + b.len() ==> (a + b)[i] == b[i - a.len()]);
    }
}

/// The index of the closing brace that ends the block being scanned from
/// `pos` with `paren` blocks already open, counting function, conditional
/// and loop headers as openers; the tape's length when the braces never
/// balance.
pub open spec fn close_idx(t: Seq<Token>, pos: int, paren: int) -> int
    decreases t.len() - pos,
{
    if pos < 0 || pos >= t.len() {
        t.len() as int
    } else {
        match t[pos] {
            Token::Function(_) => close_idx(t, pos + 1, paren + 1),
            Token::If(_, _) => close_idx(t, pos + 1, paren + 1),
            Token::Loop(_, _) => close_idx(t, pos + 1, paren + 1),
            Token::LBrack => close_idx(t, pos + 1, paren + 1),
            Token::RBrack => if paren == 1 {
                pos
            } else {
                close_idx(t, pos + 1, paren - 1)
            },
            _ => close_idx(t, pos + 1, paren),
        }
    }
}

/// Where the cursor lands after skipping the block: one past its closing
/// brace, or the end of the tape.
pub open spec fn skip_dest(t: Seq<Token>, pos: int, paren: int) -> int {
    let c = close_idx(t, pos, paren);
    if c < t.len() {
        c + 1
    } else {
        t.len() as int
    }
}

/// The closing index never lies before the scan start and never past the
/// tape.
pub proof fn lemma_close_idx_range(t: Seq<Token>, pos: int, paren: int)
    requires
        0 <= pos <= t.len(),
    ensures
        pos <= close_idx(t, pos, paren) <= t.len(),
        pos <= skip_dest(t, pos, paren) <= t.len(),
    decreases t.len() - pos,
{
    if pos < t.len() {
        match t[pos] {
            Token::Function(_) => lemma_close_idx_range(t, pos + 1, paren + 1),
            Token::If(_, _) => lemma_close_idx_range(t, pos + 1, paren + 1),
            Token::Loop(_, _) => lemma_close_idx_range(t, pos + 1, paren + 1),
            Token::LBrack => lemma_close_idx_range(t, pos + 1, paren + 1),
            Token::RBrack => {
                if paren != 1 {
                    lemma_close_idx_range(t, pos + 1, paren - 1);
                }
            },
            _ => lemma_close_idx_range(t, pos + 1, paren),
        }
    }
}

/// Scan forward over one balanced block, leaving the cursor one past its
/// closing brace (or at the end of an unbalanced tape).  Touches nothing
/// but the cursor.
#[verifier::loop_isolation(false)]
pub fn skip_loop(frame: &mut Frame, paren_arg: i64)
    requires
        0 <= paren_arg,
        old(frame).position <= old(frame).tokens@.len(),
    ensures
        final(frame).tokens == old(frame).tokens,
        final(frame).vars == old(frame).vars,
        final(frame).loop_start == old(frame).loop_start,
        final(frame).paren_counter == old(frame).paren_counter,
        final(frame).position == skip_dest(
            old(frame).tokens@,
            old(frame).position as int,
            paren_arg as int,
        ),
        old(frame).position <= final(frame).position,
{
    let ghost t0 = frame.tokens@;
    let ghost pos0 = frame.position as int;
    let mut paren: i128 = paren_arg as i128;
    proof {
        lemma_close_idx_range(t0, pos0, paren_arg as int);
    }
    loop
        invariant
            pos0 <= frame.position as int <= t0.len(),
            frame.tokens == old(frame).tokens,
            frame.vars == old(frame).vars,
            frame.loop_start == old(frame).loop_start,
            frame.paren_counter == old(frame).paren_counter,
            paren as int <= paren_arg + (frame.position - pos0),
            paren as int >= paren_arg - (frame.position - pos0),
            close_idx(t0, frame.position as int, paren as int) == close_idx(
                t0,
                pos0,
                paren_arg as int,
            ),
        decreases t0.len() - frame.position,
    {
        if frame.position >= frame.tokens.len() {
            break ;
        }
        let is_close: bool = match &frame.tokens[frame.position] {
            Token::Function(_) => false,
            Token::If(_, _) => false,
            Token::Loop(_, _) => false,
            Token::LBrack => false,
            Token::RBrack => true,
            _ => false,
        };
        let is_open: bool = match &frame.tokens[frame.position] {
            Token::Function(_) => true,
            Token::If(_, _) => true,
            Token::Loop(_, _) => true,
            Token::LBrack => true,
            _ => false,
        };
        if is_close {
            frame.position = frame.position + 1;
            if paren == 1 {
                proof {
                    lemma_close_idx_range(t0, frame.position as int, 0);
                }
                return ;
            }
            paren = paren - 1;
        } else if is_open {
            frame.position = frame.position + 1;
            paren = paren + 1;
        } else {
            frame.position = frame.position + 1;
        }
        proof {
            lemma_close_idx_range(t0, frame.position as int, paren as int);
        }
    }
}

/// Destructively remove the balanced block that starts at the cursor,
/// handing its tokens back in order; the closing brace is removed but not
/// kept, and the cursor does not move.
#[verifier::loop_isolation(false)]
pub fn capture_block(frame: &mut Frame) -> (r: Vec<Token>)
    requires
        old(frame).position <= old(frame).tokens@.len(),
    ensures
        final(frame).vars == old(frame).vars,
        final(frame).loop_start == old(frame).loop_start,
        final(frame).paren_counter == old(frame).paren_counter,
        final(frame).position == old(frame).position,
        r@ == old(frame).tokens@.subrange(
            old(frame).position as int,
            close_idx(old(frame).tokens@, old(frame).position as int, 1),
        ),
        final(frame).tokens@ == old(frame).tokens@.subrange(0, old(frame).position as int)
            + old(frame).tokens@.subrange(
            skip_dest(old(frame).tokens@, old(frame).position as int, 1),
            old(frame).tokens@.len() as int,
        ),
{
    let ghost t0 = frame.tokens@;
    let ghost pos0 = frame.position as int;
    let ghost c = close_idx(t0, pos0, 1);
    let n0 = frame.tokens.len();
    let mut acc: Vec<Token> = Vec::new();
    let mut paren: i128 = 1;
    let ghost mut cur: int = pos0;
    proof {
        lemma_close_idx_range(t0, pos0, 1);
        assert(t0.len() == n0 as int);
    }
    loop
        invariant
            t0.len() == n0 as int,
            pos0 <= cur <= t0.len(),
            frame.position as int == pos0,
            frame.vars == old(frame).vars,
            frame.loop_start == old(frame).loop_start,
            frame.paren_counter == old(frame).paren_counter,
            frame.tokens@ =~= t0.subrange(0, pos0) + t0.subrange(cur, t0.len() as int),
            acc@ =~= t0.subrange(pos0, cur),
            paren as int <= 1 + (cur - pos0),
            paren as int >= 1 - (cur - pos0),
            close_idx(t0, cur, paren as int) == c,
        decreases t0.len() - cur,
    {
        if frame.position >= frame.tokens.len() {
            proof {
                assert(cur == t0.len());
                assert(c == t0.len());
            }
            break ;
        }
        proof {
            assert(frame.tokens@[frame.position as int] == t0[cur]);
        }
        let tok = frame.tokens.remove(frame.position);
        let is_close: bool = match &tok {
            Token::RBrack => true,
            _ => false,
        };
        let is_open: bool = match &tok {
            Token::Function(_) => true,
            Token::If(_, _) => true,
            Token::Loop(_, _) => true,
            Token::LBrack => true,
            _ => false,
        };
        proof {
            cur = cur + 1;
            assert(frame.tokens@ =~= t0.subrange(0, pos0) + t0.subrange(cur, t0.len() as int));
        }
        if is_close {
            if paren == 1 {
                proof {
                    assert(c == cur - 1);
                    assert(acc@ =~= t0.subrange(pos0, c));
                    assert(skip_dest(t0, pos0, 1) == cur);
                }
                return acc;
            }
            paren = paren - 1;
            acc.push(tok);
        } else if is_open {
            paren = paren + 1;
            acc.push(tok);
        } else {
            acc.push(tok);
        }
        proof {
            assert(acc@ =~= t0.subrange(pos0, cur));
            lemma_close_idx_range(t0, cur, paren as int);
        }
    }
    proof {
        assert(acc@ =~= t0.subrange(pos0, c));
        assert(skip_dest(t0, pos0, 1) == t0.len());
        assert(frame.tokens@ =~= t0.subrange(0, pos0) + t0.subrange(
            skip_dest(t0, pos0, 1),
            t0.len() as int,
        ));
    }
    acc
}

/// Capture the block that follows a macro header and store it, reversed,
/// in the macro table under the macro's name.  (The splice that later
/// inserts it back reverses it again.)
#[verifier::loop_isolation(false)]
pub fn skip_def(frame: &mut Frame, defs: &mut TokenMap, def_name: String)
    requires
        old(frame).position <= old(frame).tokens@.len(),
        old(defs).wf(),
    ensures
        final(defs).wf(),
        final(frame).vars == old(frame).vars,
        final(frame).loop_start == old(frame).loop_start,
        final(frame).paren_counter == old(frame).paren_counter,
        final(frame).position == old(frame).position,
        final(frame).tokens@ == old(frame).tokens@.subrange(0, old(frame).position as int)
            + old(frame).tokens@.subrange(
            skip_dest(old(frame).tokens@, old(frame).position as int, 1),
            old(frame).tokens@.len() as int,
        ),
        final(defs)@ == old(defs)@.insert(
            def_name@,
            tape_view(
                old(frame).tokens@.subrange(
                    old(frame).position as int,
                    close_idx(old(frame).tokens@, old(frame).position as int, 1),
                ).reverse(),
            ),
        ),
{
    let mut acc = capture_block(frame);
    let ghost captured = acc@;
    let mut rev: Vec<Token> = Vec::new();
    loop
        invariant
            acc@ =~= captured.subrange(0, acc@.len() as int),
            rev@.len() + acc@.len() == captured.len(),
            forall|j: int| 0 <= j < rev@.len() ==> rev@[j] == captured[captured.len() - 1 - j],
        decreases acc@.len(),
    {
        match acc.pop() {
            Option::Some(t) => {
                rev.push(t);
            },
            Option::None => {
                break ;
            },
        }
    }
    proof {
        assert(rev@ =~= captured.reverse());
    }
    defs.insert(def_name, rev);
}

/// Capture the block that follows a function header: the function's body,
/// in order, destructively removed from the live tape.
pub fn skip_fun(frame: &mut Frame) -> (r: Vec<Token>)
    requires
        old(frame).position <= old(frame).tokens@.len(),
    ensures
        final(frame).vars == old(frame).vars,
        final(frame).loop_start == old(frame).loop_start,
        final(frame).paren_counter == old(frame).paren_counter,
        final(frame).position == old(frame).position,
        r@ == old(frame).tokens@.subrange(
            old(frame).position as int,
            close_idx(old(frame).tokens@, old(frame).position as int, 1),
        ),
        final(frame).tokens@ == old(frame).tokens@.subrange(0, old(frame).position as int)
            + old(frame).tokens@.subrange(
            skip_dest(old(frame).tokens@, old(frame).position as int, 1),
            old(frame).tokens@.len() as int,
        ),
{
    capture_block(frame)
}



// ---------------------------------------------------------------------------
// The mathematical mirror of a run: ghost state, view-level scans, and the
// lemmas that carry the tape-level facts up to views.
// ---------------------------------------------------------------------------

/// The view of one running frame.
#[verifier::ext_equal]
pub struct FrameS {
    pub tape: Seq<TokenS>,
    pub pos: int,
    pub vars: Map<Seq<char>, Map<Option<Seq<char>>, ExprS>>,
    pub loops: Seq<usize>,
    pub parens: Seq<i64>,
}

/// The view of the shared registers.
#[verifier::ext_equal]
pub struct RegsS {
    pub defs: Map<Seq<char>, Seq<TokenS>>,
    pub funcs: Map<Seq<char>, Seq<TokenS>>,
    pub argreg: Map<Option<Seq<char>>, ExprS>,
    pub output: Seq<char>,
    pub inputs: Seq<String>,
}

impl View for Frame {
    type V = FrameS;

    open spec fn view(&self) -> FrameS {
        FrameS {
            tape: tape_view(self.tokens@),
            pos: self.position as int,
            vars: self.vars@,
            loops: self.loop_start@,
            parens: self.paren_counter@,
        }
    }
}

impl View for Registers {
    type V = RegsS;

    open spec fn view(&self) -> RegsS {
        RegsS {
            defs: self.defs@,
            funcs: self.funcs@,
            argreg: self.argreg@,
            output: self.output@,
            inputs: self.input_lines@,
        }
    }
}

/// `close_idx` read off the tape's view.
pub open spec fn close_idx_v(t: Seq<TokenS>, pos: int, paren: int) -> int
    decreases t.len() - pos,
{
    if pos < 0 || pos >= t.len() {
        t.len() as int
    } else {
        match t[pos] {
            TokenS::Function(_) => close_idx_v(t, pos + 1, paren + 1),
            TokenS::If(_, _) => close_idx_v(t, pos + 1, paren + 1),
            TokenS::Loop(_, _) => close_idx_v(t, pos + 1, paren + 1),
            TokenS::LBrack => close_idx_v(t, pos + 1, paren + 1),
            TokenS::RBrack => if paren == 1 {
                pos
            } else {
                close_idx_v(t, pos + 1, paren - 1)
            },
            _ => close_idx_v(t, pos + 1, paren),
        }
    }
}

/// `skip_dest` read off the tape's view.
pub open spec fn skip_dest_v(t: Seq<TokenS>, pos: int, paren: int) -> int {
    let c = close_idx_v(t, pos, paren);
    if c < t.len() {
        c + 1
    } else {
        t.len() as int
    }
}

/// The balanced-block scan agrees with its view-level twin.
pub proof fn lemma_close_idx_lift(t: Seq<Token>, pos: int, paren: int)
    ensures
        close_idx(t, pos, paren) == close_idx_v(tape_view(t), pos, paren),
        skip_dest(t, pos, paren) == skip_dest_v(tape_view(t), pos, paren),
    decreases t.len() - pos,
{
    broadcast use crate::token::lemma_tape_view;

    if 0 <= pos < t.len() {
        match t[pos] {
            Token::RBrack => {
                if paren != 1 {
                    lemma_close_idx_lift(t, pos + 1, paren - 1);
                }
            },
            Token::Function(_) => lemma_close_idx_lift(t, pos + 1, paren + 1),
            Token::If(_, _) => lemma_close_idx_lift(t, pos + 1, paren + 1),
            Token::Loop(_, _) => lemma_close_idx_lift(t, pos + 1, paren + 1),
            Token::LBrack => lemma_close_idx_lift(t, pos + 1, paren + 1),
            _ => lemma_close_idx_lift(t, pos + 1, paren),
        }
    }
}

/// A tape view distributes over subranges.
pub proof fn lemma_tape_view_subrange(t: Seq<Token>, a: int, b: int)
    requires
        0 <= a <= b <= t.len(),
    ensures
        tape_view(t.subrange(a, b)) == tape_view(t).subrange(a, b),
{
    broadcast use crate::token::lemma_tape_view;

    assert(tape_view(t.subrange(a, b)).len() == b - a);
    assert(tape_view(t).len() == t.len());
    assert(tape_view(t.subrange(a, b)) =~= tape_view(t).subrange(a, b)) by {
        assert forall|j: int| 0 <= j < b - a implies tape_view(t.subrange(a, b))[j] == tape_view(
            t,
        ).subrange(a, b)[j] by {
            assert(t.subrange(a, b)[j] == t[a + j]);
            assert(tape_view(t.subrange(a, b))[j] == crate::token::token_view(
                t.subrange(a, b)[j],
            ));
            assert(tape_view(t)[a + j] == crate::token::token_view(t[a + j]));
        }
    }
}

/// A tape view distributes over reversal.
pub proof fn lemma_tape_view_reverse(t: Seq<Token>)
    ensures
        tape_view(t.reverse()) == tape_view(t).reverse(),
{
    broadcast use crate::token::lemma_tape_view;

    assert(tape_view(t.reverse()).len() == t.len());
    assert(tape_view(t).len() == t.len());
    assert(tape_view(t.reverse()) =~= tape_view(t).reverse()) by {
        assert forall|j: int| 0 <= j < t.len() implies tape_view(t.reverse())[j] == tape_view(
            t,
        ).reverse()[j] by {
            assert(t.reverse()[j] == t[t.len() - 1 - j]);
            assert(tape_view(t.reverse())[j] == crate::token::token_view(t.reverse()[j]));
            assert(tape_view(t)[t.len() - 1 - j] == crate::token::token_view(t[t.len() - 1 - j]));
        }
    }
}

/// A tape view distributes over removal of one element.
pub proof fn lemma_tape_view_remove(t: Seq<Token>, p: int)
    requires
        0 <= p < t.len(),
    ensures
        tape_view(t.remove(p)) == tape_view(t).remove(p),
{
    broadcast use crate::token::lemma_tape_view;

    assert(t.remove(p) =~= t.subrange(0, p) + t.subrange(p + 1, t.len() as int));
    lemma_tape_view_subrange(t, 0, p);
    lemma_tape_view_subrange(t, p + 1, t.len() as int);
    lemma_tape_view_concat(t.subrange(0, p), t.subrange(p + 1, t.len() as int));
    assert(tape_view(t).remove(p) =~= tape_view(t).subrange(0, p) + tape_view(t).subrange(
        p + 1,
        tape_view(t).len() as int,
    ));
}

/// `semi_end` read off the tape's view.
pub open spec fn semi_end_v(t: Seq<TokenS>, i: int) -> int
    decreases t.len() - i,
{
    if 0 <= i < t.len() && (t[i] is Semicolon) {
        semi_end_v(t, i + 1)
    } else {
        i
    }
}

pub proof fn lemma_semi_end_v_range(t: Seq<TokenS>, i: int)
    requires
        0 <= i <= t.len(),
    ensures
        i <= semi_end_v(t, i) <= t.len(),
    decreases t.len() - i,
{
    if i < t.len() && (t[i] is Semicolon) {
        lemma_semi_end_v_range(t, i + 1);
    }
}

/// `outstr_text` read off the tape's view.
pub open spec fn outstr_text_v(t: Seq<TokenS>, i: int) -> Seq<char>
    decreases t.len() - i,
    via outstr_text_v_dec
{
    if i < 0 || i >= t.len() {
        Seq::empty()
    } else {
        match t[i] {
            TokenS::Str(x) => x + outstr_text_v(t, semi_end_v(t, i + 1)),
            _ => Seq::empty(),
        }
    }
}

#[via_fn]
proof fn outstr_text_v_dec(t: Seq<TokenS>, i: int) {
    if 0 <= i < t.len() {
        lemma_semi_end_v_range(t, i + 1);
    }
}

/// `outstr_end` read off the tape's view.
pub open spec fn outstr_end_v(t: Seq<TokenS>, i: int) -> int
    decreases t.len() - i,
    via outstr_end_v_dec
{
    if i < 0 || i >= t.len() {
        i
    } else {
        match t[i] {
            TokenS::Str(x) => outstr_end_v(t, semi_end_v(t, i + 1)),
            _ => i,
        }
    }
}

#[via_fn]
proof fn outstr_end_v_dec(t: Seq<TokenS>, i: int) {
    if 0 <= i < t.len() {
        lemma_semi_end_v_range(t, i + 1);
    }
}

/// The literal-output scan agrees with its view-level twin.
pub proof fn lemma_outstr_lift(t: Seq<Token>, i: int)
    ensures
        semi_end(t, i) == semi_end_v(tape_view(t), i),
        outstr_text(t, i) == outstr_text_v(tape_view(t), i),
        outstr_end(t, i) == outstr_end_v(tape_view(t), i),
    decreases t.len() - i, 1int,
{
    broadcast use crate::token::lemma_tape_view;

    lemma_semi_lift(t, i);
    if 0 <= i < t.len() {
        assert(tape_view(t).len() == t.len());
        assert(tape_view(t)[i] == crate::token::token_view(t[i]));
        match t[i] {
            Token::Str(x) => {
                lemma_semi_lift(t, i + 1);
                lemma_semi_end_range(t, i + 1);
                lemma_outstr_lift(t, semi_end(t, i + 1));
            },
            _ => {},
        }
    }
}

/// The semicolon run agrees with its view-level twin.
pub proof fn lemma_semi_lift(t: Seq<Token>, i: int)
    ensures
        semi_end(t, i) == semi_end_v(tape_view(t), i),
    decreases t.len() - i, 0int,
{
    broadcast use crate::token::lemma_tape_view;

    assert(tape_view(t).len() == t.len());
    if 0 <= i < t.len() {
        assert(tape_view(t)[i] == crate::token::token_view(t[i]));
        if t[i] is Semicolon {
            lemma_semi_lift(t, i + 1);
        }
    }
}

// ---------------------------------------------------------------------------
// Value lookup and index resolution.
// ---------------------------------------------------------------------------

/// The index string an indexed control token resolves to: the scalar slot
/// of the named variable, printed; `None` when the token carries no index
/// or the variable is unset.
pub open spec fn resolve_index_s(
    vars: Map<Seq<char>, Map<Option<Seq<char>>, ExprS>>,
    idx: Option<Seq<char>>,
) -> Option<Seq<char>> {
    match idx {
        Option::None => Option::None,
        Option::Some(i) => if vars.contains_key(i) && vars[i].contains_key(Option::None) {
            Option::Some(to_seq_s(vars[i][Option::None]))
        } else {
            Option::None
        },
    }
}

/// The value stored under `(name, index)`, if any.
pub open spec fn lookup_s(
    vars: Map<Seq<char>, Map<Option<Seq<char>>, ExprS>>,
    name: Seq<char>,
    idx: Option<Seq<char>>,
) -> Option<ExprS> {
    if vars.contains_key(name) && vars[name].contains_key(idx) {
        Option::Some(vars[name][idx])
    } else {
        Option::None
    }
}

/// Resolve an optional index through the scope, as every indexed control
/// form does.
pub fn resolve_index(vars: &Scope, index: &Option<String>) -> (r: Option<String>)
    requires
        vars.wf(),
    ensures
        opt_view(r) == resolve_index_s(vars@, opt_view(*index)),
{
    match index {
        Option::None => Option::None,
        Option::Some(i) => {
            match vars.get_bucket(i) {
                Option::Some(b) => {
                    match b.get(&Option::None) {
                        Option::Some(v) => {
                            let copied = crate::expr::copy_expr(v);
                            Option::Some(Expr::parse_exp_string(copied))
                        },
                        Option::None => Option::None,
                    }
                },
                Option::None => Option::None,
            }
        },
    }
}

/// Fetch a copy of the value stored under `(name, index)`.
pub fn lookup(vars: &Scope, name: &String, idx: &Option<String>) -> (r: Option<Expr>)
    requires
        vars.wf(),
    ensures
        match r {
            Option::Some(v) => lookup_s(vars@, name@, opt_view(*idx)) == Option::Some(v@),
            Option::None => lookup_s(vars@, name@, opt_view(*idx)) is None,
        },
{
    match vars.get_bucket(name) {
        Option::Some(b) => {
            match b.get(idx) {
                Option::Some(v) => Option::Some(crate::expr::copy_expr(v)),
                Option::None => Option::None,
            }
        },
        Option::None => Option::None,
    }
}

// ---------------------------------------------------------------------------
// The per-token transitions of the evaluator's state machine.
// ---------------------------------------------------------------------------

/// A loop header.  A true condition records the loop's start and opens a
/// block; a false one -- and an unset condition variable resolves to the
/// neutral value, so it counts as false -- skips the whole block,
/// recording nothing and writing nothing: the body runs zero times.
pub fn loop_token(frame: &mut Frame, index: Option<String>, name: String)
    requires
        old(frame).wf(),
        old(frame).position < old(frame).tokens@.len(),
    ensures
        final(frame).wf(),
        final(frame).tokens == old(frame).tokens,
        final(frame).vars == old(frame).vars,
        ({
            let iv = resolve_index_s(old(frame).vars@, opt_view(index));
            let cond = match lookup_s(old(frame).vars@, name@, iv) {
                Option::Some(v) => to_bool_s(v),
                Option::None => false,
            };
            if cond {
                final(frame).position == old(frame).position + 1 && final(frame).loop_start@
                    == old(frame).loop_start@.push(old(frame).position) && final(frame).paren_counter@ == old(frame).paren_counter@.push(1i64)
            } else {
                final(frame).position == skip_dest(
                    old(frame).tokens@,
                    old(frame).position as int,
                    0,
                ) && final(frame).loop_start == old(frame).loop_start && final(frame).paren_counter == old(frame).paren_counter
            }
        }),
{
    // reading the length ties the tape's ghost view to the machine word,
    // so the cursor can step without an overflow worry
    let _tape_len = frame.tokens.len();
    let idx_eval = resolve_index(&frame.vars, &index);
    let cond: bool = match lookup(&frame.vars, &name, &idx_eval) {
        Option::Some(v) => Expr::parse_exp_boolean(v),
        Option::None => false,
    };
    if cond {
        frame.loop_start.push(frame.position);
        frame.position = frame.position + 1;
        frame.paren_counter.push(1);
    } else {
        skip_loop(frame, 0);
    }
}

/// A conditional header.  The innermost nesting counter is raised first;
/// a true condition enters the block, a false one -- an unset condition
/// variable resolves to the neutral value, so it counts as false -- skips
/// it and lowers the counter again.
pub fn if_token(frame: &mut Frame, index: Option<String>, name: String)
    requires
        old(frame).wf(),
        old(frame).position < old(frame).tokens@.len(),
    ensures
        final(frame).wf(),
        final(frame).tokens == old(frame).tokens,
        final(frame).vars == old(frame).vars,
        final(frame).loop_start == old(frame).loop_start,
        ({
            let raised = if old(frame).paren_counter@.len() > 0 {
                old(frame).paren_counter@.drop_last().push(
                    old(frame).paren_counter@.last().wrapping_add(1),
                )
            } else {
                old(frame).paren_counter@.push(1i64)
            };
            let iv = resolve_index_s(old(frame).vars@, opt_view(index));
            let cond = match lookup_s(old(frame).vars@, name@, iv) {
                Option::Some(v) => to_bool_s(v),
                Option::None => false,
            };
            if cond {
                final(frame).position == old(frame).position + 1 && final(frame).paren_counter@
                    == raised
            } else {
                final(frame).position == skip_dest(
                    old(frame).tokens@,
                    old(frame).position as int,
                    0,
                ) && final(frame).paren_counter@ == raised.drop_last().push(
                    raised.last().wrapping_add(-1i64),
                )
            }
        }),
{
    // reading the length ties the tape's ghost view to the machine word,
    // so the cursor can step without an overflow worry
    let _tape_len = frame.tokens.len();
    match frame.paren_counter.pop() {
        Option::Some(count) => {
            frame.paren_counter.push(count.wrapping_add(1));
        },
        Option::None => {
            frame.paren_counter.push(1);
        },
    }
    let idx_eval = resolve_index(&frame.vars, &index);
    let cond: bool = match lookup(&frame.vars, &name, &idx_eval) {
        Option::Some(v) => Expr::parse_exp_boolean(v),
        Option::None => false,
    };
    if cond {
        frame.position = frame.position + 1;
    } else {
        skip_loop(frame, 0);
        match frame.paren_counter.pop() {
            Option::Some(count) => {
                frame.paren_counter.push(count.wrapping_add(-1i64));
            },
            Option::None => {},
        }
    }
}

/// A break.  The innermost recorded loop start is popped and the cursor
/// jumps there, then skips forward over that one balanced block: the loop
/// is left without re-testing its condition, and execution resumes right
/// after its closing brace.
pub fn break_token(frame: &mut Frame)
    requires
        old(frame).wf(),
        old(frame).position < old(frame).tokens@.len(),
    ensures
        final(frame).wf(),
        final(frame).tokens == old(frame).tokens,
        final(frame).vars == old(frame).vars,
        final(frame).paren_counter == old(frame).paren_counter,
        ({
            let t = old(frame).tokens@;
            if old(frame).loop_start@.len() > 0 {
                let back = old(frame).loop_start@.last() as int;
                let from = if back > t.len() {
                    t.len() as int
                } else {
                    back
                };
                final(frame).loop_start@ == old(frame).loop_start@.drop_last() && final(frame).position == skip_dest(t, from, 0)
            } else {
                final(frame).loop_start@ == old(frame).loop_start@ && final(frame).position
                    == skip_dest(t, old(frame).position + 1, 0)
            }
        }),
{
    // reading the length ties the tape's ghost view to the machine word,
    // so the cursor can step without an overflow worry
    let _tape_len = frame.tokens.len();
    frame.position = frame.position + 1;
    match frame.loop_start.pop() {
        Option::Some(p) => {
            if p > frame.tokens.len() {
                frame.position = frame.tokens.len();
            } else {
                frame.position = p;
            }
        },
        Option::None => {},
    }
    skip_loop(frame, 0);
}

/// A closing brace.  The innermost nesting counter is lowered; at zero the
/// block that just closed was a loop body, so the cursor jumps back to the
/// recorded loop start to re-test its condition.
pub fn rbrack_token(frame: &mut Frame)
    requires
        old(frame).wf(),
        old(frame).position < old(frame).tokens@.len(),
    ensures
        final(frame).wf(),
        final(frame).tokens == old(frame).tokens,
        final(frame).vars == old(frame).vars,
        final(frame).position <= old(frame).tokens@.len(),
        ({
            let pc = old(frame).paren_counter@;
            let ls = old(frame).loop_start@;
            if pc.len() > 0 {
                let c = pc.last().wrapping_add(-1i64);
                if c == 0 {
                    final(frame).paren_counter@ == pc.drop_last() && (if ls.len() > 0 {
                        final(frame).loop_start@ == ls.drop_last() && final(frame).position == (
                        if ls.last() > old(frame).tokens@.len() {
                            old(frame).tokens@.len() as int
                        } else {
                            ls.last() as int
                        })
                    } else {
                        final(frame).loop_start@ == ls && final(frame).position == old(frame).position + 1
                    })
                } else {
                    final(frame).paren_counter@ == pc.drop_last().push(c) && final(frame).loop_start@ == ls && final(frame).position == old(frame).position + 1
                }
            } else {
                final(frame).paren_counter@ == pc && final(frame).loop_start@ == ls && final(frame).position == old(frame).position + 1
            }
        }),
{
    // reading the length ties the tape's ghost view to the machine word,
    // so the cursor can step without an overflow worry
    let _tape_len = frame.tokens.len();
    frame.position = frame.position + 1;
    match frame.paren_counter.pop() {
        Option::Some(count) => {
            let c = count.wrapping_add(-1i64);
            if c == 0 {
                match frame.loop_start.pop() {
                    Option::Some(p) => {
                        if p > frame.tokens.len() {
                            frame.position = frame.tokens.len();
                        } else {
                            frame.position = p;
                        }
                    },
                    Option::None => {},
                }
            } else {
                frame.paren_counter.push(c);
            }
        },
        Option::None => {},
    }
}

/// A kill statement: the whole bucket under the name goes, whatever the
/// attached index says -- the index is read by the lexer but deliberately
/// has no effect here.
pub fn kill_token(frame: &mut Frame, name: String)
    requires
        old(frame).wf(),
        old(frame).position < old(frame).tokens@.len(),
    ensures
        final(frame).wf(),
        final(frame).tokens == old(frame).tokens,
        final(frame).loop_start == old(frame).loop_start,
        final(frame).paren_counter == old(frame).paren_counter,
        final(frame).position == old(frame).position + 1,
        final(frame).vars@ == old(frame).vars@.remove(name@),
{
    // reading the length ties the tape's ghost view to the machine word,
    // so the cursor can step without an overflow worry
    let _tape_len = frame.tokens.len();
    frame.position = frame.position + 1;
    frame.vars.remove_name(&name);
}

/// What an output statement appends: the named value's printed text, or
/// nothing when the variable is unset or still pending.
pub open spec fn output_text_s(
    vars: Map<Seq<char>, Map<Option<Seq<char>>, ExprS>>,
    name: Seq<char>,
    idx: Option<Seq<char>>,
) -> Seq<char> {
    match lookup_s(vars, name, idx) {
        Option::Some(v) => match v {
            ExprS::Bool(_) => to_seq_s(v),
            ExprS::Int(_) => to_seq_s(v),
            ExprS::Float(_) => to_seq_s(v),
            ExprS::Str(_) => to_seq_s(v),
            _ => Seq::empty(),
        },
        Option::None => Seq::empty(),
    }
}

/// A value output statement: append the named variable's printed text to
/// the shared output buffer.
pub fn output_token(frame: &mut Frame, regs: &mut Registers, index: Option<String>, name: String)
    requires
        old(frame).wf(),
        old(regs).wf(),
        old(frame).position < old(frame).tokens@.len(),
    ensures
        final(frame).wf(),
        final(regs).wf(),
        final(frame).tokens == old(frame).tokens,
        final(frame).vars == old(frame).vars,
        final(frame).loop_start == old(frame).loop_start,
        final(frame).paren_counter == old(frame).paren_counter,
        final(frame).position == old(frame).position + 1,
        final(regs).defs == old(regs).defs,
        final(regs).funcs == old(regs).funcs,
        final(regs).argreg == old(regs).argreg,
        final(regs).input_lines == old(regs).input_lines,
        final(regs).output@ == old(regs).output@ + output_text_s(
            old(frame).vars@,
            name@,
            resolve_index_s(old(frame).vars@, opt_view(index)),
        ),
{
    // reading the length ties the tape's ghost view to the machine word,
    // so the cursor can step without an overflow worry
    let _tape_len = frame.tokens.len();
    frame.position = frame.position + 1;
    let idx_eval = resolve_index(&frame.vars, &index);
    match lookup(&frame.vars, &name, &idx_eval) {
        Option::Some(v) => {
            let ground: bool = match &v {
                Expr::Bool(_) => true,
                Expr::Int(_) => true,
                Expr::Float(_) => true,
                Expr::Str(_) => true,
                _ => false,
            };
            if ground {
                let s = Expr::parse_exp_string(v);
                regs.output.append(s.as_str());
            } else {
                proof {
                    assert(final(regs).output@ =~= old(regs).output@ + Seq::<char>::empty());
                }
            }
        },
        Option::None => {
            proof {
                assert(final(regs).output@ =~= old(regs).output@ + Seq::<char>::empty());
            }
        },
    }
}

/// The first position at or after `i` that does not hold a semicolon.
pub open spec fn semi_end(t: Seq<Token>, i: int) -> int
    decreases t.len() - i,
{
    if 0 <= i < t.len() && (t[i] is Semicolon) {
        semi_end(t, i + 1)
    } else {
        i
    }
}

/// A semicolon run never moves backward nor past the end of the tape.
pub proof fn lemma_semi_end_range(t: Seq<Token>, i: int)
    requires
        0 <= i <= t.len(),
    ensures
        i <= semi_end(t, i) <= t.len(),
    decreases t.len() - i,
{
    if i < t.len() && (t[i] is Semicolon) {
        lemma_semi_end_range(t, i + 1);
    }
}

/// What a literal-string output appends: each following string literal in
/// turn, the semicolons that chain them skipped, until something else is
/// reached.
pub open spec fn outstr_text(t: Seq<Token>, i: int) -> Seq<char>
    decreases t.len() - i,
    via outstr_text_dec
{
    if i < 0 || i >= t.len() {
        Seq::empty()
    } else {
        match t[i] {
            Token::Str(x) => x@ + outstr_text(t, semi_end(t, i + 1)),
            _ => Seq::empty(),
        }
    }
}

#[via_fn]
proof fn outstr_text_dec(t: Seq<Token>, i: int) {
    if 0 <= i < t.len() {
        lemma_semi_end_range(t, i + 1);
    }
}

/// Where a literal-string output scan leaves the cursor.
pub open spec fn outstr_end(t: Seq<Token>, i: int) -> int
    decreases t.len() - i,
    via outstr_end_dec
{
    if i < 0 || i >= t.len() {
        i
    } else {
        match t[i] {
            Token::Str(x) => outstr_end(t, semi_end(t, i + 1)),
            _ => i,
        }
    }
}

#[via_fn]
proof fn outstr_end_dec(t: Seq<Token>, i: int) {
    if 0 <= i < t.len() {
        lemma_semi_end_range(t, i + 1);
    }
}

/// A literal-string output: append each following string literal, skipping
/// the semicolons that chain them, until something else is reached.  The
/// appended text and the final cursor are pinned to the tape.
#[verifier::loop_isolation(false)]
pub fn output_string(frame: &mut Frame, regs: &mut Registers)
    requires
        old(frame).wf(),
        old(regs).wf(),
        old(frame).position <= old(frame).tokens@.len(),
    ensures
        final(frame).wf(),
        final(regs).wf(),
        final(frame).tokens == old(frame).tokens,
        final(frame).vars == old(frame).vars,
        final(frame).loop_start == old(frame).loop_start,
        final(frame).paren_counter == old(frame).paren_counter,
        old(frame).position <= final(frame).position <= old(frame).tokens@.len(),
        final(frame).position == outstr_end(old(frame).tokens@, old(frame).position as int),
        final(regs).defs == old(regs).defs,
        final(regs).funcs == old(regs).funcs,
        final(regs).argreg == old(regs).argreg,
        final(regs).input_lines == old(regs).input_lines,
        final(regs).output@ == old(regs).output@ + outstr_text(
            old(frame).tokens@,
            old(frame).position as int,
        ),
{
    let ghost t = frame.tokens@;
    let ghost p0 = frame.position as int;
    loop
        invariant
            frame.wf(),
            regs.wf(),
            frame.tokens == old(frame).tokens,
            frame.vars == old(frame).vars,
            frame.loop_start == old(frame).loop_start,
            frame.paren_counter == old(frame).paren_counter,
            old(frame).position <= frame.position <= frame.tokens@.len(),
            regs.defs == old(regs).defs,
            regs.funcs == old(regs).funcs,
            regs.argreg == old(regs).argreg,
            regs.input_lines == old(regs).input_lines,
            old(regs).output@ + outstr_text(t, p0) =~= regs.output@ + outstr_text(
                t,
                frame.position as int,
            ),
            outstr_end(t, p0) == outstr_end(t, frame.position as int),
        decreases frame.tokens@.len() - frame.position,
    {
        if frame.position >= frame.tokens.len() {
            break ;
        }
        let piece: Option<String> = match &frame.tokens[frame.position] {
            Token::Str(s) => Option::Some(s.clone()),
            _ => Option::None,
        };
        match piece {
            Option::Some(s) => {
                let ghost at = frame.position as int;
                frame.position = frame.position + 1;
                regs.output.append(s.as_str());
                let ghost p_in = frame.position as int;
                proof {
                    lemma_semi_end_range(t, at + 1);
                }
                loop
                    invariant
                        frame.wf(),
                        frame.tokens == old(frame).tokens,
                        frame.vars == old(frame).vars,
                        frame.loop_start == old(frame).loop_start,
                        frame.paren_counter == old(frame).paren_counter,
                        p_in <= frame.position <= frame.tokens@.len(),
                        old(frame).position <= frame.position,
                        semi_end(t, p_in) == semi_end(t, frame.position as int),
                    decreases frame.tokens@.len() - frame.position,
                {
                    if frame.position >= frame.tokens.len() {
                        break ;
                    }
                    let is_semi: bool = match &frame.tokens[frame.position] {
                        Token::Semicolon => true,
                        _ => false,
                    };
                    if is_semi {
                        frame.position = frame.position + 1;
                    } else {
                        break ;
                    }
                }
                proof {
                    assert(semi_end(t, frame.position as int) == frame.position as int);
                    assert(old(regs).output@ + outstr_text(t, p0) =~= regs.output@ + outstr_text(
                        t,
                        frame.position as int,
                    ));
                }
            },
            Option::None => {
                break ;
            },
        }
    }
    proof {
        assert(outstr_text(t, frame.position as int) =~= Seq::<char>::empty());
        assert(final(regs).output@ =~= old(regs).output@ + outstr_text(t, p0));
    }
}

/// An input request: consume the next queued input line (empty when the
/// queue has run dry) and store it as a string under `(name, index)`.
pub fn input_token(frame: &mut Frame, regs: &mut Registers, index: Option<String>, name: String)
    requires
        old(frame).wf(),
        old(regs).wf(),
        old(frame).position < old(frame).tokens@.len(),
    ensures
        final(frame).wf(),
        final(regs).wf(),
        final(frame).tokens == old(frame).tokens,
        final(frame).loop_start == old(frame).loop_start,
        final(frame).paren_counter == old(frame).paren_counter,
        final(frame).position == old(frame).position + 1,
        final(regs).defs == old(regs).defs,
        final(regs).funcs == old(regs).funcs,
        final(regs).argreg == old(regs).argreg,
        final(regs).output == old(regs).output,
        ({
            let line: Seq<char> = if old(regs).input_lines@.len() > 0 {
                old(regs).input_lines@[0]@
            } else {
                Seq::empty()
            };
            let iv = resolve_index_s(old(frame).vars@, opt_view(index));
            final(frame).vars@ == old(frame).vars@.insert(
                name@,
                Scope::bucket_or_empty(old(frame).vars@, name@).insert(iv, ExprS::Str(line)),
            ) && final(regs).input_lines@ == (if old(regs).input_lines@.len() > 0 {
                old(regs).input_lines@.drop_first()
            } else {
                old(regs).input_lines@
            })
        }),
{
    // reading the length ties the tape's ghost view to the machine word,
    // so the cursor can step without an overflow worry
    let _tape_len = frame.tokens.len();
    frame.position = frame.position + 1;
    let line: String = if regs.input_lines.len() > 0 {
        regs.input_lines.remove(0)
    } else {
        String::new()
    };
    let idx_eval = resolve_index(&frame.vars, &index);
    frame.vars.set_value(name, idx_eval, Expr::Str(line));
    proof {
        if old(regs).input_lines@.len() > 0 {
            assert(final(regs).input_lines@ =~= old(regs).input_lines@.drop_first());
        }
    }
}



// ---------------------------------------------------------------------------
// The specification interpreter: a fueled, mathematical run over the view
// state, one clause per transition, that the executable evaluator is held
// to.  The clamps on positions and fuel only make the recursion visibly
// well-founded; along any state the executable code can reach they change
// nothing, since the callees' contracts keep both in range.
// ---------------------------------------------------------------------------

/// What a whole frame run leaves behind: the shared registers, the fuel
/// not yet spent, and how the run ended.
#[verifier::ext_equal]
pub struct FrameRun {
    pub regs: RegsS,
    pub fuel: nat,
    pub verdict: Result<(), Fault>,
}

/// What one expression parse leaves behind.
#[verifier::ext_equal]
pub struct ExpRes {
    pub value: Result<ExprS, Fault>,
    pub pos: int,
    pub vars: Map<Seq<char>, Map<Option<Seq<char>>, ExprS>>,
    pub regs: RegsS,
    pub fuel: nat,
}

pub open spec fn clamp_pos(p: int, lo: int, hi: int) -> int {
    if p < lo {
        lo
    } else if p > hi {
        hi
    } else {
        p
    }
}

pub open spec fn clamp_fuel(f: nat, hi: nat) -> nat {
    if f > hi {
        hi
    } else {
        f
    }
}

/// The placeholder standing where no operator has been read yet.
pub open spec fn missing_op_s() -> TokenS {
    TokenS::Illegal(0, "expected an op"@)
}

/// Absorb one operand: the first is kept, every later one is combined
/// with the pending operator by an immediate reduction.
pub open spec fn combine_s(acc: ExprS, op: TokenS, newv: ExprS, depth: int) -> Result<
    ExprS,
    Fault,
> {
    if acc is New {
        Result::Ok(newv)
    } else {
        crate::binop::reduce_s(ExprS::BinOp(Box::new(acc), op, Box::new(newv)), depth)
    }
}

/// Note one operator token: remembered when none is pending; a second
/// pending operator first closes the running expression off against a
/// false placeholder.
pub open spec fn note_op_s(acc: ExprS, op: TokenS, this: TokenS, depth: int) -> Result<
    (ExprS, TokenS),
    Fault,
> {
    let has_a = !(acc is New);
    let missing = op is Illegal;
    if missing {
        if !has_a {
            Result::Ok((ExprS::Bool(false), op))
        } else {
            Result::Ok((acc, this))
        }
    } else {
        if has_a {
            match crate::binop::reduce_s(
                ExprS::BinOp(Box::new(acc), op, Box::new(ExprS::Bool(false))),
                depth,
            ) {
                Result::Ok(v) => Result::Ok((v, missing_op_s())),
                Result::Err(e) => Result::Err(e),
            }
        } else {
            Result::Ok((acc, op))
        }
    }
}

/// Run one frame to completion: dispatch on the token under the cursor
/// until the tape is exhausted or the fuel is, then tear the frame down.
pub open spec fn run_frame_s(fr: FrameS, rg: RegsS, depth: int, fuel: nat) -> FrameRun
    decreases RECURS_LIMIT - depth, fuel, 3int, 0int,
{
    if fr.pos < 0 || fr.pos >= fr.tape.len() {
        FrameRun { regs: rg, fuel, verdict: Result::Ok(()) }
    } else if fuel == 0 {
        FrameRun { regs: rg, fuel: 0, verdict: Result::Err(Fault::StepLimit) }
    } else {
        let f1 = (fuel - 1) as nat;
        let hi = fr.tape.len() as int;
        match fr.tape[fr.pos] {
            TokenS::If(iv, nm) => {
                let raised = if fr.parens.len() > 0 {
                    fr.parens.drop_last().push(fr.parens.last().wrapping_add(1))
                } else {
                    fr.parens.push(1i64)
                };
                let cond = match lookup_s(fr.vars, nm, resolve_index_s(fr.vars, iv)) {
                    Option::Some(v) => to_bool_s(v),
                    Option::None => false,
                };
                let fr2 = if cond {
                    FrameS { pos: fr.pos + 1, parens: raised, ..fr }
                } else {
                    FrameS {
                        pos: skip_dest_v(fr.tape, fr.pos, 0),
                        parens: raised.drop_last().push(raised.last().wrapping_add(-1i64)),
                        ..fr
                    }
                };
                run_frame_s(fr2, rg, depth, f1)
            },
            TokenS::Loop(iv, nm) => {
                let cond = match lookup_s(fr.vars, nm, resolve_index_s(fr.vars, iv)) {
                    Option::Some(v) => to_bool_s(v),
                    Option::None => false,
                };
                let fr2 = if cond {
                    FrameS {
                        pos: fr.pos + 1,
                        loops: fr.loops.push(fr.pos as usize),
                        parens: fr.parens.push(1i64),
                        ..fr
                    }
                } else {
                    FrameS { pos: skip_dest_v(fr.tape, fr.pos, 0), ..fr }
                };
                run_frame_s(fr2, rg, depth, f1)
            },
            TokenS::Break => {
                let fr2 = if fr.loops.len() > 0 {
                    let back = fr.loops.last() as int;
                    let from = if back > fr.tape.len() {
                        fr.tape.len() as int
                    } else {
                        back
                    };
                    FrameS {
                        pos: skip_dest_v(fr.tape, from, 0),
                        loops: fr.loops.drop_last(),
                        ..fr
                    }
                } else {
                    FrameS { pos: skip_dest_v(fr.tape, fr.pos + 1, 0), ..fr }
                };
                run_frame_s(fr2, rg, depth, f1)
            },
            TokenS::RBrack => {
                let fr2 = if fr.parens.len() > 0 {
                    let c = fr.parens.last().wrapping_add(-1i64);
                    if c == 0 {
                        if fr.loops.len() > 0 {
                            let back = fr.loops.last() as int;
                            let dest = if back > fr.tape.len() {
                                fr.tape.len() as int
                            } else {
                                back
                            };
                            FrameS {
                                pos: dest,
                                loops: fr.loops.drop_last(),
                                parens: fr.parens.drop_last(),
                                ..fr
                            }
                        } else {
                            FrameS { pos: fr.pos + 1, parens: fr.parens.drop_last(), ..fr }
                        }
                    } else {
                        FrameS { pos: fr.pos + 1, parens: fr.parens.drop_last().push(c), ..fr }
                    }
                } else {
                    FrameS { pos: fr.pos + 1, ..fr }
                };
                run_frame_s(fr2, rg, depth, f1)
            },
            TokenS::Argreg(iv) => {
                let idxv = resolve_index_s(fr.vars, iv);
                let e = eval_exp_s(
                    fr.tape,
                    fr.pos + 1,
                    fr.vars,
                    rg,
                    idxv,
                    "@"@,
                    ExprS::New,
                    missing_op_s(),
                    depth,
                    f1,
                );
                match e.value {
                    Result::Err(f) => FrameRun { regs: e.regs, fuel: e.fuel, verdict: Result::Err(f) },
                    Result::Ok(v) => {
                        let rg2 = RegsS { argreg: e.regs.argreg.insert(idxv, v), ..e.regs };
                        let fr2 = FrameS {
                            pos: clamp_pos(e.pos, fr.pos + 1, hi),
                            vars: e.vars,
                            ..fr
                        };
                        run_frame_s(fr2, rg2, depth, clamp_fuel(e.fuel, f1))
                    },
                }
            },
            TokenS::Kill(_, nm) => {
                let fr2 = FrameS { pos: fr.pos + 1, vars: fr.vars.remove(nm), ..fr };
                run_frame_s(fr2, rg, depth, f1)
            },
            TokenS::Assign(iv, nm) => {
                let idxv = resolve_index_s(fr.vars, iv);
                let e = eval_exp_s(
                    fr.tape,
                    fr.pos + 1,
                    fr.vars,
                    rg,
                    idxv,
                    nm,
                    ExprS::New,
                    missing_op_s(),
                    depth,
                    f1,
                );
                match e.value {
                    Result::Err(f) => FrameRun { regs: e.regs, fuel: e.fuel, verdict: Result::Err(f) },
                    Result::Ok(_) => {
                        let fr2 = FrameS {
                            pos: clamp_pos(e.pos, fr.pos + 1, hi),
                            vars: e.vars,
                            ..fr
                        };
                        run_frame_s(fr2, e.regs, depth, clamp_fuel(e.fuel, f1))
                    },
                }
            },
            TokenS::Output(iv, nm) => {
                let text = output_text_s(fr.vars, nm, resolve_index_s(fr.vars, iv));
                let rg2 = RegsS { output: rg.output + text, ..rg };
                run_frame_s(FrameS { pos: fr.pos + 1, ..fr }, rg2, depth, f1)
            },
            TokenS::OutputStr => {
                let rg2 = RegsS { output: rg.output + outstr_text_v(fr.tape, fr.pos + 1), ..rg };
                let fr2 = FrameS {
                    pos: clamp_pos(outstr_end_v(fr.tape, fr.pos + 1), fr.pos + 1, hi),
                    ..fr
                };
                run_frame_s(fr2, rg2, depth, f1)
            },
            TokenS::Input(iv, nm) => {
                let line: Seq<char> = if rg.inputs.len() > 0 {
                    rg.inputs[0]@
                } else {
                    Seq::empty()
                };
                let rg2 = RegsS {
                    inputs: if rg.inputs.len() > 0 {
                        rg.inputs.drop_first()
                    } else {
                        rg.inputs
                    },
                    ..rg
                };
                let idxv = resolve_index_s(fr.vars, iv);
                let fr2 = FrameS {
                    pos: fr.pos + 1,
                    vars: fr.vars.insert(
                        nm,
                        Scope::bucket_or_empty(fr.vars, nm).insert(idxv, ExprS::Str(line)),
                    ),
                    ..fr
                };
                run_frame_s(fr2, rg2, depth, f1)
            },
            TokenS::Call(f, a) => {
                let c = call_s(fr.vars, rg, f, a, depth, f1);
                match c.verdict {
                    Result::Err(e) => FrameRun { regs: c.regs, fuel: c.fuel, verdict: Result::Err(e) },
                    Result::Ok(_) => run_frame_s(
                        FrameS { pos: fr.pos + 1, ..fr },
                        c.regs,
                        depth,
                        clamp_fuel(c.fuel, f1),
                    ),
                }
            },
            TokenS::Def(nm) => {
                let t1 = fr.tape.remove(fr.pos);
                if fr.pos < t1.len() && (t1[fr.pos] is LBrack) {
                    let t2 = t1.remove(fr.pos);
                    let c = close_idx_v(t2, fr.pos, 1);
                    let captured = t2.subrange(fr.pos, c);
                    let fr2 = FrameS {
                        tape: t2.subrange(0, fr.pos) + t2.subrange(
                            skip_dest_v(t2, fr.pos, 1),
                            t2.len() as int,
                        ),
                        ..fr
                    };
                    let rg2 = RegsS { defs: rg.defs.insert(nm, captured.reverse()), ..rg };
                    run_frame_s(fr2, rg2, depth, f1)
                } else {
                    run_frame_s(FrameS { tape: t1, ..fr }, rg, depth, f1)
                }
            },
            TokenS::Insert(nm) => {
                let fr2 = if rg.defs.contains_key(nm) {
                    FrameS {
                        tape: fr.tape.subrange(0, fr.pos) + rg.defs[nm].reverse()
                            + fr.tape.subrange(fr.pos + 1, fr.tape.len() as int),
                        ..fr
                    }
                } else {
                    FrameS { tape: fr.tape.remove(fr.pos), ..fr }
                };
                run_frame_s(fr2, rg, depth, f1)
            },
            TokenS::Function(nm) => {
                let t1 = fr.tape.remove(fr.pos);
                let c = close_idx_v(t1, fr.pos, 1);
                let captured = t1.subrange(fr.pos, c);
                let fr2 = FrameS {
                    tape: t1.subrange(0, fr.pos) + t1.subrange(
                        skip_dest_v(t1, fr.pos, 1),
                        t1.len() as int,
                    ),
                    ..fr
                };
                let rg2 = RegsS { funcs: rg.funcs.insert(nm, captured), ..rg };
                run_frame_s(fr2, rg2, depth, f1)
            },
            _ => run_frame_s(FrameS { pos: fr.pos + 1, ..fr }, rg, depth, f1),
        }
    }
}

/// Parse and evaluate one expression: operands fold strictly left to
/// right, each step reduced at once; the result is stored under
/// `(name, index)` at a terminator.
pub open spec fn eval_exp_s(
    tape: Seq<TokenS>,
    pos: int,
    vars: Map<Seq<char>, Map<Option<Seq<char>>, ExprS>>,
    rg: RegsS,
    idx: Option<Seq<char>>,
    nm: Seq<char>,
    acc: ExprS,
    op: TokenS,
    depth: int,
    fuel: nat,
) -> ExpRes
    decreases RECURS_LIMIT - depth, fuel, 2int, 2 * (tape.len() - pos),
{
    if pos < 0 || pos >= tape.len() {
        ExpRes { value: Result::Ok(acc), pos, vars, regs: rg, fuel }
    } else {
        let hi = tape.len() as int;
        match tape[pos] {
            TokenS::RParen => ExpRes { value: Result::Ok(acc), pos: pos + 1, vars, regs: rg, fuel },
            TokenS::LParen => {
                if fuel == 0 {
                    ExpRes {
                        value: Result::Err(Fault::StepLimit),
                        pos: pos + 1,
                        vars,
                        regs: rg,
                        fuel: 0,
                    }
                } else {
                    let f1 = (fuel - 1) as nat;
                    let inner = eval_exp_s(
                        tape,
                        pos + 1,
                        vars,
                        rg,
                        idx,
                        nm,
                        ExprS::New,
                        missing_op_s(),
                        depth,
                        f1,
                    );
                    match inner.value {
                        Result::Err(e) => ExpRes { value: Result::Err(e), ..inner },
                        Result::Ok(v) => match combine_s(acc, op, v, depth) {
                            Result::Err(e) => ExpRes { value: Result::Err(e), ..inner },
                            Result::Ok(a2) => eval_exp_s(
                                tape,
                                clamp_pos(inner.pos, pos + 1, hi),
                                inner.vars,
                                inner.regs,
                                idx,
                                nm,
                                a2,
                                missing_op_s(),
                                depth,
                                clamp_fuel(inner.fuel, f1),
                            ),
                        },
                    }
                }
            },
            TokenS::Semicolon => {
                let a2 = if acc is New {
                    ExprS::Bool(false)
                } else {
                    acc
                };
                ExpRes {
                    value: Result::Ok(a2),
                    pos: pos + 1,
                    vars: vars.insert(nm, Scope::bucket_or_empty(vars, nm).insert(idx, a2)),
                    regs: rg,
                    fuel,
                }
            },
            TokenS::Call(f, a) => {
                let c = call_s(vars, rg, f, a, depth, fuel);
                match c.verdict {
                    Result::Err(e) => ExpRes {
                        value: Result::Err(e),
                        pos: pos + 1,
                        vars,
                        regs: c.regs,
                        fuel: c.fuel,
                    },
                    Result::Ok(_) => {
                        let newv = if c.regs.argreg.contains_key(Option::None) {
                            c.regs.argreg[Option::None]
                        } else {
                            ExprS::Bool(false)
                        };
                        match combine_s(acc, op, newv, depth) {
                            Result::Err(e) => ExpRes {
                                value: Result::Err(e),
                                pos: pos + 1,
                                vars,
                                regs: c.regs,
                                fuel: c.fuel,
                            },
                            Result::Ok(a2) => eval_exp_s(
                                tape,
                                pos + 1,
                                vars,
                                c.regs,
                                idx,
                                nm,
                                a2,
                                missing_op_s(),
                                depth,
                                clamp_fuel(c.fuel, fuel),
                            ),
                        }
                    },
                }
            },
            TokenS::Argreg(iv) => {
                let idxv = resolve_index_s(vars, iv);
                let newv = if rg.argreg.contains_key(idxv) {
                    rg.argreg[idxv]
                } else {
                    ExprS::Bool(false)
                };
                match combine_s(acc, op, newv, depth) {
                    Result::Err(e) => ExpRes {
                        value: Result::Err(e),
                        pos: pos + 1,
                        vars,
                        regs: rg,
                        fuel,
                    },
                    Result::Ok(a2) => eval_exp_s(
                        tape,
                        pos + 1,
                        vars,
                        rg,
                        idx,
                        nm,
                        a2,
                        missing_op_s(),
                        depth,
                        fuel,
                    ),
                }
            },
            TokenS::Identifier(iv, n) => {
                let newv = match lookup_s(vars, n, iv) {
                    Option::Some(v) => v,
                    Option::None => ExprS::Bool(false),
                };
                match combine_s(acc, op, newv, depth) {
                    Result::Err(e) => ExpRes {
                        value: Result::Err(e),
                        pos: pos + 1,
                        vars,
                        regs: rg,
                        fuel,
                    },
                    Result::Ok(a2) => eval_exp_s(
                        tape,
                        pos + 1,
                        vars,
                        rg,
                        idx,
                        nm,
                        a2,
                        missing_op_s(),
                        depth,
                        fuel,
                    ),
                }
            },
            TokenS::Integer(v) => exp_operand_s(
                tape,
                pos,
                vars,
                rg,
                idx,
                nm,
                acc,
                op,
                ExprS::Int(v),
                depth,
                fuel,
            ),
            TokenS::Float(v) => exp_operand_s(
                tape,
                pos,
                vars,
                rg,
                idx,
                nm,
                acc,
                op,
                ExprS::Float(v),
                depth,
                fuel,
            ),
            TokenS::Bool(v) => exp_operand_s(
                tape,
                pos,
                vars,
                rg,
                idx,
                nm,
                acc,
                op,
                ExprS::Bool(v),
                depth,
                fuel,
            ),
            TokenS::Str(v) => exp_operand_s(
                tape,
                pos,
                vars,
                rg,
                idx,
                nm,
                acc,
                op,
                ExprS::Str(v),
                depth,
                fuel,
            ),
            TokenS::Add => exp_op_s(tape, pos, vars, rg, idx, nm, acc, op, TokenS::Add, depth, fuel),
            TokenS::Sub => exp_op_s(tape, pos, vars, rg, idx, nm, acc, op, TokenS::Sub, depth, fuel),
            TokenS::Multiply => exp_op_s(
                tape,
                pos,
                vars,
                rg,
                idx,
                nm,
                acc,
                op,
                TokenS::Multiply,
                depth,
                fuel,
            ),
            TokenS::Divide => exp_op_s(
                tape,
                pos,
                vars,
                rg,
                idx,
                nm,
                acc,
                op,
                TokenS::Divide,
                depth,
                fuel,
            ),
            TokenS::Mod => exp_op_s(tape, pos, vars, rg, idx, nm, acc, op, TokenS::Mod, depth, fuel),
            TokenS::Equals => exp_op_s(
                tape,
                pos,
                vars,
                rg,
                idx,
                nm,
                acc,
                op,
                TokenS::Equals,
                depth,
                fuel,
            ),
            TokenS::Neq => exp_op_s(tape, pos, vars, rg, idx, nm, acc, op, TokenS::Neq, depth, fuel),
            TokenS::Lt => exp_op_s(tape, pos, vars, rg, idx, nm, acc, op, TokenS::Lt, depth, fuel),
            TokenS::Gt => exp_op_s(tape, pos, vars, rg, idx, nm, acc, op, TokenS::Gt, depth, fuel),
            TokenS::LtEq => exp_op_s(
                tape,
                pos,
                vars,
                rg,
                idx,
                nm,
                acc,
                op,
                TokenS::LtEq,
                depth,
                fuel,
            ),
            TokenS::GtEq => exp_op_s(
                tape,
                pos,
                vars,
                rg,
                idx,
                nm,
                acc,
                op,
                TokenS::GtEq,
                depth,
                fuel,
            ),
            TokenS::Or => exp_op_s(tape, pos, vars, rg, idx, nm, acc, op, TokenS::Or, depth, fuel),
            TokenS::And => exp_op_s(tape, pos, vars, rg, idx, nm, acc, op, TokenS::And, depth, fuel),
            TokenS::Xor => exp_op_s(tape, pos, vars, rg, idx, nm, acc, op, TokenS::Xor, depth, fuel),
            _ => {
                let a2 = if acc is New {
                    ExprS::Bool(false)
                } else {
                    acc
                };
                ExpRes {
                    value: Result::Ok(a2),
                    pos,
                    vars: vars.insert(nm, Scope::bucket_or_empty(vars, nm).insert(idx, a2)),
                    regs: rg,
                    fuel,
                }
            },
        }
    }
}

/// One literal or looked-up operand absorbed into the running expression.
pub open spec fn exp_operand_s(
    tape: Seq<TokenS>,
    pos: int,
    vars: Map<Seq<char>, Map<Option<Seq<char>>, ExprS>>,
    rg: RegsS,
    idx: Option<Seq<char>>,
    nm: Seq<char>,
    acc: ExprS,
    op: TokenS,
    newv: ExprS,
    depth: int,
    fuel: nat,
) -> ExpRes
    decreases RECURS_LIMIT - depth, fuel, 2int, 2 * (tape.len() - pos) - 1,
{
    if pos < 0 || pos >= tape.len() {
        ExpRes { value: Result::Ok(acc), pos, vars, regs: rg, fuel }
    } else {
        match combine_s(acc, op, newv, depth) {
        Result::Err(e) => ExpRes { value: Result::Err(e), pos: pos + 1, vars, regs: rg, fuel },
        Result::Ok(a2) => eval_exp_s(
            tape,
            pos + 1,
            vars,
            rg,
            idx,
            nm,
            a2,
            missing_op_s(),
            depth,
            fuel,
        ),
        }
    }
}

/// One operator token noted into the running expression.
pub open spec fn exp_op_s(
    tape: Seq<TokenS>,
    pos: int,
    vars: Map<Seq<char>, Map<Option<Seq<char>>, ExprS>>,
    rg: RegsS,
    idx: Option<Seq<char>>,
    nm: Seq<char>,
    acc: ExprS,
    op: TokenS,
    this: TokenS,
    depth: int,
    fuel: nat,
) -> ExpRes
    decreases RECURS_LIMIT - depth, fuel, 2int, 2 * (tape.len() - pos) - 1,
{
    if pos < 0 || pos >= tape.len() {
        ExpRes { value: Result::Ok(acc), pos, vars, regs: rg, fuel }
    } else {
        match note_op_s(acc, op, this, depth) {
        Result::Err(e) => ExpRes { value: Result::Err(e), pos: pos + 1, vars, regs: rg, fuel },
        Result::Ok((a2, op2)) => eval_exp_s(tape, pos + 1, vars, rg, idx, nm, a2, op2, depth, fuel),
        }
    }
}

/// Run a registered function: its captured body becomes a fresh frame
/// whose scope is seeded with the caller's argument bucket under the
/// fixed key; past the depth limit the call is silently skipped, and an
/// unregistered name runs an empty body.
pub open spec fn call_s(
    caller_vars: Map<Seq<char>, Map<Option<Seq<char>>, ExprS>>,
    rg: RegsS,
    f: Seq<char>,
    a: Seq<char>,
    depth: int,
    fuel: nat,
) -> FrameRun
    decreases RECURS_LIMIT - depth, fuel, 1int, 0int,
{
    let body: Seq<TokenS> = if rg.funcs.contains_key(f) {
        rg.funcs[f]
    } else {
        Seq::empty()
    };
    let seeded: Map<Seq<char>, Map<Option<Seq<char>>, ExprS>> = if caller_vars.contains_key(a) {
        Map::empty().insert("_@"@, caller_vars[a])
    } else {
        Map::empty()
    };
    if depth + 1 < RECURS_LIMIT as int {
        run_frame_s(
            FrameS { tape: body, pos: 0, vars: seeded, loops: Seq::empty(), parens: Seq::empty() },
            rg,
            depth + 1,
            fuel,
        )
    } else {
        FrameRun { regs: rg, fuel, verdict: Result::Ok(()) }
    }
}

// ---------------------------------------------------------------------------
// Expression parsing, function calls and the main dispatch loop: one
// mutually recursive group, bounded by the shared depth limit and by an
// explicit step budget.
// ---------------------------------------------------------------------------

/// Move a value out of a mutable slot, leaving the uninitialized value.
fn take_expr(e: &mut Expr) -> (r: Expr)
    ensures
        r == *old(e),
        *final(e) == Expr::New,
{
    let mut t = Expr::New;
    core::mem::swap(e, &mut t);
    t
}

/// Move a token out of a mutable slot, leaving the end-of-stream marker.
fn take_token(t: &mut Token) -> (r: Token)
    ensures
        r == *old(t),
        *final(t) == Token::EOF,
{
    let mut tmp = Token::EOF;
    core::mem::swap(t, &mut tmp);
    tmp
}

/// The placeholder that stands where no operator has been read yet.
fn missing_op() -> (r: Token)
    ensures
        r@ == missing_op_s(),
        r is Illegal,
{
    Token::Illegal(0, String::from_str("expected an op"))
}

/// Absorb one operand into the running expression: the first operand is
/// kept as is, every later one is combined with the pending operator by an
/// immediate reduction.
fn note_operand(expr_a: &mut Expr, op: &mut Token, new_exp: Expr, depth: i64) -> (r: Result<
    (),
    Fault,
>)
    requires
        0 <= depth <= RECURS_LIMIT,
    ensures
        match combine_s((*old(expr_a))@, (*old(op))@, new_exp@, depth as int) {
            Result::Ok(v) => r is Ok && (*final(expr_a))@ == v && (*final(op))@ == missing_op_s(),
            Result::Err(e) => r == Result::<(), Fault>::Err(e),
        },
{
    let has_a: bool = match &*expr_a {
        Expr::New => false,
        _ => true,
    };
    if has_a {
        let a = take_expr(expr_a);
        let o = take_token(op);
        match binop::eval_binop(Expr::BinOp(Box::new(a), o, Box::new(new_exp)), depth) {
            Result::Ok(v) => {
                *expr_a = v;
            },
            Result::Err(f) => {
                return Result::Err(f);
            },
        }
    } else {
        *expr_a = new_exp;
    }
    *op = missing_op();
    Result::Ok(())
}

/// Note one operator token: remembered when none is pending, and when one
/// is already pending the running expression is first closed off against
/// a false placeholder.
fn note_op(expr_a: &mut Expr, op: &mut Token, this_op: Token, depth: i64) -> (r: Result<(), Fault>)
    requires
        0 <= depth <= RECURS_LIMIT,
    ensures
        match note_op_s((*old(expr_a))@, (*old(op))@, this_op@, depth as int) {
            Result::Ok((v, o2)) => r is Ok && (*final(expr_a))@ == v && (*final(op))@ == o2,
            Result::Err(e) => r == Result::<(), Fault>::Err(e),
        },
{
    let has_a: bool = match &*expr_a {
        Expr::New => false,
        _ => true,
    };
    let op_missing: bool = match &*op {
        Token::Illegal(_, _) => true,
        _ => false,
    };
    if op_missing {
        if !has_a {
            *expr_a = Expr::Bool(false);
        } else {
            *op = this_op;
        }
    } else {
        if has_a {
            let a = take_expr(expr_a);
            let o = take_token(op);
            match binop::eval_binop(
                Expr::BinOp(Box::new(a), o, Box::new(Expr::Bool(false))),
                depth,
            ) {
                Result::Ok(v) => {
                    *expr_a = v;
                },
                Result::Err(f) => {
                    return Result::Err(f);
                },
            }
            *op = missing_op();
        }
    }
    Result::Ok(())
}


/// What the expression parser reads at the cursor.
enum Step {
    Done,
    Operand(Expr),
    Oper(Token),
    Paren,
    Semi,
    DoCall(String, String),
    Arg(Option<String>),
    Ident(Option<String>, String),
    Terminator,
}

/// What the dispatch loop does for the token at the cursor.
enum Act {
    DoIf(Option<String>, String),
    DoLoop(Option<String>, String),
    DoBreak,
    DoRBrack,
    DoArgreg(Option<String>),
    DoKill(String),
    DoAssign(Option<String>, String),
    DoOutput(Option<String>, String),
    DoOutputStr,
    DoInput(Option<String>, String),
    DoCall(String, String),
    DoDef(String),
    DoInsert(String),
    DoFunction(String),
    Skip,
}

/// Parse and evaluate one expression from the tape, storing the result
/// into the caller's scope under `(name, index)` when the expression ends
/// at a terminator.  The returned value, the scope, the shared registers
/// and the cursor all equal what the specification parse `eval_exp_s`
/// says for the tape.
#[verifier::loop_isolation(false)]
#[verifier::rlimit(100)]
#[verifier::spinoff_prover]
pub fn eval_exp(
    frame: &mut Frame,
    regs: &mut Registers,
    index: Option<String>,
    name: String,
    depth: i64,
    fuel: &mut u64,
) -> (r: Result<Expr, Fault>)
    requires
        1 <= depth <= RECURS_LIMIT,
        old(frame).wf(),
        old(regs).wf(),
        old(frame).position <= old(frame).tokens@.len(),
    ensures
        final(frame).wf(),
        final(regs).wf(),
        final(frame).tokens == old(frame).tokens,
        final(frame).loop_start == old(frame).loop_start,
        final(frame).paren_counter == old(frame).paren_counter,
        old(frame).position <= final(frame).position <= old(frame).tokens@.len(),
        final(frame).vars@.remove(name@) == old(frame).vars@.remove(name@),
        old(regs).output@.is_prefix_of(final(regs).output@),
        *final(fuel) <= *old(fuel),
        ({
            let e = eval_exp_s(
                tape_view(old(frame).tokens@),
                old(frame).position as int,
                old(frame).vars@,
                old(regs)@,
                opt_view(index),
                name@,
                ExprS::New,
                missing_op_s(),
                depth as int,
                *old(fuel) as nat,
            );
            binop::res_view(r) == e.value && final(frame).position as int == e.pos
                && final(frame).vars@ == e.vars && final(regs)@ == e.regs
                && *final(fuel) as nat == e.fuel
        }),
    decreases RECURS_LIMIT - depth, *old(fuel), 1int,
{
    let ghost tv = tape_view(frame.tokens@);
    let ghost p0 = frame.position as int;
    let ghost idxv = opt_view(index);
    let ghost nmv = name@;
    let ghost d = depth as int;
    let ghost e0 = eval_exp_s(
        tv,
        p0,
        frame.vars@,
        regs@,
        idxv,
        nmv,
        ExprS::New,
        missing_op_s(),
        d,
        *fuel as nat,
    );
    let mut expr_a: Expr = Expr::New;
    let mut op: Token = missing_op();
    loop
        invariant
            frame.wf(),
            regs.wf(),
            frame.tokens == old(frame).tokens,
            frame.loop_start == old(frame).loop_start,
            frame.paren_counter == old(frame).paren_counter,
            old(frame).position <= frame.position <= frame.tokens@.len(),
            frame.vars@.remove(name@) == old(frame).vars@.remove(name@),
            old(regs).output@.is_prefix_of(regs.output@),
            *fuel <= *old(fuel),
            e0 == eval_exp_s(
                tv,
                frame.position as int,
                frame.vars@,
                regs@,
                idxv,
                nmv,
                expr_a@,
                op@,
                d,
                *fuel as nat,
            ),
        decreases frame.tokens@.len() - frame.position,
    {
        if frame.position >= frame.tokens.len() {
            break ;
        }
        let ghost pp = frame.position as int;
        let ghost va = frame.vars@;
        let ghost rg = regs@;
        let ghost ac = expr_a@;
        let ghost oo = op@;
        let ghost fu = *fuel as nat;
        proof {
            broadcast use crate::token::lemma_tape_view;

            assert(tv[pp] == crate::token::token_view(frame.tokens@[pp]));
        }
        let step: Step = match &frame.tokens[frame.position] {
            Token::RParen => Step::Done,
            Token::LParen => Step::Paren,
            Token::Semicolon => Step::Semi,
            Token::Call(f, a) => Step::DoCall(f.clone(), a.clone()),
            Token::Argreg(i) => Step::Arg(copy_opt_string(i)),
            Token::Identifier(i, nm) => Step::Ident(copy_opt_string(i), nm.clone()),
            Token::Integer(v) => Step::Operand(Expr::Int(*v)),
            Token::Float(v) => Step::Operand(Expr::Float(*v)),
            Token::Bool(v) => Step::Operand(Expr::Bool(*v)),
            Token::Str(s) => Step::Operand(Expr::Str(s.clone())),
            Token::Add => Step::Oper(Token::Add),
            Token::Sub => Step::Oper(Token::Sub),
            Token::Multiply => Step::Oper(Token::Multiply),
            Token::Divide => Step::Oper(Token::Divide),
            Token::Mod => Step::Oper(Token::Mod),
            Token::Equals => Step::Oper(Token::Equals),
            Token::Neq => Step::Oper(Token::Neq),
            Token::Lt => Step::Oper(Token::Lt),
            Token::Gt => Step::Oper(Token::Gt),
            Token::LtEq => Step::Oper(Token::LtEq),
            Token::GtEq => Step::Oper(Token::GtEq),
            Token::Or => Step::Oper(Token::Or),
            Token::And => Step::Oper(Token::And),
            Token::Xor => Step::Oper(Token::Xor),
            _ => Step::Terminator,
        };
        match step {
            Step::Done => {
                frame.position = frame.position + 1;
                proof {
                    assert(e0 =~~= ExpRes {
                        value: Result::Ok(ac),
                        pos: pp + 1,
                        vars: va,
                        regs: rg,
                        fuel: fu,
                    });
                }
                return Result::Ok(expr_a);
            },
            Step::Paren => {
                frame.position = frame.position + 1;
                if *fuel == 0 {
                    proof {
                        assert(e0 =~~= ExpRes {
                            value: Result::Err(Fault::StepLimit),
                            pos: pp + 1,
                            vars: va,
                            regs: rg,
                            fuel: 0nat,
                        });
                    }
                    return Result::Err(Fault::StepLimit);
                }
                *fuel = *fuel - 1;
                let ghost f1 = *fuel as nat;
                let ghost inner_s = eval_exp_s(
                    tv,
                    pp + 1,
                    va,
                    rg,
                    idxv,
                    nmv,
                    ExprS::New,
                    missing_op_s(),
                    d,
                    f1,
                );
                let inner = match eval_exp(
                    frame,
                    regs,
                    copy_opt_string(&index),
                    name.clone(),
                    depth,
                    fuel,
                ) {
                    Result::Ok(v) => v,
                    Result::Err(f) => {
                        proof {
                            assert(e0 =~~= ExpRes { value: Result::Err(f), ..inner_s });
                        }
                        return Result::Err(f);
                    },
                };
                match note_operand(&mut expr_a, &mut op, inner, depth) {
                    Result::Ok(()) => {
                        proof {
                            assert(clamp_pos(inner_s.pos, pp + 1, tv.len() as int) == inner_s.pos);
                            assert(clamp_fuel(inner_s.fuel, f1) == inner_s.fuel);
                            assert(e0 =~~= eval_exp_s(
                                tv,
                                frame.position as int,
                                frame.vars@,
                                regs@,
                                idxv,
                                nmv,
                                expr_a@,
                                op@,
                                d,
                                *fuel as nat,
                            ));
                        }
                    },
                    Result::Err(f) => {
                        proof {
                            assert(e0 =~~= ExpRes { value: Result::Err(f), ..inner_s });
                        }
                        return Result::Err(f);
                    },
                }
            },
            Step::Semi => {
                frame.position = frame.position + 1;
                let is_new: bool = match &expr_a {
                    Expr::New => true,
                    _ => false,
                };
                if is_new {
                    expr_a = Expr::Bool(false);
                }
                let stored = crate::expr::copy_expr(&expr_a);
                frame.vars.set_value(name.clone(), index, stored);
                proof {
                    assert(frame.vars@.remove(name@) =~= old(frame).vars@.remove(name@));
                    assert(e0 =~~= ExpRes {
                        value: Result::Ok(expr_a@),
                        pos: pp + 1,
                        vars: frame.vars@,
                        regs: rg,
                        fuel: fu,
                    });
                }
                return Result::Ok(expr_a);
            },
            Step::DoCall(fname, aname) => {
                frame.position = frame.position + 1;
                let ghost cs = call_s(va, rg, fname@, aname@, d, fu);
                match call_func(&frame.vars, regs, fname, aname, depth, fuel) {
                    Result::Ok(()) => {},
                    Result::Err(f) => {
                        proof {
                            assert(e0 =~~= ExpRes {
                                value: Result::Err(f),
                                pos: pp + 1,
                                vars: va,
                                regs: cs.regs,
                                fuel: cs.fuel,
                            });
                        }
                        return Result::Err(f);
                    },
                }
                let new_exp: Expr = match regs.argreg.get(&Option::None) {
                    Option::Some(v) => crate::expr::copy_expr(v),
                    Option::None => Expr::Bool(false),
                };
                match note_operand(&mut expr_a, &mut op, new_exp, depth) {
                    Result::Ok(()) => {
                        proof {
                            assert(clamp_fuel(cs.fuel, fu) == cs.fuel);
                            assert(e0 =~~= eval_exp_s(
                                tv,
                                frame.position as int,
                                frame.vars@,
                                regs@,
                                idxv,
                                nmv,
                                expr_a@,
                                op@,
                                d,
                                *fuel as nat,
                            ));
                        }
                    },
                    Result::Err(f) => {
                        proof {
                            assert(e0 =~~= ExpRes {
                                value: Result::Err(f),
                                pos: pp + 1,
                                vars: va,
                                regs: cs.regs,
                                fuel: cs.fuel,
                            });
                        }
                        return Result::Err(f);
                    },
                }
            },
            Step::Arg(i) => {
                frame.position = frame.position + 1;
                let idx_eval = resolve_index(&frame.vars, &i);
                let new_exp: Expr = match regs.argreg.get(&idx_eval) {
                    Option::Some(v) => crate::expr::copy_expr(v),
                    Option::None => Expr::Bool(false),
                };
                match note_operand(&mut expr_a, &mut op, new_exp, depth) {
                    Result::Ok(()) => {
                        proof {
                            assert(e0 =~~= eval_exp_s(
                                tv,
                                frame.position as int,
                                frame.vars@,
                                regs@,
                                idxv,
                                nmv,
                                expr_a@,
                                op@,
                                d,
                                *fuel as nat,
                            ));
                        }
                    },
                    Result::Err(f) => {
                        proof {
                            assert(e0 =~~= ExpRes {
                                value: Result::Err(f),
                                pos: pp + 1,
                                vars: va,
                                regs: rg,
                                fuel: fu,
                            });
                        }
                        return Result::Err(f);
                    },
                }
            },
            Step::Ident(i, nm) => {
                frame.position = frame.position + 1;
                let new_exp: Expr = match lookup(&frame.vars, &nm, &i) {
                    Option::Some(v) => v,
                    Option::None => Expr::Bool(false),
                };
                match note_operand(&mut expr_a, &mut op, new_exp, depth) {
                    Result::Ok(()) => {
                        proof {
                            assert(e0 =~~= eval_exp_s(
                                tv,
                                frame.position as int,
                                frame.vars@,
                                regs@,
                                idxv,
                                nmv,
                                expr_a@,
                                op@,
                                d,
                                *fuel as nat,
                            ));
                        }
                    },
                    Result::Err(f) => {
                        proof {
                            assert(e0 =~~= ExpRes {
                                value: Result::Err(f),
                                pos: pp + 1,
                                vars: va,
                                regs: rg,
                                fuel: fu,
                            });
                        }
                        return Result::Err(f);
                    },
                }
            },
            Step::Operand(new_exp) => {
                frame.position = frame.position + 1;
                let ghost nv = new_exp@;
                match note_operand(&mut expr_a, &mut op, new_exp, depth) {
                    Result::Ok(()) => {
                        proof {
                            assert(e0 =~~= exp_operand_s(tv, pp, va, rg, idxv, nmv, ac, oo, nv, d, fu));
                            assert(e0 =~~= eval_exp_s(
                                tv,
                                frame.position as int,
                                frame.vars@,
                                regs@,
                                idxv,
                                nmv,
                                expr_a@,
                                op@,
                                d,
                                *fuel as nat,
                            ));
                        }
                    },
                    Result::Err(f) => {
                        proof {
                            assert(e0 =~~= exp_operand_s(tv, pp, va, rg, idxv, nmv, ac, oo, nv, d, fu));
                            assert(e0 =~~= ExpRes {
                                value: Result::Err(f),
                                pos: pp + 1,
                                vars: va,
                                regs: rg,
                                fuel: fu,
                            });
                        }
                        return Result::Err(f);
                    },
                }
            },
            Step::Oper(this_op) => {
                frame.position = frame.position + 1;
                let ghost ov = this_op@;
                match note_op(&mut expr_a, &mut op, this_op, depth) {
                    Result::Ok(()) => {
                        proof {
                            assert(e0 =~~= exp_op_s(tv, pp, va, rg, idxv, nmv, ac, oo, ov, d, fu));
                            assert(e0 =~~= eval_exp_s(
                                tv,
                                frame.position as int,
                                frame.vars@,
                                regs@,
                                idxv,
                                nmv,
                                expr_a@,
                                op@,
                                d,
                                *fuel as nat,
                            ));
                        }
                    },
                    Result::Err(f) => {
                        proof {
                            assert(e0 =~~= exp_op_s(tv, pp, va, rg, idxv, nmv, ac, oo, ov, d, fu));
                            assert(e0 =~~= ExpRes {
                                value: Result::Err(f),
                                pos: pp + 1,
                                vars: va,
                                regs: rg,
                                fuel: fu,
                            });
                        }
                        return Result::Err(f);
                    },
                }
            },
            Step::Terminator => {
                let is_new: bool = match &expr_a {
                    Expr::New => true,
                    _ => false,
                };
                if is_new {
                    expr_a = Expr::Bool(false);
                }
                let stored = crate::expr::copy_expr(&expr_a);
                frame.vars.set_value(name.clone(), index, stored);
                proof {
                    assert(frame.vars@.remove(name@) =~= old(frame).vars@.remove(name@));
                    assert(e0 =~~= ExpRes {
                        value: Result::Ok(expr_a@),
                        pos: pp,
                        vars: frame.vars@,
                        regs: rg,
                        fuel: fu,
                    });
                }
                return Result::Ok(expr_a);
            },
        }
    }
    proof {
        broadcast use crate::token::lemma_tape_view;

        assert(tv.len() == frame.tokens@.len());
        assert(e0 =~~= ExpRes {
            value: Result::Ok(expr_a@),
            pos: frame.position as int,
            vars: frame.vars@,
            regs: regs@,
            fuel: *fuel as nat,
        });
    }
    Result::Ok(expr_a)
}


/// A macro insertion: the stored raw token sequence is spliced into the
/// live tape at the cursor, to be executed in place on this pass; the
/// table keeps its copy, so the macro expands again wherever it is next
/// reached.  (The table holds the body reversed; inserting each token at
/// the cursor reverses it back.)  An unknown name just drops the token.
#[verifier::loop_isolation(false)]
pub fn insert_token(frame: &mut Frame, defs: &TokenMap, name: String)
    requires
        old(frame).wf(),
        defs.wf(),
        old(frame).position < old(frame).tokens@.len(),
    ensures
        final(frame).wf(),
        final(frame).vars == old(frame).vars,
        final(frame).loop_start == old(frame).loop_start,
        final(frame).paren_counter == old(frame).paren_counter,
        final(frame).position == old(frame).position,
        final(frame).position <= final(frame).tokens@.len(),
        ({
            let t0 = old(frame).tokens@;
            let pos = old(frame).position as int;
            if defs@.contains_key(name@) {
                tape_view(final(frame).tokens@) == tape_view(t0.subrange(0, pos))
                    + defs@[name@].reverse() + tape_view(t0.subrange(pos + 1, t0.len() as int))
            } else {
                final(frame).tokens@ == t0.remove(pos)
            }
        }),
{
    let ghost t0 = frame.tokens@;
    let ghost pos = frame.position as int;
    frame.tokens.remove(frame.position);
    proof {
        assert(frame.tokens@ =~= t0.subrange(0, pos) + t0.subrange(pos + 1, t0.len() as int));
    }
    match defs.get(&name) {
        Option::Some(b) => {
            let ghost mut ins: Seq<Token> = Seq::empty();
            let mut i: usize = 0;
            proof {
                broadcast use crate::token::lemma_tape_view;

                assert(frame.tokens@ =~= t0.subrange(0, pos) + ins + t0.subrange(
                    pos + 1,
                    t0.len() as int,
                ));
                assert(tape_view(ins) =~= tape_view(b@.subrange(0, 0)).reverse());
            }
            while i < b.len()
                invariant
                    i <= b@.len(),
                    frame.wf(),
                    frame.vars == old(frame).vars,
                    frame.loop_start == old(frame).loop_start,
                    frame.paren_counter == old(frame).paren_counter,
                    frame.position as int == pos,
                    ins.len() == i as int,
                    frame.tokens@ == t0.subrange(0, pos) + ins + t0.subrange(
                        pos + 1,
                        t0.len() as int,
                    ),
                    tape_view(ins) == tape_view(b@.subrange(0, i as int)).reverse(),
                decreases b@.len() - i,
            {
                let c = copy_token(&b[i]);
                proof {
                    broadcast use crate::token::lemma_tape_view;
                }
                let ghost pre = frame.tokens@;
                frame.tokens.insert(frame.position, c);
                proof {
                    broadcast use crate::token::lemma_tape_view;

                    let ins2 = seq![c] + ins;
                    assert(frame.tokens@ =~= t0.subrange(0, pos) + ins2 + t0.subrange(
                        pos + 1,
                        t0.len() as int,
                    ));
                    lemma_tape_view_concat(seq![c], ins);
                    assert(tape_view(seq![c]) =~= seq![crate::token::token_view(c)]);
                    assert(crate::token::token_view(c) == crate::token::token_view(b@[i as int]));
                    assert(tape_view(ins2) =~= tape_view(b@.subrange(0, i as int + 1)).reverse())
                        by {
                        assert(b@.subrange(0, i as int + 1).drop_last() =~= b@.subrange(
                            0,
                            i as int,
                        ));
                        assert(b@.subrange(0, i as int + 1).last() == b@[i as int]);
                    }
                    ins = ins2;
                }
                i = i + 1;
            }
            proof {
                broadcast use crate::token::lemma_tape_view;

                assert(b@.subrange(0, b@.len() as int) =~= b@);
                lemma_tape_view_concat(t0.subrange(0, pos), ins + t0.subrange(
                    pos + 1,
                    t0.len() as int,
                ));
                lemma_tape_view_concat(ins, t0.subrange(pos + 1, t0.len() as int));
                assert(tape_view(frame.tokens@) =~= tape_view(t0.subrange(0, pos)) + defs@[name@]
                    .reverse() + tape_view(t0.subrange(pos + 1, t0.len() as int)));
            }
        },
        Option::None => {},
    }
}

/// Run a registered function: its captured body becomes a fresh frame
/// whose scope is seeded with a copy of the caller's argument bucket under
/// the fixed key.  Beyond the depth limit the call is silently skipped and
/// every shared register is left exactly as it was; an unregistered name
/// runs an empty body, appending nothing.  The registers, the fuel and the
/// verdict all equal what the specification call `call_s` says.
pub fn call_func(
    vars: &Scope,
    regs: &mut Registers,
    fun_name: String,
    arg_name: String,
    depth: i64,
    fuel: &mut u64,
) -> (r: Result<(), Fault>)
    requires
        1 <= depth <= RECURS_LIMIT,
        vars.wf(),
        old(regs).wf(),
    ensures
        final(regs).wf(),
        *final(fuel) <= *old(fuel),
        old(regs).output@.is_prefix_of(final(regs).output@),
        depth + 1 >= RECURS_LIMIT ==> final(regs).defs@ == old(regs).defs@ && final(regs).funcs@
            == old(regs).funcs@ && final(regs).argreg@ == old(regs).argreg@ && final(regs).output@
            == old(regs).output@ && final(regs).input_lines@ == old(regs).input_lines@ && r is Ok,
        !old(regs).funcs@.contains_key(fun_name@) ==> final(regs).defs@ == old(regs).defs@ && final(regs).funcs@ == old(regs).funcs@ && final(regs).argreg@ == old(regs).argreg@ && final(regs).output@ == old(regs).output@ && final(regs).input_lines@ == old(regs).input_lines@
            && r is Ok,
        ({
            let c = call_s(vars@, old(regs)@, fun_name@, arg_name@, depth as int, *old(fuel) as nat);
            final(regs)@ == c.regs && *final(fuel) as nat == c.fuel && r == c.verdict
        }),
    decreases RECURS_LIMIT - depth, *old(fuel), 0int,
{
    let ghost cs = call_s(vars@, regs@, fun_name@, arg_name@, depth as int, *fuel as nat);
    let body: Vec<Token> = match regs.funcs.get(&fun_name) {
        Option::Some(b) => copy_tokens(b),
        Option::None => Vec::new(),
    };
    let mut sub_vars = Scope::new();
    match vars.get_bucket(&arg_name) {
        Option::Some(b) => {
            let cb = b.duplicate();
            sub_vars.put_bucket(String::from_str("_@"), cb);
        },
        Option::None => {},
    }
    if depth + 1 < RECURS_LIMIT {
        let mut sub = Frame {
            tokens: body,
            vars: sub_vars,
            position: 0,
            loop_start: Vec::new(),
            paren_counter: Vec::new(),
        };
        proof {
            assert(sub@ =~~= FrameS {
                tape: if regs@.funcs.contains_key(fun_name@) {
                    regs@.funcs[fun_name@]
                } else {
                    Seq::empty()
                },
                pos: 0,
                vars: if vars@.contains_key(arg_name@) {
                    Map::empty().insert("_@"@, vars@[arg_name@])
                } else {
                    Map::empty()
                },
                loops: Seq::empty(),
                parens: Seq::empty(),
            });
        }
        let r = eval_frame(&mut sub, regs, depth + 1, fuel);
        proof {
            assert(regs@ =~~= cs.regs);
        }
        r
    } else {
        proof {
            assert(regs@ =~~= cs.regs);
        }
        Result::Ok(())
    }
}


/// Run one frame to completion: dispatch on the token under the cursor
/// until the tape is exhausted, then clear the scope, modeling call-frame
/// teardown.  The registers, the verdict and the fuel left all equal what
/// the specification run `run_frame_s` says for the frame's tape.
#[verifier::loop_isolation(false)]
#[verifier::rlimit(100)]
#[verifier::spinoff_prover]
pub fn eval_frame(frame: &mut Frame, regs: &mut Registers, depth: i64, fuel: &mut u64) -> (r:
    Result<(), Fault>)
    requires
        1 <= depth <= RECURS_LIMIT,
        old(frame).wf(),
        old(regs).wf(),
        old(frame).position <= old(frame).tokens@.len(),
    ensures
        final(frame).wf(),
        final(regs).wf(),
        *final(fuel) <= *old(fuel),
        old(regs).output@.is_prefix_of(final(regs).output@),
        r is Ok ==> final(frame).vars@ == Map::<Seq<char>, Map<Option<Seq<char>>, ExprS>>::empty(),
        final(frame).position <= final(frame).tokens@.len(),
        old(frame).tokens@.len() == 0 ==> final(regs).defs@ == old(regs).defs@ && final(regs).funcs@
            == old(regs).funcs@ && final(regs).argreg@ == old(regs).argreg@ && final(regs).output@
            == old(regs).output@ && final(regs).input_lines@ == old(regs).input_lines@ && r is Ok,
        ({
            let o = run_frame_s(old(frame)@, old(regs)@, depth as int, *old(fuel) as nat);
            final(regs)@ == o.regs && *final(fuel) as nat == o.fuel && r == o.verdict
        }),
    decreases RECURS_LIMIT - depth, *old(fuel), 2int,
{
    let ghost d = depth as int;
    let ghost o0 = run_frame_s(frame@, regs@, d, *fuel as nat);
    if frame.tokens.len() == 0 {
        proof {
            broadcast use crate::token::lemma_tape_view;

            assert(frame@.tape.len() == 0);
        }
        frame.vars.clear();
        return Result::Ok(());
    }
    loop
        invariant
            frame.wf(),
            regs.wf(),
            frame.position <= frame.tokens@.len(),
            *fuel <= *old(fuel),
            old(regs).output@.is_prefix_of(regs.output@),
            o0 == run_frame_s(frame@, regs@, d, *fuel as nat),
        decreases *fuel,
    {
        proof {
            broadcast use crate::token::lemma_tape_view;

            assert(frame@.tape.len() == frame.tokens@.len());
        }
        if frame.position >= frame.tokens.len() {
            break ;
        }
        if *fuel == 0 {
            proof {
                assert(o0 =~~= FrameRun {
                    regs: regs@,
                    fuel: 0nat,
                    verdict: Result::Err(Fault::StepLimit),
                });
            }
            return Result::Err(Fault::StepLimit);
        }
        let ghost fr_c = frame@;
        let ghost rg_c = regs@;
        let ghost fu_c = *fuel as nat;
        *fuel = *fuel - 1;
        let ghost f1 = *fuel as nat;
        proof {
            broadcast use crate::token::lemma_tape_view;

            assert(fr_c.tape[fr_c.pos] == crate::token::token_view(frame.tokens@[fr_c.pos]));
        }
        let act: Act = match &frame.tokens[frame.position] {
            Token::If(i, n) => Act::DoIf(copy_opt_string(i), n.clone()),
            Token::Loop(i, n) => Act::DoLoop(copy_opt_string(i), n.clone()),
            Token::Break => Act::DoBreak,
            Token::RBrack => Act::DoRBrack,
            Token::Argreg(i) => Act::DoArgreg(copy_opt_string(i)),
            Token::Kill(_, n) => Act::DoKill(n.clone()),
            Token::Assign(i, n) => Act::DoAssign(copy_opt_string(i), n.clone()),
            Token::Output(i, n) => Act::DoOutput(copy_opt_string(i), n.clone()),
            Token::OutputStr => Act::DoOutputStr,
            Token::Input(i, n) => Act::DoInput(copy_opt_string(i), n.clone()),
            Token::Call(f, a) => Act::DoCall(f.clone(), a.clone()),
            Token::Def(n) => Act::DoDef(n.clone()),
            Token::Insert(n) => Act::DoInsert(n.clone()),
            Token::Function(n) => Act::DoFunction(n.clone()),
            _ => Act::Skip,
        };
        match act {
            Act::DoIf(i, n) => {
                if_token(frame, i, n);
                proof {
                    lemma_close_idx_lift(frame.tokens@, fr_c.pos, 0);
                    assert(o0 =~~= run_frame_s(frame@, regs@, d, *fuel as nat));
                }
            },
            Act::DoLoop(i, n) => {
                loop_token(frame, i, n);
                proof {
                    lemma_close_idx_lift(frame.tokens@, fr_c.pos, 0);
                    assert(o0 =~~= run_frame_s(frame@, regs@, d, *fuel as nat));
                }
            },
            Act::DoBreak => {
                break_token(frame);
                proof {
                    if fr_c.loops.len() > 0 {
                        let back = fr_c.loops.last() as int;
                        let from = if back > frame.tokens@.len() {
                            frame.tokens@.len() as int
                        } else {
                            back
                        };
                        lemma_close_idx_lift(frame.tokens@, from, 0);
                    } else {
                        lemma_close_idx_lift(frame.tokens@, fr_c.pos + 1, 0);
                    }
                    assert(o0 =~~= run_frame_s(frame@, regs@, d, *fuel as nat));
                }
            },
            Act::DoRBrack => {
                rbrack_token(frame);
                proof {
                    assert(o0 =~~= run_frame_s(frame@, regs@, d, *fuel as nat));
                }
            },
            Act::DoArgreg(i) => {
                frame.position = frame.position + 1;
                let idx_eval = resolve_index(&frame.vars, &i);
                let at_name = String::from_str("@");
                let ghost es = eval_exp_s(
                    fr_c.tape,
                    fr_c.pos + 1,
                    fr_c.vars,
                    rg_c,
                    opt_view(idx_eval),
                    "@"@,
                    ExprS::New,
                    missing_op_s(),
                    d,
                    f1,
                );
                let e = match eval_exp(
                    frame,
                    regs,
                    copy_opt_string(&idx_eval),
                    at_name,
                    depth,
                    fuel,
                ) {
                    Result::Ok(v) => v,
                    Result::Err(f) => {
                        proof {
                            assert(o0 =~~= FrameRun {
                                regs: es.regs,
                                fuel: es.fuel,
                                verdict: Result::Err(f),
                            });
                        }
                        return Result::Err(f);
                    },
                };
                regs.argreg.set(idx_eval, e);
                proof {
                    assert(regs@ =~~= RegsS { argreg: es.regs.argreg.insert(opt_view(idx_eval), e@), ..es.regs });
                    assert(o0 =~~= run_frame_s(frame@, regs@, d, *fuel as nat));
                }
            },
            Act::DoKill(n) => {
                kill_token(frame, n);
                proof {
                    assert(o0 =~~= run_frame_s(frame@, regs@, d, *fuel as nat));
                }
            },
            Act::DoAssign(i, n) => {
                frame.position = frame.position + 1;
                let idx_eval = resolve_index(&frame.vars, &i);
                let ghost es = eval_exp_s(
                    fr_c.tape,
                    fr_c.pos + 1,
                    fr_c.vars,
                    rg_c,
                    opt_view(idx_eval),
                    n@,
                    ExprS::New,
                    missing_op_s(),
                    d,
                    f1,
                );
                match eval_exp(frame, regs, idx_eval, n, depth, fuel) {
                    Result::Ok(_) => {
                        proof {
                            assert(o0 =~~= run_frame_s(frame@, regs@, d, *fuel as nat));
                        }
                    },
                    Result::Err(f) => {
                        proof {
                            assert(o0 =~~= FrameRun {
                                regs: es.regs,
                                fuel: es.fuel,
                                verdict: Result::Err(f),
                            });
                        }
                        return Result::Err(f);
                    },
                }
            },
            Act::DoOutput(i, n) => {
                output_token(frame, regs, i, n);
                proof {
                    assert(o0 =~~= run_frame_s(frame@, regs@, d, *fuel as nat));
                }
            },
            Act::DoOutputStr => {
                frame.position = frame.position + 1;
                output_string(frame, regs);
                proof {
                    lemma_outstr_lift(frame.tokens@, fr_c.pos + 1);
                    assert(o0 =~~= run_frame_s(frame@, regs@, d, *fuel as nat));
                }
            },
            Act::DoInput(i, n) => {
                input_token(frame, regs, i, n);
                proof {
                    assert(o0 =~~= run_frame_s(frame@, regs@, d, *fuel as nat));
                }
            },
            Act::DoCall(f, a) => {
                frame.position = frame.position + 1;
                let ghost cs = call_s(fr_c.vars, rg_c, f@, a@, d, f1);
                match call_func(&frame.vars, regs, f, a, depth, fuel) {
                    Result::Ok(()) => {
                        proof {
                            assert(o0 =~~= run_frame_s(frame@, regs@, d, *fuel as nat));
                        }
                    },
                    Result::Err(e) => {
                        proof {
                            assert(o0 =~~= FrameRun {
                                regs: cs.regs,
                                fuel: cs.fuel,
                                verdict: Result::Err(e),
                            });
                        }
                        return Result::Err(e);
                    },
                }
            },
            Act::DoDef(n) => {
                let ghost t0v = frame.tokens@;
                frame.tokens.remove(frame.position);
                proof {
                    lemma_tape_view_remove(t0v, fr_c.pos);
                }
                if frame.position < frame.tokens.len() {
                    let is_lb: bool = match &frame.tokens[frame.position] {
                        Token::LBrack => true,
                        _ => false,
                    };
                    if is_lb {
                        let ghost t1v = frame.tokens@;
                        frame.tokens.remove(frame.position);
                        proof {
                            lemma_tape_view_remove(t1v, fr_c.pos);
                        }
                        let ghost t2 = frame.tokens@;
                        skip_def(frame, &mut regs.defs, n);
                        proof {
                            broadcast use crate::token::lemma_tape_view;

                            lemma_close_idx_lift(t2, fr_c.pos, 1);
                            lemma_close_idx_range(t2, fr_c.pos, 1);
                            lemma_tape_view_subrange(t2, 0, fr_c.pos);
                            lemma_tape_view_subrange(
                                t2,
                                skip_dest(t2, fr_c.pos, 1),
                                t2.len() as int,
                            );
                            lemma_tape_view_concat(
                                t2.subrange(0, fr_c.pos),
                                t2.subrange(skip_dest(t2, fr_c.pos, 1), t2.len() as int),
                            );
                            lemma_tape_view_subrange(t2, fr_c.pos, close_idx(t2, fr_c.pos, 1));
                            lemma_tape_view_reverse(
                                t2.subrange(fr_c.pos, close_idx(t2, fr_c.pos, 1)),
                            );
                            assert(o0 =~~= run_frame_s(frame@, regs@, d, *fuel as nat));
                        }
                    } else {
                        proof {
                            broadcast use crate::token::lemma_tape_view;

                            assert(o0 =~~= run_frame_s(frame@, regs@, d, *fuel as nat));
                        }
                    }
                } else {
                    proof {
                        broadcast use crate::token::lemma_tape_view;

                        assert(o0 =~~= run_frame_s(frame@, regs@, d, *fuel as nat));
                    }
                }
            },
            Act::DoInsert(n) => {
                let ghost t0v = frame.tokens@;
                insert_token(frame, &regs.defs, n);
                proof {
                    lemma_tape_view_subrange(t0v, 0, fr_c.pos);
                    lemma_tape_view_subrange(t0v, fr_c.pos + 1, t0v.len() as int);
                    if !rg_c.defs.contains_key(n@) {
                        lemma_tape_view_remove(t0v, fr_c.pos);
                    }
                    assert(o0 =~~= run_frame_s(frame@, regs@, d, *fuel as nat));
                }
            },
            Act::DoFunction(n) => {
                let ghost t0v = frame.tokens@;
                frame.tokens.remove(frame.position);
                let ghost t1 = frame.tokens@;
                let body = skip_fun(frame);
                regs.funcs.insert(n, body);
                proof {
                    lemma_tape_view_remove(t0v, fr_c.pos);
                    lemma_close_idx_lift(t1, fr_c.pos, 1);
                    lemma_close_idx_range(t1, fr_c.pos, 1);
                    lemma_tape_view_subrange(t1, 0, fr_c.pos);
                    lemma_tape_view_subrange(t1, skip_dest(t1, fr_c.pos, 1), t1.len() as int);
                    lemma_tape_view_concat(
                        t1.subrange(0, fr_c.pos),
                        t1.subrange(skip_dest(t1, fr_c.pos, 1), t1.len() as int),
                    );
                    lemma_tape_view_subrange(t1, fr_c.pos, close_idx(t1, fr_c.pos, 1));
                    assert(o0 =~~= run_frame_s(frame@, regs@, d, *fuel as nat));
                }
            },
            Act::Skip => {
                frame.position = frame.position + 1;
                proof {
                    assert(o0 =~~= run_frame_s(frame@, regs@, d, *fuel as nat));
                }
            },
        }
    }
    proof {
        broadcast use crate::token::lemma_tape_view;

        assert(o0 =~~= FrameRun { regs: regs@, fuel: *fuel as nat, verdict: Result::Ok(()) });
    }
    frame.vars.clear();
    Result::Ok(())
}



/// The interpreter: one top-level frame plus the shared registers.
pub struct Fun {
    frame: Frame,
    regs: Registers,
}

impl Fun {
    /// The captured output so far.
    pub closed spec fn output_view(&self) -> Seq<char> {
        self.regs.output@
    }

    /// The top-level frame's variables.
    pub closed spec fn scope_view(&self) -> Map<Seq<char>, Map<Option<Seq<char>>, ExprS>> {
        self.frame.vars@
    }

    /// The top-level frame's whole view.
    pub closed spec fn frame_view(&self) -> FrameS {
        self.frame@
    }

    /// The shared registers' whole view.
    pub closed spec fn regs_view(&self) -> RegsS {
        self.regs@
    }

    /// The token tape of the top-level frame.
    pub closed spec fn tape(&self) -> Seq<TokenS> {
        tape_view(self.frame.tokens@)
    }

    pub closed spec fn wf(&self) -> bool {
        self.frame.wf() && self.regs.wf() && self.frame.position <= self.frame.tokens@.len()
    }

    /// A fresh interpreter over a token tape: empty scope, empty shared
    /// registers, cursor at the start.
    pub fn new(tokens: Vec<Token>) -> (r: Fun)
        ensures
            r.wf(),
            r.output_view() == Seq::<char>::empty(),
            r.tape() == tape_view(tokens@),
            r.frame_view() == (FrameS {
                tape: tape_view(tokens@),
                pos: 0,
                vars: Map::<Seq<char>, Map<Option<Seq<char>>, ExprS>>::empty(),
                loops: Seq::<usize>::empty(),
                parens: Seq::<i64>::empty(),
            }),
            r.regs_view() == (RegsS {
                defs: Map::<Seq<char>, Seq<TokenS>>::empty(),
                funcs: Map::<Seq<char>, Seq<TokenS>>::empty(),
                argreg: Map::<Option<Seq<char>>, ExprS>::empty(),
                output: Seq::<char>::empty(),
                inputs: Seq::<String>::empty(),
            }),
    {
        Fun {
            frame: Frame {
                tokens,
                vars: Scope::new(),
                position: 0,
                loop_start: Vec::new(),
                paren_counter: Vec::new(),
            },
            regs: Registers {
                defs: TokenMap::new(),
                funcs: TokenMap::new(),
                argreg: Bucket::new(),
                output: String::new(),
                input_lines: Vec::new(),
            },
        }
    }

    /// A fresh interpreter whose input requests will be answered from the
    /// given lines, in order; an exhausted queue answers with empty text.
    pub fn new_with_input(tokens: Vec<Token>, input_lines: Vec<String>) -> (r: Fun)
        ensures
            r.wf(),
            r.output_view() == Seq::<char>::empty(),
            r.tape() == tape_view(tokens@),
            r.frame_view() == (FrameS {
                tape: tape_view(tokens@),
                pos: 0,
                vars: Map::<Seq<char>, Map<Option<Seq<char>>, ExprS>>::empty(),
                loops: Seq::<usize>::empty(),
                parens: Seq::<i64>::empty(),
            }),
            r.regs_view() == (RegsS {
                defs: Map::<Seq<char>, Seq<TokenS>>::empty(),
                funcs: Map::<Seq<char>, Seq<TokenS>>::empty(),
                argreg: Map::<Option<Seq<char>>, ExprS>::empty(),
                output: Seq::<char>::empty(),
                inputs: input_lines@,
            }),
    {
        Fun {
            frame: Frame {
                tokens,
                vars: Scope::new(),
                position: 0,
                loop_start: Vec::new(),
                paren_counter: Vec::new(),
            },
            regs: Registers {
                defs: TokenMap::new(),
                funcs: TokenMap::new(),
                argreg: Bucket::new(),
                output: String::new(),
                input_lines,
            },
        }
    }

    /// Run the program to completion.  Output only ever grows; on a clean
    /// finish the top-level scope is torn down.  `Err` reports the one
    /// fatal arithmetic fault -- or an exhausted step budget, which no
    /// terminating program reaches.
    pub fn eval(&mut self) -> (r: Result<(), Fault>)
        requires
            old(self).wf(),
        ensures
            final(self).wf(),
            old(self).output_view().is_prefix_of(final(self).output_view()),
            r is Ok ==> final(self).scope_view() == Map::<
                Seq<char>,
                Map<Option<Seq<char>>, ExprS>,
            >::empty(),
            ({
                let o = run_frame_s(
                    old(self).frame_view(),
                    old(self).regs_view(),
                    1,
                    u64::MAX as nat,
                );
                final(self).regs_view() == o.regs && r == o.verdict && final(self).output_view()
                    == o.regs.output
            }),
    {
        let mut fuel: u64 = u64::MAX;
        eval_frame(&mut self.frame, &mut self.regs, 1, &mut fuel)
    }

    /// The whole captured output buffer.
    pub fn get_output(&self) -> (r: String)
        ensures
            r@ == self.output_view(),
    {
        self.regs.output.clone()
    }
}

} // verus!
