use vstd::prelude::*;
use crate::token::{Token, flatten, opt_view};
use crate::strutil::{self, chars_of_str, string_from_chars, usize_to_string};
use crate::fbits;
use crate::maps::string_eq;
use vstd::string::StringExecFns;

verus! {

/// Unicode whitespace, the property `char::is_whitespace` decides; a
/// function of the character alone.
pub uninterp spec fn is_space_char(c: char) -> bool;

/// Relies on `char::is_whitespace`: the Unicode whitespace property,
/// depending on the character alone.
#[verifier::external_body]
pub fn char_is_space(c: char) -> (r: bool)
    ensures
        r == is_space_char(c),
{
    c.is_whitespace()
}

/// Unicode alphanumeric, the property `char::is_alphanumeric` decides; a
/// function of the character alone.
pub uninterp spec fn is_alnum_char(c: char) -> bool;

/// Relies on `char::is_alphanumeric`: the Unicode alphanumeric property,
/// depending on the character alone.
#[verifier::external_body]
pub fn char_is_alnum(c: char) -> (r: bool)
    ensures
        r == is_alnum_char(c),
{
    c.is_alphanumeric()
}

/// An ASCII decimal digit.
pub open spec fn digit10(c: char) -> bool {
    48 <= (c as u32) <= 57
}

fn is_digit10(c: char) -> (r: bool)
    ensures
        r == digit10(c),
{
    let u = c as u32;
    48 <= u && u <= 57
}

/// A character that may continue an identifier.
pub open spec fn ident_char(c: char) -> bool {
    is_alnum_char(c) || c == '_' || c == '@'
}

fn is_ident_char(c: char) -> (r: bool)
    ensures
        r == ident_char(c),
{
    char_is_alnum(c) || c == '_' || c == '@'
}


/// Where a number literal's scan ends: the first position that holds
/// neither a digit nor a dot.
pub open spec fn num_end(s: Seq<char>, i: int) -> int
    decreases s.len() - i,
{
    if i >= s.len() {
        i
    } else if digit10(s[i]) || s[i] == '.' {
        num_end(s, i + 1)
    } else {
        i
    }
}

/// The text a number literal's scan records: every digit, and only the
/// first dot -- later dots are consumed but dropped.
pub open spec fn num_text(s: Seq<char>, i: int, seen_dot: bool) -> Seq<char>
    decreases s.len() - i,
{
    if i >= s.len() {
        Seq::empty()
    } else if digit10(s[i]) {
        seq![s[i]] + num_text(s, i + 1, seen_dot)
    } else if s[i] == '.' {
        if seen_dot {
            num_text(s, i + 1, true)
        } else {
            seq!['.'] + num_text(s, i + 1, true)
        }
    } else {
        Seq::empty()
    }
}

/// Whether a number literal's scan meets a dot, which makes it a float.
pub open spec fn num_has_dot(s: Seq<char>, i: int) -> bool
    decreases s.len() - i,
{
    if i >= s.len() {
        false
    } else if digit10(s[i]) {
        num_has_dot(s, i + 1)
    } else if s[i] == '.' {
        true
    } else {
        false
    }
}

/// The number a string of decimal digits denotes.
pub open spec fn int_of_digits(d: Seq<char>) -> int
    decreases d.len(),
{
    if d.len() == 0 {
        0
    } else {
        int_of_digits(d.drop_last()) * 10 + ((d.last() as u32) - 48)
    }
}

/// Digit strings denote numbers that only grow as digits are appended.
pub proof fn lemma_int_of_digits_bounds(d: Seq<char>)
    requires
        forall|j: int| 0 <= j < d.len() ==> digit10(#[trigger] d[j]),
    ensures
        int_of_digits(d) >= 0,
        forall|k: int|
            0 <= k <= d.len() ==> int_of_digits(#[trigger] d.subrange(0, k)) <= int_of_digits(d),
    decreases d.len(),
{
    if d.len() > 0 {
        assert(forall|j: int| 0 <= j < d.drop_last().len() ==> digit10(#[trigger] d.drop_last()[j]));
        lemma_int_of_digits_bounds(d.drop_last());
        assert(digit10(d.last()));
        assert forall|k: int| 0 <= k <= d.len() implies int_of_digits(#[trigger] d.subrange(0, k))
            <= int_of_digits(d) by {
            if k < d.len() {
                assert(d.subrange(0, k) =~= d.drop_last().subrange(0, k));
                assert(d.drop_last() =~= d.subrange(0, d.len() - 1));
            } else {
                assert(d.subrange(0, k) =~= d);
            }
        }
    }
}


/// What an escaped character stands for inside a string literal: the
/// common escapes translate, anything else passes through literally.
pub open spec fn esc_char(c: char) -> char {
    if c == '"' {
        '"'
    } else if c == 'n' {
        '\n'
    } else if c == 't' {
        '\t'
    } else if c == 'r' {
        '\r'
    } else {
        c
    }
}

/// Where a string literal's scan ends: one past the closing quote, one
/// past a dangling final backslash, or the end of the text.
pub open spec fn str_end(s: Seq<char>, i: int) -> int
    decreases s.len() - i,
{
    if i >= s.len() {
        i
    } else if s[i] == '"' {
        i + 1
    } else if s[i] == '\\' {
        if i + 1 < s.len() {
            str_end(s, i + 2)
        } else {
            i + 1
        }
    } else {
        str_end(s, i + 1)
    }
}

/// Whether a string literal's scan reaches a closing quote.
pub open spec fn str_closed(s: Seq<char>, i: int) -> bool
    decreases s.len() - i,
{
    if i >= s.len() {
        false
    } else if s[i] == '"' {
        true
    } else if s[i] == '\\' {
        if i + 1 < s.len() {
            str_closed(s, i + 2)
        } else {
            false
        }
    } else {
        str_closed(s, i + 1)
    }
}

/// The content a string literal's scan records, escapes translated.
pub open spec fn str_content(s: Seq<char>, i: int) -> Seq<char>
    decreases s.len() - i,
{
    if i >= s.len() {
        Seq::empty()
    } else if s[i] == '"' {
        Seq::empty()
    } else if s[i] == '\\' {
        if i + 1 < s.len() {
            seq![esc_char(s[i + 1])] + str_content(s, i + 2)
        } else {
            Seq::empty()
        }
    } else {
        seq![s[i]] + str_content(s, i + 1)
    }
}



/// The character class of identifier content, as one reusable value.
pub open spec fn ident_cont() -> spec_fn(char) -> bool {
    |c: char| ident_char(c)
}

/// The character class of plain alphanumeric content.
pub open spec fn alnum_cont() -> spec_fn(char) -> bool {
    |c: char| is_alnum_char(c)
}

/// The character class of syscall-name content.
pub open spec fn sys_cont() -> spec_fn(char) -> bool {
    |c: char| is_alnum_char(c) || c == '_'
}

/// The character class of splice-path content.
pub open spec fn path_cont() -> spec_fn(char) -> bool {
    |c: char| is_alnum_char(c) || c == '/' || c == '_' || c == '.'
}

/// The contents stored under a path, searched front to back.
pub open spec fn table_find(files: Seq<(String, String)>, path: Seq<char>) -> Option<String>
    decreases files.len(),
{
    if files.len() == 0 {
        Option::None
    } else if files[0].0@ == path {
        Option::Some(files[0].1)
    } else {
        table_find(files.drop_first(), path)
    }
}

/// The first position at or after `i` that does not hold whitespace.
pub open spec fn ws_end(s: Seq<char>, i: int) -> int
    decreases s.len() - i,
{
    if i < s.len() && is_space_char(s[i]) {
        ws_end(s, i + 1)
    } else {
        i
    }
}

/// Where a sigil-led scan ends: one past its terminator, or at the first
/// character it accepts neither as content nor (when allowed) as
/// whitespace, or the end of the text.
pub open spec fn scan_end(
    s: Seq<char>,
    i: int,
    cont: spec_fn(char) -> bool,
    ws: bool,
    t1: char,
    t2: char,
) -> int
    decreases s.len() - i,
{
    if i >= s.len() {
        i
    } else if s[i] == t1 || s[i] == t2 {
        i + 1
    } else if cont(s[i]) {
        scan_end(s, i + 1, cont, ws, t1, t2)
    } else if ws && is_space_char(s[i]) {
        scan_end(s, i + 1, cont, ws, t1, t2)
    } else {
        i
    }
}

/// Which terminator ends a sigil-led scan: 1 for the first, 2 for the
/// second, 0 when the scan stops without one.
pub open spec fn scan_hit(
    s: Seq<char>,
    i: int,
    cont: spec_fn(char) -> bool,
    ws: bool,
    t1: char,
    t2: char,
) -> int
    decreases s.len() - i,
{
    if i >= s.len() {
        0
    } else if s[i] == t1 {
        1
    } else if s[i] == t2 {
        2
    } else if cont(s[i]) {
        scan_hit(s, i + 1, cont, ws, t1, t2)
    } else if ws && is_space_char(s[i]) {
        scan_hit(s, i + 1, cont, ws, t1, t2)
    } else {
        0
    }
}

/// The content characters a sigil-led scan records, skipped whitespace
/// left out.
pub open spec fn scan_text(
    s: Seq<char>,
    i: int,
    cont: spec_fn(char) -> bool,
    ws: bool,
    t1: char,
    t2: char,
) -> Seq<char>
    decreases s.len() - i,
{
    if i >= s.len() {
        Seq::empty()
    } else if s[i] == t1 || s[i] == t2 {
        Seq::empty()
    } else if cont(s[i]) {
        seq![s[i]] + scan_text(s, i + 1, cont, ws, t1, t2)
    } else if ws && is_space_char(s[i]) {
        scan_text(s, i + 1, cont, ws, t1, t2)
    } else {
        Seq::empty()
    }
}


/// Where a comment's scan ends: two past the closing `*/`, or the end of
/// the text.
pub open spec fn com_end(s: Seq<char>, i: int) -> int
    decreases s.len() - i,
{
    if i >= s.len() {
        i
    } else if s[i] == '*' {
        if i + 1 < s.len() && s[i + 1] == '/' {
            i + 2
        } else {
            com_end(s, i + 1)
        }
    } else {
        com_end(s, i + 1)
    }
}

/// Whether a comment's scan reaches its closing `*/`.
pub open spec fn com_closed(s: Seq<char>, i: int) -> bool
    decreases s.len() - i,
{
    if i >= s.len() {
        false
    } else if s[i] == '*' {
        if i + 1 < s.len() && s[i + 1] == '/' {
            true
        } else {
            com_closed(s, i + 1)
        }
    } else {
        com_closed(s, i + 1)
    }
}

/// The text a comment's scan records: everything up to its closing `*/`.
pub open spec fn com_text(s: Seq<char>, i: int) -> Seq<char>
    decreases s.len() - i,
{
    if i >= s.len() {
        Seq::empty()
    } else if s[i] == '*' {
        if i + 1 < s.len() && s[i + 1] == '/' {
            Seq::empty()
        } else {
            seq!['*'] + com_text(s, i + 1)
        }
    } else {
        seq![s[i]] + com_text(s, i + 1)
    }
}


/// Where an identifier scan stops: the position of the terminator that
/// decides the token's role, or of the first foreign character, or the
/// end of the text.
pub open spec fn id_stop(s: Seq<char>, i: int) -> int
    decreases s.len() - i,
{
    if i >= s.len() {
        i
    } else if s[i] == '{' || s[i] == '(' || s[i] == '=' {
        i
    } else if ident_char(s[i]) || is_space_char(s[i]) {
        id_stop(s, i + 1)
    } else {
        i
    }
}

/// The identifier characters an identifier scan records, skipped
/// whitespace left out.
pub open spec fn id_text(s: Seq<char>, i: int) -> Seq<char>
    decreases s.len() - i,
{
    if i >= s.len() {
        Seq::empty()
    } else if s[i] == '{' || s[i] == '(' || s[i] == '=' {
        Seq::empty()
    } else if ident_char(s[i]) {
        seq![s[i]] + id_text(s, i + 1)
    } else if is_space_char(s[i]) {
        id_text(s, i + 1)
    } else {
        Seq::empty()
    }
}

/// The role an identifier's terminator gives it: 1 a function header,
/// 2 a call, 3 an assignment target, 4 a reference left in place before a
/// two-character operator, 5 a plain reference, 0 an exhausted scan.
pub open spec fn id_kind(s: Seq<char>, i: int) -> int {
    let p = id_stop(s, i);
    if p >= s.len() {
        0
    } else if s[p] == '{' {
        1
    } else if s[p] == '(' {
        2
    } else if s[p] == '=' {
        if p + 1 < s.len() {
            if s[p + 1] == '=' || s[p + 1] == '!' {
                4
            } else {
                3
            }
        } else {
            0
        }
    } else {
        5
    }
}

/// Where the cursor lands after an identifier token is produced; a call
/// form scans its argument name only when no index is attached, since an
/// indexed call is rejected on the spot.
pub open spec fn id_end(s: Seq<char>, i: int, indexed: bool) -> int {
    let p = id_stop(s, i);
    if p >= s.len() {
        p
    } else if s[p] == '{' {
        p + 1
    } else if s[p] == '(' {
        if indexed {
            p + 1
        } else {
            scan_end(s, ws_end(s, p + 1), ident_cont(), true, ')', ')')
        }
    } else if s[p] == '=' {
        if p + 1 < s.len() {
            if s[p + 1] == '=' || s[p + 1] == '!' {
                p
            } else {
                p + 1
            }
        } else {
            p + 1
        }
    } else {
        p
    }
}


/// A sigil-led scan never moves backward nor past the end of the text.
pub proof fn lemma_scan_end_range(
    s: Seq<char>,
    i: int,
    cont: spec_fn(char) -> bool,
    ws: bool,
    t1: char,
    t2: char,
)
    requires
        0 <= i <= s.len(),
    ensures
        i <= scan_end(s, i, cont, ws, t1, t2) <= s.len(),
    decreases s.len() - i,
{
    if i < s.len() && !(s[i] == t1 || s[i] == t2) && (cont(s[i]) || (ws && is_space_char(s[i]))) {
        lemma_scan_end_range(s, i + 1, cont, ws, t1, t2);
    }
}

/// Where a value-output scan ends: one past its semicolon, at the quote
/// that switches to literal mode, or where it stops short.  An `[index]`
/// attachment is scanned through and the walk continues after it.
pub open spec fn out_end(s: Seq<char>, i: int) -> int
    decreases s.len() - i,
    via out_end_dec
{
    if i < 0 || i >= s.len() {
        i
    } else if s[i] == '[' {
        out_end(s, scan_end(s, i + 1, ident_cont(), true, ']', ']'))
    } else if s[i] == '"' {
        i
    } else if s[i] == ';' {
        i + 1
    } else if ident_char(s[i]) {
        out_end(s, i + 1)
    } else {
        i
    }
}

#[via_fn]
proof fn out_end_dec(s: Seq<char>, i: int) {
    if 0 <= i < s.len() && s[i] == '[' {
        lemma_scan_end_range(s, i + 1, ident_cont(), true, ']', ']');
    }
}

/// How a value-output scan ends: 1 at a quote, 2 at a semicolon, 0 short.
pub open spec fn out_kind(s: Seq<char>, i: int) -> int
    decreases s.len() - i,
    via out_kind_dec
{
    if i < 0 || i >= s.len() {
        0
    } else if s[i] == '[' {
        out_kind(s, scan_end(s, i + 1, ident_cont(), true, ']', ']'))
    } else if s[i] == '"' {
        1
    } else if s[i] == ';' {
        2
    } else if ident_char(s[i]) {
        out_kind(s, i + 1)
    } else {
        0
    }
}

#[via_fn]
proof fn out_kind_dec(s: Seq<char>, i: int) {
    if 0 <= i < s.len() && s[i] == '[' {
        lemma_scan_end_range(s, i + 1, ident_cont(), true, ']', ']');
    }
}

/// The variable name a value-output scan records.
pub open spec fn out_text(s: Seq<char>, i: int) -> Seq<char>
    decreases s.len() - i,
    via out_text_dec
{
    if i < 0 || i >= s.len() {
        Seq::empty()
    } else if s[i] == '[' {
        out_text(s, scan_end(s, i + 1, ident_cont(), true, ']', ']'))
    } else if s[i] == '"' {
        Seq::empty()
    } else if s[i] == ';' {
        Seq::empty()
    } else if ident_char(s[i]) {
        seq![s[i]] + out_text(s, i + 1)
    } else {
        Seq::empty()
    }
}

#[via_fn]
proof fn out_text_dec(s: Seq<char>, i: int) {
    if 0 <= i < s.len() && s[i] == '[' {
        lemma_scan_end_range(s, i + 1, ident_cont(), true, ']', ']');
    }
}

/// The index a value-output scan is left with: each `[index]` attachment
/// overwrites the one before it, a short bracket scan leaving none.
pub open spec fn out_index(s: Seq<char>, i: int, cur: Option<Seq<char>>) -> Option<Seq<char>>
    decreases s.len() - i,
    via out_index_dec
{
    if i < 0 || i >= s.len() {
        cur
    } else if s[i] == '[' {
        out_index(
            s,
            scan_end(s, i + 1, ident_cont(), true, ']', ']'),
            if scan_hit(s, i + 1, ident_cont(), true, ']', ']') != 0 {
                Option::Some(scan_text(s, i + 1, ident_cont(), true, ']', ']'))
            } else {
                Option::None
            },
        )
    } else if s[i] == '"' {
        cur
    } else if s[i] == ';' {
        cur
    } else if ident_char(s[i]) {
        out_index(s, i + 1, cur)
    } else {
        cur
    }
}

#[via_fn]
proof fn out_index_dec(s: Seq<char>, i: int, cur: Option<Seq<char>>) {
    if 0 <= i < s.len() && s[i] == '[' {
        lemma_scan_end_range(s, i + 1, ident_cont(), true, ']', ']');
    }
}


/// A character that opens one of the single-dispatch forms; these are
/// tried before the whitespace, digit and identifier classes, in the
/// order the scanner reads them.
pub open spec fn dispatch_char(c: char) -> bool {
    c == '"' || c == '#' || c == '=' || c == '<' || c == '>' || c == '|' || c == '&' || c == '^'
        || c == '+' || c == '-' || c == '*' || c == '/' || c == '%' || c == '(' || c == ')' || c
        == '{' || c == '}' || c == ';' || c == '@' || c == '?' || c == '!' || c == '$'
}

/// The position of the character the next token is dispatched on, past
/// any whitespace and `[index]` attachments; the end of the text when
/// only those remain.
pub open spec fn next_start(s: Seq<char>, i: int) -> int
    decreases s.len() - i,
    via next_start_dec
{
    if i < 0 || i >= s.len() {
        i
    } else if s[i] == '[' {
        next_start(s, scan_end(s, i + 1, ident_cont(), true, ']', ']'))
    } else if dispatch_char(s[i]) {
        i
    } else if is_space_char(s[i]) {
        next_start(s, i + 1)
    } else {
        i
    }
}

#[via_fn]
proof fn next_start_dec(s: Seq<char>, i: int) {
    if 0 <= i < s.len() && s[i] == '[' {
        lemma_scan_end_range(s, i + 1, ident_cont(), true, ']', ']');
    }
}

/// The index attachment the next token is dispatched with: each
/// `[index]` prefix overwrites the one before it, a short bracket scan
/// leaving none.
pub open spec fn next_index(s: Seq<char>, i: int, cur: Option<Seq<char>>) -> Option<Seq<char>>
    decreases s.len() - i,
    via next_index_dec
{
    if i < 0 || i >= s.len() {
        cur
    } else if s[i] == '[' {
        next_index(
            s,
            scan_end(s, i + 1, ident_cont(), true, ']', ']'),
            if scan_hit(s, i + 1, ident_cont(), true, ']', ']') != 0 {
                Option::Some(scan_text(s, i + 1, ident_cont(), true, ']', ']'))
            } else {
                Option::None
            },
        )
    } else if dispatch_char(s[i]) {
        cur
    } else if is_space_char(s[i]) {
        next_index(s, i + 1, cur)
    } else {
        cur
    }
}

#[via_fn]
proof fn next_index_dec(s: Seq<char>, i: int, cur: Option<Seq<char>>) {
    if 0 <= i < s.len() && s[i] == '[' {
        lemma_scan_end_range(s, i + 1, ident_cont(), true, ']', ']');
    }
}

/// Copy of a path-to-contents table, pair for pair.
fn copy_files(v: &Vec<(String, String)>) -> (r: Vec<(String, String)>)
    ensures
        r@ == v@,
{
    let mut out: Vec<(String, String)> = Vec::new();
    let mut i: usize = 0;
    while i < v.len()
        invariant
            i <= v@.len(),
            out@ =~= v@.subrange(0, i as int),
        decreases v@.len() - i,
    {
        let e = &v[i];
        out.push((e.0.clone(), e.1.clone()));
        i = i + 1;
    }
    proof {
        assert(out@ =~= v@);
    }
    out
}

/// The single-pass scanner: a cursor over the source text's characters.
/// Source files named by splice directives are answered from a table
/// handed in at construction; a missing entry contributes zero tokens,
/// and nested splicing is bounded so a cycle of files ends as a missing
/// file does rather than running away.
pub struct Lexer {
    input: Vec<char>,
    position: usize,
    files: Vec<(String, String)>,
    budget: u32,
    missing: Vec<String>,
}

impl Lexer {
    /// The characters being scanned.
    pub closed spec fn chars(&self) -> Seq<char> {
        self.input@
    }

    /// The cursor: how many characters have been consumed.
    pub closed spec fn pos(&self) -> int {
        self.position as int
    }

    /// How many further levels of file splicing are still allowed.
    pub closed spec fn left(&self) -> int {
        self.budget as int
    }

    /// The path-to-contents table splice directives are answered from.
    pub closed spec fn table(&self) -> Seq<(String, String)> {
        self.files@
    }

    /// The paths splice directives have asked for that the table could
    /// not answer, oldest first.
    pub closed spec fn pending(&self) -> Seq<String> {
        self.missing@
    }

    pub closed spec fn wf(&self) -> bool {
        self.position <= self.input@.len()
    }

    /// A scanner over the given source text, with no spliceable files.
    pub fn new(input: &str) -> (r: Lexer)
        ensures
            r.wf(),
            r.chars() == input@,
            r.pos() == 0,
    {
        Lexer {
            input: chars_of_str(input),
            position: 0,
            files: Vec::new(),
            budget: 16,
            missing: Vec::new(),
        }
    }

    /// A scanner over the given source text that answers splice
    /// directives from the given path-to-contents table.
    pub fn new_with_files(input: &str, files: Vec<(String, String)>) -> (r: Lexer)
        ensures
            r.wf(),
            r.chars() == input@,
            r.pos() == 0,
    {
        Lexer { input: chars_of_str(input), position: 0, files, budget: 16, missing: Vec::new() }
    }

    /// Consume one character.
    pub fn advance(&mut self)
        requires
            old(self).pos() < old(self).chars().len(),
        ensures
            final(self).chars() == old(self).chars(),
            final(self).table() == old(self).table(),
            final(self).left() == old(self).left(),
            final(self).pos() == old(self).pos() + 1,
            final(self).wf(),
    {
        proof {
            assert(self.position < self.input.len());
        }
        self.position = self.position + 1;
    }

    /// The character under the cursor, if any is left.
    pub fn peek(&self) -> (r: Option<char>)
        requires
            self.wf(),
        ensures
            r == (if self.pos() < self.chars().len() {
                Option::Some(self.chars()[self.pos()])
            } else {
                Option::<char>::None
            }),
    {
        if self.position < self.input.len() {
            Option::Some(self.input[self.position])
        } else {
            Option::None
        }
    }

    /// Consume the run of whitespace under the cursor.
    pub fn skip_white(&mut self)
        requires
            old(self).wf(),
        ensures
            final(self).wf(),
            final(self).chars() == old(self).chars(),
            final(self).table() == old(self).table(),
            final(self).left() == old(self).left(),
            old(self).pos() <= final(self).pos() <= final(self).chars().len(),
            forall|j: int|
                old(self).pos() <= j < final(self).pos() ==> is_space_char(final(self).chars()[j]),
            final(self).pos() < final(self).chars().len() ==> !is_space_char(
                final(self).chars()[final(self).pos()],
            ),
            final(self).pos() == ws_end(old(self).chars(), old(self).pos()),
    {
        while self.position < self.input.len()
            invariant
                self.wf(),
                self.chars() == old(self).chars(),
                self.table() == old(self).table(),
                self.left() == old(self).left(),
                old(self).pos() <= self.pos() <= self.chars().len(),
                forall|j: int| old(self).pos() <= j < self.pos() ==> is_space_char(self.chars()[j]),
                ws_end(old(self).chars(), old(self).pos()) == ws_end(
                    old(self).chars(),
                    self.pos(),
                ),
            decreases self.chars().len() - self.pos(),
        {
            let c = self.input[self.position];
            if char_is_space(c) {
                self.position = self.position + 1;
            } else {
                return ;
            }
        }
    }

    /// The diagnostic text carried by an illegal token: what was expected
    /// and where.
    pub fn error(&self, msg: &str) -> (r: String)
        ensures
            r@ == "Error: expected "@ + msg@ + " at position "@ + strutil::dec_u64(
                self.pos() as nat,
            ),
    {
        let mut s = String::from_str("Error: expected ");
        s.append(msg);
        s.append(" at position ");
        let p = usize_to_string(self.position);
        s.append(p.as_str());
        proof {
            assert(s@ =~= "Error: expected "@ + msg@ + " at position "@ + strutil::dec_u64(
                self.pos() as nat,
            ));
        }
        s
    }

    /// Scan an `[index]` attachment: the text up to the closing bracket,
    /// pinned to the scanned characters, or nothing when the scan stops
    /// short.
    pub fn lex_array(&mut self) -> (r: Option<String>)
        requires
            old(self).wf(),
        ensures
            final(self).wf(),
            final(self).chars() == old(self).chars(),
            final(self).table() == old(self).table(),
            final(self).left() == old(self).left(),
            old(self).pos() <= final(self).pos() <= final(self).chars().len(),
            final(self).pos() == scan_end(
                old(self).chars(),
                old(self).pos(),
                ident_cont(),
                true,
                ']',
                ']',
            ),
            ({
                let hit = scan_hit(
                    old(self).chars(),
                    old(self).pos(),
                    ident_cont(),
                    true,
                    ']',
                    ']',
                );
                let text = scan_text(
                    old(self).chars(),
                    old(self).pos(),
                    ident_cont(),
                    true,
                    ']',
                    ']',
                );
                if hit != 0 {
                    r matches Option::Some(t) && t@ == text
                } else {
                    r is None
                }
            }),
    {
        self.lex_array_scan()
    }

    /// Scan an `[index]` attachment: the text up to the closing bracket,
    /// pinned to the scanned characters, or nothing when the scan stops
    /// short.
    #[verifier::loop_isolation(false)]
    fn lex_array_scan(&mut self) -> (r: Option<String>)
        requires
            old(self).wf(),
        ensures
            final(self).wf(),
            final(self).chars() == old(self).chars(),
            final(self).table() == old(self).table(),
            final(self).left() == old(self).left(),
            old(self).pos() <= final(self).pos() <= final(self).chars().len(),
            final(self).pos() == scan_end(
                old(self).chars(),
                old(self).pos(),
                ident_cont(),
                true,
                ']',
                ']',
            ),
            ({
                let hit = scan_hit(
                    old(self).chars(),
                    old(self).pos(),
                    ident_cont(),
                    true,
                    ']',
                    ']',
                );
                let text = scan_text(
                    old(self).chars(),
                    old(self).pos(),
                    ident_cont(),
                    true,
                    ']',
                    ']',
                );
                if hit != 0 {
                    r matches Option::Some(t) && t@ == text
                } else {
                    r is None
                }
            }),
    {
        let ghost s0 = self.chars();
        let ghost cont = ident_cont();
        let ghost p0 = self.pos();
        let mut builder: Vec<char> = Vec::new();
        loop
            invariant
                self.wf(),
                self.chars() == s0,
                self.table() == old(self).table(),
                self.left() == old(self).left(),
                p0 <= self.pos() <= self.chars().len(),
                scan_end(s0, p0, cont, true, ']', ']') == scan_end(
                    s0,
                    self.pos(),
                    cont,
                    true,
                    ']',
                    ']',
                ),
                scan_hit(s0, p0, cont, true, ']', ']') == scan_hit(
                    s0,
                    self.pos(),
                    cont,
                    true,
                    ']',
                    ']',
                ),
                scan_text(s0, p0, cont, true, ']', ']') =~= builder@ + scan_text(
                    s0,
                    self.pos(),
                    cont,
                    true,
                    ']',
                    ']',
                ),
            decreases self.chars().len() - self.pos(),
        {
            if self.position >= self.input.len() {
                break ;
            }
            let c = self.input[self.position];
            if c == ']' {
                self.position = self.position + 1;
                return Option::Some(string_from_chars(&builder));
            } else if is_ident_char(c) {
                self.position = self.position + 1;
                builder.push(c);
            } else if char_is_space(c) {
                self.position = self.position + 1;
            } else {
                break ;
            }
        }
        Option::None
    }

    /// Scan the argument-name part of a call form, up to the closing
    /// parenthesis; the argument-bucket name is pinned to the scanned
    /// text.
    #[verifier::loop_isolation(false)]
    fn lex_call(&mut self, name: String) -> (r: Token)
        requires
            old(self).wf(),
        ensures
            final(self).wf(),
            final(self).chars() == old(self).chars(),
            final(self).table() == old(self).table(),
            final(self).left() == old(self).left(),
            old(self).pos() <= final(self).pos() <= final(self).chars().len(),
            final(self).pos() == scan_end(
                old(self).chars(),
                ws_end(old(self).chars(), old(self).pos()),
                ident_cont(),
                true,
                ')',
                ')',
            ),
            ({
                let hit = scan_hit(
                    old(self).chars(),
                    ws_end(old(self).chars(), old(self).pos()),
                    ident_cont(),
                    true,
                    ')',
                    ')',
                );
                let text = scan_text(
                    old(self).chars(),
                    ws_end(old(self).chars(), old(self).pos()),
                    ident_cont(),
                    true,
                    ')',
                    ')',
                );
                if hit != 0 {
                    r matches Token::Call(nm, arg) && nm == name && arg@ == text
                } else {
                    r is Illegal
                }
            }),
            !(r is EOF),
    {
        let ghost s0 = self.chars();
        let ghost cont = ident_cont();
        self.skip_white();
        let ghost p0 = self.pos();
        let mut builder: Vec<char> = Vec::new();
        loop
            invariant
                self.wf(),
                self.chars() == s0,
                self.table() == old(self).table(),
                self.left() == old(self).left(),
                p0 <= self.pos() <= self.chars().len(),
                scan_end(s0, p0, cont, true, ')', ')') == scan_end(
                    s0,
                    self.pos(),
                    cont,
                    true,
                    ')',
                    ')',
                ),
                scan_hit(s0, p0, cont, true, ')', ')') == scan_hit(
                    s0,
                    self.pos(),
                    cont,
                    true,
                    ')',
                    ')',
                ),
                scan_text(s0, p0, cont, true, ')', ')') =~= builder@ + scan_text(
                    s0,
                    self.pos(),
                    cont,
                    true,
                    ')',
                    ')',
                ),
            decreases self.chars().len() - self.pos(),
        {
            if self.position >= self.input.len() {
                break ;
            }
            let c = self.input[self.position];
            if c == ')' {
                self.position = self.position + 1;
                return Token::Call(name, string_from_chars(&builder));
            } else if is_ident_char(c) {
                self.position = self.position + 1;
                builder.push(c);
            } else if char_is_space(c) {
                self.position = self.position + 1;
            } else {
                break ;
            }
        }
        Token::Illegal(self.position, self.error("an identifier for function arguments"))
    }

    /// Scan an identifier and decide its role from the terminator that
    /// follows: function header, call, assignment target, or a plain
    /// reference.  Function and call forms reject an attached index, and
    /// the scanned name is pinned to the text.
    #[verifier::loop_isolation(false)]
    fn lex_identifier(&mut self, index: Option<String>) -> (r: Token)
        requires
            old(self).wf(),
            old(self).pos() < old(self).chars().len(),
            ident_char(old(self).chars()[old(self).pos()]),
            old(self).chars()[old(self).pos()] != '{',
            old(self).chars()[old(self).pos()] != '(',
            old(self).chars()[old(self).pos()] != '=',
        ensures
            final(self).wf(),
            final(self).chars() == old(self).chars(),
            final(self).table() == old(self).table(),
            final(self).left() == old(self).left(),
            old(self).pos() < final(self).pos() <= final(self).chars().len(),
            final(self).pos() == id_end(old(self).chars(), old(self).pos(), index is Some),
            ({
                let s = old(self).chars();
                let i0 = old(self).pos();
                let k = id_kind(s, i0);
                let t = id_text(s, i0);
                let p = id_stop(s, i0);
                if k == 1 {
                    match index {
                        Option::None => r matches Token::Function(nm) && nm@ == t,
                        Option::Some(_) => r is Illegal,
                    }
                } else if k == 2 {
                    match index {
                        Option::None => {
                            if scan_hit(s, ws_end(s, p + 1), ident_cont(), true, ')', ')')
                                != 0 {
                                r matches Token::Call(nm, arg) && nm@ == t && arg@ == scan_text(
                                    s,
                                    ws_end(s, p + 1),
                                    ident_cont(),
                                    true,
                                    ')',
                                    ')',
                                )
                            } else {
                                r is Illegal
                            }
                        },
                        Option::Some(_) => r is Illegal,
                    }
                } else if k == 3 {
                    r matches Token::Assign(ix, nm) && ix == index && nm@ == t
                } else if k == 4 || k == 5 {
                    r matches Token::Identifier(ix, nm) && ix == index && nm@ == t
                } else {
                    r is Illegal
                }
            }),
            !(r is EOF),
    {
        let ghost s0 = self.chars();
        let ghost p0 = self.pos();
        let mut builder: Vec<char> = Vec::new();
        // reading the length ties the text's ghost view to the machine word
        let _text_len = self.input.len();
        let c0 = self.input[self.position];
        builder.push(c0);
        self.position = self.position + 1;
        loop
            invariant
                self.wf(),
                self.chars() == s0,
                self.table() == old(self).table(),
                self.left() == old(self).left(),
                p0 < self.pos() <= self.chars().len(),
                id_stop(s0, p0) == id_stop(s0, self.pos()),
                id_text(s0, p0) =~= builder@ + id_text(s0, self.pos()),
            decreases self.chars().len() - self.pos(),
        {
            if self.position >= self.input.len() {
                break ;
            }
            let c = self.input[self.position];
            if c == '{' {
                self.position = self.position + 1;
                match &index {
                    Option::None => {
                        return Token::Function(string_from_chars(&builder));
                    },
                    Option::Some(_) => {
                        return Token::Illegal(
                            self.position,
                            self.error("a function without a array index"),
                        );
                    },
                }
            } else if c == '(' {
                self.position = self.position + 1;
                match &index {
                    Option::None => {
                        let name = string_from_chars(&builder);
                        return self.lex_call(name);
                    },
                    Option::Some(_) => {
                        return Token::Illegal(
                            self.position,
                            self.error("a function without a array index"),
                        );
                    },
                }
            } else if c == '=' {
                self.position = self.position + 1;
                if self.position < self.input.len() {
                    let c2 = self.input[self.position];
                    if c2 == '=' || c2 == '!' {
                        self.position = self.position - 1;
                        return Token::Identifier(index, string_from_chars(&builder));
                    } else {
                        return Token::Assign(index, string_from_chars(&builder));
                    }
                }
                break ;
            } else if is_ident_char(c) {
                self.position = self.position + 1;
                builder.push(c);
            } else if char_is_space(c) {
                self.position = self.position + 1;
            } else {
                return Token::Identifier(index, string_from_chars(&builder));
            }
        }
        Token::Illegal(self.position, self.error("an identifier"))
    }

    /// Scan a number literal: a single dot marks it a float, carried as
    /// its bit pattern; an integer too large for the machine word becomes
    /// an illegal token.  The token's value is pinned to the scanned text.
    #[verifier::loop_isolation(false)]
    fn lex_number(&mut self) -> (r: Token)
        requires
            old(self).wf(),
            old(self).pos() < old(self).chars().len(),
            digit10(old(self).chars()[old(self).pos()]),
        ensures
            final(self).wf(),
            final(self).chars() == old(self).chars(),
            final(self).table() == old(self).table(),
            final(self).left() == old(self).left(),
            old(self).pos() < final(self).pos() <= final(self).chars().len(),
            final(self).pos() == num_end(old(self).chars(), old(self).pos()),
            ({
                let b = num_text(old(self).chars(), old(self).pos(), false);
                if num_has_dot(old(self).chars(), old(self).pos()) {
                    match crate::fbits::bits_of_dec(b) {
                        Option::Some(bits) => r == Token::Float(bits),
                        Option::None => r is Illegal,
                    }
                } else {
                    if int_of_digits(b) <= 0x7fff_ffff_ffff_ffff {
                        r == Token::Integer(int_of_digits(b) as i64)
                    } else {
                        r is Illegal
                    }
                }
            }),
            !(r is EOF),
    {
        let ghost s0 = self.chars();
        let ghost p0 = self.pos();
        let mut is_float = false;
        let mut builder: Vec<char> = Vec::new();
        // reading the length ties the text's ghost view to the machine word
        let _text_len = self.input.len();
        let c0 = self.input[self.position];
        builder.push(c0);
        self.position = self.position + 1;
        loop
            invariant
                self.wf(),
                self.chars() == s0,
                self.table() == old(self).table(),
                self.left() == old(self).left(),
                p0 < self.pos() <= self.chars().len(),
                num_end(s0, p0) == num_end(s0, self.pos()),
                num_text(s0, p0, false) =~= builder@ + num_text(s0, self.pos(), is_float),
                num_has_dot(s0, p0) == (is_float || num_has_dot(s0, self.pos())),
                !is_float ==> forall|j: int| 0 <= j < builder@.len() ==> digit10(
                    #[trigger] builder@[j]),
            decreases self.chars().len() - self.pos(),
        {
            if self.position >= self.input.len() {
                break ;
            }
            let c = self.input[self.position];
            if c == '.' {
                self.position = self.position + 1;
                if !is_float {
                    is_float = true;
                    builder.push('.');
                }
            } else if is_digit10(c) {
                self.position = self.position + 1;
                builder.push(c);
            } else {
                break ;
            }
        }
        proof {
            assert(num_text(s0, self.pos(), is_float) =~= Seq::<char>::empty());
            assert(builder@ =~= num_text(s0, p0, false));
            assert(num_has_dot(s0, self.pos()) == false);
        }
        if is_float {
            let text = string_from_chars(&builder);
            match fbits::float_of_dec(text.as_str()) {
                Option::Some(bits) => Token::Float(bits),
                Option::None => Token::Illegal(self.position, self.error("a float literal")),
            }
        } else {
            let ghost digits = builder@;
            proof {
                lemma_int_of_digits_bounds(digits);
            }
            let mut value: i64 = 0;
            let mut ok = true;
            let mut i: usize = 0;
            while i < builder.len()
                invariant
                    i <= builder@.len(),
                    builder@ == digits,
                    forall|j: int| 0 <= j < digits.len() ==> digit10(#[trigger] digits[j]),
                    ok ==> value == int_of_digits(digits.subrange(0, i as int)) && value >= 0,
                    !ok ==> int_of_digits(digits) > 0x7fff_ffff_ffff_ffff,
                decreases builder@.len() - i,
            {
                let c = builder[i];
                let d: i64 = ((c as u32) - 48) as i64;
                proof {
                    assert(digits.subrange(0, i as int + 1).drop_last() =~= digits.subrange(
                        0,
                        i as int,
                    ));
                    assert(digits.subrange(0, i as int + 1).last() == digits[i as int]);
                }
                if ok {
                    match value.checked_mul(10) {
                        Option::Some(v10) => {
                            match v10.checked_add(d) {
                                Option::Some(v) => {
                                    value = v;
                                },
                                Option::None => {
                                    ok = false;
                                    proof {
                                        assert(int_of_digits(digits.subrange(0, i as int + 1))
                                            > 0x7fff_ffff_ffff_ffff);
                                    }
                                },
                            }
                        },
                        Option::None => {
                            ok = false;
                            proof {
                                assert(int_of_digits(digits.subrange(0, i as int + 1))
                                    > 0x7fff_ffff_ffff_ffff);
                            }
                        },
                    }
                }
                i = i + 1;
            }
            proof {
                assert(digits.subrange(0, digits.len() as int) =~= digits);
            }
            if ok {
                Token::Integer(value)
            } else {
                Token::Illegal(self.position, self.error("a number that fits"))
            }
        }
    }

    /// Scan a loop header or a break: `$name{` opens a loop over the
    /// named condition, `$;` is a break.  The header's condition name is
    /// pinned to the scanned text.
    #[verifier::loop_isolation(false)]
    fn lex_looper(&mut self, index: Option<String>) -> (r: Token)
        requires
            old(self).wf(),
        ensures
            final(self).wf(),
            final(self).chars() == old(self).chars(),
            final(self).table() == old(self).table(),
            final(self).left() == old(self).left(),
            old(self).pos() <= final(self).pos() <= final(self).chars().len(),
            final(self).pos() == scan_end(
                old(self).chars(),
                old(self).pos(),
                ident_cont(),
                true,
                '{',
                ';',
            ),
            ({
                let hit = scan_hit(
                    old(self).chars(),
                    old(self).pos(),
                    ident_cont(),
                    true,
                    '{',
                    ';',
                );
                let text = scan_text(
                    old(self).chars(),
                    old(self).pos(),
                    ident_cont(),
                    true,
                    '{',
                    ';',
                );
                if hit == 1 {
                    r matches Token::Loop(ix, nm) && ix == index && nm@ == text
                } else if hit == 2 {
                    r == Token::Break
                } else {
                    r is Illegal
                }
            }),
            !(r is EOF),
    {
        let ghost s0 = self.chars();
        let ghost p0 = self.pos();
        let ghost cont = ident_cont();
        let mut builder: Vec<char> = Vec::new();
        loop
            invariant
                self.wf(),
                self.chars() == s0,
                self.table() == old(self).table(),
                self.left() == old(self).left(),
                p0 <= self.pos() <= self.chars().len(),
                scan_end(s0, p0, cont, true, '{', ';') == scan_end(
                    s0,
                    self.pos(),
                    cont,
                    true,
                    '{',
                    ';',
                ),
                scan_hit(s0, p0, cont, true, '{', ';') == scan_hit(
                    s0,
                    self.pos(),
                    cont,
                    true,
                    '{',
                    ';',
                ),
                scan_text(s0, p0, cont, true, '{', ';') =~= builder@ + scan_text(
                    s0,
                    self.pos(),
                    cont,
                    true,
                    '{',
                    ';',
                ),
            decreases self.chars().len() - self.pos(),
        {
            if self.position >= self.input.len() {
                break ;
            }
            let c = self.input[self.position];
            if c == '{' {
                self.position = self.position + 1;
                return Token::Loop(index, string_from_chars(&builder));
            } else if c == ';' {
                self.position = self.position + 1;
                return Token::Break;
            } else if is_ident_char(c) {
                self.position = self.position + 1;
                builder.push(c);
            } else if char_is_space(c) {
                self.position = self.position + 1;
            } else {
                break ;
            }
        }
        Token::Illegal(self.position, self.error("some sort of loop or break statement"))
    }

    /// Scan the inside of a comment up to its closing `*/`; the text is
    /// kept on the token, pinned to the scanned characters, and ignored by
    /// the evaluator.
    #[verifier::loop_isolation(false)]
    fn lex_comment(&mut self) -> (r: Token)
        requires
            old(self).wf(),
        ensures
            final(self).wf(),
            final(self).chars() == old(self).chars(),
            final(self).table() == old(self).table(),
            final(self).left() == old(self).left(),
            old(self).pos() <= final(self).pos() <= final(self).chars().len(),
            final(self).pos() == com_end(old(self).chars(), old(self).pos()),
            ({
                if com_closed(old(self).chars(), old(self).pos()) {
                    r matches Token::Comment(t) && t@ == com_text(old(self).chars(), old(self).pos())
                } else {
                    r is Illegal
                }
            }),
            !(r is EOF),
    {
        let ghost s0 = self.chars();
        let ghost p0 = self.pos();
        let mut builder: Vec<char> = Vec::new();
        loop
            invariant
                self.wf(),
                self.chars() == s0,
                self.table() == old(self).table(),
                self.left() == old(self).left(),
                p0 <= self.pos() <= self.chars().len(),
                com_end(s0, p0) == com_end(s0, self.pos()),
                com_closed(s0, p0) == com_closed(s0, self.pos()),
                com_text(s0, p0) =~= builder@ + com_text(s0, self.pos()),
            decreases self.chars().len() - self.pos(),
        {
            if self.position >= self.input.len() {
                break ;
            }
            let c = self.input[self.position];
            if c == '*' {
                self.position = self.position + 1;
                if self.position < self.input.len() {
                    let c2 = self.input[self.position];
                    if c2 == '/' {
                        self.position = self.position + 1;
                        return Token::Comment(string_from_chars(&builder));
                    }
                }
                builder.push(c);
            } else {
                self.position = self.position + 1;
                builder.push(c);
            }
        }
        Token::Illegal(self.position, self.error("a comment ending escape"))
    }

    /// A `/` is division unless a `*` follows, which opens a comment.
    fn lex_div(&mut self) -> (r: Token)
        requires
            old(self).wf(),
        ensures
            final(self).wf(),
            final(self).chars() == old(self).chars(),
            final(self).table() == old(self).table(),
            final(self).left() == old(self).left(),
            old(self).pos() <= final(self).pos() <= final(self).chars().len(),
            ({
                let s = old(self).chars();
                let i = old(self).pos();
                if i < s.len() && s[i] == '*' {
                    final(self).pos() == com_end(s, i + 1) && (if com_closed(s, i + 1) {
                        r matches Token::Comment(t) && t@ == com_text(s, i + 1)
                    } else {
                        r is Illegal
                    })
                } else {
                    r == Token::Divide && final(self).pos() == i
                }
            }),
            !(r is EOF),
    {
        if self.position < self.input.len() {
            let c = self.input[self.position];
            if c == '*' {
                self.position = self.position + 1;
                return self.lex_comment();
            }
        }
        Token::Divide
    }

    /// Scan a conditional header `?name{`, escalating to an input request
    /// on a second `?`.  The condition name -- or the input target scanned
    /// after the second `?` -- is pinned to the text.
    #[verifier::loop_isolation(false)]
    fn lex_if(&mut self, index: Option<String>) -> (r: Token)
        requires
            old(self).wf(),
        ensures
            final(self).wf(),
            final(self).chars() == old(self).chars(),
            final(self).table() == old(self).table(),
            final(self).left() == old(self).left(),
            old(self).pos() <= final(self).pos() <= final(self).chars().len(),
            ({
                let s = old(self).chars();
                let i0 = old(self).pos();
                let hit = scan_hit(s, i0, ident_cont(), true, '{', '?');
                let text = scan_text(s, i0, ident_cont(), true, '{', '?');
                let e1 = scan_end(s, i0, ident_cont(), true, '{', '?');
                if hit == 1 {
                    r matches Token::If(ix, nm) && ix == index && nm@ == text && final(self).pos()
                        == e1
                } else if hit == 2 {
                    final(self).pos() == scan_end(s, e1, ident_cont(), false, ';', ';')
                        && (if scan_hit(s, e1, ident_cont(), false, ';', ';') != 0 {
                        r matches Token::Input(ix, nm) && ix == index && nm@ == scan_text(
                            s,
                            e1,
                            ident_cont(),
                            false,
                            ';',
                            ';',
                        )
                    } else {
                        r is Illegal
                    })
                } else {
                    r is Illegal && final(self).pos() == e1
                }
            }),
            !(r is EOF),
    {
        let ghost s0 = self.chars();
        let ghost p0 = self.pos();
        let ghost cont = ident_cont();
        let mut builder: Vec<char> = Vec::new();
        loop
            invariant
                self.wf(),
                self.chars() == s0,
                self.table() == old(self).table(),
                self.left() == old(self).left(),
                p0 <= self.pos() <= self.chars().len(),
                scan_end(s0, p0, cont, true, '{', '?') == scan_end(
                    s0,
                    self.pos(),
                    cont,
                    true,
                    '{',
                    '?',
                ),
                scan_hit(s0, p0, cont, true, '{', '?') == scan_hit(
                    s0,
                    self.pos(),
                    cont,
                    true,
                    '{',
                    '?',
                ),
                scan_text(s0, p0, cont, true, '{', '?') =~= builder@ + scan_text(
                    s0,
                    self.pos(),
                    cont,
                    true,
                    '{',
                    '?',
                ),
            decreases self.chars().len() - self.pos(),
        {
            if self.position >= self.input.len() {
                break ;
            }
            let c = self.input[self.position];
            if c == '{' {
                self.position = self.position + 1;
                return Token::If(index, string_from_chars(&builder));
            } else if c == '?' {
                self.position = self.position + 1;
                return self.lex_input(index);
            } else if is_ident_char(c) {
                self.position = self.position + 1;
                builder.push(c);
            } else if char_is_space(c) {
                self.position = self.position + 1;
            } else {
                break ;
            }
        }
        Token::Illegal(self.position, self.error("a expression or secondary ?"))
    }

    /// Scan a string literal; `\\\"`, `\\n`, `\\t` and `\\r` escape, any other
    /// escaped character passes through literally.  The token's text is
    /// pinned to the scanned characters.
    #[verifier::loop_isolation(false)]
    fn lex_string(&mut self) -> (r: Token)
        requires
            old(self).wf(),
        ensures
            final(self).wf(),
            final(self).chars() == old(self).chars(),
            final(self).table() == old(self).table(),
            final(self).left() == old(self).left(),
            old(self).pos() <= final(self).pos() <= final(self).chars().len(),
            final(self).pos() == str_end(old(self).chars(), old(self).pos()),
            ({
                if str_closed(old(self).chars(), old(self).pos()) {
                    r matches Token::Str(t) && t@ == str_content(old(self).chars(), old(self).pos())
                } else {
                    r is Illegal
                }
            }),
            !(r is EOF),
    {
        let ghost s0 = self.chars();
        let ghost p0 = self.pos();
        let mut builder: Vec<char> = Vec::new();
        loop
            invariant
                self.wf(),
                self.chars() == s0,
                self.table() == old(self).table(),
                self.left() == old(self).left(),
                p0 <= self.pos() <= self.chars().len(),
                str_end(s0, p0) == str_end(s0, self.pos()),
                str_closed(s0, p0) == str_closed(s0, self.pos()),
                str_content(s0, p0) =~= builder@ + str_content(s0, self.pos()),
            decreases self.chars().len() - self.pos(),
        {
            if self.position >= self.input.len() {
                break ;
            }
            let c = self.input[self.position];
            if c == '"' {
                self.position = self.position + 1;
                return Token::Str(string_from_chars(&builder));
            } else if c == '\\' {
                self.position = self.position + 1;
                if self.position < self.input.len() {
                    let c2 = self.input[self.position];
                    let esc: char = if c2 == '"' {
                        '"'
                    } else if c2 == 'n' {
                        '\n'
                    } else if c2 == 't' {
                        '\t'
                    } else if c2 == 'r' {
                        '\r'
                    } else {
                        c2
                    };
                    builder.push(esc);
                    self.position = self.position + 1;
                } else {
                    return Token::Illegal(self.position, self.error("a valid escape sequence"));
                }
            } else {
                builder.push(c);
                self.position = self.position + 1;
            }
        }
        Token::Illegal(self.position, self.error("balenced string quotes"))
    }

    /// Scan a value-output statement `!name;`, with an optional index; a
    /// quote instead switches to literal-string output mode.  The name and
    /// the resolved index attachment are pinned to the scanned text.
    #[verifier::loop_isolation(false)]
    fn lex_output(&mut self) -> (r: Token)
        requires
            old(self).wf(),
        ensures
            final(self).wf(),
            final(self).chars() == old(self).chars(),
            final(self).table() == old(self).table(),
            final(self).left() == old(self).left(),
            old(self).pos() <= final(self).pos() <= final(self).chars().len(),
            final(self).pos() == out_end(old(self).chars(), old(self).pos()),
            ({
                let s = old(self).chars();
                let i0 = old(self).pos();
                let k = out_kind(s, i0);
                if k == 1 {
                    r == Token::OutputStr
                } else if k == 2 {
                    r matches Token::Output(ix, nm) && crate::token::opt_view(ix) == out_index(
                        s,
                        i0,
                        Option::None,
                    ) && nm@ == out_text(s, i0)
                } else {
                    r is Illegal
                }
            }),
            !(r is EOF),
    {
        let ghost s0 = self.chars();
        let ghost p0 = self.pos();
        let mut builder: Vec<char> = Vec::new();
        let mut index: Option<String> = Option::None;
        loop
            invariant
                self.wf(),
                self.chars() == s0,
                self.table() == old(self).table(),
                self.left() == old(self).left(),
                p0 <= self.pos() <= self.chars().len(),
                out_end(s0, p0) == out_end(s0, self.pos()),
                out_kind(s0, p0) == out_kind(s0, self.pos()),
                out_text(s0, p0) =~= builder@ + out_text(s0, self.pos()),
                out_index(s0, p0, Option::None) == out_index(
                    s0,
                    self.pos(),
                    crate::token::opt_view(index),
                ),
            decreases self.chars().len() - self.pos(),
        {
            if self.position >= self.input.len() {
                break ;
            }
            let c = self.input[self.position];
            if c == '[' {
                self.position = self.position + 1;
                index = self.lex_array();
            } else if c == '"' {
                return Token::OutputStr;
            } else if c == ';' {
                self.position = self.position + 1;
                return Token::Output(index, string_from_chars(&builder));
            } else if is_ident_char(c) {
                builder.push(c);
                self.position = self.position + 1;
            } else {
                break ;
            }
        }
        Token::Illegal(self.position, self.error("a identifier"))
    }

    /// Scan an input request `??name;`; the target name is pinned to the
    /// scanned text.
    #[verifier::loop_isolation(false)]
    fn lex_input(&mut self, index: Option<String>) -> (r: Token)
        requires
            old(self).wf(),
        ensures
            final(self).wf(),
            final(self).chars() == old(self).chars(),
            final(self).table() == old(self).table(),
            final(self).left() == old(self).left(),
            old(self).pos() <= final(self).pos() <= final(self).chars().len(),
            final(self).pos() == scan_end(
                old(self).chars(),
                old(self).pos(),
                ident_cont(),
                false,
                ';',
                ';',
            ),
            ({
                let hit = scan_hit(
                    old(self).chars(),
                    old(self).pos(),
                    ident_cont(),
                    false,
                    ';',
                    ';',
                );
                let text = scan_text(
                    old(self).chars(),
                    old(self).pos(),
                    ident_cont(),
                    false,
                    ';',
                    ';',
                );
                if hit != 0 {
                    r matches Token::Input(ix, nm) && ix == index && nm@ == text
                } else {
                    r is Illegal
                }
            }),
            !(r is EOF),
    {
        let ghost s0 = self.chars();
        let ghost cont = ident_cont();
        let ghost p0 = self.pos();
        let mut builder: Vec<char> = Vec::new();
        loop
            invariant
                self.wf(),
                self.chars() == s0,
                self.table() == old(self).table(),
                self.left() == old(self).left(),
                p0 <= self.pos() <= self.chars().len(),
                scan_end(s0, p0, cont, false, ';', ';') == scan_end(
                    s0,
                    self.pos(),
                    cont,
                    false,
                    ';',
                    ';',
                ),
                scan_hit(s0, p0, cont, false, ';', ';') == scan_hit(
                    s0,
                    self.pos(),
                    cont,
                    false,
                    ';',
                    ';',
                ),
                scan_text(s0, p0, cont, false, ';', ';') =~= builder@ + scan_text(
                    s0,
                    self.pos(),
                    cont,
                    false,
                    ';',
                    ';',
                ),
            decreases self.chars().len() - self.pos(),
        {
            if self.position >= self.input.len() {
                break ;
            }
            let c = self.input[self.position];
            if c == ';' {
                self.position = self.position + 1;
                return Token::Input(index, string_from_chars(&builder));
            } else if is_ident_char(c) {
                self.position = self.position + 1;
                builder.push(c);
            } else {
                break ;
            }
        }
        Token::Illegal(self.position, self.error("a identifier"))
    }

    /// After `=`: a second `=` is equality, `!` is inequality, anything
    /// else is an illegal token.
    fn lex_logic(&mut self) -> (r: Token)
        requires
            old(self).wf(),
        ensures
            final(self).wf(),
            final(self).chars() == old(self).chars(),
            final(self).table() == old(self).table(),
            final(self).left() == old(self).left(),
            old(self).pos() <= final(self).pos() <= final(self).chars().len(),
            ({
                let s = old(self).chars();
                let i = old(self).pos();
                if i < s.len() && s[i] == '=' {
                    r == Token::Equals && final(self).pos() == i + 1
                } else if i < s.len() && s[i] == '!' {
                    r == Token::Neq && final(self).pos() == i + 1
                } else {
                    r is Illegal && final(self).pos() == i
                }
            }),
            !(r is EOF),
    {
        if self.position < self.input.len() {
            let c = self.input[self.position];
            if c == '=' {
                self.position = self.position + 1;
                return Token::Equals;
            }
            if c == '!' {
                self.position = self.position + 1;
                return Token::Neq;
            }
        }
        Token::Illegal(self.position, self.error("a logical expressiong"))
    }

    /// After `<`: a following `=` makes it less-or-equal.
    fn lex_lt(&mut self) -> (r: Token)
        requires
            old(self).wf(),
        ensures
            final(self).wf(),
            final(self).chars() == old(self).chars(),
            final(self).table() == old(self).table(),
            final(self).left() == old(self).left(),
            old(self).pos() <= final(self).pos() <= final(self).chars().len(),
            ({
                let s = old(self).chars();
                let i = old(self).pos();
                if i < s.len() && s[i] == '=' {
                    r == Token::LtEq && final(self).pos() == i + 1
                } else {
                    r == Token::Lt && final(self).pos() == i
                }
            }),
            !(r is EOF),
    {
        if self.position < self.input.len() {
            let c = self.input[self.position];
            if c == '=' {
                self.position = self.position + 1;
                return Token::LtEq;
            }
        }
        Token::Lt
    }

    /// After `>`: a following `=` makes it greater-or-equal.
    fn lex_gt(&mut self) -> (r: Token)
        requires
            old(self).wf(),
        ensures
            final(self).wf(),
            final(self).chars() == old(self).chars(),
            final(self).table() == old(self).table(),
            final(self).left() == old(self).left(),
            old(self).pos() <= final(self).pos() <= final(self).chars().len(),
            ({
                let s = old(self).chars();
                let i = old(self).pos();
                if i < s.len() && s[i] == '=' {
                    r == Token::GtEq && final(self).pos() == i + 1
                } else {
                    r == Token::Gt && final(self).pos() == i
                }
            }),
            !(r is EOF),
    {
        if self.position < self.input.len() {
            let c = self.input[self.position];
            if c == '=' {
                self.position = self.position + 1;
                return Token::GtEq;
            }
        }
        Token::Gt
    }

    /// Scan a macro-header name up to the closing `>`; the name is pinned
    /// to the scanned text.
    #[verifier::loop_isolation(false)]
    fn lex_def(&mut self) -> (r: Token)
        requires
            old(self).wf(),
        ensures
            final(self).wf(),
            final(self).chars() == old(self).chars(),
            final(self).table() == old(self).table(),
            final(self).left() == old(self).left(),
            old(self).pos() <= final(self).pos() <= final(self).chars().len(),
            final(self).pos() == scan_end(
                old(self).chars(),
                old(self).pos(),
                alnum_cont(),
                false,
                '>',
                '>',
            ),
            ({
                let hit = scan_hit(
                    old(self).chars(),
                    old(self).pos(),
                    alnum_cont(),
                    false,
                    '>',
                    '>',
                );
                let text = scan_text(
                    old(self).chars(),
                    old(self).pos(),
                    alnum_cont(),
                    false,
                    '>',
                    '>',
                );
                if hit != 0 {
                    r matches Token::Def(nm) && nm@ == text
                } else {
                    r is Illegal
                }
            }),
            !(r is EOF),
    {
        let ghost s0 = self.chars();
        let ghost cont = alnum_cont();
        let ghost p0 = self.pos();
        let mut builder: Vec<char> = Vec::new();
        loop
            invariant
                self.wf(),
                self.chars() == s0,
                self.table() == old(self).table(),
                self.left() == old(self).left(),
                p0 <= self.pos() <= self.chars().len(),
                scan_end(s0, p0, cont, false, '>', '>') == scan_end(
                    s0,
                    self.pos(),
                    cont,
                    false,
                    '>',
                    '>',
                ),
                scan_hit(s0, p0, cont, false, '>', '>') == scan_hit(
                    s0,
                    self.pos(),
                    cont,
                    false,
                    '>',
                    '>',
                ),
                scan_text(s0, p0, cont, false, '>', '>') =~= builder@ + scan_text(
                    s0,
                    self.pos(),
                    cont,
                    false,
                    '>',
                    '>',
                ),
            decreases self.chars().len() - self.pos(),
        {
            if self.position >= self.input.len() {
                break ;
            }
            let c = self.input[self.position];
            if c == '>' {
                self.position = self.position + 1;
                return Token::Def(string_from_chars(&builder));
            } else if char_is_alnum(c) {
                self.position = self.position + 1;
                builder.push(c);
            } else {
                break ;
            }
        }
        Token::Illegal(self.position, self.error("a def name"))
    }

    /// Scan a macro-insertion name up to the closing parenthesis; the name
    /// is pinned to the scanned text.
    #[verifier::loop_isolation(false)]
    fn lex_insert(&mut self) -> (r: Token)
        requires
            old(self).wf(),
        ensures
            final(self).wf(),
            final(self).chars() == old(self).chars(),
            final(self).table() == old(self).table(),
            final(self).left() == old(self).left(),
            old(self).pos() <= final(self).pos() <= final(self).chars().len(),
            final(self).pos() == scan_end(
                old(self).chars(),
                old(self).pos(),
                alnum_cont(),
                false,
                ')',
                ')',
            ),
            ({
                let hit = scan_hit(
                    old(self).chars(),
                    old(self).pos(),
                    alnum_cont(),
                    false,
                    ')',
                    ')',
                );
                let text = scan_text(
                    old(self).chars(),
                    old(self).pos(),
                    alnum_cont(),
                    false,
                    ')',
                    ')',
                );
                if hit != 0 {
                    r matches Token::Insert(nm) && nm@ == text
                } else {
                    r is Illegal
                }
            }),
            !(r is EOF),
    {
        let ghost s0 = self.chars();
        let ghost cont = alnum_cont();
        let ghost p0 = self.pos();
        let mut builder: Vec<char> = Vec::new();
        loop
            invariant
                self.wf(),
                self.chars() == s0,
                self.table() == old(self).table(),
                self.left() == old(self).left(),
                p0 <= self.pos() <= self.chars().len(),
                scan_end(s0, p0, cont, false, ')', ')') == scan_end(
                    s0,
                    self.pos(),
                    cont,
                    false,
                    ')',
                    ')',
                ),
                scan_hit(s0, p0, cont, false, ')', ')') == scan_hit(
                    s0,
                    self.pos(),
                    cont,
                    false,
                    ')',
                    ')',
                ),
                scan_text(s0, p0, cont, false, ')', ')') =~= builder@ + scan_text(
                    s0,
                    self.pos(),
                    cont,
                    false,
                    ')',
                    ')',
                ),
            decreases self.chars().len() - self.pos(),
        {
            if self.position >= self.input.len() {
                break ;
            }
            let c = self.input[self.position];
            if c == ')' {
                self.position = self.position + 1;
                return Token::Insert(string_from_chars(&builder));
            } else if char_is_alnum(c) {
                self.position = self.position + 1;
                builder.push(c);
            } else {
                break ;
            }
        }
        Token::Illegal(self.position, self.error("a def name"))
    }

    /// Scan a `#name#` form: `#T#` and `#F#` are the boolean literals,
    /// any other name is an opaque syscall token, pinned to the scanned
    /// text.
    #[verifier::loop_isolation(false)]
    fn lex_syscall(&mut self) -> (r: Token)
        requires
            old(self).wf(),
        ensures
            final(self).wf(),
            final(self).chars() == old(self).chars(),
            final(self).table() == old(self).table(),
            final(self).left() == old(self).left(),
            old(self).pos() <= final(self).pos() <= final(self).chars().len(),
            final(self).pos() == scan_end(
                old(self).chars(),
                old(self).pos(),
                sys_cont(),
                false,
                '#',
                '#',
            ),
            ({
                let hit = scan_hit(
                    old(self).chars(),
                    old(self).pos(),
                    sys_cont(),
                    false,
                    '#',
                    '#',
                );
                let text = scan_text(
                    old(self).chars(),
                    old(self).pos(),
                    sys_cont(),
                    false,
                    '#',
                    '#',
                );
                if hit != 0 {
                    if text == "T"@ {
                        r == Token::Bool(true)
                    } else if text == "F"@ {
                        r == Token::Bool(false)
                    } else {
                        r matches Token::SysCall(nm) && nm@ == text
                    }
                } else {
                    r is Illegal
                }
            }),
            !(r is EOF),
    {
        let ghost s0 = self.chars();
        let ghost cont = sys_cont();
        let ghost p0 = self.pos();
        let mut builder: Vec<char> = Vec::new();
        loop
            invariant
                self.wf(),
                self.chars() == s0,
                self.table() == old(self).table(),
                self.left() == old(self).left(),
                p0 <= self.pos() <= self.chars().len(),
                scan_end(s0, p0, cont, false, '#', '#') == scan_end(
                    s0,
                    self.pos(),
                    cont,
                    false,
                    '#',
                    '#',
                ),
                scan_hit(s0, p0, cont, false, '#', '#') == scan_hit(
                    s0,
                    self.pos(),
                    cont,
                    false,
                    '#',
                    '#',
                ),
                scan_text(s0, p0, cont, false, '#', '#') =~= builder@ + scan_text(
                    s0,
                    self.pos(),
                    cont,
                    false,
                    '#',
                    '#',
                ),
            decreases self.chars().len() - self.pos(),
        {
            if self.position >= self.input.len() {
                break ;
            }
            let c = self.input[self.position];
            if c == '#' {
                self.position = self.position + 1;
                let text = string_from_chars(&builder);
                let t_lit = String::from_str("T");
                let f_lit = String::from_str("F");
                if string_eq(&text, &t_lit) {
                    return Token::Bool(true);
                } else if string_eq(&text, &f_lit) {
                    return Token::Bool(false);
                } else {
                    return Token::SysCall(text);
                }
            } else if char_is_alnum(c) || c == '_' {
                self.position = self.position + 1;
                builder.push(c);
            } else {
                break ;
            }
        }
        Token::Illegal(self.position, self.error("a syscall"))
    }

    /// Scan a splice directive's path up to the closing bracket, then
    /// tokenize the named file with a fresh scanner and hand its whole
    /// token sequence back as one token.  A path missing from the table is
    /// recorded as pending and contributes zero tokens, as does an
    /// exhausted splice budget; what a found file's text tokenizes to is
    /// not stated here, only exercised.
    #[verifier::loop_isolation(false)]
    fn lex_inline(&mut self) -> (r: Token)
        requires
            old(self).wf(),
        ensures
            final(self).wf(),
            final(self).chars() == old(self).chars(),
            final(self).table() == old(self).table(),
            final(self).left() == old(self).left(),
            old(self).pos() <= final(self).pos() <= final(self).chars().len(),
            final(self).pos() == scan_end(
                old(self).chars(),
                old(self).pos(),
                path_cont(),
                false,
                ']',
                ']',
            ),
            r is Inline,
            ({
                let p = scan_text(old(self).chars(), old(self).pos(), path_cont(), false, ']', ']');
                match table_find(old(self).table(), p) {
                    Option::Some(_) => {
                        old(self).left() == 0 ==> ((r matches Token::Inline(v) && v@
                            == Seq::<Token>::empty()) && final(self).pending() == old(self).pending())
                    },
                    Option::None => (r matches Token::Inline(v) && v@ == Seq::<Token>::empty())
                        && final(self).pending().len() == old(self).pending().len() + 1 && final(self).pending().last()@ == p && final(self).pending().subrange(
                        0,
                        old(self).pending().len() as int,
                    ) == old(self).pending(),
                }
            }),
        decreases old(self).left(), 0int,
    {
        let ghost s0 = self.chars();
        let ghost p0 = self.pos();
        let mut builder: Vec<char> = Vec::new();
        loop
            invariant
                self.wf(),
                self.chars() == s0,
                self.table() == old(self).table(),
                self.left() == old(self).left(),
                self.pending() == old(self).pending(),
                p0 <= self.pos() <= self.chars().len(),
                scan_end(s0, p0, path_cont(), false, ']', ']') == scan_end(
                    s0,
                    self.pos(),
                    path_cont(),
                    false,
                    ']',
                    ']',
                ),
                scan_text(s0, p0, path_cont(), false, ']', ']') =~= builder@ + scan_text(
                    s0,
                    self.pos(),
                    path_cont(),
                    false,
                    ']',
                    ']',
                ),
            decreases self.chars().len() - self.pos(),
        {
            if self.position >= self.input.len() {
                break ;
            }
            let c = self.input[self.position];
            if c == ']' {
                self.position = self.position + 1;
                break ;
            } else if char_is_alnum(c) || c == '/' || c == '_' || c == '.' {
                builder.push(c);
                self.position = self.position + 1;
            } else {
                break ;
            }
        }
        let path = string_from_chars(&builder);
        let mut content: Option<String> = Option::None;
        let mut i: usize = 0;
        proof {
            assert(self.files@.skip(0) =~= self.files@);
        }
        while i < self.files.len()
            invariant
                i <= self.files@.len(),
                self.wf(),
                self.chars() == s0,
                self.table() == old(self).table(),
                self.left() == old(self).left(),
                self.pending() == old(self).pending(),
                p0 <= self.pos() <= self.chars().len(),
                self.pos() == scan_end(s0, p0, path_cont(), false, ']', ']'),
                path@ == scan_text(s0, p0, path_cont(), false, ']', ']'),
                content is None,
                table_find(self.files@, path@) == table_find(
                    self.files@.skip(i as int),
                    path@,
                ),
            decreases self.files@.len() - i,
        {
            let e = &self.files[i];
            if string_eq(&e.0, &path) {
                proof {
                    assert(self.files@.skip(i as int)[0] == self.files@[i as int]);
                }
                content = Option::Some(e.1.clone());
                break ;
            }
            proof {
                assert(self.files@.skip(i as int).drop_first() =~= self.files@.skip(i as int + 1));
            }
            i = i + 1;
        }
        proof {
            if content is None {
                assert(self.files@.skip(self.files@.len() as int) =~= Seq::<
                    (String, String),
                >::empty());
            }
        }
        let mut tokens: Vec<Token> = Vec::new();
        match content {
            Option::Some(text) => {
                if self.budget > 0 {
                    let mut sub = Lexer {
                        input: chars_of_str(text.as_str()),
                        position: 0,
                        files: copy_files(&self.files),
                        budget: self.budget - 1,
                        missing: Vec::new(),
                    };
                    loop
                        invariant
                            sub.wf(),
                            sub.left() == old(self).left() - 1,
                            self.wf(),
                            self.chars() == s0,
                            self.table() == old(self).table(),
                            self.left() == old(self).left(),
                            p0 <= self.pos() <= self.chars().len(),
                        decreases sub.chars().len() - sub.pos(),
                    {
                        let t = sub.lex_next_token();
                        let done: bool = match &t {
                            Token::EOF => true,
                            _ => false,
                        };
                        if done {
                            break ;
                        }
                        tokens.push(t);
                    }
                    let mut sub_missing = sub.missing;
                    self.missing.append(&mut sub_missing);
                }
            },
            Option::None => {
                let ghost pre = self.missing@;
                self.missing.push(path);
                proof {
                    assert(self.missing@.subrange(0, pre.len() as int) =~= pre);
                }
            },
        }
        Token::Inline(tokens)
    }

    /// Hand over, and clear, the paths that splice directives asked for
    /// but the table could not answer; the caller may supply them and
    /// tokenize again.
    pub fn take_missing(&mut self) -> (r: Vec<String>)
        ensures
            final(self).wf() == old(self).wf(),
            final(self).chars() == old(self).chars(),
            final(self).pos() == old(self).pos(),
            final(self).table() == old(self).table(),
            final(self).left() == old(self).left(),
            r@ == old(self).pending(),
            final(self).pending() == Seq::<String>::empty(),
    {
        let mut out: Vec<String> = Vec::new();
        core::mem::swap(&mut self.missing, &mut out);
        out
    }

    /// Dispatch a `#` form: insertion, macro header, file splice, or a
    /// `#name#` literal.
    fn lex_macro(&mut self) -> (r: Token)
        requires
            old(self).wf(),
        ensures
            final(self).wf(),
            final(self).chars() == old(self).chars(),
            final(self).table() == old(self).table(),
            final(self).left() == old(self).left(),
            old(self).pos() <= final(self).pos() <= final(self).chars().len(),
            !(r is EOF),
        decreases old(self).left(), 1int,
    {
        loop
            invariant
                self.wf(),
                self.chars() == old(self).chars(),
                self.table() == old(self).table(),
                self.left() == old(self).left(),
                old(self).pos() <= self.pos() <= self.chars().len(),
            decreases self.chars().len() - self.pos(),
        {
            if self.position >= self.input.len() {
                break ;
            }
            let c = self.input[self.position];
            if c == '(' {
                self.position = self.position + 1;
                return self.lex_insert();
            } else if c == '<' {
                self.position = self.position + 1;
                return self.lex_def();
            } else if c == '[' {
                self.position = self.position + 1;
                return self.lex_inline();
            } else if char_is_space(c) {
                self.position = self.position + 1;
            } else if char_is_alnum(c) {
                return self.lex_syscall();
            } else {
                break ;
            }
        }
        Token::Illegal(self.position, self.error("a def or a boolean"))
    }

    /// Scan a kill statement `**name;`; the doomed name is pinned to the
    /// scanned text.
    #[verifier::loop_isolation(false)]
    fn lex_kill(&mut self, index: Option<String>) -> (r: Token)
        requires
            old(self).wf(),
        ensures
            final(self).wf(),
            final(self).chars() == old(self).chars(),
            final(self).table() == old(self).table(),
            final(self).left() == old(self).left(),
            old(self).pos() <= final(self).pos() <= final(self).chars().len(),
            final(self).pos() == scan_end(
                old(self).chars(),
                old(self).pos(),
                ident_cont(),
                true,
                ';',
                ';',
            ),
            ({
                let hit = scan_hit(
                    old(self).chars(),
                    old(self).pos(),
                    ident_cont(),
                    true,
                    ';',
                    ';',
                );
                let text = scan_text(
                    old(self).chars(),
                    old(self).pos(),
                    ident_cont(),
                    true,
                    ';',
                    ';',
                );
                if hit != 0 {
                    r matches Token::Kill(ix, nm) && ix == index && nm@ == text
                } else {
                    r is Illegal
                }
            }),
            !(r is EOF),
    {
        let ghost s0 = self.chars();
        let ghost cont = ident_cont();
        let ghost p0 = self.pos();
        let mut builder: Vec<char> = Vec::new();
        loop
            invariant
                self.wf(),
                self.chars() == s0,
                self.table() == old(self).table(),
                self.left() == old(self).left(),
                p0 <= self.pos() <= self.chars().len(),
                scan_end(s0, p0, cont, true, ';', ';') == scan_end(
                    s0,
                    self.pos(),
                    cont,
                    true,
                    ';',
                    ';',
                ),
                scan_hit(s0, p0, cont, true, ';', ';') == scan_hit(
                    s0,
                    self.pos(),
                    cont,
                    true,
                    ';',
                    ';',
                ),
                scan_text(s0, p0, cont, true, ';', ';') =~= builder@ + scan_text(
                    s0,
                    self.pos(),
                    cont,
                    true,
                    ';',
                    ';',
                ),
            decreases self.chars().len() - self.pos(),
        {
            if self.position >= self.input.len() {
                break ;
            }
            let c = self.input[self.position];
            if c == ';' {
                self.position = self.position + 1;
                return Token::Kill(index, string_from_chars(&builder));
            } else if is_ident_char(c) {
                self.position = self.position + 1;
                builder.push(c);
            } else if char_is_space(c) {
                self.position = self.position + 1;
            } else {
                break ;
            }
        }
        Token::Illegal(self.position, self.error("a valid variable"))
    }

    /// Produce the next token, consuming none of the characters already
    /// consumed; the end-of-stream marker comes exactly when the rest of
    /// the text is exhausted, and every other answer makes progress.  The
    /// token is pinned to the text for every form except the `#`-led
    /// family, whose macro and file-splice scans stay unconstrained.
    #[verifier::rlimit(30)]
    pub fn lex_next_token(&mut self) -> (r: Token)
        requires
            old(self).wf(),
        ensures
            final(self).wf(),
            final(self).chars() == old(self).chars(),
            final(self).table() == old(self).table(),
            final(self).left() == old(self).left(),
            old(self).pos() <= final(self).pos() <= final(self).chars().len(),
            r is EOF ==> final(self).pos() == final(self).chars().len(),
            !(r is EOF) ==> old(self).pos() < final(self).pos(),
            ({
                let s = old(self).chars();
                let m = next_start(s, old(self).pos());
                let ix = next_index(s, old(self).pos(), Option::None);
                let fp = final(self).pos();
                if m >= s.len() {
                    r == Token::EOF && fp == s.len()
                } else {
                    let c = s[m];
                    if c == '"' {
                        fp == str_end(s, m + 1) && (if str_closed(s, m + 1) {
                            r matches Token::Str(t) && t@ == str_content(s, m + 1)
                        } else {
                            r is Illegal
                        })
                    } else if c == '#' {
                        true
                    } else if c == '=' {
                        if m + 1 < s.len() && s[m + 1] == '=' {
                            r == Token::Equals && fp == m + 2
                        } else if m + 1 < s.len() && s[m + 1] == '!' {
                            r == Token::Neq && fp == m + 2
                        } else {
                            r is Illegal && fp == m + 1
                        }
                    } else if c == '<' {
                        if m + 1 < s.len() && s[m + 1] == '=' {
                            r == Token::LtEq && fp == m + 2
                        } else {
                            r == Token::Lt && fp == m + 1
                        }
                    } else if c == '>' {
                        if m + 1 < s.len() && s[m + 1] == '=' {
                            r == Token::GtEq && fp == m + 2
                        } else {
                            r == Token::Gt && fp == m + 1
                        }
                    } else if c == '|' {
                        r == Token::Or && fp == m + 1
                    } else if c == '&' {
                        r == Token::And && fp == m + 1
                    } else if c == '^' {
                        r == Token::Xor && fp == m + 1
                    } else if c == '+' {
                        r == Token::Add && fp == m + 1
                    } else if c == '-' {
                        r == Token::Sub && fp == m + 1
                    } else if c == '*' {
                        if m + 1 < s.len() && s[m + 1] == '*' {
                            fp == scan_end(s, m + 2, ident_cont(), true, ';', ';') && (if scan_hit(
                                s,
                                m + 2,
                                ident_cont(),
                                true,
                                ';',
                                ';',
                            ) != 0 {
                                r matches Token::Kill(kx, nm) && opt_view(kx) == ix && nm@
                                    == scan_text(s, m + 2, ident_cont(), true, ';', ';')
                            } else {
                                r is Illegal
                            })
                        } else {
                            r == Token::Multiply && fp == m + 1
                        }
                    } else if c == '/' {
                        if m + 1 < s.len() && s[m + 1] == '*' {
                            fp == com_end(s, m + 2) && (if com_closed(s, m + 2) {
                                r matches Token::Comment(t) && t@ == com_text(s, m + 2)
                            } else {
                                r is Illegal
                            })
                        } else {
                            r == Token::Divide && fp == m + 1
                        }
                    } else if c == '%' {
                        r == Token::Mod && fp == m + 1
                    } else if c == '(' {
                        r == Token::LParen && fp == m + 1
                    } else if c == ')' {
                        r == Token::RParen && fp == m + 1
                    } else if c == '{' {
                        r == Token::LBrack && fp == m + 1
                    } else if c == '}' {
                        r == Token::RBrack && fp == m + 1
                    } else if c == ';' {
                        r == Token::Semicolon && fp == m + 1
                    } else if c == '@' {
                        let w = ws_end(s, m + 1);
                        (r matches Token::Argreg(ax) && opt_view(ax) == ix) && fp == (
                        if w < s.len() && s[w] == '=' {
                            w + 1
                        } else {
                            w
                        })
                    } else if c == '?' {
                        let h = scan_hit(s, m + 1, ident_cont(), true, '{', '?');
                        let t = scan_text(s, m + 1, ident_cont(), true, '{', '?');
                        let e1 = scan_end(s, m + 1, ident_cont(), true, '{', '?');
                        if h == 1 {
                            r matches Token::If(ax, nm) && opt_view(ax) == ix && nm@ == t && fp
                                == e1
                        } else if h == 2 {
                            fp == scan_end(s, e1, ident_cont(), false, ';', ';') && (if scan_hit(
                                s,
                                e1,
                                ident_cont(),
                                false,
                                ';',
                                ';',
                            ) != 0 {
                                r matches Token::Input(ax, nm) && opt_view(ax) == ix && nm@
                                    == scan_text(s, e1, ident_cont(), false, ';', ';')
                            } else {
                                r is Illegal
                            })
                        } else {
                            r is Illegal && fp == e1
                        }
                    } else if c == '!' {
                        let k = out_kind(s, m + 1);
                        fp == out_end(s, m + 1) && (if k == 1 {
                            r == Token::OutputStr
                        } else if k == 2 {
                            r matches Token::Output(ax, nm) && opt_view(ax) == out_index(
                                s,
                                m + 1,
                                Option::None,
                            ) && nm@ == out_text(s, m + 1)
                        } else {
                            r is Illegal
                        })
                    } else if c == '$' {
                        let h = scan_hit(s, m + 1, ident_cont(), true, '{', ';');
                        let t = scan_text(s, m + 1, ident_cont(), true, '{', ';');
                        fp == scan_end(s, m + 1, ident_cont(), true, '{', ';') && (if h == 1 {
                            r matches Token::Loop(ax, nm) && opt_view(ax) == ix && nm@ == t
                        } else if h == 2 {
                            r == Token::Break
                        } else {
                            r is Illegal
                        })
                    } else if digit10(c) {
                        fp == num_end(s, m) && ({
                            let b = num_text(s, m, false);
                            if num_has_dot(s, m) {
                                match crate::fbits::bits_of_dec(b) {
                                    Option::Some(bits) => r == Token::Float(bits),
                                    Option::None => r is Illegal,
                                }
                            } else {
                                if int_of_digits(b) <= 0x7fff_ffff_ffff_ffff {
                                    r == Token::Integer(int_of_digits(b) as i64)
                                } else {
                                    r is Illegal
                                }
                            }
                        })
                    } else if ident_char(c) {
                        fp == id_end(s, m, ix is Some) && ({
                            let k = id_kind(s, m);
                            let t = id_text(s, m);
                            let p = id_stop(s, m);
                            if k == 1 {
                                match ix {
                                    Option::None => r matches Token::Function(nm) && nm@ == t,
                                    Option::Some(_) => r is Illegal,
                                }
                            } else if k == 2 {
                                match ix {
                                    Option::None => {
                                        if scan_hit(
                                            s,
                                            ws_end(s, p + 1),
                                            ident_cont(),
                                            true,
                                            ')',
                                            ')',
                                        ) != 0 {
                                            r matches Token::Call(nm, arg) && nm@ == t && arg@
                                                == scan_text(
                                                s,
                                                ws_end(s, p + 1),
                                                ident_cont(),
                                                true,
                                                ')',
                                                ')',
                                            )
                                        } else {
                                            r is Illegal
                                        }
                                    },
                                    Option::Some(_) => r is Illegal,
                                }
                            } else if k == 3 {
                                r matches Token::Assign(ax, nm) && opt_view(ax) == ix && nm@ == t
                            } else if k == 4 || k == 5 {
                                r matches Token::Identifier(ax, nm) && opt_view(ax) == ix && nm@
                                    == t
                            } else {
                                r is Illegal
                            }
                        })
                    } else {
                        r is Illegal && fp == m + 1
                    }
                }
            }),
        decreases old(self).left(), 2int,
    {
        let mut index: Option<String> = Option::None;
        while self.position < self.input.len()
            invariant
                self.wf(),
                self.chars() == old(self).chars(),
                self.table() == old(self).table(),
                self.left() == old(self).left(),
                old(self).pos() <= self.pos() <= self.chars().len(),
                next_start(self.chars(), old(self).pos()) == next_start(
                    self.chars(),
                    self.pos(),
                ),
                next_index(self.chars(), old(self).pos(), Option::None) == next_index(
                    self.chars(),
                    self.pos(),
                    opt_view(index),
                ),
            decreases self.chars().len() - self.pos(),
        {
            let c = self.input[self.position];
            if c == '"' {
                self.position = self.position + 1;
                return self.lex_string();
            } else if c == '#' {
                self.position = self.position + 1;
                return self.lex_macro();
            } else if c == '=' {
                self.position = self.position + 1;
                return self.lex_logic();
            } else if c == '<' {
                self.position = self.position + 1;
                return self.lex_lt();
            } else if c == '>' {
                self.position = self.position + 1;
                return self.lex_gt();
            } else if c == '|' {
                self.position = self.position + 1;
                return Token::Or;
            } else if c == '&' {
                self.position = self.position + 1;
                return Token::And;
            } else if c == '^' {
                self.position = self.position + 1;
                return Token::Xor;
            } else if c == '+' {
                self.position = self.position + 1;
                return Token::Add;
            } else if c == '-' {
                self.position = self.position + 1;
                return Token::Sub;
            } else if c == '*' {
                self.position = self.position + 1;
                if self.position < self.input.len() {
                    let c2 = self.input[self.position];
                    if c2 == '*' {
                        self.position = self.position + 1;
                        return self.lex_kill(index);
                    }
                }
                return Token::Multiply;
            } else if c == '/' {
                self.position = self.position + 1;
                return self.lex_div();
            } else if c == '%' {
                self.position = self.position + 1;
                return Token::Mod;
            } else if c == '(' {
                self.position = self.position + 1;
                return Token::LParen;
            } else if c == ')' {
                self.position = self.position + 1;
                return Token::RParen;
            } else if c == '{' {
                self.position = self.position + 1;
                return Token::LBrack;
            } else if c == '}' {
                self.position = self.position + 1;
                return Token::RBrack;
            } else if c == '[' {
                self.position = self.position + 1;
                index = self.lex_array();
            } else if c == ';' {
                self.position = self.position + 1;
                return Token::Semicolon;
            } else if c == '@' {
                self.position = self.position + 1;
                self.skip_white();
                if self.position < self.input.len() {
                    let c2 = self.input[self.position];
                    if c2 == '=' {
                        self.position = self.position + 1;
                    }
                }
                return Token::Argreg(index);
            } else if c == '?' {
                self.position = self.position + 1;
                return self.lex_if(index);
            } else if c == '!' {
                self.position = self.position + 1;
                return self.lex_output();
            } else if c == '$' {
                self.position = self.position + 1;
                return self.lex_looper(index);
            } else if char_is_space(c) {
                self.position = self.position + 1;
            } else if is_digit10(c) {
                return self.lex_number();
            } else if is_ident_char(c) {
                return self.lex_identifier(index);
            } else {
                self.position = self.position + 1;
                return Token::Illegal(self.position, self.error("a valid token"));
            }
        }
        Token::EOF
    }
}

/// Tokenize a whole program: collect every token up to the end marker,
/// then splice file tokens in place, one level deep, as the driver does.
pub fn lex_program(lexer: &mut Lexer) -> (r: Vec<Token>)
    requires
        old(lexer).wf(),
    ensures
        final(lexer).wf(),
        ({
            exists|raw: Seq<crate::token::TokenS>|
                crate::token::tape_view(r@) == crate::token::flat_view(raw)
        }),
{
    let mut raw: Vec<Token> = Vec::new();
    loop
        invariant
            lexer.wf(),
        decreases lexer.chars().len() - lexer.pos(),
    {
        let t = lexer.lex_next_token();
        let done: bool = match &t {
            Token::EOF => true,
            _ => false,
        };
        if done {
            break ;
        }
        raw.push(t);
    }
    flatten(&raw)
}

} // verus!
