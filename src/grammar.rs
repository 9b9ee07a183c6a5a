//! The language's grammar as spec functions over a character sequence.
//!
//! Each `*_at(s, i)` function states what its production yields when it is
//! tried at offset `i` of `s`: a value and the offset after it, a failure that
//! lets an enclosing choice try its next alternative, or an abort that ends the
//! whole parse. Alternatives are tried in order with full backtracking.
use vstd::prelude::*;
use crate::ast::{Dir, ErrorV, KindV, RuleV, StepV, SymV, TermV};
use crate::chars::{is_alphabetic, is_alphanumeric, is_whitespace};

verus! {

/// What trying a production at some offset yields.
pub ghost enum Outcome<T> {
    /// A value, and the offset just after the text it was read from.
    Done(T, int),
    /// No match; the offset is the furthest one at which an expected token was missing.
    Fail(int),
    /// A fatal error: no alternative is tried after it.
    Abort(ErrorV),
}

pub open spec fn furthest(a: int, b: int) -> int {
    if a < b { b } else { a }
}

pub open spec fn at(s: Seq<char>, i: int, c: char) -> bool {
    0 <= i < s.len() && s[i] == c
}

/// Whether `w` stands in `s` at offset `i`.
pub open spec fn word_at(s: Seq<char>, i: int, w: Seq<char>) -> bool {
    0 <= i && i + w.len() <= s.len() && s.subrange(i, i + w.len()) == w
}

pub open spec fn kw_machine() -> Seq<char> {
    seq!['m', 'a', 'c', 'h', 'i', 'n', 'e']
}

pub open spec fn kw_table() -> Seq<char> {
    seq!['t', 'a', 'b', 'l', 'e']
}

pub open spec fn kw_blank() -> Seq<char> {
    seq!['b', 'l', 'a', 'n', 'k']
}

pub open spec fn kw_any() -> Seq<char> {
    seq!['a', 'n', 'y']
}

/// The words that can never name a machine.
pub open spec fn is_reserved(w: Seq<char>) -> bool {
    w == kw_machine() || w == kw_table() || w == kw_blank() || w == kw_any()
}

/// Punctuation allowed in a name after its first letter.
pub open spec fn is_name_punct(c: char) -> bool {
    c == '!' || c == '$' || c == '%' || c == '&' || c == '|' || c == '*' || c == '+' || c == '-'
        || c == '/' || c == ':' || c == '<' || c == '=' || c == '>' || c == '?' || c == '@'
        || c == '^' || c == '_' || c == '~' || c == '#' || c == '.'
}

pub open spec fn is_name_char(c: char) -> bool {
    is_alphanumeric(c) || is_name_punct(c)
}

/// Number of whitespace characters starting at `i`.
pub open spec fn ws_len(s: Seq<char>, i: int) -> nat
    decreases s.len() - i,
{
    if 0 <= i < s.len() && is_whitespace(s[i]) {
        1 + ws_len(s, i + 1)
    } else {
        0
    }
}

/// The offset after the whitespace that starts at `i`.
pub open spec fn skip_ws(s: Seq<char>, i: int) -> int {
    i + ws_len(s, i)
}

/// Number of alphanumeric characters starting at `i`.
pub open spec fn alnum_len(s: Seq<char>, i: int) -> nat
    decreases s.len() - i,
{
    if 0 <= i < s.len() && is_alphanumeric(s[i]) {
        1 + alnum_len(s, i + 1)
    } else {
        0
    }
}

/// Number of name characters starting at `i`.
pub open spec fn name_len(s: Seq<char>, i: int) -> nat
    decreases s.len() - i,
{
    if 0 <= i < s.len() && is_name_char(s[i]) {
        1 + name_len(s, i + 1)
    } else {
        0
    }
}

/// A name: a letter, then name characters; a reserved word aborts.
pub open spec fn ident_at(s: Seq<char>, i: int) -> Outcome<Seq<char>> {
    if 0 <= i < s.len() && is_alphabetic(s[i]) {
        let e = i + 1 + name_len(s, i + 1);
        let w = s.subrange(i, e);
        if is_reserved(w) {
            Outcome::Abort(ErrorV::Reserved(w, i))
        } else {
            Outcome::Done(w, e)
        }
    } else {
        Outcome::Fail(i)
    }
}

/// The symbol that an alphanumeric word denotes.
pub open spec fn symbol_of(w: Seq<char>) -> SymV {
    if w == kw_blank() {
        SymV::Blank
    } else if w == kw_any() {
        SymV::Any
    } else {
        SymV::Str(w)
    }
}

/// A symbol: one or more alphanumeric characters.
pub open spec fn symbol_at(s: Seq<char>, i: int) -> Outcome<SymV> {
    let e = i + alnum_len(s, i);
    if e == i {
        Outcome::Fail(i)
    } else {
        Outcome::Done(symbol_of(s.subrange(i, e)), e)
    }
}

/// One operation: `R`, `L`, `N`, `E`, or `P` and a symbol other than `any`.
pub open spec fn op_at(s: Seq<char>, i: int) -> Outcome<StepV> {
    if at(s, i, 'R') {
        Outcome::Done(StepV::Move(Dir::Right), i + 1)
    } else if at(s, i, 'L') {
        Outcome::Done(StepV::Move(Dir::Left), i + 1)
    } else if at(s, i, 'N') {
        Outcome::Done(StepV::Move(Dir::Stay), i + 1)
    } else if at(s, i, 'E') {
        Outcome::Done(StepV::Effect(KindV::Erase), i + 1)
    } else if at(s, i, 'P') {
        match symbol_at(s, i + 1) {
            Outcome::Done(x, e) => if x is Any {
                Outcome::Fail(i + 1)
            } else {
                Outcome::Done(StepV::Effect(KindV::Print(x)), e)
            },
            _ => Outcome::Fail(i + 1),
        }
    } else {
        Outcome::Fail(i)
    }
}

/// The operations after the first one of a list: each behind a comma and
/// optional whitespace. Yields them and the offset after the last one.
pub open spec fn op_rest_at(s: Seq<char>, i: int) -> (Seq<StepV>, int)
    decreases s.len() - i,
{
    if at(s, i, ',') {
        match op_at(s, skip_ws(s, i + 1)) {
            Outcome::Done(st, k) => if i < k <= s.len() {
                let (rest, e) = op_rest_at(s, k);
                (seq![st] + rest, e)
            } else {
                (Seq::empty(), i)
            },
            _ => (Seq::empty(), i),
        }
    } else {
        (Seq::empty(), i)
    }
}

/// A comma-separated list of operations, possibly empty.
pub open spec fn op_list_at(s: Seq<char>, i: int) -> (Seq<StepV>, int) {
    match op_at(s, i) {
        Outcome::Done(st, k) => {
            let (rest, e) = op_rest_at(s, k);
            (seq![st] + rest, e)
        },
        _ => (Seq::empty(), i),
    }
}

/// The no-op that both shorthand forms stand for.
pub open spec fn no_op() -> Seq<StepV> {
    seq![StepV::Move(Dir::Stay)]
}

/// An operation list with its trailing whitespace: `[]`, `_`, or a bracketed list.
pub open spec fn ops_at(s: Seq<char>, i: int) -> Outcome<Seq<StepV>> {
    if at(s, i, '[') && at(s, i + 1, ']') {
        Outcome::Done(no_op(), skip_ws(s, i + 2))
    } else if at(s, i, '_') {
        Outcome::Done(no_op(), skip_ws(s, i + 1))
    } else if at(s, i, '[') {
        let (ops, e) = op_list_at(s, i + 1);
        if at(s, e, ']') {
            Outcome::Done(ops, skip_ws(s, e + 1))
        } else {
            Outcome::Fail(e)
        }
    } else {
        Outcome::Fail(i)
    }
}

/// What a rule reads: a symbol, or `_` for any non-empty square.
pub open spec fn read_at(s: Seq<char>, i: int) -> Outcome<SymV> {
    match symbol_at(s, i) {
        Outcome::Done(x, e) => Outcome::Done(x, e),
        _ => if at(s, i, '_') {
            Outcome::Done(SymV::Any, i + 1)
        } else {
            Outcome::Fail(i)
        },
    }
}

/// `( from read ops to )`.
pub open spec fn rule_at(s: Seq<char>, i: int) -> Outcome<RuleV> {
    if !at(s, i, '(') {
        Outcome::Fail(i)
    } else {
        match ident_at(s, skip_ws(s, i + 1)) {
            Outcome::Done(from, k1) => match read_at(s, skip_ws(s, k1)) {
                Outcome::Done(read, k2) => match ops_at(s, skip_ws(s, k2)) {
                    Outcome::Done(ops, k3) => match ident_at(s, k3) {
                        Outcome::Done(to, k4) => {
                            let k5 = skip_ws(s, k4);
                            if at(s, k5, ')') {
                                Outcome::Done(RuleV { from, read, ops, to }, k5 + 1)
                            } else {
                                Outcome::Fail(k5)
                            }
                        },
                        Outcome::Fail(p) => Outcome::Fail(p),
                        Outcome::Abort(e) => Outcome::Abort(e),
                    },
                    Outcome::Fail(p) => Outcome::Fail(p),
                    Outcome::Abort(e) => Outcome::Abort(e),
                },
                Outcome::Fail(p) => Outcome::Fail(p),
                Outcome::Abort(e) => Outcome::Abort(e),
            },
            Outcome::Fail(p) => Outcome::Fail(p),
            Outcome::Abort(e) => Outcome::Abort(e),
        }
    }
}

/// The rule that each child holds.
pub open spec fn rules_in(ts: Seq<TermV>) -> Seq<RuleV> {
    ts.map_values(|t: TermV| t->Rule_0)
}

/// A table's children as rules, in the order written; `None` if one is not a rule.
pub open spec fn rule_seq(ts: Seq<TermV>) -> Option<Seq<RuleV>> {
    if forall|k: int| 0 <= k < ts.len() ==> (#[trigger] ts[k]) is Rule {
        Some(rules_in(ts))
    } else {
        None
    }
}

pub open spec fn prepend(t: TermV, o: Outcome<Seq<TermV>>) -> Outcome<Seq<TermV>> {
    match o {
        Outcome::Done(ts, e) => Outcome::Done(seq![t] + ts, e),
        Outcome::Fail(p) => Outcome::Fail(p),
        Outcome::Abort(e) => Outcome::Abort(e),
    }
}

/// A term: a machine, a table, a rule, a symbol or a name, the first of these that matches.
pub open spec fn term_at(s: Seq<char>, i: int) -> Outcome<TermV>
    decreases s.len() - i, 2int,
{
    match machine_at(s, i) {
        Outcome::Fail(at_machine) => match table_at(s, i) {
            Outcome::Fail(at_table) => match rule_at(s, i) {
                Outcome::Done(r, e) => Outcome::Done(TermV::Rule(r), e),
                Outcome::Abort(e) => Outcome::Abort(e),
                Outcome::Fail(at_rule) => match symbol_at(s, i) {
                    Outcome::Done(x, e) => Outcome::Done(TermV::Symbol(x), e),
                    Outcome::Abort(e) => Outcome::Abort(e),
                    Outcome::Fail(at_symbol) => match ident_at(s, i) {
                        Outcome::Done(w, e) => Outcome::Done(TermV::Ident(w), e),
                        Outcome::Abort(e) => Outcome::Abort(e),
                        Outcome::Fail(at_ident) => Outcome::Fail(
                            furthest(furthest(furthest(at_machine, at_table), furthest(at_rule, at_symbol)), at_ident),
                        ),
                    },
                },
            },
            other => other,
        },
        other => other,
    }
}

/// `( machine name body )`.
pub open spec fn machine_at(s: Seq<char>, i: int) -> Outcome<TermV>
    decreases s.len() - i, 1int,
{
    if !at(s, i, '(') {
        Outcome::Fail(i)
    } else {
        let j = skip_ws(s, i + 1);
        if !word_at(s, j, kw_machine()) {
            Outcome::Fail(j)
        } else {
            match ident_at(s, skip_ws(s, j + 7)) {
                Outcome::Done(name, k1) => {
                    let k2 = skip_ws(s, k1);
                    if !(i < k2 <= s.len()) {
                        Outcome::Fail(k2)
                    } else {
                        match term_at(s, k2) {
                            Outcome::Done(body, k3) => {
                                let k4 = skip_ws(s, k3);
                                if at(s, k4, ')') {
                                    Outcome::Done(TermV::Machine(name, Box::new(body)), k4 + 1)
                                } else {
                                    Outcome::Fail(k4)
                                }
                            },
                            Outcome::Fail(p) => Outcome::Fail(p),
                            Outcome::Abort(e) => Outcome::Abort(e),
                        }
                    }
                },
                Outcome::Fail(p) => Outcome::Fail(p),
                Outcome::Abort(e) => Outcome::Abort(e),
            }
        }
    }
}

/// `(table` children `)`; a child that is not a rule aborts at the table's offset.
pub open spec fn table_at(s: Seq<char>, i: int) -> Outcome<TermV>
    decreases s.len() - i, 1int,
{
    if !at(s, i, '(') {
        Outcome::Fail(i)
    } else if !word_at(s, i + 1, kw_table()) {
        Outcome::Fail(i + 1)
    } else {
        let j = skip_ws(s, i + 6);
        if j > s.len() {
            Outcome::Fail(j)
        } else {
            match items_at(s, j) {
                Outcome::Done(ts, e) => if !at(s, e, ')') {
                    Outcome::Fail(e)
                } else {
                    match rule_seq(ts) {
                        Some(rs) => Outcome::Done(TermV::Table(rs), e + 1),
                        None => Outcome::Abort(ErrorV::Syntax(i)),
                    }
                },
                Outcome::Fail(p) => Outcome::Fail(p),
                Outcome::Abort(e) => Outcome::Abort(e),
            }
        }
    }
}

/// Terms separated by whitespace, possibly none.
pub open spec fn items_at(s: Seq<char>, i: int) -> Outcome<Seq<TermV>>
    decreases s.len() - i, 3int,
{
    match term_at(s, i) {
        Outcome::Done(t, k) => if i < k <= s.len() {
            prepend(t, more_items_at(s, k))
        } else {
            Outcome::Fail(i)
        },
        Outcome::Fail(_) => Outcome::Done(Seq::empty(), i),
        Outcome::Abort(e) => Outcome::Abort(e),
    }
}

/// The terms after the first: each behind optional whitespace. Once whitespace
/// has been read, a term must follow it.
pub open spec fn more_items_at(s: Seq<char>, i: int) -> Outcome<Seq<TermV>>
    decreases s.len() - i, 3int,
{
    let j = skip_ws(s, i);
    if j > s.len() {
        Outcome::Fail(j)
    } else if j == i {
        match term_at(s, i) {
            Outcome::Done(t, k) => if i < k <= s.len() {
                prepend(t, more_items_at(s, k))
            } else {
                Outcome::Fail(i)
            },
            Outcome::Fail(_) => Outcome::Done(Seq::empty(), i),
            Outcome::Abort(e) => Outcome::Abort(e),
        }
    } else {
        match term_at(s, j) {
            Outcome::Done(t, k) => if j < k <= s.len() {
                prepend(t, more_items_at(s, k))
            } else {
                Outcome::Fail(j)
            },
            Outcome::Fail(p) => Outcome::Fail(p),
            Outcome::Abort(e) => Outcome::Abort(e),
        }
    }
}

/// What parsing a whole text yields: the term at its start (text after the
/// term is left unread), or the error.
pub open spec fn parses(s: Seq<char>) -> Result<TermV, ErrorV> {
    match term_at(s, 0) {
        Outcome::Done(t, _) => Ok(t),
        Outcome::Fail(p) => Err(ErrorV::Syntax(p)),
        Outcome::Abort(e) => Err(e),
    }
}

} // verus!
