//! The executable parser: recursive descent with ordered choice, each
//! production proved to yield what its counterpart in `grammar` states.
use vstd::prelude::*;
use vstd::std_specs::iter::IteratorSpec;
use crate::ast::{Dir, ErrorV, Kind, ParseError, Rule, Step, Sym, Term, TermV, rules_view, steps_view};
use crate::chars::{alphabetic, alphanumeric, is_whitespace, whitespace};
use crate::grammar::{
    Outcome, alnum_len, prepend, at, ident_at, items_at, kw_any, kw_blank, kw_machine, kw_table, machine_at,
    more_items_at, name_len, parses, no_op, op_at, op_list_at, op_rest_at, ops_at, read_at, rule_at,
    rules_in, skip_ws, word_at, symbol_at, table_at, term_at, ws_len,
};

verus! {

/// The text being parsed, with its characters in an indexable vector.
pub struct Text<'a> {
    pub src: &'a str,
    pub cs: Vec<char>,
}

impl<'a> Text<'a> {
    pub open spec fn wf(&self) -> bool {
        self.cs@ == self.src@ && self.cs@.len() <= usize::MAX
    }

    pub fn new(src: &'a str) -> (t: Text<'a>)
        ensures
            t.wf(),
            t.src == src,
    {
        broadcast use vstd::string::group_string_axioms;
        let mut it = src.chars();
        let mut cs: Vec<char> = Vec::new();
        loop
            invariant
                cs@ + it.remaining() == src@,
                it.obeys_prophetic_iter_laws(),
            ensures
                cs@ == src@,
            decreases src@.len() - cs@.len(),
        {
            let ghost before = it.remaining();
            match it.next() {
                Some(c) => {
                    cs.push(c);
                    assert(before == seq![c] + it.remaining());
                    assert(cs@ + it.remaining() =~= src@);
                },
                None => {
                    assert(cs@ + it.remaining() =~= cs@);
                    break;
                },
            }
        }
        let n = cs.len();
        assert(cs@.len() == n as int);
        Text { src, cs }
    }

    /// The characters from `from` to `to` as a string.
    fn slice(&self, from: usize, to: usize) -> (r: String)
        requires
            self.wf(),
            from <= to <= self.cs@.len(),
        ensures
            r@ == self.cs@.subrange(from as int, to as int),
    {
        String::from_str(self.src.substring_char(from, to))
    }

    /// Whether the characters from `from` to `to` spell `w`.
    fn spells(&self, from: usize, to: usize, w: &str) -> (r: bool)
        requires
            from <= to <= self.cs@.len(),
        ensures
            r == (self.cs@.subrange(from as int, to as int) == w@),
    {
        let n = w.unicode_len();
        if to - from != n {
            return false;
        }
        let mut k: usize = 0;
        while k < n
            invariant
                n == w@.len(),
                to - from == n,
                from <= to <= self.cs@.len(),
                k <= n,
                forall|m: int| 0 <= m < k ==> self.cs@[from + m] == w@[m],
            decreases n - k,
        {
            if self.cs[from + k] != w.get_char(k) {
                assert(self.cs@.subrange(from as int, to as int)[k as int] != w@[k as int]);
                return false;
            }
            k = k + 1;
        }
        assert(self.cs@.subrange(from as int, to as int) =~= w@);
        true
    }

    /// Whether the character at `i` is `c`.
    fn at(&self, i: usize, c: char) -> (r: bool)
        ensures
            r == at(self.cs@, i as int, c),
    {
        i < self.cs.len() && self.cs[i] == c
    }

    /// The offset after the whitespace that starts at `i`.
    fn skip_ws(&self, i: usize) -> (j: usize)
        requires
            i <= self.cs@.len(),
        ensures
            j == skip_ws(self.cs@, i as int),
            i <= j <= self.cs@.len(),
    {
        let mut k = i;
        while k < self.cs.len() && whitespace(self.cs[k])
            invariant
                i <= k <= self.cs@.len(),
                k + ws_len(self.cs@, k as int) == i + ws_len(self.cs@, i as int),
            decreases self.cs@.len() - k,
        {
            k = k + 1;
        }
        k
    }

    /// The offset after the alphanumeric characters that start at `i`.
    fn alnum_end(&self, i: usize) -> (j: usize)
        requires
            i <= self.cs@.len(),
        ensures
            j == i + alnum_len(self.cs@, i as int),
            j <= self.cs@.len(),
    {
        let mut k = i;
        while k < self.cs.len() && alphanumeric(self.cs[k])
            invariant
                i <= k <= self.cs@.len(),
                k + alnum_len(self.cs@, k as int) == i + alnum_len(self.cs@, i as int),
            decreases self.cs@.len() - k,
        {
            k = k + 1;
        }
        k
    }

    /// The offset after the name characters that start at `i`.
    fn name_end(&self, i: usize) -> (j: usize)
        requires
            i <= self.cs@.len(),
        ensures
            j == i + name_len(self.cs@, i as int),
            j <= self.cs@.len(),
    {
        let mut k = i;
        while k < self.cs.len() && is_name_char(self.cs[k])
            invariant
                i <= k <= self.cs@.len(),
                k + name_len(self.cs@, k as int) == i + name_len(self.cs@, i as int),
            decreases self.cs@.len() - k,
        {
            k = k + 1;
        }
        k
    }
}

fn is_name_char(c: char) -> (r: bool)
    ensures
        r == crate::grammar::is_name_char(c),
{
    alphanumeric(c) || c == '!' || c == '$' || c == '%' || c == '&' || c == '|' || c == '*'
        || c == '+' || c == '-' || c == '/' || c == ':' || c == '<' || c == '=' || c == '>'
        || c == '?' || c == '@' || c == '^' || c == '_' || c == '~' || c == '#' || c == '.'
}

/// What trying a production yields, as in `Outcome`.
pub enum Parsed<T> {
    Done(T, usize),
    Fail(usize),
    Abort(ParseError),
}

/// `r` is what `o` states, with `view` mapping values; a value covers at
/// least one character after `i` and ends within `n`.
pub open spec fn agrees<T, V>(r: Parsed<T>, o: Outcome<V>, view: spec_fn(T) -> V, i: int, n: int) -> bool {
    match r {
        Parsed::Done(x, e) => o == Outcome::Done(view(x), e as int) && i < e <= n,
        Parsed::Fail(p) => o == Outcome::<V>::Fail(p as int),
        Parsed::Abort(err) => o == Outcome::<V>::Abort(err@),
    }
}

proof fn lemma_keywords()
    ensures
        "machine"@ == kw_machine(),
        "table"@ == kw_table(),
        "blank"@ == kw_blank(),
        "any"@ == kw_any(),
        kw_machine().len() == 7,
        kw_table().len() == 5,
{
    reveal_strlit("machine");
    reveal_strlit("table");
    reveal_strlit("blank");
    reveal_strlit("any");
    assert("machine"@ =~= kw_machine());
    assert("table"@ =~= kw_table());
    assert("blank"@ =~= kw_blank());
    assert("any"@ =~= kw_any());
}

/// A name at `i`; a reserved word aborts.
fn ident(t: &Text, i: usize) -> (r: Parsed<String>)
    requires
        t.wf(),
        i <= t.cs@.len(),
    ensures
        agrees(r, ident_at(t.cs@, i as int), |x: String| x@, i as int, t.cs@.len() as int),
{
    if !(i < t.cs.len() && alphabetic(t.cs[i])) {
        return Parsed::Fail(i);
    }
    let e = t.name_end(i + 1);
    proof {
        lemma_keywords();
    }
    let reserved = t.spells(i, e, "machine") || t.spells(i, e, "table") || t.spells(i, e, "blank")
        || t.spells(i, e, "any");
    let w = t.slice(i, e);
    if reserved {
        Parsed::Abort(ParseError::Reserved { word: w, pos: i })
    } else {
        Parsed::Done(w, e)
    }
}

/// A symbol at `i`.
fn symbol(t: &Text, i: usize) -> (r: Parsed<Sym>)
    requires
        t.wf(),
        i <= t.cs@.len(),
    ensures
        agrees(r, symbol_at(t.cs@, i as int), |x: Sym| x@, i as int, t.cs@.len() as int),
{
    let e = t.alnum_end(i);
    if e == i {
        return Parsed::Fail(i);
    }
    proof {
        lemma_keywords();
    }
    let x = if t.spells(i, e, "blank") {
        Sym::Blank
    } else if t.spells(i, e, "any") {
        Sym::Any
    } else {
        Sym::String(t.slice(i, e))
    };
    Parsed::Done(x, e)
}

/// One operation at `i`.
fn op(t: &Text, i: usize) -> (r: Parsed<Step>)
    requires
        t.wf(),
        i <= t.cs@.len(),
    ensures
        agrees(r, op_at(t.cs@, i as int), |x: Step| x@, i as int, t.cs@.len() as int),
{
    if t.at(i, 'R') {
        Parsed::Done(Step::Move(Dir::Right), i + 1)
    } else if t.at(i, 'L') {
        Parsed::Done(Step::Move(Dir::Left), i + 1)
    } else if t.at(i, 'N') {
        Parsed::Done(Step::Move(Dir::Stay), i + 1)
    } else if t.at(i, 'E') {
        Parsed::Done(Step::Effect(Kind::Erase), i + 1)
    } else if t.at(i, 'P') {
        match symbol(t, i + 1) {
            Parsed::Done(x, e) => match x {
                Sym::Any => Parsed::Fail(i + 1),
                _ => Parsed::Done(Step::Effect(Kind::Print(x)), e),
            },
            _ => Parsed::Fail(i + 1),
        }
    } else {
        Parsed::Fail(i)
    }
}

/// An operation list at `i`, with the whitespace after it.
fn operation(t: &Text, i: usize) -> (r: Parsed<Vec<Step>>)
    requires
        t.wf(),
        i <= t.cs@.len(),
    ensures
        agrees(r, ops_at(t.cs@, i as int), |x: Vec<Step>| steps_view(x@), i as int, t.cs@.len() as int),
{
    let ghost s = t.cs@;
    if (t.at(i, '[') && t.at(i + 1, ']')) || t.at(i, '_') {
        let e = if t.at(i, '_') { i + 1 } else { i + 2 };
        let v = vec![Step::Move(Dir::Stay)];
        assert(steps_view(v@) =~= no_op());
        return Parsed::Done(v, t.skip_ws(e));
    }
    if !t.at(i, '[') {
        return Parsed::Fail(i);
    }
    let mut ops: Vec<Step> = Vec::new();
    let mut k = i + 1;
    match op(t, k) {
        Parsed::Done(st, e) => {
            ops.push(st);
            k = e;
            loop
                invariant
                    s == t.cs@,
                    t.wf(),
                    i < k <= s.len(),
                    op_list_at(s, i + 1) == ({
                        let (rest, e) = op_rest_at(s, k as int);
                        (steps_view(ops@) + rest, e)
                    }),
                ensures
                    i < k <= s.len(),
                    op_list_at(s, i + 1) == (steps_view(ops@), k as int),
                decreases s.len() - k,
            {
                if !t.at(k, ',') {
                    assert(steps_view(ops@) + Seq::<crate::ast::StepV>::empty() =~= steps_view(ops@));
                    break;
                }
                let j = t.skip_ws(k + 1);
                match op(t, j) {
                    Parsed::Done(st, e) => {
                        let ghost before = ops@;
                        ops.push(st);
                        proof {
                            let (rest, e2) = op_rest_at(s, e as int);
                            assert(steps_view(ops@) =~= steps_view(before) + seq![st@]);
                            assert(steps_view(ops@) + rest =~= steps_view(before) + (seq![st@] + rest));
                        }
                        k = e;
                    },
                    _ => {
                        assert(steps_view(ops@) + Seq::<crate::ast::StepV>::empty() =~= steps_view(ops@));
                        break;
                    },
                }
            }
        },
        _ => {
            assert(steps_view(ops@) =~= Seq::empty());
        },
    }
    assert(op_list_at(s, i + 1) == (steps_view(ops@), k as int));
    if t.at(k, ']') {
        Parsed::Done(ops, t.skip_ws(k + 1))
    } else {
        Parsed::Fail(k)
    }
}

/// What a rule reads at `i`: a symbol or `_`.
fn read(t: &Text, i: usize) -> (r: Parsed<Sym>)
    requires
        t.wf(),
        i <= t.cs@.len(),
    ensures
        agrees(r, read_at(t.cs@, i as int), |x: Sym| x@, i as int, t.cs@.len() as int),
{
    match symbol(t, i) {
        Parsed::Done(x, e) => Parsed::Done(x, e),
        _ => if t.at(i, '_') {
            Parsed::Done(Sym::Any, i + 1)
        } else {
            Parsed::Fail(i)
        },
    }
}

/// A rule at `i`.
fn rule(t: &Text, i: usize) -> (r: Parsed<Rule>)
    requires
        t.wf(),
        i <= t.cs@.len(),
    ensures
        agrees(r, rule_at(t.cs@, i as int), |x: Rule| x@, i as int, t.cs@.len() as int),
{
    if !t.at(i, '(') {
        return Parsed::Fail(i);
    }
    let (from, k1) = match ident(t, t.skip_ws(i + 1)) {
        Parsed::Done(w, e) => (w, e),
        Parsed::Fail(p) => return Parsed::Fail(p),
        Parsed::Abort(err) => return Parsed::Abort(err),
    };
    let (read, k2) = match read(t, t.skip_ws(k1)) {
        Parsed::Done(x, e) => (x, e),
        Parsed::Fail(p) => return Parsed::Fail(p),
        Parsed::Abort(err) => return Parsed::Abort(err),
    };
    let (ops, k3) = match operation(t, t.skip_ws(k2)) {
        Parsed::Done(v, e) => (v, e),
        Parsed::Fail(p) => return Parsed::Fail(p),
        Parsed::Abort(err) => return Parsed::Abort(err),
    };
    let (to, k4) = match ident(t, k3) {
        Parsed::Done(w, e) => (w, e),
        Parsed::Fail(p) => return Parsed::Fail(p),
        Parsed::Abort(err) => return Parsed::Abort(err),
    };
    let k5 = t.skip_ws(k4);
    if t.at(k5, ')') {
        Parsed::Done(Rule { from, read, ops, to }, k5 + 1)
    } else {
        Parsed::Fail(k5)
    }
}

/// A term at `i`: the first of machine, table, rule, symbol and name that matches.
fn term(t: &Text, i: usize) -> (r: Parsed<Term>)
    requires
        t.wf(),
        i <= t.cs@.len(),
    ensures
        agrees(r, term_at(t.cs@, i as int), |x: Term| x@, i as int, t.cs@.len() as int),
    decreases t.cs@.len() - i, 2int,
{
    let at_machine = match machine(t, i) {
        Parsed::Fail(p) => p,
        other => return other,
    };
    let at_table = match table(t, i) {
        Parsed::Fail(p) => p,
        other => return other,
    };
    let at_rule = match rule(t, i) {
        Parsed::Done(x, e) => return Parsed::Done(Term::Rule(x), e),
        Parsed::Fail(p) => p,
        Parsed::Abort(err) => return Parsed::Abort(err),
    };
    let at_symbol = match symbol(t, i) {
        Parsed::Done(x, e) => return Parsed::Done(Term::Symbol(x), e),
        Parsed::Fail(p) => p,
        Parsed::Abort(err) => return Parsed::Abort(err),
    };
    let at_ident = match ident(t, i) {
        Parsed::Done(x, e) => return Parsed::Done(Term::Ident(x), e),
        Parsed::Fail(p) => p,
        Parsed::Abort(err) => return Parsed::Abort(err),
    };
    Parsed::Fail(furthest(furthest(furthest(at_machine, at_table), furthest(at_rule, at_symbol)), at_ident))
}

fn furthest(a: usize, b: usize) -> (r: usize)
    ensures
        r == crate::grammar::furthest(a as int, b as int),
{
    if a < b { b } else { a }
}

/// A machine at `i`.
fn machine(t: &Text, i: usize) -> (r: Parsed<Term>)
    requires
        t.wf(),
        i <= t.cs@.len(),
    ensures
        agrees(r, machine_at(t.cs@, i as int), |x: Term| x@, i as int, t.cs@.len() as int),
    decreases t.cs@.len() - i, 1int,
{
    if !t.at(i, '(') {
        return Parsed::Fail(i);
    }
    let j = t.skip_ws(i + 1);
    proof {
        lemma_keywords();
    }
    if !(t.cs.len() - j >= 7 && t.spells(j, j + 7, "machine")) {
        return Parsed::Fail(j);
    }
    let (name, k1) = match ident(t, t.skip_ws(j + 7)) {
        Parsed::Done(w, e) => (w, e),
        Parsed::Fail(p) => return Parsed::Fail(p),
        Parsed::Abort(err) => return Parsed::Abort(err),
    };
    assert(word_at(t.cs@, j as int, kw_machine()));
    let k2 = t.skip_ws(k1);
    let (body, k3) = match term(t, k2) {
        Parsed::Done(x, e) => (x, e),
        Parsed::Fail(p) => return Parsed::Fail(p),
        Parsed::Abort(err) => return Parsed::Abort(err),
    };
    let k4 = t.skip_ws(k3);
    if t.at(k4, ')') {
        Parsed::Done(Term::Machine(name, Box::new(body)), k4 + 1)
    } else {
        Parsed::Fail(k4)
    }
}

/// `o` with `kids` put before the terms it yields.
pub open spec fn prepend_all(kids: Seq<TermV>, o: Outcome<Seq<TermV>>) -> Outcome<Seq<TermV>> {
    match o {
        Outcome::Done(ts, e) => Outcome::Done(kids + ts, e),
        Outcome::Fail(p) => Outcome::Fail(p),
        Outcome::Abort(e) => Outcome::Abort(e),
    }
}

proof fn lemma_prepend_all(kids: Seq<TermV>, x: TermV, o: Outcome<Seq<TermV>>)
    ensures
        prepend_all(kids, prepend(x, o)) == prepend_all(kids.push(x), o),
{
    if let Outcome::Done(ts, e) = o {
        assert(kids + (seq![x] + ts) =~= kids.push(x) + ts);
    }
}

/// Whitespace ends where `skip_ws` stops.
proof fn lemma_skip_ws_stops(s: Seq<char>, i: int)
    ensures
        ws_len(s, skip_ws(s, i)) == 0,
    decreases s.len() - i,
{
    if 0 <= i < s.len() && is_whitespace(s[i]) {
        lemma_skip_ws_stops(s, i + 1);
    }
}

/// A table at `i`; its children must all be rules.
fn table(t: &Text, i: usize) -> (r: Parsed<Term>)
    requires
        t.wf(),
        i <= t.cs@.len(),
    ensures
        agrees(r, table_at(t.cs@, i as int), |x: Term| x@, i as int, t.cs@.len() as int),
    decreases t.cs@.len() - i, 1int,
{
    let ghost s = t.cs@;
    if !t.at(i, '(') {
        return Parsed::Fail(i);
    }
    proof {
        lemma_keywords();
    }
    if !(t.cs.len() - i >= 6 && t.spells(i + 1, i + 6, "table")) {
        return Parsed::Fail(i + 1);
    }
    let j = t.skip_ws(i + 6);
    assert(word_at(s, i + 1, kw_table()));
    proof {
        lemma_skip_ws_stops(s, i + 6);
        assert(items_at(s, j as int) == prepend_all(Seq::empty(), more_items_at(s, j as int))) by {
            if let Outcome::Done(ts, e) = more_items_at(s, j as int) {
                assert(Seq::<TermV>::empty() + ts =~= ts);
            }
        }
    }
    // the children read so far, and the rules among them while all are rules
    let ghost mut kids: Seq<TermV> = Seq::empty();
    let mut rules: Vec<Rule> = Vec::new();
    let mut all_rules = true;
    let mut k = j;
    loop
        invariant
            s == t.cs@,
            t.wf(),
            i < j <= k <= s.len(),
            at(s, i as int, '('),
            word_at(s, i + 1, kw_table()),
            j == skip_ws(s, i + 6),
            items_at(s, j as int) == prepend_all(kids, more_items_at(s, k as int)),
            all_rules == (forall|m: int| 0 <= m < kids.len() ==> (#[trigger] kids[m]) is Rule),
            all_rules ==> rules_view(rules@) == rules_in(kids),
        ensures
            i < j <= k <= s.len(),
            items_at(s, j as int) == Outcome::Done(kids, k as int),
            all_rules == (forall|m: int| 0 <= m < kids.len() ==> (#[trigger] kids[m]) is Rule),
            all_rules ==> rules_view(rules@) == rules_in(kids),
        decreases s.len() - k,
    {
        let j2 = t.skip_ws(k);
        match term(t, j2) {
            Parsed::Done(x, e) => {
                proof {
                    lemma_prepend_all(kids, x@, more_items_at(s, e as int));
                }
                let ghost before = kids;
                let ghost rules_before = rules@;
                proof {
                    kids = kids.push(x@);
                }
                match x {
                    Term::Rule(r) => {
                        rules.push(r);
                        proof {
                            if all_rules {
                                assert(rules@ =~= rules_before.push(r));
                                assert(rules_view(rules@) =~= rules_view(rules_before).push(r@));
                                assert(rules_in(kids) =~= rules_in(before).push(r@));
                            }
                        }
                    },
                    _ => {
                        all_rules = false;
                        assert(!(kids[kids.len() - 1] is Rule));
                    },
                }
                proof {
                    if all_rules {
                        assert forall|m: int| 0 <= m < kids.len() implies (#[trigger] kids[m]) is Rule by {
                            if m < before.len() {
                                assert(kids[m] == before[m]);
                            }
                        }
                    } else {
                        assert(!(forall|m: int| 0 <= m < kids.len() ==> (#[trigger] kids[m]) is Rule)) by {
                            if !(forall|m: int| 0 <= m < before.len() ==> (#[trigger] before[m]) is Rule) {
                                let m = choose|m: int| 0 <= m < before.len() && !(#[trigger] before[m] is Rule);
                                assert(kids[m] == before[m]);
                            }
                        }
                    }
                }
                k = e;
            },
            Parsed::Fail(p) => {
                if j2 == k {
                    assert(kids + Seq::<TermV>::empty() =~= kids);
                    break;
                } else {
                    assert(more_items_at(s, k as int) == Outcome::<Seq<TermV>>::Fail(p as int));
                    return Parsed::Fail(p);
                }
            },
            Parsed::Abort(err) => {
                assert(more_items_at(s, k as int) == Outcome::<Seq<TermV>>::Abort(err@));
                return Parsed::Abort(err);
            },
        }
    }
    if !t.at(k, ')') {
        return Parsed::Fail(k);
    }
    if all_rules {
        Parsed::Done(Term::Table(rules), k + 1)
    } else {
        Parsed::Abort(ParseError::Syntax { pos: i })
    }
}

/// Parses the term at the start of `m`; text after it is left unread.
///
/// Fails with `ParseError::Reserved` where a reserved word is read as a name
/// (no other alternative is tried after that), and with `ParseError::Syntax`
/// where no alternative matches, or where a table holds a child that is not a rule.
pub fn parse(m: &str) -> (r: Result<Term, ParseError>)
    ensures
        match r {
            Ok(t) => parses(m@) == Ok::<TermV, ErrorV>(t@),
            Err(e) => parses(m@) == Err::<TermV, ErrorV>(e@),
        },
{
    let t = Text::new(m);
    match term(&t, 0) {
        Parsed::Done(x, _) => Ok(x),
        Parsed::Fail(p) => Err(ParseError::Syntax { pos: p }),
        Parsed::Abort(err) => Err(err),
    }
}

} // verus!
