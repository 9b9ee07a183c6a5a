//! Properties of the grammar that hold for every text.
use vstd::prelude::*;
use crate::ast::{Dir, ErrorV, StepV, SymV, TermV};
use crate::chars::is_alphabetic;
use crate::grammar::{
    Outcome, at, ident_at, is_reserved, items_at, kw_any, kw_blank, kw_machine, kw_table,
    name_len, ops_at, parses, read_at, alnum_len, skip_ws, table_at, word_at,
};

verus! {

/// Parsing depends on nothing but the text: equal texts give equal results.
pub proof fn parse_is_deterministic(a: Seq<char>, b: Seq<char>)
    requires
        a == b,
    ensures
        parses(a) == parses(b),
{
}

/// Both no-op shorthands, `[]` and `_`, stand for the same list: the single
/// step that leaves the head where it is.
pub proof fn no_op_shorthands(s: Seq<char>, i: int)
    requires
        (at(s, i, '[') && at(s, i + 1, ']')) || at(s, i, '_'),
    ensures
        ops_at(s, i) is Done,
        ops_at(s, i)->Done_0 == seq![StepV::Move(Dir::Stay)],
{
}

/// Where a rule reads, the word `any` and a bare `_` both stand for any
/// non-empty square.
pub proof fn wildcard_forms(s: Seq<char>, i: int)
    ensures
        word_at(s, i, kw_any()) && alnum_len(s, i) == 3 ==> read_at(s, i) == Outcome::Done(SymV::Any, i + 3),
        at(s, i, '_') ==> read_at(s, i) == Outcome::Done(SymV::Any, i + 1),
{
    if word_at(s, i, kw_any()) && alnum_len(s, i) == 3 {
        assert(s.subrange(i, i + 3) == kw_any());
    }
}

proof fn lemma_name_len_bound(s: Seq<char>, i: int)
    requires
        0 <= i <= s.len(),
    ensures
        name_len(s, i) <= s.len() - i,
    decreases s.len() - i,
{
    if i < s.len() {
        lemma_name_len_bound(s, i + 1);
    }
}

/// The whole name that starts at `i`.
pub open spec fn name_at(s: Seq<char>, i: int) -> Seq<char> {
    s.subrange(i, i + 1 + name_len(s, i + 1))
}

/// A name that is exactly `machine`, `table`, `blank` or `any` aborts the
/// parse; every other name is read whole.
pub proof fn reserved_names(s: Seq<char>, i: int)
    requires
        0 <= i < s.len(),
        is_alphabetic(s[i]),
    ensures
        is_reserved(name_at(s, i)) ==> ident_at(s, i) == Outcome::<Seq<char>>::Abort(
            ErrorV::Reserved(name_at(s, i), i),
        ),
        !is_reserved(name_at(s, i)) ==> ident_at(s, i) == Outcome::Done(
            name_at(s, i),
            i + name_at(s, i).len(),
        ),
{
    lemma_name_len_bound(s, i + 1);
}

/// A name that only begins with a reserved word (`machineX`, `table1`) is
/// an ordinary name.
pub proof fn reserved_prefix_is_a_name(s: Seq<char>, i: int, k: int)
    requires
        0 <= i < s.len(),
        is_alphabetic(s[i]),
        0 < k < name_at(s, i).len(),
        is_reserved(name_at(s, i).subrange(0, k)),
    ensures
        ident_at(s, i) == Outcome::Done(name_at(s, i), i + name_at(s, i).len()),
{
    lemma_name_len_bound(s, i + 1);
    let w = name_at(s, i);
    let p = w.subrange(0, k);
    assert(p[0] == w[0]);
    if is_reserved(w) {
        assert(kw_machine()[0] == 'm' && kw_table()[0] == 't' && kw_blank()[0] == 'b' && kw_any()[0] == 'a');
        assert(kw_machine().len() == 7 && kw_table().len() == 5 && kw_blank().len() == 5 && kw_any().len() == 3);
        assert(p.len() == w.len());
    }
}

/// A table keeps its rules in the order they are written: its k-th rule is
/// its k-th child.
pub proof fn table_keeps_order(s: Seq<char>, i: int)
    requires
        table_at(s, i) is Done,
    ensures
        match (table_at(s, i), items_at(s, skip_ws(s, i + 6))) {
            (Outcome::Done(TermV::Table(rs), _), Outcome::Done(ts, _)) => rs.len() == ts.len()
                && forall|k: int| 0 <= k < ts.len() ==> ts[k] == TermV::Rule(#[trigger] rs[k]),
            _ => false,
        },
{
    let j = skip_ws(s, i + 6);
    if let Outcome::Done(ts, e) = items_at(s, j) {
        assert forall|k: int| 0 <= k < ts.len() implies ts[k] == TermV::Rule(
            #[trigger] crate::grammar::rules_in(ts)[k],
        ) by {
            assert(ts[k] is Rule);
        }
    }
}

} // verus!
