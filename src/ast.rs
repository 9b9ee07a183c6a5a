//! The syntax tree that the parser builds, and its mathematical model.
use vstd::prelude::*;

verus! {

/// Movement of the tape head.
#[derive(Clone, Copy, Debug, PartialEq, Eq, Structural)]
pub enum Dir {
    Left,
    Right,
    /// No movement, written `N`.
    Stay,
}

/// A tape symbol.
#[derive(Clone, Debug, PartialEq, Eq)]
pub enum Sym {
    /// The empty square, written `blank`.
    Blank,
    /// Any non-empty square, written `any` (or `_` where a rule reads).
    Any,
    /// A concrete alphanumeric symbol.
    String(String),
}

/// What a step writes on the tape.
#[derive(Clone, Debug, PartialEq, Eq)]
pub enum Kind {
    Print(Sym),
    Erase,
}

/// One executable operation.
#[derive(Clone, Debug, PartialEq, Eq)]
pub enum Step {
    Move(Dir),
    Effect(Kind),
}

/// One transition: in machine `from`, reading `read`, perform `ops` and go to `to`.
#[derive(Clone, Debug, PartialEq, Eq)]
pub struct Rule {
    pub from: String,
    pub read: Sym,
    pub ops: Vec<Step>,
    pub to: String,
}

/// A node of the syntax tree.
#[derive(Debug, PartialEq, Eq)]
pub enum Term {
    /// A name.
    Ident(String),
    Symbol(Sym),
    /// A single operation; within a rule, operations are held as `Step`s.
    Exec(Step),
    Rule(Rule),
    /// Rules in declaration order; the first rule that matches wins.
    Table(Vec<Rule>),
    Machine(String, Box<Term>),
}

/// Why a text is not a term.
#[derive(Clone, Debug, PartialEq, Eq)]
pub enum ParseError {
    /// The text does not follow the grammar; `pos` is the furthest character
    /// offset at which an expected token was missing.
    Syntax { pos: usize },
    /// A reserved word stands where a name is expected, at character offset `pos`.
    Reserved { word: String, pos: usize },
}

pub ghost enum SymV {
    Blank,
    Any,
    Str(Seq<char>),
}

pub ghost enum KindV {
    Print(SymV),
    Erase,
}

pub ghost enum StepV {
    Move(Dir),
    Effect(KindV),
}

pub ghost struct RuleV {
    pub from: Seq<char>,
    pub read: SymV,
    pub ops: Seq<StepV>,
    pub to: Seq<char>,
}

pub ghost enum TermV {
    Ident(Seq<char>),
    Symbol(SymV),
    Exec(StepV),
    Rule(RuleV),
    Table(Seq<RuleV>),
    Machine(Seq<char>, Box<TermV>),
}

pub ghost enum ErrorV {
    Syntax(int),
    Reserved(Seq<char>, int),
}

impl View for Sym {
    type V = SymV;

    open spec fn view(&self) -> SymV {
        match self {
            Sym::Blank => SymV::Blank,
            Sym::Any => SymV::Any,
            Sym::String(s) => SymV::Str(s@),
        }
    }
}

impl View for Kind {
    type V = KindV;

    open spec fn view(&self) -> KindV {
        match self {
            Kind::Print(s) => KindV::Print(s@),
            Kind::Erase => KindV::Erase,
        }
    }
}

impl View for Step {
    type V = StepV;

    open spec fn view(&self) -> StepV {
        match self {
            Step::Move(d) => StepV::Move(*d),
            Step::Effect(k) => StepV::Effect(k@),
        }
    }
}

pub open spec fn steps_view(v: Seq<Step>) -> Seq<StepV> {
    v.map_values(|s: Step| s@)
}

impl View for Rule {
    type V = RuleV;

    open spec fn view(&self) -> RuleV {
        RuleV { from: self.from@, read: self.read@, ops: steps_view(self.ops@), to: self.to@ }
    }
}

pub open spec fn rules_view(v: Seq<Rule>) -> Seq<RuleV> {
    v.map_values(|r: Rule| r@)
}

impl View for Term {
    type V = TermV;

    open spec fn view(&self) -> TermV
        decreases self,
    {
        match self {
            Term::Ident(s) => TermV::Ident(s@),
            Term::Symbol(s) => TermV::Symbol(s@),
            Term::Exec(s) => TermV::Exec(s@),
            Term::Rule(r) => TermV::Rule(r@),
            Term::Table(rs) => TermV::Table(rules_view(rs@)),
            Term::Machine(n, b) => TermV::Machine(n@, Box::new((**b).view())),
        }
    }
}

impl View for ParseError {
    type V = ErrorV;

    open spec fn view(&self) -> ErrorV {
        match self {
            ParseError::Syntax { pos } => ErrorV::Syntax(*pos as int),
            ParseError::Reserved { word, pos } => ErrorV::Reserved(word@, *pos as int),
        }
    }
}

} // verus!
