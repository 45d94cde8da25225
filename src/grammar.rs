//! The grammar of one source line, stated as spec functions, and the node
//! kinds that a failure names.
use vstd::prelude::*;
use crate::model::{add_reaction_spec, declare_spec, empty_network, NetworkView, ReactionView, TermView};
use crate::text::{
    all_spaces, find, find_arrow, is_blank, is_name, is_numeral, is_space, lemma_find_bounds,
    numeral_value, skip_digits, trimmed,
};

verus! {

/// The kinds of node that the grammar of the notation is built from.
#[derive(Debug, Clone, Copy, PartialEq, Eq, Structural)]
pub enum Rule {
    Coefficient,
    CommaDelimiter,
    Comment,
    Eoi,
    FatArrowDelimiter,
    Name,
    NewLineDelimiter,
    PlusDelimiter,
    Products,
    Reactants,
    Reaction,
    ReactionRate,
    ReactionNetwork,
    SpaceDelimiter,
    SpeciesCount,
    Term,
}

/// What a parse failure is, in model terms.
pub enum Failure {
    /// The line (counted from 1) where the grammar expected `rule`.
    Syntax(nat, Rule),
    /// The line where a count field is not a numeral that fits in 64 bits, and its text.
    Number(nat, Seq<char>),
    /// The line where the coefficients of one species on the side `rule`
    /// add up to more than 64 bits hold, when the side is combined.
    Overflow(nat, Rule),
}

/// A numeral read as a `Count`. An empty field is a failure that names
/// `rule`; any other text that is not a numeral fitting in 64 bits is a
/// failure that carries the text.
pub open spec fn count_spec(u: Seq<char>, line: nat, rule: Rule) -> Result<nat, Failure> {
    if u.len() == 0 {
        Err(Failure::Syntax(line, rule))
    } else if !is_numeral(u) {
        Err(Failure::Number(line, u))
    } else if numeral_value(u) <= u64::MAX {
        Ok(numeral_value(u))
    } else {
        Err(Failure::Number(line, u))
    }
}

/// The numeral that opens a term with an explicit coefficient (`2 a`).
pub open spec fn coefficient_part(u: Seq<char>) -> Seq<char> {
    u.subrange(0, skip_digits(u, 0))
}

/// The name that follows the coefficient of a term.
pub open spec fn name_part(u: Seq<char>) -> Seq<char> {
    trimmed(u.subrange(skip_digits(u, 0), u.len() as int))
}

/// A term written as digits, whitespace, then a name.
pub open spec fn has_coefficient(u: Seq<char>) -> bool {
    let k = skip_digits(u, 0);
    0 < k < u.len() && is_space(u[k]) && is_name(name_part(u))
}

/// One term, from the text between two `+` (or a side's ends). A bare name
/// has coefficient 1.
pub open spec fn term_spec(t: Seq<char>, line: nat, side: Rule) -> Result<TermView, Failure> {
    let u = trimmed(t);
    if is_name(u) {
        Ok((u, 1))
    } else if has_coefficient(u) {
        if numeral_value(coefficient_part(u)) <= u64::MAX {
            Ok((name_part(u), numeral_value(coefficient_part(u))))
        } else {
            Err(Failure::Number(line, coefficient_part(u)))
        }
    } else {
        Err(Failure::Syntax(line, side))
    }
}

#[via_fn]
proof fn terms_from_decreases(side: Seq<char>, i: int, line: nat, rule: Rule) {
    if 0 <= i <= side.len() {
        lemma_find_bounds(side, i, '+');
    }
}

/// The terms of one side, from index `i` on: `term ("+" term)*`.
pub open spec fn terms_from(side: Seq<char>, i: int, line: nat, rule: Rule) -> Result<
    Seq<TermView>,
    Failure,
>
    decreases side.len() - i,
    via terms_from_decreases
{
    let e = find(side, i, '+');
    match term_spec(side.subrange(i, e), line, rule) {
        Err(f) => Err(f),
        Ok(t) => if e >= side.len() {
            Ok(seq![t])
        } else {
            match terms_from(side, e + 1, line, rule) {
                Err(f) => Err(f),
                Ok(ts) => Ok(seq![t] + ts),
            }
        },
    }
}

/// Index of the first term at or after `i` whose species is `k`, or the length.
pub open spec fn name_index(ts: Seq<TermView>, k: Seq<char>, i: int) -> int
    decreases ts.len() - i,
{
    if i < 0 || i >= ts.len() {
        ts.len() as int
    } else if ts[i].0 == k {
        i
    } else {
        name_index(ts, k, i + 1)
    }
}

/// `ts` with `t` added: a species already present has its coefficient raised.
pub open spec fn add_term(ts: Seq<TermView>, t: TermView) -> Seq<TermView> {
    let j = name_index(ts, t.0, 0);
    if j < ts.len() {
        ts.update(j, (t.0, ts[j].1 + t.1))
    } else {
        ts.push(t)
    }
}

/// The terms of a side with repeated species combined (`b + b` is `2 b`),
/// each species where it first appears. Lowering keeps terms as written;
/// this is the form a consumer that holds terms in a set needs.
pub open spec fn merged(ts: Seq<TermView>) -> Seq<TermView>
    decreases ts.len(),
{
    if ts.len() == 0 {
        Seq::empty()
    } else {
        add_term(merged(ts.drop_last()), ts.last())
    }
}

pub open spec fn coefficients_fit(ts: Seq<TermView>) -> bool {
    forall|j: int| 0 <= j < ts.len() ==> (#[trigger] ts[j]).1 <= u64::MAX
}

/// A reaction from the text before the first comma (`reactants => products`)
/// and the text between the two commas (the rate).
pub open spec fn reaction_spec(head: Seq<char>, num: Seq<char>, line: nat) -> Result<
    ReactionView,
    Failure,
> {
    let a = find_arrow(head, 0);
    if a >= head.len() {
        Err(Failure::Syntax(line, Rule::FatArrowDelimiter))
    } else {
        match terms_from(head.subrange(0, a), 0, line, Rule::Reactants) {
        Err(f) => Err(f),
        Ok(rs) => match terms_from(head.subrange(a + 2, head.len() as int), 0, line, Rule::Products) {
            Err(f) => Err(f),
            Ok(ps) => match count_spec(trimmed(num), line, Rule::ReactionRate) {
                Err(f) => Err(f),
                Ok(rate) => Ok(ReactionView { reactants: rs, products: ps, rate }),
            },
        },
    }
    }
}

/// A species-count declaration: `name "," coefficient ","`.
pub open spec fn species_count_spec(head: Seq<char>, num: Seq<char>, line: nat) -> Result<
    (Seq<char>, nat),
    Failure,
> {
    let name = trimmed(head);
    if !is_name(name) {
        Err(Failure::Syntax(line, Rule::Name))
    } else {
        match count_spec(trimmed(num), line, Rule::Coefficient) {
            Err(f) => Err(f),
            Ok(c) => Ok((name, c)),
        }
    }
}

/// A line without its comment, which runs from `#` to the end of the line.
pub open spec fn uncommented(text: Seq<char>) -> Seq<char> {
    text.subrange(0, find(text, 0, '#'))
}

/// What one line of the source is, before its fields are lowered.
pub enum LineNode {
    /// Empty, a comment, or only commas and whitespace.
    Separator,
    /// A line the grammar rejects, with the node kind it expected.
    Malformed(Rule),
    /// `reactants => products` and the rate field.
    Reaction(Seq<char>, Seq<char>),
    /// A name and its count field.
    SpeciesCount(Seq<char>, Seq<char>),
}

/// Splits a line into its two comma-terminated fields and tells its kind.
pub open spec fn classify(text: Seq<char>) -> LineNode {
    let body = uncommented(text);
    let c1 = find(body, 0, ',');
    let c2 = find(body, c1 + 1, ',');
    if is_blank(body) {
        LineNode::Separator
    } else if c1 >= body.len() || c2 >= body.len() {
        LineNode::Malformed(Rule::CommaDelimiter)
    } else if !all_spaces(body.subrange(c2 + 1, body.len() as int)) {
        LineNode::Malformed(Rule::NewLineDelimiter)
    } else {
        let head = body.subrange(0, c1);
        let num = body.subrange(c1 + 1, c2);
        if find_arrow(head, 0) < head.len() {
            LineNode::Reaction(head, num)
        } else {
            LineNode::SpeciesCount(head, num)
        }
    }
}

/// The network after one line numbered `line`, or the failure it causes.
pub open spec fn line_spec(st: NetworkView, text: Seq<char>, line: nat) -> Result<
    NetworkView,
    Failure,
> {
    match classify(text) {
        LineNode::Separator => Ok(st),
        LineNode::Malformed(rule) => Err(Failure::Syntax(line, rule)),
        LineNode::Reaction(head, num) => match reaction_spec(head, num, line) {
            Err(f) => Err(f),
            Ok(r) => Ok(add_reaction_spec(st, r)),
        },
        LineNode::SpeciesCount(head, num) => match species_count_spec(head, num, line) {
            Err(f) => Err(f),
            Ok(p) => Ok(declare_spec(st, p.0, p.1)),
        },
    }
}

#[via_fn]
proof fn network_from_decreases(s: Seq<char>, i: int, st: NetworkView, line: nat) {
    if 0 <= i <= s.len() {
        lemma_find_bounds(s, i, '\n');
    }
}

/// A failure in a source, with the text of the line where it was found.
pub type SourceFailure = (Failure, Seq<char>);

/// The lines of `s` from index `i` on, numbered from `line`, applied in order to `st`.
pub open spec fn network_from(s: Seq<char>, i: int, st: NetworkView, line: nat) -> Result<
    NetworkView,
    SourceFailure,
>
    decreases s.len() - i,
    via network_from_decreases
{
    let e = find(s, i, '\n');
    match line_spec(st, s.subrange(i, e), line) {
        Err(f) => Err((f, trimmed(s.subrange(i, e)))),
        Ok(next) => if e >= s.len() {
            Ok(next)
        } else {
            network_from(s, e + 1, next, line + 1)
        },
    }
}

/// The network a whole source lowers to, or the first failure in it.
pub open spec fn network_of(s: Seq<char>) -> Result<NetworkView, SourceFailure> {
    network_from(s, 0, empty_network(), 1)
}

pub open spec fn rule_text(rule: Rule) -> Seq<char> {
    match rule {
        Rule::Coefficient => "coefficient"@,
        Rule::CommaDelimiter => "comma_delimiter"@,
        Rule::Comment => "comment"@,
        Rule::Eoi => "end"@,
        Rule::FatArrowDelimiter => "fat_arrow_delimiter"@,
        Rule::Name => "name"@,
        Rule::NewLineDelimiter => "new_line_delimiter"@,
        Rule::PlusDelimiter => "plus_delimiter"@,
        Rule::Products => "products"@,
        Rule::Reactants => "reactants"@,
        Rule::Reaction => "reaction"@,
        Rule::ReactionRate => "reaction_rate"@,
        Rule::ReactionNetwork => "reaction_network"@,
        Rule::SpaceDelimiter => "space_delimiter"@,
        Rule::SpeciesCount => "species_count"@,
        Rule::Term => "term"@,
    }
}

} // verus!
