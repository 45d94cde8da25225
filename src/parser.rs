//! The parser: each function lowers one grammar node from the characters of
//! a line, and `CSVparser::parse_network` runs the lines in order.
use vstd::prelude::*;
use crate::grammar::{
    coefficients_fit, count_spec, line_spec, merged, name_index, add_term, SourceFailure, network_from, network_of, reaction_spec, rule_text,
    species_count_spec, term_spec, terms_from, Failure, Rule,
};
use crate::model::{terms_view, Count, Name, Reaction, ReactionNetwork, Term, TermView};
use crate::text::{
    blank, chars_of, find_arrow_exec, find_char, is_name, is_numeral, lemma_find_arrow_bounds,
    lemma_find_bounds, lemma_skip_digits, name_syntax, numeral, numeral_u64, only_spaces,
    skip_digits_exec, slice, space, string_of, trim, trimmed,
};

verus! {

/// A failure found while parsing a source, with the line (counted from 1).
#[derive(Debug, Clone, PartialEq, Eq)]
pub enum ParseError {
    /// The grammar expected a node of kind `rule` here.
    Syntax { line: usize, rule: Rule },
    /// A count field that is not a numeral fitting in a `Count`, and its text.
    UnparsableNumber { line: usize, text: String },
    /// Combining a side: the coefficients of one species on the side `rule`
    /// add up past a `Count`.
    CountOverflow { line: usize, rule: Rule },
}

impl View for ParseError {
    type V = Failure;

    open spec fn view(&self) -> Failure {
        match self {
            ParseError::Syntax { line, rule } => Failure::Syntax(*line as nat, *rule),
            ParseError::UnparsableNumber { line, text } => Failure::Number(*line as nat, text@),
            ParseError::CountOverflow { line, rule } => Failure::Overflow(*line as nat, *rule),
        }
    }
}

/// The lowering of a `Term` list, relative to the terms already taken.
pub open spec fn after_prefix(pre: Seq<TermView>, r: Result<Seq<TermView>, Failure>) -> Result<
    Seq<TermView>,
    Failure,
> {
    match r {
        Ok(ts) => Ok(pre + ts),
        Err(f) => Err(f),
    }
}

proof fn lemma_name_index(ts: Seq<TermView>, k: Seq<char>, i: int)
    requires
        0 <= i <= ts.len(),
    ensures
        i <= name_index(ts, k, i) <= ts.len(),
        name_index(ts, k, i) < ts.len() ==> ts[name_index(ts, k, i)].0 == k,
    decreases ts.len() - i,
{
    if i < ts.len() && ts[i].0 != k {
        lemma_name_index(ts, k, i + 1);
    }
}

/// Merging more terms only adds entries or raises coefficients.
proof fn lemma_merged_grows(all: Seq<TermView>, p: int, q: int)
    requires
        0 <= p <= q <= all.len(),
    ensures
        merged(all.subrange(0, p)).len() <= merged(all.subrange(0, q)).len(),
        forall|j: int|
            0 <= j < merged(all.subrange(0, p)).len() ==> (#[trigger] merged(all.subrange(0, p))[j]).1
                <= merged(all.subrange(0, q))[j].1,
    decreases q - p,
{
    if p < q {
        lemma_merged_grows(all, p, q - 1);
        let before = merged(all.subrange(0, q - 1));
        assert(all.subrange(0, q).drop_last() =~= all.subrange(0, q - 1));
        lemma_name_index(before, all[q - 1].0, 0);
    }
}

/// A failure in a source: what went wrong, and the line's text as found.
#[derive(Debug, Clone, PartialEq, Eq)]
pub struct SourceError {
    pub error: ParseError,
    pub found: String,
}

impl View for SourceError {
    type V = SourceFailure;

    open spec fn view(&self) -> SourceFailure {
        (self.error@, self.found@)
    }
}

/// Parser for the comma-separated reaction notation; it holds no state.
pub struct CSVparser;

impl CSVparser {
    fn count_of(text: &Vec<char>, line: usize, rule: Rule) -> (r: Result<Count, ParseError>)
        ensures
            match r {
                Ok(c) => count_spec(trimmed(text@), line as nat, rule) == Ok::<nat, Failure>(c.0 as nat),
                Err(e) => count_spec(trimmed(text@), line as nat, rule) == Err::<nat, Failure>(e@),
            },
    {
        let u = trim(text);
        if u.len() == 0 {
            return Err(ParseError::Syntax { line, rule });
        }
        if !numeral(&u) {
            return Err(ParseError::UnparsableNumber { line, text: string_of(&u) });
        }
        match numeral_u64(&u) {
            Some(x) => Ok(Count(x)),
            None => Err(ParseError::UnparsableNumber { line, text: string_of(&u) }),
        }
    }

    /// A coefficient: a numeral, with whitespace around it.
    pub fn as_count(text: &Vec<char>, line: usize) -> (r: Result<Count, ParseError>)
        ensures
            match r {
                Ok(c) => count_spec(trimmed(text@), line as nat, Rule::Coefficient) == Ok::<nat, Failure>(c.0 as nat),
                Err(e) => count_spec(trimmed(text@), line as nat, Rule::Coefficient) == Err::<nat, Failure>(e@),
            },
    {
        Self::count_of(text, line, Rule::Coefficient)
    }

    /// A reaction rate: a numeral, with whitespace around it.
    pub fn as_reaction_rate(text: &Vec<char>, line: usize) -> (r: Result<Count, ParseError>)
        ensures
            match r {
                Ok(c) => count_spec(trimmed(text@), line as nat, Rule::ReactionRate) == Ok::<nat, Failure>(c.0 as nat),
                Err(e) => count_spec(trimmed(text@), line as nat, Rule::ReactionRate) == Err::<nat, Failure>(e@),
            },
    {
        Self::count_of(text, line, Rule::ReactionRate)
    }

    /// A species name, with whitespace around it.
    pub fn as_name(text: &Vec<char>, line: usize) -> (r: Result<Name, ParseError>)
        ensures
            match r {
                Ok(n) => is_name(trimmed(text@)) && n@ == trimmed(text@),
                Err(e) => !is_name(trimmed(text@)) && e@ == Failure::Syntax(line as nat, Rule::Name),
            },
    {
        let u = trim(text);
        if name_syntax(&u) {
            Ok(Name(string_of(&u)))
        } else {
            Err(ParseError::Syntax { line, rule: Rule::Name })
        }
    }

    /// One term of the side `side`: a name, or a coefficient, whitespace and a name.
    pub fn as_term(text: &Vec<char>, line: usize, side: Rule) -> (r: Result<Term, ParseError>)
        ensures
            match r {
                Ok(t) => term_spec(text@, line as nat, side) == Ok::<TermView, Failure>(t@),
                Err(e) => term_spec(text@, line as nat, side) == Err::<TermView, Failure>(e@),
            },
    {
        let u = trim(text);
        if name_syntax(&u) {
            return Ok(Term::new(Name(string_of(&u)), Count(1)));
        }
        let k = skip_digits_exec(&u);
        proof {
            lemma_skip_digits(u@, 0);
        }
        if 0 < k && k < u.len() && space(u[k]) {
            let rest = slice(&u, k, u.len());
            let name = trim(&rest);
            if name_syntax(&name) {
                let digits = slice(&u, 0, k);
                assert(is_numeral(digits@));
                return match numeral_u64(&digits) {
                    Some(c) => Ok(Term::new(Name(string_of(&name)), Count(c))),
                    None => Err(ParseError::UnparsableNumber { line, text: string_of(&digits) }),
                };
            }
        }
        Err(ParseError::Syntax { line, rule: side })
    }

    /// The `+`-separated terms of one side of a reaction; `rule` names that side.
    pub fn as_terms(side: &Vec<char>, line: usize, rule: Rule) -> (r: Result<Vec<Term>, ParseError>)
        ensures
            match r {
                Ok(ts) => terms_from(side@, 0, line as nat, rule) == Ok::<Seq<TermView>, Failure>(terms_view(ts@)),
                Err(e) => terms_from(side@, 0, line as nat, rule) == Err::<Seq<TermView>, Failure>(e@),
            },
    {
        let mut acc: Vec<Term> = Vec::new();
        let mut i: usize = 0;
        assert(terms_view(acc@) =~= Seq::<TermView>::empty());
        assert(after_prefix(Seq::empty(), terms_from(side@, 0, line as nat, rule)) =~= terms_from(side@, 0, line as nat, rule)) by {
            match terms_from(side@, 0, line as nat, rule) {
                Ok(ts) => { assert(Seq::<TermView>::empty() + ts =~= ts); },
                Err(f) => {},
            }
        }
        loop
            invariant
                i <= side@.len(),
                terms_from(side@, 0, line as nat, rule) == after_prefix(terms_view(acc@), terms_from(side@, i as int, line as nat, rule)),
            decreases side@.len() - i,
        {
            let e = find_char(side, i, '+');
            proof {
                lemma_find_bounds(side@, i as int, '+');
            }
            let piece = slice(side, i, e);
            let ghost pre = terms_view(acc@);
            match Self::as_term(&piece, line, rule) {
                Err(x) => {
                    return Err(x);
                },
                Ok(t) => {
                    acc.push(t);
                    assert(terms_view(acc@) =~= pre.push(t@));
                },
            }
            if e >= side.len() {
                assert(pre + seq![acc@.last()@] =~= pre.push(acc@.last()@));
                return Ok(acc);
            }
            proof {
                let t = acc@.last()@;
                match terms_from(side@, e + 1, line as nat, rule) {
                    Ok(ts) => { assert(pre + (seq![t] + ts) =~= pre.push(t) + ts); },
                    Err(f) => {},
                }
            }
            i = e + 1;
        }
    }

    /// Index of the first term in `ts` whose species is `name`, or the length.
    fn name_position(ts: &Vec<Term>, name: &Name) -> (r: usize)
        ensures
            r == name_index(terms_view(ts@), name@, 0),
    {
        let mut i: usize = 0;
        while i < ts.len() && !ts[i].species_name.same(name)
            invariant
                i <= ts.len(),
                name_index(terms_view(ts@), name@, 0) == name_index(terms_view(ts@), name@, i as int),
            decreases ts.len() - i,
        {
            i = i + 1;
        }
        i
    }

    /// Combines the terms of one side that name the same species, adding
    /// their coefficients; each species stays where it first appears. For
    /// consumers that hold a side as a set of terms.
    pub fn combine(ts: Vec<Term>, line: usize, rule: Rule) -> (r: Result<Vec<Term>, ParseError>)
        ensures
            match r {
                Ok(m) => coefficients_fit(merged(terms_view(ts@))) && terms_view(m@) == merged(terms_view(ts@)),
                Err(e) => !coefficients_fit(merged(terms_view(ts@))) && e@ == Failure::Overflow(line as nat, rule),
            },
    {
        let ghost all = terms_view(ts@);
        let mut acc: Vec<Term> = Vec::new();
        let mut i: usize = 0;
        assert(all.subrange(0, 0) =~= Seq::<TermView>::empty());
        assert(terms_view(acc@) =~= Seq::<TermView>::empty());
        while i < ts.len()
            invariant
                all == terms_view(ts@),
                i <= ts.len(),
                terms_view(acc@) == merged(all.subrange(0, i as int)),
                coefficients_fit(terms_view(acc@)),
            decreases ts.len() - i,
        {
            let ghost before = terms_view(acc@);
            assert(all.subrange(0, i + 1).drop_last() =~= all.subrange(0, i as int));
            let t = &ts[i];
            let j = Self::name_position(&acc, &t.species_name);
            proof {
                lemma_name_index(before, t.species_name@, 0);
            }
            if j < acc.len() {
                match acc[j].coefficient.0.checked_add(t.coefficient.0) {
                    None => {
                        proof {
                            let grown = merged(all.subrange(0, i + 1));
                            assert(grown[j as int].1 > u64::MAX);
                            lemma_merged_grows(all, i + 1, all.len() as int);
                            assert(all.subrange(0, all.len() as int) =~= all);
                        }
                        return Err(ParseError::CountOverflow { line, rule });
                    },
                    Some(sum) => {
                        let n = acc[j].species_name.copy();
                        acc.set(j, Term::new(n, Count(sum)));
                    },
                }
            } else {
                acc.push(Term::new(t.species_name.copy(), t.coefficient));
            }
            assert(terms_view(acc@) =~= add_term(before, all[i as int]));
            i = i + 1;
        }
        assert(all.subrange(0, ts.len() as int) =~= all);
        Ok(acc)
    }

    /// A reaction from its two fields: `reactants => products` and the rate.
    pub fn as_reaction(head: &Vec<char>, num: &Vec<char>, line: usize) -> (r: Result<Reaction, ParseError>)
        ensures
            match r {
                Ok(x) => reaction_spec(head@, num@, line as nat) == Ok::<_, Failure>(x@),
                Err(e) => reaction_spec(head@, num@, line as nat) == Err::<crate::model::ReactionView, Failure>(e@),
            },
    {
        let a = find_arrow_exec(head, 0);
        proof {
            lemma_find_arrow_bounds(head@, 0);
        }
        if a >= head.len() {
            return Err(ParseError::Syntax { line, rule: Rule::FatArrowDelimiter });
        }
        let left = slice(head, 0, a);
        let right = slice(head, a + 2, head.len());
        let reactants = match Self::as_terms(&left, line, Rule::Reactants) {
            Ok(ts) => ts,
            Err(e) => {
                return Err(e);
            },
        };
        let products = match Self::as_terms(&right, line, Rule::Products) {
            Ok(ts) => ts,
            Err(e) => {
                return Err(e);
            },
        };
        let rate = match Self::as_reaction_rate(num, line) {
            Ok(c) => c,
            Err(e) => {
                return Err(e);
            },
        };
        Ok(Reaction::new(reactants, products, rate))
    }

    /// A species-count declaration from its two fields: the name and the count.
    pub fn as_species_count(head: &Vec<char>, num: &Vec<char>, line: usize) -> (r: Result<(Name, Count), ParseError>)
        ensures
            match r {
                Ok(p) => species_count_spec(head@, num@, line as nat) == Ok::<(Seq<char>, nat), Failure>((p.0@, p.1.0 as nat)),
                Err(e) => species_count_spec(head@, num@, line as nat) == Err::<(Seq<char>, nat), Failure>(e@),
            },
    {
        let name = match Self::as_name(head, line) {
            Ok(n) => n,
            Err(e) => {
                return Err(e);
            },
        };
        match Self::as_count(num, line) {
            Ok(c) => Ok((name, c)),
            Err(e) => Err(e),
        }
    }

    /// Applies the line numbered `line` to `net`.
    pub fn as_line(net: &mut ReactionNetwork, text: &Vec<char>, line: usize) -> (r: Result<(), ParseError>)
        requires
            old(net).wf(),
        ensures
            final(net).wf(),
            match r {
                Ok(_) => line_spec(old(net)@, text@, line as nat) == Ok::<_, Failure>(final(net)@),
                Err(e) => line_spec(old(net)@, text@, line as nat) == Err::<crate::model::NetworkView, Failure>(e@),
            },
    {
        let h = find_char(text, 0, '#');
        proof {
            lemma_find_bounds(text@, 0, '#');
        }
        let body = slice(text, 0, h);
        if blank(&body) {
            return Ok(());
        }
        let c1 = find_char(&body, 0, ',');
        proof {
            lemma_find_bounds(body@, 0, ',');
        }
        if c1 >= body.len() {
            return Err(ParseError::Syntax { line, rule: Rule::CommaDelimiter });
        }
        let c2 = find_char(&body, c1 + 1, ',');
        proof {
            lemma_find_bounds(body@, c1 + 1, ',');
        }
        if c2 >= body.len() {
            return Err(ParseError::Syntax { line, rule: Rule::CommaDelimiter });
        }
        let tail = slice(&body, c2 + 1, body.len());
        if !only_spaces(&tail) {
            return Err(ParseError::Syntax { line, rule: Rule::NewLineDelimiter });
        }
        let head = slice(&body, 0, c1);
        let num = slice(&body, c1 + 1, c2);
        let a = find_arrow_exec(&head, 0);
        if a < head.len() {
            match Self::as_reaction(&head, &num, line) {
                Ok(x) => {
                    net.add_reaction(x);
                    Ok(())
                },
                Err(e) => Err(e),
            }
        } else {
            match Self::as_species_count(&head, &num, line) {
                Ok(p) => {
                    net.declare(p.0, p.1);
                    Ok(())
                },
                Err(e) => Err(e),
            }
        }
    }

    /// Parses a whole source; the first failing line ends the parse.
    pub fn parse_network(source: &str) -> (r: Result<ReactionNetwork, SourceError>)
        requires
            source@.len() < usize::MAX,
        ensures
            match r {
                Ok(net) => net.wf() && network_of(source@) == Ok::<_, SourceFailure>(net@),
                Err(e) => network_of(source@) == Err::<crate::model::NetworkView, SourceFailure>(e@),
            },
    {
        let s = chars_of(source);
        let mut net = ReactionNetwork::new();
        let mut i: usize = 0;
        let mut line: usize = 1;
        loop
            invariant
                s@ == source@,
                i <= s@.len() < usize::MAX,
                1 <= line <= i + 1,
                net.wf(),
                network_of(s@) == network_from(s@, i as int, net@, line as nat),
            decreases s@.len() - i,
        {
            let e = find_char(&s, i, '\n');
            proof {
                lemma_find_bounds(s@, i as int, '\n');
            }
            let text = slice(&s, i, e);
            match Self::as_line(&mut net, &text, line) {
                Err(x) => {
                    let found = string_of(&trim(&text));
                    return Err(SourceError { error: x, found });
                },
                Ok(_) => {},
            }
            if e >= s.len() {
                return Ok(net);
            }
            i = e + 1;
            line = line + 1;
        }
    }
}

/// The decimal digits of `n`, most significant first.
pub open spec fn decimal_text(n: nat) -> Seq<char>
    decreases n,
{
    if n < 10 {
        seq!["0123456789"@[n as int]]
    } else {
        decimal_text(n / 10).push("0123456789"@[(n % 10) as int])
    }
}

/// The text that a failure is reported with.
pub open spec fn message_of(f: Failure) -> Seq<char> {
    match f {
        Failure::Syntax(line, rule) => "line "@ + decimal_text(line) + ": expected "@ + rule_text(rule),
        Failure::Number(line, text) => "line "@ + decimal_text(line) + ": unparsable number "@ + text,
        Failure::Overflow(line, rule) => "line "@ + decimal_text(line) + ": coefficients too large in "@
            + rule_text(rule),
    }
}

fn decimal(n: usize) -> (r: Vec<char>)
    ensures
        r@ == decimal_text(n as nat),
    decreases n,
{
    let digits = "0123456789";
    proof {
        reveal_strlit("0123456789");
    }
    let c = digits.get_char(n % 10);
    if n < 10 {
        let mut v: Vec<char> = Vec::new();
        v.push(c);
        assert(v@ =~= seq![c]);
        v
    } else {
        let mut v = decimal(n / 10);
        v.push(c);
        v
    }
}

/// The text a failure in a source is reported with: the failure, then the line as found.
pub open spec fn source_message(f: SourceFailure) -> Seq<char> {
    message_of(f.0) + ", found `"@ + f.1 + "`"@
}

impl SourceError {
    /// The message for this failure: line, what was expected, and the line's text.
    pub fn describe(&self) -> (r: String)
        ensures
            r@ == source_message(self@),
    {
        let mut v = chars_of(self.error.describe().as_str());
        let mut w = chars_of(", found `");
        v.append(&mut w);
        let mut x = chars_of(self.found.as_str());
        v.append(&mut x);
        let mut y = chars_of("`");
        v.append(&mut y);
        string_of(&v)
    }
}

impl ParseError {
    /// The message for this failure: the line, then what was expected.
    pub fn describe(&self) -> (r: String)
        ensures
            r@ == message_of(self@),
    {
        let mut v = chars_of("line ");
        match self {
            ParseError::Syntax { line, rule } => {
                let mut d = decimal(*line);
                v.append(&mut d);
                let mut w = chars_of(": expected ");
                v.append(&mut w);
                let mut x = chars_of(CSVparser::rule_as_str(*rule));
                v.append(&mut x);
            },
            ParseError::UnparsableNumber { line, text } => {
                let mut d = decimal(*line);
                v.append(&mut d);
                let mut w = chars_of(": unparsable number ");
                v.append(&mut w);
                let mut x = chars_of(text.as_str());
                v.append(&mut x);
            },
            ParseError::CountOverflow { line, rule } => {
                let mut d = decimal(*line);
                v.append(&mut d);
                let mut w = chars_of(": coefficients too large in ");
                v.append(&mut w);
                let mut x = chars_of(CSVparser::rule_as_str(*rule));
                v.append(&mut x);
            },
        }
        string_of(&v)
    }
}

/// Why a network could not be produced.
#[derive(Debug, Clone, PartialEq, Eq)]
pub enum MarleaParserError {
    /// The source failed to parse; the text gives the line and what was expected.
    ParseFailed(String),
    /// The source's format has no grammar here.
    UnsupportedExt(String),
    /// No source could be obtained.
    InvalidFile(String),
}

impl CSVparser {
    /// The grammar's name for a kind of node.
    pub fn rule_as_str(rule: Rule) -> (r: &'static str)
        ensures
            r@ == rule_text(rule),
    {
        match rule {
            Rule::Coefficient => "coefficient",
            Rule::CommaDelimiter => "comma_delimiter",
            Rule::Comment => "comment",
            Rule::Eoi => "end",
            Rule::FatArrowDelimiter => "fat_arrow_delimiter",
            Rule::Name => "name",
            Rule::NewLineDelimiter => "new_line_delimiter",
            Rule::PlusDelimiter => "plus_delimiter",
            Rule::Products => "products",
            Rule::Reactants => "reactants",
            Rule::Reaction => "reaction",
            Rule::ReactionRate => "reaction_rate",
            Rule::ReactionNetwork => "reaction_network",
            Rule::SpaceDelimiter => "space_delimiter",
            Rule::SpeciesCount => "species_count",
            Rule::Term => "term",
        }
    }

    /// Parses a source into a reaction network; a failure is reported as
    /// `ParseFailed` with the line and the expected node kind in its text.
    pub fn as_reaction_network(source: &str) -> (r: Result<ReactionNetwork, MarleaParserError>)
        requires
            source@.len() < usize::MAX,
        ensures
            match r {
                Ok(net) => net.wf() && network_of(source@) == Ok::<_, SourceFailure>(net@),
                Err(e) => network_of(source@) is Err && match e {
                    MarleaParserError::ParseFailed(m) => m@ == source_message(network_of(source@)->Err_0),
                    _ => false,
                },
            },
    {
        match Self::parse_network(source) {
            Ok(net) => Ok(net),
            Err(e) => Err(MarleaParserError::ParseFailed(e.describe())),
        }
    }
}

/// What the source's file extension selects.
#[derive(Debug, Clone, Copy, PartialEq, Eq, Structural)]
pub enum SourceFormat {
    /// Comma-separated reaction notation (`csv`).
    Csv,
    /// An extension that has no grammar.
    Unsupported,
    /// No extension at all.
    Missing,
}

/// Settings for reading reaction networks; there are none yet.
pub struct MarleaParser;

impl MarleaParser {
    pub fn new() -> (r: MarleaParser)
        ensures
            r == MarleaParser,
    {
        MarleaParser
    }

    /// The format that a file extension selects: only `csv` has a grammar.
    pub fn source_format(extension: Option<&str>) -> (r: SourceFormat)
        ensures
            r == (match extension {
                None => SourceFormat::Missing,
                Some(x) => if x@ == "csv"@ {
                    SourceFormat::Csv
                } else {
                    SourceFormat::Unsupported
                },
            }),
    {
        match extension {
            None => SourceFormat::Missing,
            Some(x) => {
                let v = chars_of(x);
                proof {
                    reveal_strlit("csv");
                }
                if v.len() == 3 && v[0] == 'c' && v[1] == 's' && v[2] == 'v' {
                    assert(v@ =~= "csv"@);
                    SourceFormat::Csv
                } else {
                    SourceFormat::Unsupported
                }
            },
        }
    }
}

} // verus!
