use marlea_parser::{
    CSVparser, Count, MarleaParser, MarleaParserError, Name, ParseError, Reaction,
    ReactionNetwork, Rule, SourceError, SourceFormat, Term,
};

fn term(name: &str, n: u64) -> Term {
    Term::new(Name(name.to_string()), Count(n))
}

fn reaction(reactants: Vec<Term>, products: Vec<Term>, rate: u64) -> Reaction {
    Reaction::new(reactants, products, Count(rate))
}

fn parse(source: &str) -> ReactionNetwork {
    match CSVparser::parse_network(source) {
        Ok(net) => net,
        Err(e) => panic!("unexpected failure: {}", e.describe()),
    }
}

fn source_failure(source: &str) -> SourceError {
    match CSVparser::parse_network(source) {
        Ok(_) => panic!("expected a failure"),
        Err(e) => e,
    }
}

fn failure(source: &str) -> ParseError {
    source_failure(source).error
}

#[test]
fn csv() {
    let input = INPUT;
    match CSVparser::as_reaction_network(input) {
        Ok(net) => {
            assert!(net.reaction_count() > 0);
            assert_eq!(net.get_solution().get("fibonacci.call"), Some(1));
            assert_eq!(net.get_solution().get("index"), Some(20));
            assert_eq!(net.get_solution().get("destruct.done.partial.0"), Some(0));
        }
        Err(msg) => panic!("failed to parse: {:?}", msg),
    }
}

#[test]
fn concrete_scenario() {
    let net = parse("a => b,1,\n2 a => b + b,5,\nc,10,\n");
    assert_eq!(net.reaction_count(), 2);
    assert!(net.contains_reaction(&reaction(vec![term("a", 1)], vec![term("b", 1)], 1)));
    assert!(net.contains_reaction(&reaction(vec![term("a", 2)], vec![term("b", 1), term("b", 1)], 5)));
    assert!(!net.contains_reaction(&reaction(vec![term("a", 2)], vec![term("b", 2)], 5)));
    let sol = net.get_solution();
    assert_eq!(sol.len(), 3);
    assert_eq!(sol.get("a"), Some(0));
    assert_eq!(sol.get("b"), Some(0));
    assert_eq!(sol.get("c"), Some(10));
}

#[test]
fn dangling_arrow_names_products() {
    assert_eq!(failure("a => ,1,"), ParseError::Syntax { line: 1, rule: Rule::Products });
    match CSVparser::as_reaction_network("a => ,1,") {
        Err(MarleaParserError::ParseFailed(m)) => {
            assert_eq!(m, "line 1: expected products, found `a => ,1,`")
        }
        _ => panic!("expected ParseFailed"),
    }
}

#[test]
fn dangling_arrow_on_a_later_line() {
    match CSVparser::as_reaction_network("x,3,\n\na => b,1,\nc =>,2,\n") {
        Err(MarleaParserError::ParseFailed(m)) => {
            assert_eq!(m, "line 4: expected products, found `c =>,2,`")
        }
        _ => panic!("expected ParseFailed"),
    }
}

#[test]
fn parsing_twice_gives_equal_networks() {
    let source = "a + b => c,3,\nc => a + b,4,\nb,7,\n";
    let first = parse(source);
    let second = parse(source);
    assert_eq!(first.get_reactions(), second.get_reactions());
    assert_eq!(first.reaction_count(), second.reaction_count());
    for name in ["a", "b", "c"] {
        assert_eq!(first.get_solution().get(name), second.get_solution().get(name));
    }
    assert_eq!(first.get_solution().len(), second.get_solution().len());
}

#[test]
fn reaction_species_default_to_zero() {
    let net = parse("x,5,\nx + y => 2 z,1,\n");
    let sol = net.get_solution();
    assert_eq!(sol.get("x"), Some(5));
    assert_eq!(sol.get("y"), Some(0));
    assert_eq!(sol.get("z"), Some(0));
    assert_eq!(sol.get("w"), None);
}

#[test]
fn declaration_after_reaction_wins() {
    let net = parse("x => y,1,\nx,4,\n");
    assert_eq!(net.get_solution().get("x"), Some(4));
    assert_eq!(net.get_solution().get("y"), Some(0));
}

#[test]
fn last_declaration_wins() {
    let net = parse("s,1,\ns => t,2,\nt => s,3,\ns,9,\nt + s => s,1,\n");
    assert_eq!(net.get_solution().get("s"), Some(9));
    assert_eq!(net.get_solution().get("t"), Some(0));
}

#[test]
fn duplicate_reactions_collapse() {
    let net = parse("a + b => c,1,\n   a+b=>c , 1 , # again\n");
    assert_eq!(net.reaction_count(), 1);
    assert!(net.contains_reaction(&reaction(vec![term("a", 1), term("b", 1)], vec![term("c", 1)], 1)));
}

#[test]
fn reaction_count_is_the_number_of_distinct_reactions() {
    let net = parse("a => b,1,\n1 a  =>  b ,1,\nb => a,1,\na => b,2,\n a=>b,1,\n");
    assert_eq!(net.reaction_count(), 3);
}

#[test]
fn reordered_reactants_stay_distinct() {
    let net = parse("a + b => c,1,\nb + a => c,1,\n");
    assert_eq!(net.reaction_count(), 2);
}

#[test]
fn separator_rows_change_nothing() {
    let with = parse("a => b,1,\n,,\nb => c,2,\n");
    let without = parse("a => b,1,\nb => c,2,\n");
    assert_eq!(with.get_reactions(), without.get_reactions());
    assert_eq!(with.get_solution().len(), without.get_solution().len());
    for name in ["a", "b", "c"] {
        assert_eq!(with.get_solution().get(name), without.get_solution().get(name));
    }
}

#[test]
fn blank_and_comment_lines() {
    let net = parse("# a comment\n\n   \n , \n,,\nq,2, # trailing note\n");
    assert_eq!(net.reaction_count(), 0);
    assert_eq!(net.get_solution().len(), 1);
    assert_eq!(net.get_solution().get("q"), Some(2));
}

#[test]
fn empty_source() {
    let net = parse("");
    assert_eq!(net.reaction_count(), 0);
    assert_eq!(net.get_solution().len(), 0);
}

#[test]
fn explicit_coefficient_and_dotted_names() {
    let net = parse("2 next_value.less_than.2.index.0 => next_value.less_than.2.index.1,10000,\n");
    assert!(net.contains_reaction(&reaction(
        vec![term("next_value.less_than.2.index.0", 2)],
        vec![term("next_value.less_than.2.index.1", 1)],
        10000
    )));
}

#[test]
fn zero_rate_is_accepted() {
    let net = parse("a => b,0,\n");
    assert!(net.contains_reaction(&reaction(vec![term("a", 1)], vec![term("b", 1)], 0)));
}

#[test]
fn largest_count_is_accepted() {
    let net = parse("big,18446744073709551615,\n");
    assert_eq!(net.get_solution().get("big"), Some(u64::MAX));
}

#[test]
fn count_too_large() {
    assert_eq!(
        failure("big,18446744073709551616,\n"),
        ParseError::UnparsableNumber { line: 1, text: "18446744073709551616".to_string() }
    );
    assert_eq!(
        failure("a => b,99999999999999999999,\n"),
        ParseError::UnparsableNumber { line: 1, text: "99999999999999999999".to_string() }
    );
    assert_eq!(
        failure("99999999999999999999 a => b,1,\n"),
        ParseError::UnparsableNumber { line: 1, text: "99999999999999999999".to_string() }
    );
}

#[test]
fn repeated_species_stay_separate_terms() {
    let net = parse("a => 18446744073709551615 b + b,1,\n");
    assert!(net.contains_reaction(&reaction(
        vec![term("a", 1)],
        vec![term("b", u64::MAX), term("b", 1)],
        1
    )));
}

#[test]
fn combine_adds_coefficients_of_one_species() {
    let combined = CSVparser::combine(vec![term("b", 1), term("c", 3), term("b", 2)], 1, Rule::Products);
    assert_eq!(combined, Ok(vec![term("b", 3), term("c", 3)]));
    let e = CSVparser::combine(vec![term("b", u64::MAX), term("b", 1)], 4, Rule::Products).unwrap_err();
    assert_eq!(e, ParseError::CountOverflow { line: 4, rule: Rule::Products });
    assert_eq!(e.describe(), "line 4: coefficients too large in products");
}

#[test]
fn non_numeric_counts_are_unparsable() {
    assert_eq!(
        failure("a => b,x,\n"),
        ParseError::UnparsableNumber { line: 1, text: "x".to_string() }
    );
    assert_eq!(
        failure("a => b,-1,\n"),
        ParseError::UnparsableNumber { line: 1, text: "-1".to_string() }
    );
    assert_eq!(
        failure("c, 1 0 ,\n"),
        ParseError::UnparsableNumber { line: 1, text: "1 0".to_string() }
    );
}

#[test]
fn incomplete_declaration_reports_its_text() {
    let e = source_failure("ok,1,\n  c,,  \n");
    assert_eq!(e.error, ParseError::Syntax { line: 2, rule: Rule::Coefficient });
    assert_eq!(e.found, "c,,");
    assert_eq!(e.describe(), "line 2: expected coefficient, found `c,,`");
    let e = source_failure(",5,\n");
    assert_eq!(e.error, ParseError::Syntax { line: 1, rule: Rule::Name });
    assert_eq!(e.describe(), "line 1: expected name, found `,5,`");
}

#[test]
fn syntax_failures_name_the_rule() {
    assert_eq!(failure("a => b\n"), ParseError::Syntax { line: 1, rule: Rule::CommaDelimiter });
    assert_eq!(failure("a => b,1\n"), ParseError::Syntax { line: 1, rule: Rule::CommaDelimiter });
    assert_eq!(failure("a => b,1,2,\n"), ParseError::Syntax { line: 1, rule: Rule::NewLineDelimiter });
    assert_eq!(failure(" => b,1,\n"), ParseError::Syntax { line: 1, rule: Rule::Reactants });
    assert_eq!(failure("a => b, ,\n"), ParseError::Syntax { line: 1, rule: Rule::ReactionRate });
    assert_eq!(failure("a..b,1,\n"), ParseError::Syntax { line: 1, rule: Rule::Name });
    assert_eq!(failure("a,,\n"), ParseError::Syntax { line: 1, rule: Rule::Coefficient });
    assert_eq!(failure("ok,1,\na + => b,1,\n"), ParseError::Syntax { line: 2, rule: Rule::Reactants });
}

#[test]
fn failure_messages() {
    let e = ParseError::Syntax { line: 120, rule: Rule::ReactionRate };
    assert_eq!(e.describe(), "line 120: expected reaction_rate");
    let e = ParseError::UnparsableNumber { line: 7, text: "123".to_string() };
    assert_eq!(e.describe(), "line 7: unparsable number 123");
}

#[test]
fn species_names_keep_their_text() {
    let net = parse("  Alpha_1.beta  ,  42  ,\n");
    assert_eq!(net.get_solution().get("Alpha_1.beta"), Some(42));
    assert_eq!(net.get_solution().get("  Alpha_1.beta  "), None);
}

#[test]
fn node_lowering_functions() {
    let chars = |s: &str| s.chars().collect::<Vec<char>>();
    assert_eq!(CSVparser::as_count(&chars(" 12 "), 3).unwrap(), Count(12));
    assert_eq!(CSVparser::as_reaction_rate(&chars(" "), 3), Err(ParseError::Syntax { line: 3, rule: Rule::ReactionRate }));
    assert_eq!(CSVparser::as_count(&chars("+2"), 3), Err(ParseError::UnparsableNumber { line: 3, text: "+2".to_string() }));
    assert_eq!(CSVparser::as_name(&chars(" a.b "), 1).unwrap(), Name("a.b".to_string()));
    assert_eq!(CSVparser::as_term(&chars(" 3  x "), 1, Rule::Reactants).unwrap(), term("x", 3));
    assert_eq!(CSVparser::as_term(&chars("x"), 1, Rule::Reactants).unwrap(), term("x", 1));
    assert_eq!(CSVparser::as_term(&chars("3x y"), 1, Rule::Products), Err(ParseError::Syntax { line: 1, rule: Rule::Products }));
    let (n, c) = CSVparser::as_species_count(&chars("c"), &chars("10"), 1).unwrap();
    assert_eq!((n, c), (Name("c".to_string()), Count(10)));
    let r = CSVparser::as_reaction(&chars("a + a => b"), &chars("4"), 1).unwrap();
    assert_eq!(r, reaction(vec![term("a", 1), term("a", 1)], vec![term("b", 1)], 4));
    assert_eq!(CSVparser::as_reaction(&chars("a b"), &chars("4"), 1), Err(ParseError::Syntax { line: 1, rule: Rule::FatArrowDelimiter }));
}

#[test]
fn rule_names() {
    assert_eq!(CSVparser::rule_as_str(Rule::Coefficient), "coefficient");
    assert_eq!(CSVparser::rule_as_str(Rule::Eoi), "end");
    assert_eq!(CSVparser::rule_as_str(Rule::Products), "products");
    assert_eq!(CSVparser::rule_as_str(Rule::SpeciesCount), "species_count");
    assert_eq!(CSVparser::rule_as_str(Rule::FatArrowDelimiter), "fat_arrow_delimiter");
}

#[test]
fn source_formats() {
    let _parser = MarleaParser::new();
    assert_eq!(MarleaParser::source_format(Some("csv")), SourceFormat::Csv);
    assert_eq!(MarleaParser::source_format(Some("rs")), SourceFormat::Unsupported);
    assert_eq!(MarleaParser::source_format(Some("CSV")), SourceFormat::Unsupported);
    assert_eq!(MarleaParser::source_format(None), SourceFormat::Missing);
}

const INPUT: &str = "fibonacci.call => setup.call,1,
        setup.done => calculate.call,1,
        ,,
        setup.call => destruct + next_value + setup.call,1,
        destruct + 2 next_value => next_value + destruct ,10000,
        destruct + last_value => destruct,10000,
        destruct + current_value => destruct ,10000,
        destruct + setup.call => destruct ,10000,
        ,,
        next_value.less_than.2.index.1 + setup.call.not.index.1 => destruct.done.partial.0,10000,
        2 next_value.less_than.2.index.0 => next_value.less_than.2.index.1,10000,
        2 next_value.less_than.2.index.1 => next_value.less_than.2.index.1,10000,
        destruct => destruct + next_value.less_than.2.index.0,1,
        2 next_value + next_value.less_than.2.index.0 => 2 next_value,10000,
        2 next_value + next_value.less_than.2.index.1 => 2 next_value,10000,
        2 setup.call.not.index.0 => setup.call.not.index.1,10000,
        2 setup.call.not.index.1 => setup.call.not.index.1,10000,
        destruct => destruct + setup.call.not.index.0,1,
        setup.call + setup.call.not.index.0 => setup.call,10000,
        setup.call + setup.call.not.index.1 => setup.call,10000,
        ,,
        current_value.not.index.1 + last_value.not.index.1 => destruct.done.partial.1,10000,
        2 current_value.not.index.0 => current_value.not.index.1,10000,
        2 current_value.not.index.1 => current_value.not.index.1,10000,
        destruct => destruct + current_value.not.index.0,1,
        current_value + current_value.not.index.0 => current_value ,10000,
        current_value + current_value.not.index.1 => current_value ,10000,
        2 last_value.not.index.1 => last_value.not.index.1,10000,
        2 last_value.not.index.0 => last_value.not.index.1,10000,
        destruct => destruct + last_value.not.index.0,1,
        last_value + last_value.not.index.0 => last_value,10000,
        last_value + last_value.not.index.1 => last_value,10000,
        ,,
        destruct.done.partial.0 + destruct.done.partial.1 => destruct.done,1,
        2 destruct.done.partial.0 => destruct.done.partial.1,10000,
        2 destruct.done.partial.1 => destruct.done.partial.1,10000,
        2 destruct.done => destruct.done,10000,
        destruct.done + destruct => destruct.done,10000,
        ,,
        destruct.not.index.1 => setup.done,1,
        2 destruct.not.index.1 => destruct.not.index.1,10000,
        2 destruct.not.index.0 => destruct.not.index.1,10000,
        destruct.done => destruct.done + destruct.not.index.0,1,
        destruct + destruct.not.index.1 => destruct,10000,
        destruct + destruct.not.index.0 => destruct,10000,
        setup.done + destruct.done => setup.done,10000,
        ,,
        2 calculate.call => calculate.call,10000,
        calculate.call + calculate.done => calculate.call ,10000,
        calculate.call => index.check,1,
        index.check + calculate.call => index.check,10000,
        ,,
        2 index.check => index.check,10000,
        index.check + index => current_value.convert,1,
        current_value.convert + index.check => current_value.convert,10000,
        index.check + index.not.index.1 => calculate.return,1,
        2 index.not.index.1 => index.not.index.1,10000,
        2 index.not.index.0 => index.not.index.1,10000,
        index.check => index.check + index.not.index.0,1,
        index + index.not.index.0 => index,10000,
        index + index.not.index.1 => index,10000,
        calculate.return + index.check => calculate.return,10000,
        ,,
        2 current_value.convert => current_value.convert,10000,
        current_value.convert + current_value => last_value + current_value.convert,10000,
        current_value.convert + current_value.not.index.1 => next_value.convert ,1,
        2 current_value.not.index.1 => current_value.not.index.1,10000,
        2 current_value.not.index.0 => current_value.not.index.1,10000,
        current_value.convert => current_value.convert + current_value.not.index.0,1,
        current_value + current_value.not.index.0 => current_value ,10000,
        current_value + current_value.not.index.1 => current_value ,10000,
        ,,
        2 next_value.convert => next_value.convert,10000,
        next_value.convert + next_value => next_value.swap + next_value.convert,10000,
        next_value.convert + next_value.not.index.1 => next_value.split,1,
        2 next_value.not.index.1 => next_value.not.index.1,10000,
        2 next_value.not.index.0 => next_value.not.index.1,10000,
        next_value.convert => next_value.not.index.0 + next_value.convert,1,
        next_value + next_value.not.index.1 => next_value,10000,
        next_value + next_value.not.index.0 => next_value,10000,
        next_value.split + next_value.convert => next_value.split ,10000,
        ,,
        2 next_value.split => next_value.split,10000,
        next_value.split + next_value.swap => next_value + current_value + next_value.split,10000,
        next_value.split + next_value.swap.not.index.1 => last_value.convert ,1,
        2 next_value.swap.not.index.1 => next_value.swap.not.index.1,10000,
        2 next_value.swap.not.index.0 => next_value.swap.not.index.1,10000,
        next_value.split => next_value.swap.not.index.0 + next_value.split,1,
        next_value.swap + next_value.swap.not.index.1 => next_value.swap,10000,
        next_value.swap + next_value.swap.not.index.0 => next_value.swap,10000,
        last_value.convert + next_value.split => last_value.convert,10000,
        ,,
        2 last_value.convert => last_value.convert,10000,
        last_value.convert + last_value => next_value + last_value.convert,10000,
        last_value.convert + last_value.not.index.1 => index.check + last_value.convert ,1,
        2 last_value.not.index.1 => last_value.not.index.1,10000,
        2 last_value.not.index.0 => last_value.not.index.1,10000,
        last_value.convert => last_value.convert + last_value.not.index.0,1,
        last_value + last_value.not.index.0 => last_value,10000,
        last_value + last_value.not.index.1 => last_value,10000,
        index.check + last_value.convert => index.check ,10000,
        ,,
        2 calculate.return => calculate.return ,10000,
        calculate.return + current_value => return + calculate.return,10000,
        calculate.return + current_value.not.index.1 => calculate.done,1,
        2 current_value.not.index.1 => current_value.not.index.1,10000,
        2 current_value.not.index.0 => current_value.not.index.1,10000,
        calculate.return => calculate.return + current_value.not.index.0,1,
        current_value + current_value.not.index.0 => current_value,10000,
        current_value + current_value.not.index.1 => current_value,10000,
        fibonacci.call,1,
        index,20,
        ";
