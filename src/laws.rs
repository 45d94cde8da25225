//! Properties of the lowering that hold for every source.
use vstd::prelude::*;
use crate::grammar::{
    terms_from, Failure,
    classify, line_spec, SourceFailure, network_from, network_of, reaction_spec, uncommented, LineNode,
};
use crate::model::{add_reaction_spec, mentions, with_species_of, NetworkView, ReactionView};
use crate::text::{find, is_blank, lemma_find_bounds, numeral_value, trimmed};

verus! {

/// The count that `text` declares for `k`, when it is a species-count line for `k`.
pub open spec fn line_declares(text: Seq<char>, k: Seq<char>) -> Option<nat> {
    match classify(text) {
        LineNode::SpeciesCount(head, num) => if trimmed(head) == k {
            Some(numeral_value(trimmed(num)))
        } else {
            None
        },
        _ => None,
    }
}

#[via_fn]
proof fn last_declared_decreases(s: Seq<char>, i: int, k: Seq<char>) {
    if 0 <= i <= s.len() {
        lemma_find_bounds(s, i, '\n');
    }
}

/// The count given to `k` by the last species-count line of `s` at or after index `i`.
pub open spec fn last_declared(s: Seq<char>, i: int, k: Seq<char>) -> Option<nat>
    decreases s.len() - i,
    via last_declared_decreases
{
    let e = find(s, i, '\n');
    let later = if e < s.len() {
        last_declared(s, e + 1, k)
    } else {
        None
    };
    match later {
        Some(c) => Some(c),
        None => line_declares(s.subrange(i, e), k),
    }
}

/// Every species that a reaction of `n` names has an entry in its solution.
pub open spec fn species_closed(n: NetworkView) -> bool {
    forall|r: ReactionView, k: Seq<char>|
        #[trigger] n.reactions.contains(r) && #[trigger] mentions(r, k) ==> n.species.contains_key(k)
}

/// Whether `text` is a reaction line that lowers to `r`.
pub open spec fn lowers_to_reaction(text: Seq<char>, line: nat, r: ReactionView) -> bool {
    match classify(text) {
        LineNode::Reaction(head, num) => reaction_spec(head, num, line) == Ok::<ReactionView, crate::grammar::Failure>(r),
        _ => false,
    }
}

proof fn lemma_line_step(st: NetworkView, text: Seq<char>, line: nat, k: Seq<char>)
    requires
        line_spec(st, text, line) is Ok,
    ensures
        species_closed(st) ==> species_closed(line_spec(st, text, line)->Ok_0),
        st.species.contains_key(k) ==> line_spec(st, text, line)->Ok_0.species.contains_key(k),
        ({
            let next = line_spec(st, text, line)->Ok_0;
            match line_declares(text, k) {
                Some(c) => next.species.contains_key(k) && next.species[k] == c,
                None => next.species.contains_key(k) ==> (if st.species.contains_key(k) {
                    next.species[k] == st.species[k]
                } else {
                    next.species[k] == 0
                }),
            }
        }),
{
    let next = line_spec(st, text, line)->Ok_0;
    match classify(text) {
        LineNode::Reaction(head, num) => {
            let r = reaction_spec(head, num, line)->Ok_0;
            assert(next == add_reaction_spec(st, r));
            if species_closed(st) {
                assert forall|x: ReactionView, j: Seq<char>|
                    #[trigger] next.reactions.contains(x) && #[trigger] mentions(x, j)
                    implies next.species.contains_key(j) by {
                    if x != r {
                        assert(st.reactions.contains(x));
                    }
                }
            }
        },
        _ => {},
    }
}

proof fn lemma_network_from(s: Seq<char>, i: int, st: NetworkView, line: nat, k: Seq<char>)
    requires
        0 <= i <= s.len(),
        network_from(s, i, st, line) is Ok,
    ensures
        species_closed(st) ==> species_closed(network_from(s, i, st, line)->Ok_0),
        st.species.contains_key(k) ==> network_from(s, i, st, line)->Ok_0.species.contains_key(k),
        ({
            let n = network_from(s, i, st, line)->Ok_0;
            match last_declared(s, i, k) {
                Some(c) => n.species.contains_key(k) && n.species[k] == c,
                None => n.species.contains_key(k) ==> (if st.species.contains_key(k) {
                    n.species[k] == st.species[k]
                } else {
                    n.species[k] == 0
                }),
            }
        }),
    decreases s.len() - i,
{
    let e = find(s, i, '\n');
    lemma_find_bounds(s, i, '\n');
    let text = s.subrange(i, e);
    lemma_line_step(st, text, line, k);
    let next = line_spec(st, text, line)->Ok_0;
    let later = if e < s.len() {
        last_declared(s, e + 1, k)
    } else {
        None
    };
    assert(last_declared(s, i, k) == match later {
        Some(c) => Some(c),
        None => line_declares(text, k),
    });
    if e < s.len() {
        assert(network_from(s, i, st, line) == network_from(s, e + 1, next, line + 1));
        lemma_network_from(s, e + 1, next, line + 1, k);
    } else {
        assert(network_from(s, i, st, line) == Ok::<NetworkView, SourceFailure>(next));
    }
}

/// Parsing depends on the text alone: two successful parses of one source
/// give the same reaction set and the same species map.
pub proof fn parse_is_deterministic(s: Seq<char>, a: NetworkView, b: NetworkView)
    requires
        network_of(s) == Ok::<NetworkView, SourceFailure>(a),
        network_of(s) == Ok::<NetworkView, SourceFailure>(b),
    ensures
        a.reactions == b.reactions,
        a.species == b.species,
{
}

/// Every species named in a reaction of a parsed network has an entry, and
/// that entry is `0` when no species-count line declares the species.
pub proof fn default_zero(s: Seq<char>, k: Seq<char>)
    requires
        network_of(s) is Ok,
    ensures
        species_closed(network_of(s)->Ok_0),
        last_declared(s, 0, k) is None && network_of(s)->Ok_0.species.contains_key(k)
            ==> network_of(s)->Ok_0.species[k] == 0,
{
    lemma_network_from(s, 0, crate::model::empty_network(), 1, k);
}

/// The count of a declared species is the one on the last line that
/// declares it, whatever reactions name it before or after.
pub proof fn last_write_wins(s: Seq<char>, k: Seq<char>)
    requires
        network_of(s) is Ok,
        last_declared(s, 0, k) is Some,
    ensures
        network_of(s)->Ok_0.species.contains_key(k),
        network_of(s)->Ok_0.species[k] == last_declared(s, 0, k)->Some_0,
{
    lemma_network_from(s, 0, crate::model::empty_network(), 1, k);
}

/// Two reaction lines that lower to the same reaction count once: after
/// the first, the second changes nothing.
pub proof fn duplicate_collapse(
    st: NetworkView,
    first: Seq<char>,
    second: Seq<char>,
    l1: nat,
    l2: nat,
    r: ReactionView,
)
    requires
        lowers_to_reaction(first, l1, r),
        lowers_to_reaction(second, l2, r),
    ensures
        line_spec(st, first, l1) == Ok::<NetworkView, crate::grammar::Failure>(add_reaction_spec(st, r)),
        line_spec(add_reaction_spec(st, r), second, l2) == Ok::<NetworkView, crate::grammar::Failure>(add_reaction_spec(st, r)),
        add_reaction_spec(st, r).reactions == st.reactions.insert(r),
{
    let once = add_reaction_spec(st, r);
    let twice = add_reaction_spec(once, r);
    assert(twice.reactions =~= once.reactions);
    assert(with_species_of(once.species, r) =~= once.species);
}

/// A separator line (nothing but commas, whitespace or a comment) leaves the
/// network as it was; in a source, the lines after it then go on from the
/// same network as they would without it.
pub proof fn separator_tolerance(s: Seq<char>, i: int, st: NetworkView, line: nat)
    requires
        0 <= i <= s.len(),
        is_blank(uncommented(s.subrange(i, find(s, i, '\n')))),
    ensures
        line_spec(st, s.subrange(i, find(s, i, '\n')), line) == Ok::<NetworkView, crate::grammar::Failure>(st),
        find(s, i, '\n') < s.len() ==> network_from(s, i, st, line) == network_from(
            s,
            find(s, i, '\n') + 1,
            st,
            line + 1,
        ),
{
}

/// The reaction that `text` lowers to, when it is a reaction line that lowers.
pub open spec fn line_reaction(text: Seq<char>, line: nat) -> Option<ReactionView> {
    match classify(text) {
        LineNode::Reaction(head, num) => match reaction_spec(head, num, line) {
            Ok(r) => Some(r),
            Err(_) => None,
        },
        _ => None,
    }
}

#[via_fn]
proof fn lowered_reactions_decreases(s: Seq<char>, i: int, line: nat) {
    if 0 <= i <= s.len() {
        lemma_find_bounds(s, i, '\n');
    }
}

/// The distinct reactions that the reaction lines of `s` at or after index
/// `i` lower to, the lines numbered from `line`.
pub open spec fn lowered_reactions(s: Seq<char>, i: int, line: nat) -> Set<ReactionView>
    decreases s.len() - i,
    via lowered_reactions_decreases
{
    let e = find(s, i, '\n');
    let here = match line_reaction(s.subrange(i, e), line) {
        Some(r) => set![r],
        None => Set::empty(),
    };
    if e < s.len() {
        here.union(lowered_reactions(s, e + 1, line + 1))
    } else {
        here
    }
}

proof fn lemma_reactions_from(s: Seq<char>, i: int, st: NetworkView, line: nat)
    requires
        0 <= i <= s.len(),
        network_from(s, i, st, line) is Ok,
    ensures
        network_from(s, i, st, line)->Ok_0.reactions == st.reactions.union(lowered_reactions(s, i, line)),
    decreases s.len() - i,
{
    let e = find(s, i, '\n');
    lemma_find_bounds(s, i, '\n');
    let text = s.subrange(i, e);
    let next = line_spec(st, text, line)->Ok_0;
    let here = match line_reaction(text, line) {
        Some(r) => set![r],
        None => Set::<ReactionView>::empty(),
    };
    assert(next.reactions =~= st.reactions.union(here));
    if e < s.len() {
        lemma_reactions_from(s, e + 1, next, line + 1);
        assert(st.reactions.union(here).union(lowered_reactions(s, e + 1, line + 1)) =~= st.reactions.union(
            here.union(lowered_reactions(s, e + 1, line + 1)),
        ));
    } else {
        assert(network_from(s, i, st, line) == Ok::<NetworkView, SourceFailure>(next));
    }
}

/// Reaction lines that lower to the same reactants, products and rate
/// count once: the reaction set of a parsed source is exactly the set of
/// distinct reactions its reaction lines lower to, so its size is their number.
pub proof fn distinct_reactions(s: Seq<char>)
    requires
        network_of(s) is Ok,
    ensures
        network_of(s)->Ok_0.reactions == lowered_reactions(s, 0, 1),
        network_of(s)->Ok_0.reactions.len() == lowered_reactions(s, 0, 1).len(),
{
    lemma_reactions_from(s, 0, crate::model::empty_network(), 1);
    assert(Set::<ReactionView>::empty().union(lowered_reactions(s, 0, 1)) =~= lowered_reactions(s, 0, 1));
}

/// Two results that succeed together, and then with the same value.
pub open spec fn same_outcome<T, E>(a: Result<T, E>, b: Result<T, E>) -> bool {
    &&& (a is Ok <==> b is Ok)
    &&& (a is Ok ==> a->Ok_0 == b->Ok_0)
}

proof fn lemma_find_prefix(a: Seq<char>, y: Seq<char>, i: int)
    requires
        0 <= i <= a.len(),
    ensures
        find(a + seq!['\n'] + y, i, '\n') == find(a, i, '\n'),
    decreases a.len() - i,
{
    let x = a + seq!['\n'] + y;
    if i < a.len() {
        assert(x[i] == a[i]);
        lemma_find_prefix(a, y, i + 1);
    } else {
        assert(x[i] == '\n');
    }
}

proof fn lemma_find_shift(x: Seq<char>, y: Seq<char>, j: int)
    requires
        0 <= j <= y.len(),
    ensures
        find(x + y, x.len() + j, '\n') == x.len() + find(y, j, '\n'),
    decreases y.len() - j,
{
    if j < y.len() {
        assert((x + y)[x.len() + j] == y[j]);
        lemma_find_shift(x, y, j + 1);
    }
}

proof fn lemma_find_none(a: Seq<char>, i: int)
    requires
        0 <= i <= a.len(),
        forall|k: int| 0 <= k < a.len() ==> a[k] != '\n',
    ensures
        find(a, i, '\n') == a.len(),
    decreases a.len() - i,
{
    if i < a.len() {
        lemma_find_none(a, i + 1);
    }
}

/// A source's lines keep their outcome when other text comes before them.
proof fn lemma_suffix(x: Seq<char>, y: Seq<char>, j: int, st: NetworkView, line: nat)
    requires
        0 <= j <= y.len(),
    ensures
        network_from(x + y, x.len() + j, st, line) == network_from(y, j, st, line),
    decreases y.len() - j,
{
    let e = find(y, j, '\n');
    lemma_find_bounds(y, j, '\n');
    lemma_find_shift(x, y, j);
    assert((x + y).subrange(x.len() + j, x.len() + e) =~= y.subrange(j, e));
    match line_spec(st, y.subrange(j, e), line) {
        Ok(next) => {
            if e < y.len() {
                lemma_suffix(x, y, e + 1, next, line + 1);
            }
        },
        Err(_) => {},
    }
}

proof fn lemma_terms_lines(side: Seq<char>, i: int, l1: nat, l2: nat, rule: crate::grammar::Rule)
    requires
        0 <= i <= side.len(),
    ensures
        same_outcome(terms_from(side, i, l1, rule), terms_from(side, i, l2, rule)),
    decreases side.len() - i,
{
    let e = find(side, i, '+');
    lemma_find_bounds(side, i, '+');
    if e < side.len() {
        lemma_terms_lines(side, e + 1, l1, l2, rule);
    }
}

proof fn lemma_line_lines(st: NetworkView, text: Seq<char>, l1: nat, l2: nat)
    ensures
        same_outcome(line_spec(st, text, l1), line_spec(st, text, l2)),
{
    match classify(text) {
        LineNode::Reaction(head, num) => {
            let a = crate::text::find_arrow(head, 0);
            crate::text::lemma_find_arrow_bounds(head, 0);
            if a < head.len() {
                lemma_terms_lines(head.subrange(0, a), 0, l1, l2, crate::grammar::Rule::Reactants);
                lemma_terms_lines(head.subrange(a + 2, head.len() as int), 0, l1, l2, crate::grammar::Rule::Products);
            }
        },
        _ => {},
    }
}

/// The numbering of lines changes which line a failure names, nothing else.
proof fn lemma_network_lines(s: Seq<char>, i: int, st: NetworkView, l1: nat, l2: nat)
    requires
        0 <= i <= s.len(),
    ensures
        same_outcome(network_from(s, i, st, l1), network_from(s, i, st, l2)),
    decreases s.len() - i,
{
    let e = find(s, i, '\n');
    lemma_find_bounds(s, i, '\n');
    let text = s.subrange(i, e);
    lemma_line_lines(st, text, l1, l2);
    match line_spec(st, text, l1) {
        Ok(next) => {
            if e < s.len() {
                lemma_network_lines(s, e + 1, next, l1 + 1, l2 + 1);
            }
        },
        Err(_) => {},
    }
}

proof fn lemma_separator_inserted(
    a: Seq<char>,
    sep: Seq<char>,
    b: Seq<char>,
    i: int,
    st: NetworkView,
    line: nat,
)
    requires
        0 <= i <= a.len(),
        is_blank(uncommented(sep)),
        forall|k: int| 0 <= k < sep.len() ==> sep[k] != '\n',
    ensures
        same_outcome(
            network_from(a + seq!['\n'] + b, i, st, line),
            network_from(a + seq!['\n'] + (sep + seq!['\n'] + b), i, st, line),
        ),
    decreases a.len() - i,
{
    let rest = sep + seq!['\n'] + b;
    let s1 = a + seq!['\n'] + b;
    let s2 = a + seq!['\n'] + rest;
    lemma_find_prefix(a, b, i);
    lemma_find_prefix(a, rest, i);
    lemma_find_bounds(a, i, '\n');
    let e = find(a, i, '\n');
    assert(s1.subrange(i, e) =~= a.subrange(i, e));
    assert(s2.subrange(i, e) =~= a.subrange(i, e));
    let text = a.subrange(i, e);
    match line_spec(st, text, line) {
        Err(_) => {},
        Ok(next) => {
            if e < a.len() {
                lemma_separator_inserted(a, sep, b, e + 1, next, line + 1);
            } else {
                let head = a + seq!['\n'];
                assert(s1 =~= head + b);
                assert(s2 =~= head + rest);
                lemma_suffix(head, b, 0, next, line + 1);
                lemma_suffix(head, rest, 0, next, line + 1);
                lemma_find_prefix(sep, b, 0);
                lemma_find_none(sep, 0);
                assert(rest.subrange(0, sep.len() as int) =~= sep);
                assert(line_spec(next, sep, line + 1) == Ok::<NetworkView, Failure>(next));
                let tail = sep + seq!['\n'];
                assert(rest =~= tail + b);
                lemma_suffix(tail, b, 0, next, line + 2);
                lemma_network_lines(b, 0, next, line + 1, line + 2);
            }
        },
    }
}

/// A row of only commas and whitespace (or a comment) between two lines
/// changes neither the reaction set nor the species map: the source with
/// the row and the source without it succeed together, with equal networks.
pub proof fn separator_row_changes_nothing(a: Seq<char>, sep: Seq<char>, b: Seq<char>)
    requires
        is_blank(uncommented(sep)),
        forall|k: int| 0 <= k < sep.len() ==> sep[k] != '\n',
    ensures
        same_outcome(
            network_of(a + seq!['\n'] + b),
            network_of(a + seq!['\n'] + (sep + seq!['\n'] + b)),
        ),
{
    lemma_separator_inserted(a, sep, b, 0, crate::model::empty_network(), 1);
}

} // verus!
