//! The reaction network model: species names, counts, terms, reactions, the
//! initial solution, and the network that owns both collections.
use vstd::prelude::*;

verus! {

/// A species name, compared by its exact text.
#[derive(Debug, Clone, PartialEq, Eq, Hash)]
pub struct Name(pub String);

/// A non-negative molecule count or rate constant.
#[derive(Debug, Clone, Copy, PartialEq, Eq, Hash, PartialOrd, Ord)]
pub struct Count(pub u64);

/// `coefficient` copies of the species `species_name`.
#[derive(Debug, Clone, PartialEq, Eq, Hash)]
pub struct Term {
    pub species_name: Name,
    pub coefficient: Count,
}

/// Reactants, products and rate; the term lists keep the order they were written in.
#[derive(Debug, Clone, PartialEq, Eq, Hash)]
pub struct Reaction {
    pub reactants: Vec<Term>,
    pub products: Vec<Term>,
    pub reaction_rate: Count,
}

/// A term as a pair of the species' text and the multiplicity.
pub type TermView = (Seq<char>, nat);

pub struct ReactionView {
    pub reactants: Seq<TermView>,
    pub products: Seq<TermView>,
    pub rate: nat,
}

pub struct NetworkView {
    pub reactions: Set<ReactionView>,
    pub species: Map<Seq<char>, nat>,
}

impl View for Name {
    type V = Seq<char>;

    open spec fn view(&self) -> Seq<char> {
        self.0@
    }
}

impl View for Term {
    type V = TermView;

    open spec fn view(&self) -> TermView {
        (self.species_name@, self.coefficient.0 as nat)
    }
}

pub open spec fn terms_view(ts: Seq<Term>) -> Seq<TermView> {
    ts.map_values(|t: Term| t@)
}

impl View for Reaction {
    type V = ReactionView;

    open spec fn view(&self) -> ReactionView {
        ReactionView {
            reactants: terms_view(self.reactants@),
            products: terms_view(self.products@),
            rate: self.reaction_rate.0 as nat,
        }
    }
}

/// Every term of a reaction, reactants first.
pub open spec fn all_terms(r: ReactionView) -> Seq<TermView> {
    r.reactants + r.products
}

/// Whether some term of `r` names the species `k`.
pub open spec fn mentions(r: ReactionView, k: Seq<char>) -> bool {
    exists|i: int| 0 <= i < all_terms(r).len() && (#[trigger] all_terms(r)[i]).0 == k
}

/// `m` with an entry of `0` for every species of `r` that it lacks; entries
/// already there keep their value.
pub open spec fn with_species_of(m: Map<Seq<char>, nat>, r: ReactionView) -> Map<Seq<char>, nat> {
    Map::new(
        |k: Seq<char>| m.contains_key(k) || mentions(r, k),
        |k: Seq<char>|
            if m.contains_key(k) {
                m[k]
            } else {
                0
            },
    )
}

/// The network after a reaction line: the reaction joins the set (a no-op
/// when it is there already) and its species get a zero entry if they had none.
pub open spec fn add_reaction_spec(n: NetworkView, r: ReactionView) -> NetworkView {
    NetworkView { reactions: n.reactions.insert(r), species: with_species_of(n.species, r) }
}

/// The network after a species-count line: the declaration overwrites.
pub open spec fn declare_spec(n: NetworkView, k: Seq<char>, c: nat) -> NetworkView {
    NetworkView { reactions: n.reactions, species: n.species.insert(k, c) }
}

pub open spec fn empty_network() -> NetworkView {
    NetworkView { reactions: Set::empty(), species: Map::empty() }
}

impl Name {
    pub fn copy(&self) -> (r: Name)
        ensures
            r@ == self@,
    {
        Name(self.0.clone())
    }

    pub fn same(&self, other: &Name) -> (r: bool)
        ensures
            r == (self@ == other@),
    {
        self.0 == other.0
    }
}

impl Term {
    pub fn new(species_name: Name, coefficient: Count) -> (r: Term)
        ensures
            r.species_name == species_name,
            r.coefficient == coefficient,
    {
        Term { species_name, coefficient }
    }

    pub fn get_species_name(&self) -> (r: &Name)
        ensures
            r == &self.species_name,
    {
        &self.species_name
    }

    pub fn get_coefficient(&self) -> (r: Count)
        ensures
            r == self.coefficient,
    {
        self.coefficient
    }
}

fn same_terms(a: &Vec<Term>, b: &Vec<Term>) -> (r: bool)
    ensures
        r == (terms_view(a@) == terms_view(b@)),
{
    if a.len() != b.len() {
        assert(terms_view(a@).len() != terms_view(b@).len());
        return false;
    }
    let mut i: usize = 0;
    while i < a.len()
        invariant
            i <= a.len() == b.len(),
            forall|k: int| 0 <= k < i ==> (#[trigger] a@[k])@ == b@[k]@,
        decreases a.len() - i,
    {
        if !(a[i].species_name.same(&b[i].species_name) && a[i].coefficient.0
            == b[i].coefficient.0) {
            assert(terms_view(a@)[i as int] != terms_view(b@)[i as int]);
            return false;
        }
        i = i + 1;
    }
    assert(terms_view(a@) =~= terms_view(b@));
    true
}

impl Reaction {
    pub fn new(reactants: Vec<Term>, products: Vec<Term>, reaction_rate: Count) -> (r: Reaction)
        ensures
            r.reactants == reactants,
            r.products == products,
            r.reaction_rate == reaction_rate,
    {
        Reaction { reactants, products, reaction_rate }
    }

    pub fn get_reactants(&self) -> (r: &Vec<Term>)
        ensures
            r == &self.reactants,
    {
        &self.reactants
    }

    pub fn get_products(&self) -> (r: &Vec<Term>)
        ensures
            r == &self.products,
    {
        &self.products
    }

    pub fn get_reaction_rate(&self) -> (r: Count)
        ensures
            r == self.reaction_rate,
    {
        self.reaction_rate
    }

    /// Equality of reactant lists, product lists and rate.
    pub fn same(&self, other: &Reaction) -> (r: bool)
        ensures
            r == (self@ == other@),
    {
        self.reaction_rate.0 == other.reaction_rate.0 && same_terms(
            &self.reactants,
            &other.reactants,
        ) && same_terms(&self.products, &other.products)
    }
}

/// The initial count of each species, one entry per name.
pub struct Solution {
    species_counts: Vec<(Name, Count)>,
    model: Ghost<Map<Seq<char>, nat>>,
}

impl View for Solution {
    type V = Map<Seq<char>, nat>;

    closed spec fn view(&self) -> Map<Seq<char>, nat> {
        self.model@
    }
}

impl Solution {
    pub closed spec fn wf(&self) -> bool {
        let e = self.species_counts@;
        &&& forall|i: int, j: int|
            0 <= i < j < e.len() ==> (#[trigger] e[i]).0@ != (#[trigger] e[j]).0@
        &&& forall|i: int|
            0 <= i < e.len() ==> self.model@.contains_key((#[trigger] e[i]).0@)
                && self.model@[e[i].0@] == e[i].1.0 as nat
        &&& forall|k: Seq<char>|
            #[trigger] self.model@.contains_key(k) ==> exists|i: int|
                0 <= i < e.len() && (#[trigger] e[i]).0@ == k
    }

    pub fn new() -> (r: Solution)
        ensures
            r.wf(),
            r@ == Map::<Seq<char>, nat>::empty(),
    {
        Solution { species_counts: Vec::new(), model: Ghost(Map::empty()) }
    }

    fn position(&self, name: &Name) -> (r: Option<usize>)
        requires
            self.wf(),
        ensures
            match r {
                Some(i) => i < self.species_counts@.len() && self.species_counts@[i as int].0@
                    == name@,
                None => !self@.contains_key(name@),
            },
    {
        let mut i: usize = 0;
        while i < self.species_counts.len()
            invariant
                self.wf(),
                i <= self.species_counts@.len(),
                forall|k: int| 0 <= k < i ==> (#[trigger] self.species_counts@[k]).0@ != name@,
            decreases self.species_counts.len() - i,
        {
            if self.species_counts[i].0.same(name) {
                return Some(i);
            }
            i = i + 1;
        }
        None
    }

    /// The entries, one per species, in the order the species were first seen.
    pub fn get_species_counts(&self) -> (r: &Vec<(Name, Count)>)
        requires
            self.wf(),
        ensures
            forall|i: int|
                0 <= i < r@.len() ==> self@.contains_key((#[trigger] r@[i]).0@) && self@[r@[i].0@]
                    == r@[i].1.0 as nat,
            forall|k: Seq<char>| #[trigger] self@.contains_key(k) ==> exists|i: int|
                0 <= i < r@.len() && (#[trigger] r@[i]).0@ == k,
            forall|i: int, j: int| 0 <= i < j < r@.len() ==> (#[trigger] r@[i]).0@ != (#[trigger] r@[j]).0@,
    {
        &self.species_counts
    }

    /// The count recorded for the species called `name`, if any.
    pub fn get(&self, name: &str) -> (r: Option<u64>)
        requires
            self.wf(),
        ensures
            match r {
                Some(c) => self@.contains_key(name@) && self@[name@] == c as nat,
                None => !self@.contains_key(name@),
            },
    {
        let key = Name(name.to_owned());
        match self.position(&key) {
            Some(i) => Some(self.species_counts[i].1.0),
            None => None,
        }
    }

    pub fn len(&self) -> (r: usize)
        requires
            self.wf(),
        ensures
            r == self@.len(),
    {
        proof {
            self.lemma_len();
        }
        self.species_counts.len()
    }

    proof fn lemma_len(&self)
        requires
            self.wf(),
        ensures
            self@.len() == self.species_counts@.len(),
    {
        let e = self.species_counts@;
        let keys = e.map_values(|p: (Name, Count)| p.0@);
        assert forall|k: Seq<char>| #[trigger] self@.dom().contains(k) implies exists|i: int|
            0 <= i < keys.len() && keys[i] == k by {
            let i = choose|i: int| 0 <= i < e.len() && (#[trigger] e[i]).0@ == k;
            assert(keys[i] == k);
        }
        lemma_distinct_len(keys, self@.dom());
    }

    /// Sets the count of `name`, overwriting any earlier entry.
    pub fn set(&mut self, name: Name, count: Count)
        requires
            old(self).wf(),
        ensures
            final(self).wf(),
            final(self)@ == old(self)@.insert(name@, count.0 as nat),
    {
        let ghost k = name@;
        let ghost m = self.model@.insert(k, count.0 as nat);
        let ghost mut at: int = 0;
        match self.position(&name) {
            Some(i) => {
                self.species_counts.set(i, (name, count));
                proof {
                    at = i as int;
                }
            },
            None => {
                self.species_counts.push((name, count));
                proof {
                    at = self.species_counts@.len() - 1;
                }
            },
        }
        self.model = Ghost(m);
        assert(0 <= at < self.species_counts@.len() && self.species_counts@[at].0@ == k);
        assert forall|j: Seq<char>| #[trigger] m.contains_key(j) implies exists|i: int|
            0 <= i < self.species_counts@.len() && (#[trigger] self.species_counts@[i]).0@ == j by {
            if j != k {
                let i = choose|i: int|
                    0 <= i < old(self).species_counts@.len() && (#[trigger] old(
                        self,
                    ).species_counts@[i]).0@ == j;
                assert(self.species_counts@[i].0@ == j);
            } else {
                assert(self.species_counts@[at].0@ == j);
            }
        }
    }

    /// Gives `name` the count `0` unless it already has an entry.
    pub fn touch(&mut self, name: &Name)
        requires
            old(self).wf(),
        ensures
            final(self).wf(),
            final(self)@ == (if old(self)@.contains_key(name@) {
                old(self)@
            } else {
                old(self)@.insert(name@, 0)
            }),
    {
        if self.position(name).is_none() {
            self.set(name.copy(), Count(0));
        }
    }
}

/// `m` with a zero entry added for each species named by `ts[0..i]`.
pub open spec fn touched(m: Map<Seq<char>, nat>, ts: Seq<TermView>, i: int) -> Map<Seq<char>, nat> {
    Map::new(
        |k: Seq<char>| m.contains_key(k) || exists|j: int| 0 <= j < i && (#[trigger] ts[j]).0 == k,
        |k: Seq<char>|
            if m.contains_key(k) {
                m[k]
            } else {
                0
            },
    )
}

proof fn lemma_touched_step(
    m: Map<Seq<char>, nat>,
    ts: Seq<TermView>,
    i: int,
    before: Map<Seq<char>, nat>,
    after: Map<Seq<char>, nat>,
)
    requires
        0 <= i < ts.len(),
        before == touched(m, ts, i),
        after == (if before.contains_key(ts[i].0) {
            before
        } else {
            before.insert(ts[i].0, 0)
        }),
    ensures
        after == touched(m, ts, i + 1),
{
    let k0 = ts[i].0;
    assert forall|k: Seq<char>| touched(m, ts, i + 1).contains_key(k) implies #[trigger] after.contains_key(k) by {
        if !m.contains_key(k) && k != k0 {
            let j = choose|j: int| 0 <= j < i + 1 && (#[trigger] ts[j]).0 == k;
            assert(0 <= j < i && ts[j].0 == k);
        }
    }
    assert forall|k: Seq<char>| after.contains_key(k) implies #[trigger] touched(m, ts, i + 1).contains_key(k) by {
        if !m.contains_key(k) && k != k0 {
            let j = choose|j: int| 0 <= j < i && (#[trigger] ts[j]).0 == k;
            assert(0 <= j < i + 1 && ts[j].0 == k);
        }
        if k == k0 {
            assert(ts[i].0 == k);
        }
    }
    assert(after =~= touched(m, ts, i + 1));
}

/// A set whose members a list of pairwise distinct elements enumerates has
/// as many members as the list.
proof fn lemma_distinct_len<A>(xs: Seq<A>, s: Set<A>)
    requires
        forall|i: int, j: int| 0 <= i < j < xs.len() ==> xs[i] != xs[j],
        forall|i: int| 0 <= i < xs.len() ==> s.contains(#[trigger] xs[i]),
        forall|x: A| #[trigger] s.contains(x) ==> exists|i: int| 0 <= i < xs.len() && xs[i] == x,
    ensures
        s.len() == xs.len(),
{
    assert(xs.no_duplicates()) by {
        assert forall|i: int, j: int| 0 <= i < xs.len() && 0 <= j < xs.len() && i != j
            implies xs[i] != xs[j] by {
            if j < i {
                assert(xs[j] != xs[i]);
            }
        }
    }
    assert(xs.to_set() =~= s);
    xs.unique_seq_to_set();
}

/// The reaction set and the solution that a source lowers to.
pub struct ReactionNetwork {
    reactions: Vec<Reaction>,
    solution: Solution,
}

impl View for ReactionNetwork {
    type V = NetworkView;

    closed spec fn view(&self) -> NetworkView {
        NetworkView {
            reactions: Set::new(
                |r: ReactionView|
                    exists|i: int| 0 <= i < self.reactions@.len() && (#[trigger] self.reactions@[i])@ == r,
            ),
            species: self.solution@,
        }
    }
}

impl ReactionNetwork {
    pub closed spec fn wf(&self) -> bool {
        &&& self.solution.wf()
        &&& forall|i: int, j: int|
            0 <= i < j < self.reactions@.len() ==> (#[trigger] self.reactions@[i])@ != (
            #[trigger] self.reactions@[j])@
    }

    pub fn new() -> (r: ReactionNetwork)
        ensures
            r.wf(),
            r@ == empty_network(),
    {
        let r = ReactionNetwork { reactions: Vec::new(), solution: Solution::new() };
        assert(r@.reactions =~= Set::<ReactionView>::empty());
        r
    }

    pub fn get_reactions(&self) -> (r: &Vec<Reaction>)
        requires
            self.wf(),
        ensures
            forall|x: ReactionView| self@.reactions.contains(x) <==> exists|i: int|
                0 <= i < r@.len() && (#[trigger] r@[i])@ == x,
            forall|i: int, j: int| 0 <= i < j < r@.len() ==> (#[trigger] r@[i])@ != (#[trigger] r@[j])@,
    {
        &self.reactions
    }

    pub fn get_solution(&self) -> (r: &Solution)
        requires
            self.wf(),
        ensures
            r.wf(),
            r@ == self@.species,
    {
        &self.solution
    }

    /// Whether an equal reaction (same lists in the same order, same rate) is in the set.
    pub fn contains_reaction(&self, r: &Reaction) -> (b: bool)
        requires
            self.wf(),
        ensures
            b == self@.reactions.contains(r@),
    {
        let mut i: usize = 0;
        while i < self.reactions.len()
            invariant
                i <= self.reactions@.len(),
                forall|k: int| 0 <= k < i ==> (#[trigger] self.reactions@[k])@ != r@,
            decreases self.reactions.len() - i,
        {
            if self.reactions[i].same(r) {
                return true;
            }
            i = i + 1;
        }
        false
    }

    /// The number of distinct reactions.
    pub fn reaction_count(&self) -> (n: usize)
        requires
            self.wf(),
        ensures
            n == self@.reactions.len(),
    {
        let ghost e = self.reactions@;
        let ghost views = e.map_values(|r: Reaction| r@);
        proof {
            assert forall|x: ReactionView| #[trigger] self@.reactions.contains(x) implies exists|i: int|
                0 <= i < views.len() && views[i] == x by {
                let i = choose|i: int| 0 <= i < e.len() && (#[trigger] e[i])@ == x;
                assert(views[i] == x);
            }
            lemma_distinct_len(views, self@.reactions);
        }
        self.reactions.len()
    }

    /// Adds a reaction line's reaction: the set gains it unless an equal one is
    /// there, and each of its species gets a zero entry unless it has one.
    pub fn add_reaction(&mut self, r: Reaction)
        requires
            old(self).wf(),
        ensures
            final(self).wf(),
            final(self)@ == add_reaction_spec(old(self)@, r@),
    {
        let ghost m = self.solution@;
        let ghost ts = all_terms(r@);
        let mut i: usize = 0;
        while i < r.reactants.len()
            invariant
                self.solution.wf(),
                self.reactions == old(self).reactions,
                ts == all_terms(r@),
                i <= r.reactants@.len(),
                self.solution@ == touched(m, ts, i as int),
            decreases r.reactants.len() - i,
        {
            let ghost before = self.solution@;
            self.solution.touch(&r.reactants[i].species_name);
            proof {
                lemma_touched_step(m, ts, i as int, before, self.solution@);
            }
            i = i + 1;
        }
        let mut j: usize = 0;
        while j < r.products.len()
            invariant
                self.solution.wf(),
                self.reactions == old(self).reactions,
                ts == all_terms(r@),
                j <= r.products@.len(),
                self.solution@ == touched(m, ts, r.reactants@.len() + j),
            decreases r.products.len() - j,
        {
            let ghost before = self.solution@;
            self.solution.touch(&r.products[j].species_name);
            proof {
                lemma_touched_step(m, ts, r.reactants@.len() + j, before, self.solution@);
            }
            j = j + 1;
        }
        let ghost n = ts.len();
        assert(touched(m, ts, n as int) =~= with_species_of(m, r@));
        if !self.contains_reaction(&r) {
            self.reactions.push(r);
        }
        assert(self@.reactions =~= old(self)@.reactions.insert(r@)) by {
            assert forall|x: ReactionView| #[trigger] old(self)@.reactions.insert(r@).contains(x) implies self@.reactions.contains(x) by {
                if x != r@ {
                    let i = choose|i: int| 0 <= i < old(self).reactions@.len() && (#[trigger] old(self).reactions@[i])@ == x;
                    assert(self.reactions@[i]@ == x);
                } else if self.reactions@.len() > old(self).reactions@.len() {
                    assert(self.reactions@[self.reactions@.len() - 1]@ == x);
                }
            }
            assert forall|x: ReactionView| #[trigger] self@.reactions.contains(x) implies old(self)@.reactions.insert(r@).contains(x) by {
                let i = choose|i: int| 0 <= i < self.reactions@.len() && (#[trigger] self.reactions@[i])@ == x;
                if i < old(self).reactions@.len() {
                    assert(old(self).reactions@[i]@ == x);
                }
            }
        }
    }

    /// Records a species-count line: the declared count replaces any entry.
    pub fn declare(&mut self, name: Name, count: Count)
        requires
            old(self).wf(),
        ensures
            final(self).wf(),
            final(self)@ == declare_spec(old(self)@, name@, count.0 as nat),
    {
        self.solution.set(name, count);
        assert(self@.reactions =~= old(self)@.reactions);
    }
}

} // verus!
