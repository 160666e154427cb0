//! The set of attested adjective-noun pairs, held in ascending order.

use vstd::prelude::*;
use crate::text::{
    compare_words, lemma_lex_asymmetric, lemma_lex_irreflexive, lemma_lex_total,
    lemma_lex_transitive, lex_lt, Relation,
};

verus! {

/// An adjective and a noun, as contracts speak of them.
pub type Pair = (Seq<char>, Seq<char>);

/// The strict order on pairs: by adjective, and by noun where the
/// adjectives are equal.
pub open spec fn pair_lt(p: Pair, q: Pair) -> bool {
    lex_lt(p.0, q.0) || (p.0 == q.0 && lex_lt(p.1, q.1))
}

/// How `p` stands to `q` in the order on pairs.
pub open spec fn relate_pairs(p: Pair, q: Pair) -> Relation {
    if pair_lt(p, q) {
        Relation::Before
    } else if p == q {
        Relation::Same
    } else {
        Relation::After
    }
}

/// Each element comes before every later one, so none occurs twice.
pub open spec fn strictly_sorted(s: Seq<Pair>) -> bool {
    forall|i: int, j: int| 0 <= i < j < s.len() ==> pair_lt(#[trigger] s[i], #[trigger] s[j])
}

/// No pair comes before itself.
pub proof fn lemma_pair_irreflexive(p: Pair)
    ensures
        !pair_lt(p, p),
{
    lemma_lex_irreflexive(p.0);
    lemma_lex_irreflexive(p.1);
}

/// The order on pairs is transitive.
pub proof fn lemma_pair_transitive(p: Pair, q: Pair, r: Pair)
    requires
        pair_lt(p, q),
        pair_lt(q, r),
    ensures
        pair_lt(p, r),
{
    if lex_lt(p.0, q.0) && lex_lt(q.0, r.0) {
        lemma_lex_transitive(p.0, q.0, r.0);
    } else if p.0 == q.0 && q.0 == r.0 {
        lemma_lex_transitive(p.1, q.1, r.1);
    }
}

/// A strictly sorted sequence holds as many pairs as its set.
pub proof fn lemma_sorted_len(s: Seq<Pair>)
    requires
        strictly_sorted(s),
    ensures
        s.to_set().finite(),
        s.to_set().len() == s.len(),
{
    assert forall|i: int, j: int| 0 <= i < s.len() && 0 <= j < s.len() && i != j implies s[i]
        != s[j] by {
        lemma_pair_irreflexive(s[i]);
        if i < j {
            assert(pair_lt(s[i], s[j]));
        } else {
            assert(pair_lt(s[j], s[i]));
        }
    }
    s.unique_seq_to_set();
}

/// Compares two pairs, adjective first.
pub fn compare_pairs(p: &(String, String), q: &(String, String)) -> (r: Relation)
    ensures
        r == relate_pairs(p@, q@),
        r is After ==> pair_lt(q@, p@),
{
    proof {
        lemma_lex_irreflexive(p@.0);
        lemma_lex_total(p@.1, q@.1);
        if lex_lt(q@.0, p@.0) {
            lemma_lex_asymmetric(q@.0, p@.0);
        }
    }
    match compare_words(p.0.as_str(), q.0.as_str()) {
        Relation::Before => Relation::Before,
        Relation::After => Relation::After,
        Relation::Same => compare_words(p.1.as_str(), q.1.as_str()),
    }
}

/// A set of adjective-noun pairs. Its view is the set of pairs it holds;
/// inside, the pairs stand in ascending order, each once.
#[derive(Debug)]
pub struct AttestedSet {
    pairs: Vec<(String, String)>,
}

impl View for AttestedSet {
    type V = Set<Pair>;

    closed spec fn view(&self) -> Set<Pair> {
        self.pairs.deep_view().to_set()
    }
}

impl AttestedSet {
    #[verifier::type_invariant]
    spec fn ordered(&self) -> bool {
        strictly_sorted(self.pairs.deep_view())
    }

    /// An empty set.
    pub fn new() -> (r: Self)
        ensures
            r@ == Set::<Pair>::empty(),
    {
        let r = AttestedSet { pairs: Vec::new() };
        assert(r.pairs.deep_view().to_set() =~= Set::<Pair>::empty());
        r
    }

    /// The number of pairs in the set.
    pub fn len(&self) -> (r: usize)
        ensures
            self@.finite(),
            r == self@.len(),
    {
        proof {
            use_type_invariant(self);
            lemma_sorted_len(self.pairs.deep_view());
        }
        self.pairs.len()
    }

    /// Whether the set holds no pair.
    pub fn is_empty(&self) -> (r: bool)
        ensures
            r == (self@ == Set::<Pair>::empty()),
    {
        proof {
            let held = self.pairs.deep_view();
            if held.len() > 0 {
                assert(held.to_set().contains(held[0]));
            } else {
                assert(held.to_set() =~= Set::<Pair>::empty());
            }
        }
        self.pairs.len() == 0
    }

    /// Where `pair` stands among the held pairs: its index and `true` if it
    /// is held, else the index at which it would keep the order and `false`.
    fn locate(&self, pair: &(String, String)) -> (r: (usize, bool))
        ensures
            r.0 <= self.pairs.len(),
            r.1 ==> r.0 < self.pairs.len() && self.pairs.deep_view()[r.0 as int] == pair@,
            !r.1 ==> forall|i: int| 0 <= i < r.0 ==> pair_lt(#[trigger] self.pairs.deep_view()[i], pair@),
            !r.1 ==> forall|i: int| r.0 <= i < self.pairs.len() ==> pair_lt(pair@, #[trigger] self.pairs.deep_view()[i]),
    {
        proof {
            use_type_invariant(self);
        }
        let ghost held = self.pairs.deep_view();
        let mut lo: usize = 0;
        let mut hi: usize = self.pairs.len();
        while lo < hi
            invariant
                held == self.pairs.deep_view(),
                strictly_sorted(held),
                lo <= hi <= self.pairs.len(),
                forall|i: int| 0 <= i < lo ==> pair_lt(#[trigger] held[i], pair@),
                forall|i: int| hi <= i < held.len() ==> pair_lt(pair@, #[trigger] held[i]),
            decreases hi - lo,
        {
            let mid: usize = lo + (hi - lo) / 2;
            match compare_pairs(&self.pairs[mid], pair) {
                Relation::Same => {
                    return (mid, true);
                },
                Relation::Before => {
                    assert forall|i: int| 0 <= i < mid + 1 implies pair_lt(#[trigger] held[i], pair@) by {
                        if i < mid {
                            lemma_pair_transitive(held[i], held[mid as int], pair@);
                        }
                    }
                    lo = mid + 1;
                },
                Relation::After => {
                    assert forall|i: int| mid <= i < held.len() implies pair_lt(pair@, #[trigger] held[i]) by {
                        if mid < i {
                            lemma_pair_transitive(pair@, held[mid as int], held[i]);
                        }
                    }
                    hi = mid;
                },
            }
        }
        (lo, false)
    }

    /// Whether the set holds `pair`.
    pub fn contains(&self, pair: &(String, String)) -> (r: bool)
        ensures
            r == self@.contains(pair@),
    {
        let (at, found) = self.locate(pair);
        proof {
            let held = self.pairs.deep_view();
            if !found && held.contains(pair@) {
                let i = choose|i: int| 0 <= i < held.len() && held[i] == pair@;
                lemma_pair_irreflexive(pair@);
            }
        }
        found
    }

    /// Adds `pair` to the set. Returns whether it was new.
    pub fn insert(&mut self, pair: (String, String)) -> (r: bool)
        ensures
            final(self)@ == old(self)@.insert(pair@),
            r == !old(self)@.contains(pair@),
    {
        let (at, found) = self.locate(&pair);
        let ghost held = self.pairs.deep_view();
        proof {
            use_type_invariant(&*self);
            if !found && held.contains(pair@) {
                let i = choose|i: int| 0 <= i < held.len() && held[i] == pair@;
                lemma_pair_irreflexive(pair@);
            }
        }
        if found {
            assert(held.to_set() =~= held.to_set().insert(pair@));
            false
        } else {
            let mut pairs: Vec<(String, String)> = Vec::new();
            core::mem::swap(&mut self.pairs, &mut pairs);
            pairs.insert(at, pair);
            let ghost now = pairs.deep_view();
            proof {
                assert(now =~= held.insert(at as int, pair@));
                assert(strictly_sorted(now));
                assert forall|p: Pair| now.to_set().contains(p) <==> held.to_set().insert(pair@).contains(p) by {
                    if held.contains(p) {
                        let i = choose|i: int| 0 <= i < held.len() && held[i] == p;
                        if i < at {
                            assert(now[i] == p);
                        } else {
                            assert(now[i + 1] == p);
                        }
                    }
                    if p == pair@ {
                        assert(now[at as int] == p);
                    }
                }
                assert(now.to_set() =~= held.to_set().insert(pair@));
            }
            self.pairs = pairs;
            true
        }
    }
}

impl AttestedSet {
    /// The set that holds exactly the pairs of the list.
    pub fn from_vec(pairs: Vec<(String, String)>) -> (r: Self)
        ensures
            r@ == pairs.deep_view().to_set(),
    {
        let mut set = AttestedSet::new();
        let ghost listed = pairs.deep_view();
        let ghost mut done: int = 0;
        proof {
            assert(listed.take(0).to_set() =~= Set::<Pair>::empty());
        }
        for pair in it: pairs
            invariant
                it.seq() == pairs@,
                listed == pairs.deep_view(),
                done == it.index(),
                set@ == listed.take(done).to_set(),
        {
            proof {
                assert(listed.take(done + 1) == listed.take(done).push(pair@));
                listed.take(done).lemma_push_to_set_commute(pair@);
                done = done + 1;
            }
            set.insert(pair);
        }
        proof {
            assert(listed.take(listed.len() as int) == listed);
        }
        set
    }

    /// The pairs of the set in ascending order, each once.
    pub fn into_vec(self) -> (r: Vec<(String, String)>)
        ensures
            strictly_sorted(r.deep_view()),
            r.deep_view().to_set() == self@,
    {
        proof {
            use_type_invariant(&self);
        }
        self.pairs
    }

    /// The pairs of this set that `other` does not hold.
    pub fn difference(self, other: &AttestedSet) -> (r: Self)
        ensures
            r@ == self@.difference(other@),
    {
        proof {
            use_type_invariant(&self);
        }
        let ghost held = self.pairs.deep_view();
        let mut kept: Vec<(String, String)> = Vec::new();
        let ghost mut done: int = 0;
        // For each kept pair, its index in `held`.
        let ghost mut origin: Seq<int> = Seq::empty();
        for pair in it: self.pairs
            invariant
                it.seq() == self.pairs@,
                held == self.pairs.deep_view(),
                strictly_sorted(held),
                done == it.index(),
                origin.len() == kept.len(),
                forall|k: int| 0 <= k < origin.len() ==> 0 <= #[trigger] origin[k] < done
                    && kept.deep_view()[k] == held[origin[k]],
                forall|k: int, l: int| 0 <= k < l < origin.len() ==> origin[k] < origin[l],
                forall|i: int| 0 <= i < done && !other@.contains(#[trigger] held[i])
                    ==> kept.deep_view().contains(held[i]),
                forall|k: int| 0 <= k < kept.len() ==> !other@.contains(#[trigger] kept.deep_view()[k]),
        {
            let ghost kept_before = kept.deep_view();
            if !other.contains(&pair) {
                kept.push(pair);
                proof {
                    origin = origin.push(done);
                    assert(kept.deep_view() == kept_before.push(held[done]));
                    assert forall|i: int| 0 <= i < done + 1 && !other@.contains(
                        #[trigger] held[i],
                    ) implies kept.deep_view().contains(held[i]) by {
                        if i < done {
                            let k = choose|k: int| 0 <= k < kept_before.len() && kept_before[k] == held[i];
                            assert(kept.deep_view()[k] == held[i]);
                        } else {
                            assert(kept.deep_view()[kept.len() - 1] == held[i]);
                        }
                    }
                }
            }
            proof {
                done = done + 1;
            }
        }
        proof {
            let now = kept.deep_view();
            assert forall|k: int, l: int| 0 <= k < l < now.len() implies pair_lt(
                #[trigger] now[k],
                #[trigger] now[l],
            ) by {
                assert(origin[k] < origin[l]);
            }
            assert forall|p: Pair| now.to_set().contains(p) <==> held.to_set().difference(
                other@,
            ).contains(p) by {
                if now.contains(p) {
                    let k = choose|k: int| 0 <= k < now.len() && now[k] == p;
                    assert(held[origin[k]] == p);
                }
                if held.contains(p) && !other@.contains(p) {
                    let i = choose|i: int| 0 <= i < held.len() && held[i] == p;
                    assert(now.contains(held[i]));
                }
            }
            assert(now.to_set() =~= held.to_set().difference(other@));
        }
        AttestedSet { pairs: kept }
    }
}

} // verus!
