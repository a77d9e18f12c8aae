//! The frequency table and the arithmetic of counting.
//!
//! A table is described by the sequence of tokens that were recorded in it,
//! its history. Everything else follows from the history: the count of a token
//! is the number of times it occurs there, the distinct tokens are listed in
//! the order in which each occurred first, and the total is the length.

use vstd::hash_map::StringHashMap;
use vstd::prelude::*;
use vstd::seq_lib::*;

verus! {

/// The texts of a sequence of strings.
pub open spec fn texts(strings: Seq<String>) -> Seq<Seq<char>> {
    strings.map_values(|s: String| s@)
}

/// The number of times `token` occurs in `tokens`.
pub open spec fn occurrences(tokens: Seq<Seq<char>>, token: Seq<char>) -> nat {
    tokens.to_multiset().count(token)
}

/// The frequency table of `tokens`: every token that occurs, with the number of
/// its occurrences.
pub open spec fn tally(tokens: Seq<Seq<char>>) -> Map<Seq<char>, nat> {
    Map::new(|t: Seq<char>| tokens.contains(t), |t: Seq<char>| occurrences(tokens, t))
}

/// The distinct tokens of `tokens`, in the order in which each occurs first.
pub open spec fn first_occurrences(tokens: Seq<Seq<char>>) -> Seq<Seq<char>>
    decreases tokens.len(),
{
    if tokens.len() == 0 {
        Seq::empty()
    } else if tokens.drop_last().contains(tokens.last()) {
        first_occurrences(tokens.drop_last())
    } else {
        first_occurrences(tokens.drop_last()).push(tokens.last())
    }
}

/// The sum of the counts that `table` holds for `keys`.
pub open spec fn sum_of_counts(keys: Seq<Seq<char>>, table: Map<Seq<char>, nat>) -> nat
    decreases keys.len(),
{
    if keys.len() == 0 {
        0
    } else {
        sum_of_counts(keys.drop_last(), table) + table[keys.last()]
    }
}

/// One more token changes the count of that token only, by one.
pub proof fn lemma_occurrences_push(tokens: Seq<Seq<char>>, token: Seq<char>, other: Seq<char>)
    ensures
        occurrences(tokens.push(token), other) == occurrences(tokens, other) + if other
            == token {
            1nat
        } else {
            0nat
        },
{
    to_multiset_build(tokens, token);
}

/// A token occurs in a sequence exactly when its number of occurrences is not
/// zero, and no token occurs more often than the sequence is long.
pub proof fn lemma_occurrences_bounds(tokens: Seq<Seq<char>>, token: Seq<char>)
    ensures
        tokens.contains(token) <==> occurrences(tokens, token) > 0,
        occurrences(tokens, token) <= tokens.len(),
{
    tokens.to_multiset_ensures();
}

/// The list of first occurrences holds every token of the sequence, once.
pub proof fn lemma_first_occurrences(tokens: Seq<Seq<char>>)
    ensures
        first_occurrences(tokens).no_duplicates(),
        forall|t: Seq<char>| first_occurrences(tokens).contains(t) <==> tokens.contains(t),
    decreases tokens.len(),
{
    if tokens.len() > 0 {
        broadcast use lemma_seq_contains_after_push;

        let earlier = tokens.drop_last();
        lemma_first_occurrences(earlier);
        assert(tokens =~= earlier.push(tokens.last()));
    }
}

/// One more token raises the sum of the counts of `keys` by one where `keys`
/// lists that token, and leaves it as it is where they do not.
pub proof fn lemma_sum_of_counts_push(
    keys: Seq<Seq<char>>,
    tokens: Seq<Seq<char>>,
    token: Seq<char>,
)
    requires
        keys.no_duplicates(),
        forall|i: int| 0 <= i < keys.len() ==> tokens.contains(#[trigger] keys[i]),
    ensures
        sum_of_counts(keys, tally(tokens.push(token))) == sum_of_counts(keys, tally(tokens))
            + if keys.contains(token) {
            1nat
        } else {
            0nat
        },
    decreases keys.len(),
{
    if keys.len() > 0 {
        broadcast use lemma_seq_contains_after_push;

        let front = keys.drop_last();
        let last = keys.last();
        lemma_sum_of_counts_push(front, tokens, token);
        lemma_occurrences_push(tokens, token, last);
        assert(keys =~= front.push(last));
    }
}

/// The counts of a frequency table add up to the number of tokens counted.
pub proof fn lemma_counts_sum_to_length(tokens: Seq<Seq<char>>)
    ensures
        sum_of_counts(first_occurrences(tokens), tally(tokens)) == tokens.len(),
    decreases tokens.len(),
{
    if tokens.len() > 0 {
        let earlier = tokens.drop_last();
        let last = tokens.last();
        let listed = first_occurrences(earlier);
        assert(tokens =~= earlier.push(last));
        lemma_counts_sum_to_length(earlier);
        lemma_first_occurrences(earlier);
        lemma_sum_of_counts_push(listed, earlier, last);
        if !earlier.contains(last) {
            lemma_occurrences_push(earlier, last, last);
            lemma_occurrences_bounds(earlier, last);
            assert(listed.push(last).drop_last() =~= listed);
        }
    }
}

/// A frequency table has as many entries as there are distinct tokens: its
/// keys are the tokens that occur, each listed once among the first
/// occurrences.
pub proof fn lemma_distinct_is_domain(tokens: Seq<Seq<char>>)
    ensures
        tally(tokens).dom() == first_occurrences(tokens).to_set(),
        tally(tokens).dom().finite(),
        tally(tokens).dom().len() == first_occurrences(tokens).len(),
{
    lemma_first_occurrences(tokens);
    first_occurrences(tokens).unique_seq_to_set();
}

/// A mapping from tokens to the number of times each was recorded.
pub struct FrequencyTable {
    /// The distinct tokens, in the order in which each was recorded first.
    tokens: Vec<String>,
    /// The number of times each token was recorded.
    counts: StringHashMap<usize>,
    /// The number of tokens recorded.
    total: usize,
    /// Every token recorded, in order.
    recorded: Ghost<Seq<Seq<char>>>,
}

impl View for FrequencyTable {
    type V = Map<Seq<char>, nat>;

    /// The table as a mapping: the tally of its history.
    open spec fn view(&self) -> Map<Seq<char>, nat> {
        tally(self.history())
    }
}

impl FrequencyTable {
    /// Every token recorded in the table, in the order of recording.
    pub closed spec fn history(&self) -> Seq<Seq<char>> {
        self.recorded@
    }

    /// The distinct tokens of the table, in the order in which each was
    /// recorded first.
    pub open spec fn distinct(&self) -> Seq<Seq<char>> {
        first_occurrences(self.history())
    }

    /// The representation agrees with the history.
    pub closed spec fn wf(&self) -> bool {
        &&& texts(self.tokens@) == first_occurrences(self.recorded@)
        &&& forall|t: Seq<char>| self.counts@.contains_key(t) <==> self.recorded@.contains(t)
        &&& forall|t: Seq<char>|
            self.recorded@.contains(t) ==> self.counts@[t] == occurrences(self.recorded@, t)
        &&& self.total == self.recorded@.len()
    }

    /// An empty table.
    pub fn new() -> (table: Self)
        ensures
            table.wf(),
            table.history() == Seq::<Seq<char>>::empty(),
    {
        let table = FrequencyTable {
            tokens: Vec::new(),
            counts: StringHashMap::new(),
            total: 0,
            recorded: Ghost(Seq::empty()),
        };
        assert(texts(table.tokens@) =~= first_occurrences(table.recorded@));
        table
    }

    /// Records one more occurrence of `token`.
    pub fn record(&mut self, token: String)
        requires
            old(self).wf(),
            old(self).history().len() < usize::MAX,
        ensures
            final(self).wf(),
            final(self).history() == old(self).history().push(token@),
    {
        let ghost before = self.recorded@;
        let ghost after = before.push(token@);
        let seen: usize = match self.counts.get(token.as_str()) {
            Some(n) => *n,
            None => 0,
        };
        proof {
            broadcast use lemma_seq_contains_after_push;

            lemma_occurrences_bounds(before, token@);
            assert(after.drop_last() =~= before);
            assert forall|t: Seq<char>| occurrences(after, t) == occurrences(before, t) + if t
                == token@ {
                1nat
            } else {
                0nat
            } by {
                lemma_occurrences_push(before, token@, t);
            }
        }
        if seen == 0 {
            let ghost listed = texts(self.tokens@);
            self.tokens.push(token.clone());
            assert(texts(self.tokens@) =~= listed.push(token@));
        }
        self.counts.insert(token, seen + 1);
        self.total = self.total + 1;
        self.recorded = Ghost(after);
    }

    /// Records every token of `tokens`, in order.
    pub fn record_all(&mut self, tokens: Vec<String>)
        requires
            old(self).wf(),
            old(self).history().len() + tokens.len() <= usize::MAX,
        ensures
            final(self).wf(),
            final(self).history() == old(self).history() + texts(tokens@),
    {
        let ghost all = texts(tokens@);
        let ghost before = self.history();
        for token in iter: tokens.into_iter()
            invariant
                texts(iter.seq()) == all,
                self.wf(),
                self.history() == before + all.take(iter.index()),
                before.len() + all.len() <= usize::MAX,
        {
            self.record(token);
        }
    }

    /// The number of times `token` was recorded.
    pub fn get(&self, token: &str) -> (n: usize)
        requires
            self.wf(),
        ensures
            n == occurrences(self.history(), token@),
            self@.contains_key(token@) ==> n == self@[token@],
            !self@.contains_key(token@) ==> n == 0,
    {
        proof {
            lemma_occurrences_bounds(self.history(), token@);
        }
        match self.counts.get(token) {
            Some(n) => *n,
            None => 0,
        }
    }

    /// The number of distinct tokens.
    pub fn len(&self) -> (n: usize)
        requires
            self.wf(),
        ensures
            n == self.distinct().len(),
            n == self@.dom().len(),
    {
        proof {
            lemma_distinct_is_domain(self.history());
        }
        self.tokens.len()
    }

    /// The number of tokens recorded.
    pub fn total(&self) -> (n: usize)
        requires
            self.wf(),
        ensures
            n == self.history().len(),
    {
        self.total
    }

    /// The distinct tokens, in the order in which each was recorded first.
    pub fn tokens(&self) -> (list: &Vec<String>)
        requires
            self.wf(),
        ensures
            texts(list@) == self.distinct(),
    {
        &self.tokens
    }
}

} // verus!
