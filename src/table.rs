use vstd::prelude::*;
use crate::decimal::Amount;
use crate::quote::Quote;

verus! {

/// A position in one instrument: how many units, bought at what price each.
#[derive(Clone, Debug)]
pub struct Holding {
    pub symbol: String,
    pub quantity: Amount,
    pub cost_basis: Amount,
}

/// A named brokerage account and its holdings, in the order they were listed.
#[derive(Clone, Debug)]
pub struct Account {
    pub name: String,
    pub holdings: Vec<Holding>,
}

/// `s` is the symbol of some holding of some account.
pub open spec fn holds_symbol(accounts: Seq<Account>, s: Seq<char>) -> bool {
    exists|i: int, j: int|
        0 <= i < accounts.len() && 0 <= j < accounts[i].holdings@.len()
            && #[trigger] accounts[i].holdings@[j].symbol@ == s
}

/// `s` is the symbol of a holding that comes before holding `j` of account `i`.
pub open spec fn seen_before(accounts: Seq<Account>, i: int, j: int, s: Seq<char>) -> bool {
    exists|a: int, b: int|
        0 <= a <= i && a < accounts.len() && 0 <= b < accounts[a].holdings@.len() && (a < i || b
            < j) && #[trigger] accounts[a].holdings@[b].symbol@ == s
}

/// Some string of `v` reads `s`.
pub open spec fn listed(v: Seq<String>, s: Seq<char>) -> bool {
    exists|k: int| 0 <= k < v.len() && #[trigger] v[k]@ == s
}

/// No two strings of `v` read the same.
pub open spec fn no_repeats(v: Seq<String>) -> bool {
    forall|a: int, b: int| 0 <= a < b < v.len() ==> v[a]@ != v[b]@
}

fn position_of(v: &Vec<String>, s: &String) -> (r: Option<usize>)
    ensures
        match r {
            Some(k) => k < v@.len() && v@[k as int]@ == s@,
            None => forall|k: int| 0 <= k < v@.len() ==> v@[k]@ != s@,
        },
{
    let mut k: usize = 0;
    while k < v.len()
        invariant
            k <= v@.len(),
            forall|m: int| 0 <= m < k ==> v@[m]@ != s@,
        decreases v@.len() - k,
    {
        if v[k] == *s {
            return Some(k);
        }
        k = k + 1;
    }
    None
}

/// Every symbol that some holding names, each once, in order of first
/// appearance.
pub fn distinct_symbols(accounts: &Vec<Account>) -> (r: Vec<String>)
    ensures
        no_repeats(r@),
        forall|s: Seq<char>| #[trigger] listed(r@, s) <==> holds_symbol(accounts@, s),
{
    let mut out: Vec<String> = Vec::new();
    let mut i: usize = 0;
    while i < accounts.len()
        invariant
            i <= accounts@.len(),
            forall|a: int, b: int| 0 <= a < b < out@.len() ==> out@[a]@ != out@[b]@,
            forall|s: Seq<char>|
                listed(out@, s) <==> seen_before(
                    accounts@,
                    i as int,
                    0,
                    s,
                ),
        decreases accounts@.len() - i,
    {
        let holdings = &accounts[i].holdings;
        let mut j: usize = 0;
        while j < holdings.len()
            invariant
                i < accounts@.len(),
                holdings == &accounts@[i as int].holdings,
                j <= holdings@.len(),
                forall|a: int, b: int| 0 <= a < b < out@.len() ==> out@[a]@ != out@[b]@,
                forall|s: Seq<char>|
                    listed(out@, s)
                        <==> seen_before(accounts@, i as int, j as int, s),
            decreases holdings@.len() - j,
        {
            let sym = &holdings[j].symbol;
            let ghost old_out = out@;
            match position_of(&out, sym) {
                Some(k) => {
                    assert(out@[k as int]@ == sym@);
                },
                None => {
                    out.push(sym.clone());
                    assert(out@[out@.len() - 1]@ == sym@);
                },
            }
            assert(forall|k: int| 0 <= k < old_out.len() ==> out@[k] == old_out[k]);
            assert(listed(out@, sym@));
            assert forall|s: Seq<char>|
                listed(out@, s)
                    <==> seen_before(accounts@, i as int, j + 1, s) by {
                if listed(out@, s) {
                    let k = choose|k: int| 0 <= k < out@.len() && #[trigger] out@[k]@ == s;
                    if k < old_out.len() {
                        assert(old_out[k]@ == s);
                        assert(listed(old_out, s));
                        let (a, b) = choose|a: int, b: int|
                            0 <= a <= i && a < accounts@.len() && 0 <= b
                                < accounts@[a].holdings@.len() && (a < i || b < j)
                                && #[trigger] accounts@[a].holdings@[b].symbol@ == s;
                        assert(accounts@[a].holdings@[b].symbol@ == s);
                    } else {
                        assert(accounts@[i as int].holdings@[j as int].symbol@ == s);
                    }
                }
                if seen_before(accounts@, i as int, j + 1, s) {
                    let (a, b) = choose|a: int, b: int|
                        0 <= a <= i && a < accounts@.len() && 0 <= b
                            < accounts@[a].holdings@.len() && (a < i || b < j + 1)
                            && #[trigger] accounts@[a].holdings@[b].symbol@ == s;
                    if a < i || b < j {
                        assert(accounts@[a].holdings@[b].symbol@ == s);
                        assert(seen_before(accounts@, i as int, j as int, s));
                        assert(listed(old_out, s));
                        let k = choose|k: int| 0 <= k < old_out.len() && #[trigger] old_out[k]@ == s;
                        assert(out@[k]@ == s);
                    } else {
                        assert(s == sym@);
                    }
                }
            }
            j = j + 1;
        }
        assert forall|s: Seq<char>|
            #[trigger] seen_before(accounts@, i as int, j as int, s) <==> seen_before(
                accounts@,
                i + 1,
                0,
                s,
            ) by {
            if seen_before(accounts@, i + 1, 0, s) {
                let (a, b) = choose|a: int, b: int|
                    0 <= a <= i + 1 && a < accounts@.len() && 0 <= b < accounts@[a].holdings@.len()
                        && (a < i + 1 || b < 0) && #[trigger] accounts@[a].holdings@[b].symbol@
                        == s;
                assert(accounts@[a].holdings@[b].symbol@ == s);
            }
            if seen_before(accounts@, i as int, j as int, s) {
                let (a, b) = choose|a: int, b: int|
                    0 <= a <= i && a < accounts@.len() && 0 <= b < accounts@[a].holdings@.len() && (
                    a < i || b < j) && #[trigger] accounts@[a].holdings@[b].symbol@ == s;
                assert(accounts@[a].holdings@[b].symbol@ == s);
            }
        }
        i = i + 1;
    }
    proof {
        assert forall|s: Seq<char>| #[trigger] listed(out@, s) <==> holds_symbol(accounts@, s) by {
            if listed(out@, s) {
                let (a, b) = choose|a: int, b: int|
                    0 <= a <= i && a < accounts@.len() && 0 <= b < accounts@[a].holdings@.len() && (
                    a < i || b < 0) && #[trigger] accounts@[a].holdings@[b].symbol@ == s;
                assert(accounts@[a].holdings@[b].symbol@ == s);
            }
            if holds_symbol(accounts@, s) {
                let (a, b) = choose|a: int, b: int|
                    0 <= a < accounts@.len() && 0 <= b < accounts@[a].holdings@.len()
                        && #[trigger] accounts@[a].holdings@[b].symbol@ == s;
                assert(accounts@[a].holdings@[b].symbol@ == s);
                assert(seen_before(accounts@, i as int, 0, s));
            }
        }
    }
    out
}

/// A symbol of `results` that no later result repeats.
pub open spec fn last_for(results: Seq<(String, Quote)>, k: int) -> bool {
    forall|m: int| k < m < results.len() ==> results[m].0@ != results[k].0@
}

/// `m` is what gathering `results` in order gives: one entry per symbol that
/// occurs, holding the last quote given for it.
pub open spec fn gathered(results: Seq<(String, Quote)>, m: Map<Seq<char>, Quote>) -> bool {
    &&& forall|s: Seq<char>|
        m.contains_key(s) <==> exists|k: int| 0 <= k < results.len() && #[trigger] results[k].0@ == s
    &&& forall|k: int| 0 <= k < results.len() && last_for(results, k) ==> m[#[trigger] results[k].0@] == results[k].1
}

/// The quote of each symbol, one entry per symbol.
pub struct QuoteTable {
    entries: Vec<(String, Quote)>,
    model: Ghost<Map<Seq<char>, Quote>>,
}

impl View for QuoteTable {
    type V = Map<Seq<char>, Quote>;

    closed spec fn view(&self) -> Map<Seq<char>, Quote> {
        self.model@
    }
}

impl QuoteTable {
    pub closed spec fn wf(&self) -> bool {
        &&& forall|a: int, b: int|
            0 <= a < b < self.entries@.len() ==> self.entries@[a].0@ != self.entries@[b].0@
        &&& forall|k: int|
            0 <= k < self.entries@.len() ==> self.model@.contains_key(#[trigger] self.entries@[k].0@)
                && self.model@[self.entries@[k].0@] == self.entries@[k].1
        &&& forall|s: Seq<char>|
            #[trigger] self.model@.contains_key(s) ==> exists|k: int|
                0 <= k < self.entries@.len() && #[trigger] self.entries@[k].0@ == s
    }

    pub fn new() -> (r: QuoteTable)
        ensures
            r.wf(),
            r@ == Map::<Seq<char>, Quote>::empty(),
    {
        QuoteTable { entries: Vec::new(), model: Ghost(Map::empty()) }
    }

    fn index_of(&self, symbol: &String) -> (r: Option<usize>)
        requires
            self.wf(),
        ensures
            match r {
                Some(k) => k < self.entries@.len() && self.entries@[k as int].0@ == symbol@,
                None => !self@.contains_key(symbol@),
            },
    {
        let mut k: usize = 0;
        while k < self.entries.len()
            invariant
                self.wf(),
                k <= self.entries@.len(),
                forall|m: int| 0 <= m < k ==> self.entries@[m].0@ != symbol@,
            decreases self.entries@.len() - k,
        {
            if self.entries[k].0 == *symbol {
                return Some(k);
            }
            k = k + 1;
        }
        None
    }

    /// Sets the quote of `symbol`, replacing any it had.
    pub fn insert(&mut self, symbol: String, q: Quote)
        requires
            old(self).wf(),
        ensures
            final(self).wf(),
            final(self)@ == old(self)@.insert(symbol@, q),
    {
        let ghost key = symbol@;
        let ghost new_model = self.model@.insert(key, q);
        match self.index_of(&symbol) {
            Some(k) => {
                self.entries.set(k, (symbol, q));
                self.model = Ghost(new_model);
                assert forall|s: Seq<char>| #[trigger] self.model@.contains_key(s) implies exists|m: int|
                    0 <= m < self.entries@.len() && #[trigger] self.entries@[m].0@ == s by {
                    if s == key {
                        assert(self.entries@[k as int].0@ == s);
                    } else {
                        assert(old(self).model@.contains_key(s));
                        let m = choose|m: int| 0 <= m < old(self).entries@.len() && #[trigger] old(self).entries@[m].0@ == s;
                        assert(self.entries@[m].0@ == s);
                    }
                }
            },
            None => {
                self.entries.push((symbol, q));
                self.model = Ghost(new_model);
                let ghost n = self.entries@.len() - 1;
                assert forall|k: int| 0 <= k < n implies self.entries@[k].0@ != key by {
                    assert(old(self).model@.contains_key(old(self).entries@[k].0@));
                }
                assert forall|s: Seq<char>| #[trigger] self.model@.contains_key(s) implies exists|m: int|
                    0 <= m < self.entries@.len() && #[trigger] self.entries@[m].0@ == s by {
                    if s == key {
                        assert(self.entries@[n].0@ == s);
                    } else {
                        assert(old(self).model@.contains_key(s));
                        let m = choose|m: int| 0 <= m < old(self).entries@.len() && #[trigger] old(self).entries@[m].0@ == s;
                        assert(self.entries@[m].0@ == s);
                    }
                }
            },
        }
    }

    /// The quote of `symbol`, if the table has one.
    pub fn get(&self, symbol: &String) -> (r: Option<Quote>)
        requires
            self.wf(),
        ensures
            r == (if self@.contains_key(symbol@) {
                Some(self@[symbol@])
            } else {
                None
            }),
    {
        match self.index_of(symbol) {
            Some(k) => Some(self.entries[k].1),
            None => None,
        }
    }

    /// Gathers per-symbol results into a table; where a symbol repeats, the
    /// later result stands.
    pub fn from_results(results: &Vec<(String, Quote)>) -> (r: QuoteTable)
        ensures
            r.wf(),
            gathered(results@, r@),
    {
        let mut t = QuoteTable::new();
        let mut i: usize = 0;
        while i < results.len()
            invariant
                i <= results@.len(),
                t.wf(),
                gathered(results@.subrange(0, i as int), t@),
            decreases results@.len() - i,
        {
            let ghost before = t@;
            let ghost pre = results@.subrange(0, i as int);
            let ghost post = results@.subrange(0, i + 1);
            t.insert(results[i].0.clone(), results[i].1);
            assert forall|s: Seq<char>|
                t@.contains_key(s) <==> exists|k: int| 0 <= k < post.len() && #[trigger] post[k].0@ == s by {
                if t@.contains_key(s) && s != results@[i as int].0@ {
                    assert(before.contains_key(s));
                    let k = choose|k: int| 0 <= k < pre.len() && #[trigger] pre[k].0@ == s;
                    assert(post[k].0@ == s);
                }
                if t@.contains_key(s) && s == results@[i as int].0@ {
                    assert(post[i as int].0@ == s);
                }
                if exists|k: int| 0 <= k < post.len() && #[trigger] post[k].0@ == s {
                    let k = choose|k: int| 0 <= k < post.len() && #[trigger] post[k].0@ == s;
                    if k < i {
                        assert(pre[k].0@ == s);
                    }
                }
            }
            assert forall|k: int| 0 <= k < post.len() && last_for(post, k) implies t@[#[trigger] post[k].0@] == post[k].1 by {
                if k < i {
                    assert(post[i as int].0@ != post[k].0@);
                    assert forall|m: int| k < m < pre.len() implies pre[m].0@ != pre[k].0@ by {
                        assert(post[m] == pre[m]);
                    }
                    assert(pre[k] == post[k]);
                }
            }
            i = i + 1;
        }
        assert(results@.subrange(0, i as int) =~= results@);
        t
    }

    pub fn len(&self) -> (r: usize)
        requires
            self.wf(),
        ensures
            r as nat == self@.dom().len(),
    {
        proof {
            self.lemma_len();
        }
        self.entries.len()
    }

    proof fn lemma_len(&self)
        requires
            self.wf(),
        ensures
            self.entries@.len() == self@.dom().len(),
    {
        let keys = self.entries@.map_values(|e: (String, Quote)| e.0@);
        assert(keys.to_set() =~= self@.dom()) by {
            assert forall|s: Seq<char>| keys.to_set().contains(s) implies self@.dom().contains(s) by {
                let k = choose|k: int| 0 <= k < keys.len() && keys[k] == s;
                assert(self.entries@[k].0@ == s);
            }
            assert forall|s: Seq<char>| self@.dom().contains(s) implies keys.to_set().contains(s) by {
                let k = choose|k: int| 0 <= k < self.entries@.len() && #[trigger] self.entries@[k].0@ == s;
                assert(keys[k] == s);
            }
        }
        assert(keys.no_duplicates()) by {
            assert forall|a: int, b: int| 0 <= a < keys.len() && 0 <= b < keys.len() && a != b implies keys[a] != keys[b] by {
                if a < b {
                    assert(self.entries@[a].0@ != self.entries@[b].0@);
                } else {
                    assert(self.entries@[b].0@ != self.entries@[a].0@);
                }
            }
        }
        keys.unique_seq_to_set();
    }
}

/// One quote per held symbol: gathering one result for each distinct symbol
/// that the holdings name gives a table whose keys are exactly the held
/// symbols, as many as there are distinct symbols, each with its own result.
pub proof fn lemma_one_quote_per_symbol(
    accounts: Seq<Account>,
    symbols: Seq<String>,
    results: Seq<(String, Quote)>,
    table: Map<Seq<char>, Quote>,
)
    requires
        no_repeats(symbols),
        forall|s: Seq<char>| #[trigger] listed(symbols, s) <==> holds_symbol(accounts, s),
        results.len() == symbols.len(),
        forall|k: int| 0 <= k < results.len() ==> #[trigger] results[k].0@ == symbols[k]@,
        gathered(results, table),
    ensures
        forall|s: Seq<char>| #[trigger] table.contains_key(s) <==> holds_symbol(accounts, s),
        forall|k: int| 0 <= k < symbols.len() ==> table[#[trigger] symbols[k]@] == results[k].1,
        table.dom().finite(),
        table.dom().len() == symbols.len(),
{
    assert forall|s: Seq<char>| #[trigger] table.contains_key(s) <==> holds_symbol(accounts, s) by {
        if table.contains_key(s) {
            let k = choose|k: int| 0 <= k < results.len() && #[trigger] results[k].0@ == s;
            assert(symbols[k]@ == s);
            assert(listed(symbols, s));
        }
        if holds_symbol(accounts, s) {
            assert(listed(symbols, s));
            let k = choose|k: int| 0 <= k < symbols.len() && #[trigger] symbols[k]@ == s;
            assert(results[k].0@ == s);
        }
    }
    assert forall|k: int| 0 <= k < symbols.len() implies table[#[trigger] symbols[k]@] == results[k].1 by {
        assert(results[k].0@ == symbols[k]@);
        assert forall|m: int| k < m < results.len() implies results[m].0@ != results[k].0@ by {
            assert(results[m].0@ == symbols[m]@);
        }
        assert(last_for(results, k));
    }
    let keys = symbols.map_values(|t: String| t@);
    assert(keys.to_set() =~= table.dom()) by {
        assert forall|s: Seq<char>| keys.to_set().contains(s) implies table.dom().contains(s) by {
            let k = choose|k: int| 0 <= k < keys.len() && keys[k] == s;
            assert(symbols[k]@ == s);
            assert(results[k].0@ == s);
        }
        assert forall|s: Seq<char>| table.dom().contains(s) implies keys.to_set().contains(s) by {
            let k = choose|k: int| 0 <= k < results.len() && #[trigger] results[k].0@ == s;
            assert(keys[k] == s);
        }
    }
    assert(keys.no_duplicates()) by {
        assert forall|a: int, b: int| 0 <= a < keys.len() && 0 <= b < keys.len() && a != b implies keys[a] != keys[b] by {
            if a < b {
                assert(symbols[a]@ != symbols[b]@);
            } else {
                assert(symbols[b]@ != symbols[a]@);
            }
        }
    }
    keys.unique_seq_to_set();
}

} // verus!
