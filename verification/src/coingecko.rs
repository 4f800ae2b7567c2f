use vstd::prelude::*;

verus! {

/// One listed token of the market-data feed.
pub struct CoingeckoToken {
    pub name: String,
    pub id: String,
    pub symbol: String,
}

/// The feed's token listing, keyed by mint address.
pub struct CoingeckoData {
    pub entries: Vec<(String, CoingeckoToken)>,
}

pub open spec fn token_map_of(entries: Seq<(String, CoingeckoToken)>) -> Map<Seq<char>, CoingeckoToken>
    decreases entries.len(),
{
    if entries.len() == 0 {
        Map::empty()
    } else {
        token_map_of(entries.drop_last()).insert(entries.last().0@, entries.last().1)
    }
}

impl CoingeckoData {
    pub open spec fn wf(&self) -> bool {
        forall|i: int, j: int|
            0 <= i < j < self.entries@.len() ==> self.entries@[i].0@ != self.entries@[j].0@
    }

    pub open spec fn view(&self) -> Map<Seq<char>, CoingeckoToken> {
        token_map_of(self.entries@)
    }

    pub fn new() -> (r: Self)
        ensures
            r.wf(),
            r@ == Map::<Seq<char>, CoingeckoToken>::empty(),
    {
        CoingeckoData { entries: Vec::new() }
    }

    /// Record one listed token unless its mint is already present.
    pub fn insert_if_absent(&mut self, mint: &String, token: CoingeckoToken)
        requires
            old(self).wf(),
        ensures
            final(self).wf(),
            old(self)@.contains_key(mint@) ==> final(self)@ == old(self)@,
            !old(self)@.contains_key(mint@) ==> final(self)@ == old(self)@.insert(mint@, token),
    {
        let n = self.entries.len();
        let mut i: usize = 0;
        while i < n
            invariant
                i <= n,
                n == self.entries@.len(),
                self.wf(),
                self.entries@ == old(self).entries@,
                forall|j: int| 0 <= j < i ==> self.entries@[j].0@ != mint@,
            decreases n - i,
        {
            if self.entries[i].0 == *mint {
                proof {
                    lemma_token_map_of_at(self.entries@, i as int);
                }
                return;
            }
            i += 1;
        }
        proof {
            lemma_token_map_of_absent(self.entries@, mint@);
        }
        let ghost pre = self.entries@;
        self.entries.push((mint.clone(), token));
        proof {
            assert(self.entries@.drop_last() =~= pre);
        }
    }

    pub fn get(&self, mint: &String) -> (r: Option<&CoingeckoToken>)
        requires
            self.wf(),
        ensures
            match r {
                Some(t) => self@.contains_key(mint@) && self@[mint@] == *t,
                None => !self@.contains_key(mint@),
            },
    {
        let n = self.entries.len();
        let mut i: usize = 0;
        while i < n
            invariant
                i <= n,
                n == self.entries@.len(),
                self.wf(),
                forall|j: int| 0 <= j < i ==> self.entries@[j].0@ != mint@,
            decreases n - i,
        {
            if self.entries[i].0 == *mint {
                proof {
                    lemma_token_map_of_at(self.entries@, i as int);
                }
                return Some(&self.entries[i].1);
            }
            i += 1;
        }
        proof {
            lemma_token_map_of_absent(self.entries@, mint@);
        }
        None
    }
}

/// The feed id under which a mint's prices are queried, if the mint is
/// listed.
pub fn get_coingecko_id(data: &CoingeckoData, mint: &String) -> (r: Option<String>)
    requires
        data.wf(),
    ensures
        match r {
            Some(id) => data@.contains_key(mint@) && id@ == data@[mint@].id@,
            None => !data@.contains_key(mint@),
        },
{
    match data.get(mint) {
        Some(token) => Some(token.id.clone()),
        None => None,
    }
}

proof fn lemma_token_map_of_at(entries: Seq<(String, CoingeckoToken)>, i: int)
    requires
        0 <= i < entries.len(),
        forall|p: int, q: int| 0 <= p < q < entries.len() ==> entries[p].0@ != entries[q].0@,
    ensures
        token_map_of(entries).contains_key(entries[i].0@),
        token_map_of(entries)[entries[i].0@] == entries[i].1,
    decreases entries.len(),
{
    if i < entries.len() - 1 {
        lemma_token_map_of_at(entries.drop_last(), i);
        assert(entries.last().0@ != entries[i].0@);
    }
}

proof fn lemma_token_map_of_absent(entries: Seq<(String, CoingeckoToken)>, k: Seq<char>)
    requires
        forall|j: int| 0 <= j < entries.len() ==> entries[j].0@ != k,
    ensures
        !token_map_of(entries).contains_key(k),
    decreases entries.len(),
{
    if entries.len() > 0 {
        assert(entries.last() == entries[entries.len() - 1]);
        lemma_token_map_of_absent(entries.drop_last(), k);
    }
}

} // verus!
