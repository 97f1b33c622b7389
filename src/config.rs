//! The configuration: named chains, each an ordered list of filter scripts.

use vstd::prelude::*;

verus! {

/// One declared filter script and the name it is declared under.
pub struct FilterConfig {
    pub name: String,
    pub script: String,
}

/// The chains of a configuration, each chain name at most once, in the order
/// in which they were added.
pub struct Config {
    chains: Vec<(String, Vec<FilterConfig>)>,
}

/// The script paths of the given chains, chain by chain, each chain's in its
/// declared order.
pub open spec fn script_paths(chains: Seq<(Seq<char>, Seq<FilterConfig>)>) -> Seq<Seq<char>> {
    chains.map_values(
        |c: (Seq<char>, Seq<FilterConfig>)| c.1.map_values(|f: FilterConfig| f.script@),
    ).flatten()
}

impl View for Config {
    type V = Seq<(Seq<char>, Seq<FilterConfig>)>;

    closed spec fn view(&self) -> Self::V {
        self.chains@.map_values(|c: (String, Vec<FilterConfig>)| (c.0@, c.1@))
    }
}

impl Config {
    /// No chain name occurs twice.
    pub open spec fn wf(&self) -> bool {
        forall|i: int, j: int|
            0 <= i < j < self@.len() ==> (#[trigger] self@[i]).0 != (#[trigger] self@[j]).0
    }

    /// A configuration without chains.
    pub fn new() -> (r: Self)
        ensures
            r.wf(),
            r@ == Seq::<(Seq<char>, Seq<FilterConfig>)>::empty(),
    {
        let r = Config { chains: Vec::new() };
        proof {
            assert(r@ =~= Seq::<(Seq<char>, Seq<FilterConfig>)>::empty());
        }
        r
    }

    /// The number of chains.
    pub fn len(&self) -> (r: usize)
        ensures
            r == self@.len(),
    {
        self.chains.len()
    }

    /// Where the chain `chain` stands, if it is declared.
    fn position(&self, chain: &String) -> (r: Option<usize>)
        ensures
            match r {
                Some(i) => i < self@.len() && self@[i as int].0 == chain@,
                None => forall|i: int| 0 <= i < self@.len() ==> (#[trigger] self@[i]).0 != chain@,
            },
    {
        let mut i: usize = 0;
        while i < self.chains.len()
            invariant
                i <= self@.len(),
                self@.len() == self.chains@.len(),
                forall|j: int| 0 <= j < i ==> (#[trigger] self@[j]).0 != chain@,
            decreases self.chains.len() - i,
        {
            if self.chains[i].0 == *chain {
                return Some(i);
            }
            i = i + 1;
        }
        None
    }

    /// The filter declarations of the chain `chain`, if it is declared.
    pub fn get(&self, chain: &String) -> (r: Option<&Vec<FilterConfig>>)
        requires
            self.wf(),
        ensures
            match r {
                Some(filters) => exists|i: int|
                    0 <= i < self@.len() && (#[trigger] self@[i]).0 == chain@ && filters@
                        == self@[i].1,
                None => forall|i: int| 0 <= i < self@.len() ==> (#[trigger] self@[i]).0 != chain@,
            },
    {
        match self.position(chain) {
            Some(i) => Some(&self.chains[i].1),
            None => None,
        }
    }

    /// Declares the chain `chain` with the given filters. A chain already
    /// declared under that name keeps its place and takes the new filters.
    pub fn insert(&mut self, chain: String, filters: Vec<FilterConfig>)
        requires
            old(self).wf(),
        ensures
            final(self).wf(),
            forall|i: int|
                0 <= i < old(self)@.len() && (#[trigger] old(self)@[i]).0 == chain@ ==> final(self)@
                    == old(self)@.update(i, (chain@, filters@)),
            (forall|i: int| 0 <= i < old(self)@.len() ==> (#[trigger] old(self)@[i]).0 != chain@)
                ==> final(self)@ == old(self)@.push((chain@, filters@)),
    {
        let ghost entry = (chain@, filters@);
        match self.position(&chain) {
            Some(i) => {
                self.chains.set(i, (chain, filters));
                proof {
                    assert(final(self)@ =~= old(self)@.update(i as int, entry));
                }
            },
            None => {
                self.chains.push((chain, filters));
                proof {
                    assert(final(self)@ =~= old(self)@.push(entry));
                }
            },
        }
    }

    /// The script paths of every chain, chain by chain, each chain's in its
    /// declared order.
    pub fn scripts(&self) -> (r: Vec<String>)
        ensures
            r@.map_values(|s: String| s@) == script_paths(self@),
    {
        let mut r: Vec<String> = Vec::new();
        let mut i: usize = 0;
        while i < self.chains.len()
            invariant
                i <= self@.len(),
                self@.len() == self.chains@.len(),
                r@.map_values(|s: String| s@) == script_paths(self@.take(i as int)),
            decreases self.chains.len() - i,
        {
            let filters = &self.chains[i].1;
            let ghost before = r@.map_values(|s: String| s@);
            let ghost decl = self@[i as int].1;
            let mut j: usize = 0;
            while j < filters.len()
                invariant
                    j <= filters@.len(),
                    decl == filters@,
                    r@.map_values(|s: String| s@) == before + decl.take(j as int).map_values(
                        |f: FilterConfig| f.script@,
                    ),
                decreases filters.len() - j,
            {
                let ghost prev = r@;
                r.push(filters[j].script.clone());
                proof {
                    assert(r@.map_values(|s: String| s@) =~= prev.map_values(|s: String| s@).push(
                        decl[j as int].script@,
                    ));
                    assert(decl.take(j + 1).map_values(|f: FilterConfig| f.script@) =~= decl.take(
                        j as int,
                    ).map_values(|f: FilterConfig| f.script@).push(decl[j as int].script@));
                }
                j = j + 1;
            }
            proof {
                let c = |c: (Seq<char>, Seq<FilterConfig>)| c.1.map_values(|f: FilterConfig| f.script@);
                assert(decl.take(decl.len() as int) =~= decl);
                assert(self@.take(i + 1).map_values(c) =~= self@.take(i as int).map_values(c).push(
                    c(self@[i as int]),
                ));
                self@.take(i as int).map_values(c).lemma_flatten_push(c(self@[i as int]));
            }
            i = i + 1;
        }
        proof {
            assert(self@.take(self@.len() as int) =~= self@);
        }
        r
    }
}

} // verus!
