//! What labels an issue gets: the labels of every issue, and more for the
//! issues of single packages.

use crate::text::{clone_strings, strs};
use vstd::prelude::*;

verus! {

/// The labels of every issue this tool files, and the additions for single
/// packages.
#[derive(Debug)]
pub struct Config {
    pub labels: Vec<String>,
    pub crates: CrateMap,
}

/// What is configured for one package.
#[derive(Debug)]
pub struct CrateConfig {
    pub labels: Vec<String>,
}

/// The packages that have a configuration of their own, by name. No name
/// occurs twice. They are few, so the entries are kept in a list and looked
/// up one after the other.
#[derive(Debug)]
pub struct CrateMap {
    entries: Vec<(String, CrateConfig)>,
}

/// The map that a list of entries stands for: each name with the labels of
/// its entry, a later entry replacing an earlier one of the same name.
pub open spec fn table(entries: Seq<(String, CrateConfig)>) -> Map<Seq<char>, Seq<Seq<char>>>
    decreases entries.len(),
{
    if entries.len() == 0 {
        Map::empty()
    } else {
        table(entries.drop_last()).insert(entries.last().0@, strs(entries.last().1.labels@))
    }
}

/// No two entries have the same name.
pub open spec fn distinct(entries: Seq<(String, CrateConfig)>) -> bool {
    forall|i: int, j: int|
        0 <= i < j < entries.len() ==> (#[trigger] entries[i]).0@ != (#[trigger] entries[j]).0@
}

/// The names of a table are the names of its entries.
pub proof fn lemma_table_names(entries: Seq<(String, CrateConfig)>, name: Seq<char>)
    ensures
        table(entries).dom().contains(name) <==> exists|i: int|
            0 <= i < entries.len() && (#[trigger] entries[i]).0@ == name,
    decreases entries.len(),
{
    if entries.len() > 0 {
        let before = entries.drop_last();
        lemma_table_names(before, name);
        if table(entries).dom().contains(name) {
            if entries.last().0@ == name {
                assert(entries[entries.len() - 1].0@ == name);
            } else {
                let i = choose|i: int| 0 <= i < before.len() && (#[trigger] before[i]).0@ == name;
                assert(entries[i].0@ == name);
            }
        }
        if exists|i: int| 0 <= i < entries.len() && (#[trigger] entries[i]).0@ == name {
            let i = choose|i: int| 0 <= i < entries.len() && (#[trigger] entries[i]).0@ == name;
            if i < entries.len() - 1 {
                assert(before[i].0@ == name);
            }
        }
    }
}

/// Where no name occurs twice, a table holds for each entry's name that
/// entry's labels.
pub proof fn lemma_table_entry(entries: Seq<(String, CrateConfig)>, at: int)
    requires
        distinct(entries),
        0 <= at < entries.len(),
    ensures
        table(entries).dom().contains(entries[at].0@),
        table(entries)[entries[at].0@] == strs(entries[at].1.labels@),
    decreases entries.len(),
{
    let before = entries.drop_last();
    if at < entries.len() - 1 {
        assert(distinct(before)) by {
            assert forall|i: int, j: int| 0 <= i < j < before.len() implies (#[trigger] before[i]).0@
                != (#[trigger] before[j]).0@ by {
                assert(entries[i].0@ != entries[j].0@);
            }
        }
        lemma_table_entry(before, at);
        assert(before[at] == entries[at]);
        assert(entries[at].0@ != entries[entries.len() - 1].0@);
    }
}

/// Lists whose entries agree in name and labels stand for the same map.
pub proof fn lemma_table_alike(a: Seq<(String, CrateConfig)>, b: Seq<(String, CrateConfig)>)
    requires
        a.len() == b.len(),
        forall|k: int|
            0 <= k < a.len() ==> (#[trigger] a[k]).0@ == b[k].0@ && a[k].1@ == b[k].1@,
    ensures
        table(a) == table(b),
    decreases a.len(),
{
    if a.len() > 0 {
        assert forall|k: int| 0 <= k < a.drop_last().len() implies (#[trigger] a.drop_last()[k]).0@
            == b.drop_last()[k].0@ && a.drop_last()[k].1@ == b.drop_last()[k].1@ by {
            assert(a[k].0@ == b[k].0@);
        }
        lemma_table_alike(a.drop_last(), b.drop_last());
        assert(a[a.len() - 1].0@ == b[a.len() - 1].0@);
    }
}

/// Taking one entry out of a list without a name twice leaves a list
/// without a name twice, whose table is the first without that name.
pub proof fn lemma_table_without(entries: Seq<(String, CrateConfig)>, at: int)
    requires
        distinct(entries),
        0 <= at < entries.len(),
    ensures
        distinct(entries.remove(at)),
        table(entries.remove(at)) == table(entries).remove(entries[at].0@),
    decreases entries.len(),
{
    let rest = entries.remove(at);
    let name = entries[at].0@;
    assert forall|i: int, j: int| 0 <= i < j < rest.len() implies (#[trigger] rest[i]).0@ != (
    #[trigger] rest[j]).0@ by {
        let from_i = if i < at { i } else { i + 1 };
        let from_j = if j < at { j } else { j + 1 };
        assert(rest[i] == entries[from_i]);
        assert(rest[j] == entries[from_j]);
    }
    let before = entries.drop_last();
    if at == entries.len() - 1 {
        assert(rest =~= before);
        lemma_table_names(before, name);
        assert(table(before) =~= table(entries).remove(name));
    } else {
        assert(distinct(before)) by {
            assert forall|i: int, j: int| 0 <= i < j < before.len() implies (#[trigger] before[i]).0@
                != (#[trigger] before[j]).0@ by {
                assert(entries[i].0@ != entries[j].0@);
            }
        }
        lemma_table_without(before, at);
        assert(rest.drop_last() =~= before.remove(at));
        assert(rest.last() == entries.last());
        assert(before[at] == entries[at]);
        assert(entries[at].0@ != entries[entries.len() - 1].0@);
        assert(table(rest) =~= table(entries).remove(name));
    }
}

/// A configuration as plain values.
pub struct ConfigView {
    pub labels: Seq<Seq<char>>,
    pub crates: Map<Seq<char>, Seq<Seq<char>>>,
}

impl View for Config {
    type V = ConfigView;

    open spec fn view(&self) -> ConfigView {
        ConfigView { labels: strs(self.labels@), crates: self.crates@ }
    }
}

impl Default for Config {
    /// The configuration that holds where none is given: every issue is
    /// labelled `rust` and `security`, and no package has labels of its own.
    fn default() -> (config: Config)
        ensures
            config@.labels == seq!["rust"@, "security"@],
            config@.crates == Map::<Seq<char>, Seq<Seq<char>>>::empty(),
    {
        let mut labels: Vec<String> = Vec::new();
        labels.push("rust".to_owned());
        labels.push("security".to_owned());
        assert(strs(labels@) =~= seq!["rust"@, "security"@]);
        Config { labels, crates: CrateMap::new() }
    }
}

impl View for CrateConfig {
    type V = Seq<Seq<char>>;

    open spec fn view(&self) -> Seq<Seq<char>> {
        strs(self.labels@)
    }
}

impl Clone for Config {
    fn clone(&self) -> (copy: Self)
        ensures
            copy@ == self@,
    {
        Config { labels: clone_strings(&self.labels), crates: self.crates.clone() }
    }
}

impl Clone for CrateConfig {
    fn clone(&self) -> (copy: Self)
        ensures
            copy@ == self@,
    {
        CrateConfig { labels: clone_strings(&self.labels) }
    }
}

impl Clone for CrateMap {
    fn clone(&self) -> (copy: Self)
        ensures
            copy@ == self@,
    {
        proof {
            use_type_invariant(self);
        }
        let mut entries: Vec<(String, CrateConfig)> = Vec::new();
        let mut i: usize = 0;
        while i < self.entries.len()
            invariant
                i <= self.entries@.len(),
                entries@.len() == i,
                forall|k: int|
                    0 <= k < i ==> (#[trigger] entries@[k]).0@ == self.entries@[k].0@
                        && entries@[k].1@ == self.entries@[k].1@,
            decreases self.entries@.len() - i,
        {
            entries.push((self.entries[i].0.clone(), self.entries[i].1.clone()));
            i += 1;
        }
        proof {
            assert forall|i: int, j: int| 0 <= i < j < entries@.len() implies (
            #[trigger] entries@[i]).0@ != (#[trigger] entries@[j]).0@ by {
                assert(self.entries@[i].0@ != self.entries@[j].0@);
            }
            lemma_table_alike(entries@, self.entries@);
        }
        CrateMap { entries }
    }
}

impl View for CrateMap {
    type V = Map<Seq<char>, Seq<Seq<char>>>;

    closed spec fn view(&self) -> Map<Seq<char>, Seq<Seq<char>>> {
        table(self.entries@)
    }
}

impl CrateMap {
    #[verifier::type_invariant]
    spec fn no_name_twice(self) -> bool {
        distinct(self.entries@)
    }

    /// A map without entries.
    pub fn new() -> (map: CrateMap)
        ensures
            map@ == Map::<Seq<char>, Seq<Seq<char>>>::empty(),
    {
        CrateMap { entries: Vec::new() }
    }

    /// Where the entry of `name` stands in `entries`, if there is one.
    fn position_in(entries: &Vec<(String, CrateConfig)>, name: &String) -> (found: Option<usize>)
        ensures
            match found {
                Some(at) => at < entries@.len() && entries@[at as int].0@ == name@,
                None => forall|i: int|
                    0 <= i < entries@.len() ==> (#[trigger] entries@[i]).0@ != name@,
            },
    {
        let mut i: usize = 0;
        while i < entries.len()
            invariant
                i <= entries@.len(),
                forall|k: int| 0 <= k < i ==> (#[trigger] entries@[k]).0@ != name@,
            decreases entries@.len() - i,
        {
            if entries[i].0 == *name {
                return Some(i);
            }
            i += 1;
        }
        None
    }

    /// The configuration of the package `name`, if it has one.
    pub fn get(&self, name: &String) -> (found: Option<&CrateConfig>)
        ensures
            match found {
                Some(config) => self@.dom().contains(name@) && config@ == self@[name@],
                None => !self@.dom().contains(name@),
            },
    {
        proof {
            use_type_invariant(self);
            lemma_table_names(self.entries@, name@);
        }
        match Self::position_in(&self.entries, name) {
            Some(at) => {
                proof {
                    lemma_table_entry(self.entries@, at as int);
                }
                Some(&self.entries[at].1)
            },
            None => None,
        }
    }

    /// Gives the package `name` the configuration `config`, in place of the
    /// one it had, which is handed back.
    pub fn insert(&mut self, name: String, config: CrateConfig) -> (previous: Option<CrateConfig>)
        ensures
            final(self)@ == old(self)@.insert(name@, config@),
            match previous {
                Some(given) => old(self)@.dom().contains(name@) && given@ == old(self)@[name@],
                None => !old(self)@.dom().contains(name@),
            },
    {
        let mut taken = CrateMap::new();
        std::mem::swap(self, &mut taken);
        proof {
            use_type_invariant(&taken);
        }
        let mut entries = taken.entries;
        proof {
            lemma_table_names(entries@, name@);
        }
        let previous = match Self::position_in(&entries, &name) {
            Some(at) => {
                proof {
                    lemma_table_entry(entries@, at as int);
                    lemma_table_without(entries@, at as int);
                }
                let removed = entries.remove(at);
                Some(removed.1)
            },
            None => None,
        };
        proof {
            lemma_table_names(entries@, name@);
            assert(entries@.push((name, config)).drop_last() =~= entries@);
            assert(old(self)@.insert(name@, config@) =~= table(entries@).insert(name@, config@));
            assert forall|i: int, j: int|
                0 <= i < j < entries@.push((name, config)).len() implies (#[trigger] entries@.push(
                (name, config),
            )[i]).0@ != (#[trigger] entries@.push((name, config))[j]).0@ by {
                assert(entries@[i].0@ != name@);
                if j < entries@.len() {
                    assert(entries@[i].0@ != entries@[j].0@);
                }
            }
        }
        entries.push((name, config));
        *self = CrateMap { entries };
        previous
    }

    /// The entries, each package's name with its configuration.
    pub fn into_entries(self) -> (entries: Vec<(String, CrateConfig)>)
        ensures
            distinct(entries@),
            table(entries@) == self@,
    {
        proof {
            use_type_invariant(&self);
        }
        self.entries
    }
}

} // verus!
