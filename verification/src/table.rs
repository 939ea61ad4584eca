//! An association table from names to replacement text, used for the alias
//! table and for the environment the variable expander consults. Keys are
//! unique; the table is viewed as a `Map<Seq<char>, Seq<char>>`.

use vstd::prelude::*;

use crate::chars::chars_eq_str;

verus! {

/// The map described by a sequence of entries, later entries winning.
pub open spec fn table_map(s: Seq<(String, String)>) -> Map<Seq<char>, Seq<char>>
    decreases s.len(),
{
    if s.len() == 0 {
        Map::empty()
    } else {
        table_map(s.drop_last()).insert(s.last().0@, s.last().1@)
    }
}

/// A mapping from names to replacement strings with unique keys.
pub struct StrTable {
    entries: Vec<(String, String)>,
}

impl View for StrTable {
    type V = Map<Seq<char>, Seq<char>>;

    closed spec fn view(&self) -> Map<Seq<char>, Seq<char>> {
        table_map(self.entries@)
    }
}

proof fn lemma_table_map_dom(s: Seq<(String, String)>)
    ensures
        forall|k: Seq<char>|
            table_map(s).contains_key(k) <==> exists|i: int|
                0 <= i < s.len() && (#[trigger] s[i]).0@ == k,
    decreases s.len(),
{
    if s.len() > 0 {
        lemma_table_map_dom(s.drop_last());
        assert forall|k: Seq<char>| table_map(s).contains_key(k) implies exists|i: int|
            0 <= i < s.len() && (#[trigger] s[i]).0@ == k by {
            if k == s.last().0@ {
                assert(s[s.len() - 1].0@ == k);
            } else {
                assert(table_map(s.drop_last()).contains_key(k));
                assert(exists|i: int|
                    0 <= i < s.drop_last().len() && (#[trigger] s.drop_last()[i]).0@ == k);
                let i = choose|i: int|
                    0 <= i < s.drop_last().len() && (#[trigger] s.drop_last()[i]).0@ == k;
                assert(s.drop_last()[i] == s[i]);
                assert(s[i].0@ == k);
            }
        }
        assert forall|k: Seq<char>|
            (exists|i: int| 0 <= i < s.len() && (#[trigger] s[i]).0@ == k) implies table_map(
            s,
        ).contains_key(k) by {
            let i = choose|i: int| 0 <= i < s.len() && (#[trigger] s[i]).0@ == k;
            if i < s.len() - 1 {
                assert(s.drop_last()[i] == s[i]);
                assert(exists|j: int|
                    0 <= j < s.drop_last().len() && (#[trigger] s.drop_last()[j]).0@ == k);
                assert(table_map(s.drop_last()).contains_key(k));
            }
        }
    }
}

/// Whether no two entries share a key.
pub open spec fn unique_keys(s: Seq<(String, String)>) -> bool {
    forall|i: int, j: int|
        0 <= i < j < s.len() ==> (#[trigger] s[i]).0@ != (#[trigger] s[j]).0@
}

proof fn lemma_table_map_at(s: Seq<(String, String)>, i: int)
    requires
        unique_keys(s),
        0 <= i < s.len(),
    ensures
        table_map(s).contains_key(s[i].0@),
        table_map(s)[s[i].0@] == s[i].1@,
    decreases s.len(),
{
    lemma_table_map_dom(s);
    if i < s.len() - 1 {
        assert(s.drop_last()[i] == s[i]);
        lemma_table_map_at(s.drop_last(), i);
        assert(s.last().0@ != s[i].0@);
    }
}

impl StrTable {
    /// The well-formedness of the table: keys occur at most once.
    pub closed spec fn wf(&self) -> bool {
        unique_keys(self.entries@)
    }

    /// An empty table.
    pub fn new() -> (r: StrTable)
        ensures
            r.wf(),
            r@ == Map::<Seq<char>, Seq<char>>::empty(),
    {
        StrTable { entries: Vec::new() }
    }

    /// Whether the table has no entries.
    pub fn is_empty(&self) -> (r: bool)
        requires
            self.wf(),
        ensures
            r == (self@ == Map::<Seq<char>, Seq<char>>::empty()),
    {
        proof {
            lemma_table_map_dom(self.entries@);
            if self.entries@.len() > 0 {
                lemma_table_map_at(self.entries@, 0);
                assert(self@ != Map::<Seq<char>, Seq<char>>::empty()) by {
                    assert(self@.contains_key(self.entries@[0].0@));
                }
            } else {
                assert(self@ =~= Map::<Seq<char>, Seq<char>>::empty());
            }
        }
        self.entries.len() == 0
    }

    /// The position of `name` among the entries, if present.
    fn position(&self, name: &Vec<char>) -> (r: Option<usize>)
        ensures
            match r {
                Some(i) => i < self.entries@.len() && self.entries@[i as int].0@ == name@,
                None => forall|i: int|
                    0 <= i < self.entries@.len() ==> (#[trigger] self.entries@[i]).0@ != name@,
            },
    {
        let mut i: usize = 0;
        while i < self.entries.len()
            invariant
                i <= self.entries@.len(),
                forall|k: int| 0 <= k < i ==> (#[trigger] self.entries@[k]).0@ != name@,
            decreases self.entries@.len() - i,
        {
            if chars_eq_str(name, self.entries[i].0.as_str()) {
                return Some(i);
            }
            i += 1;
        }
        None
    }

    /// Looks up `name`, returning the replacement text if the table holds it.
    pub fn get(&self, name: &Vec<char>) -> (r: Option<&String>)
        requires
            self.wf(),
        ensures
            match r {
                Some(v) => self@.contains_key(name@) && v@ == self@[name@],
                None => !self@.contains_key(name@),
            },
    {
        proof {
            lemma_table_map_dom(self.entries@);
        }
        match self.position(name) {
            Some(i) => {
                proof {
                    lemma_table_map_at(self.entries@, i as int);
                }
                Some(&self.entries[i].1)
            },
            None => None,
        }
    }

    /// Inserts or replaces the entry for `name`.
    pub fn insert(&mut self, name: String, value: String)
        requires
            old(self).wf(),
        ensures
            final(self).wf(),
            final(self)@ == old(self)@.insert(name@, value@),
    {
        let key = crate::chars::str_chars(name.as_str());
        let pos = self.position(&key);
        proof {
            lemma_table_map_dom(self.entries@);
        }
        match pos {
            Some(i) => {
                proof {
                    lemma_table_map_at(self.entries@, i as int);
                }
                self.entries[i] = (name, value);
                proof {
                    lemma_table_map_dom(self.entries@);
                    assert(unique_keys(self.entries@));
                    assert forall|k: Seq<char>| #[trigger]
                        self@.contains_key(k) || old(self)@.insert(name@, value@).contains_key(
                        k,
                    ) implies self@.contains_key(k) == old(self)@.insert(name@, value@).contains_key(k)
                        && (self@.contains_key(k) ==> self@[k] == old(self)@.insert(
                        name@,
                        value@,
                    )[k]) by {
                        if self@.contains_key(k) {
                            let j = choose|j: int|
                                0 <= j < self.entries@.len() && (#[trigger] self.entries@[j]).0@
                                    == k;
                            lemma_table_map_at(self.entries@, j);
                            if j == i {
                                assert(k == name@);
                            } else {
                                assert(old(self).entries@[j].0@ == k);
                                lemma_table_map_at(old(self).entries@, j);
                            }
                        }
                        if old(self)@.insert(name@, value@).contains_key(k) {
                            if k == name@ {
                                assert(self.entries@[i as int].0@ == k);
                            } else {
                                let j = choose|j: int|
                                    0 <= j < old(self).entries@.len() && (#[trigger] old(
                                        self,
                                    ).entries@[j]).0@ == k;
                                assert(self.entries@[j].0@ == k);
                            }
                        }
                    }
                    assert(self@ =~= old(self)@.insert(name@, value@));
                }
            },
            None => {
                self.entries.push((name, value));
                proof {
                    assert(self.entries@.drop_last() =~= old(self).entries@);
                    assert(unique_keys(self.entries@));
                }
            },
        }
    }

    /// Removes the entry for `name`; reports whether one was there.
    pub fn remove(&mut self, name: &Vec<char>) -> (r: bool)
        requires
            old(self).wf(),
        ensures
            final(self).wf(),
            r == old(self)@.contains_key(name@),
            final(self)@ == old(self)@.remove(name@),
    {
        proof {
            lemma_table_map_dom(self.entries@);
        }
        match self.position(name) {
            Some(i) => {
                proof {
                    lemma_table_map_at(self.entries@, i as int);
                }
                self.entries.remove(i);
                proof {
                    let olds = old(self).entries@;
                    let news = self.entries@;
                    assert(news =~= olds.subrange(0, i as int) + olds.subrange(
                        i as int + 1,
                        olds.len() as int,
                    ));
                    assert(unique_keys(news)) by {
                        assert forall|a: int, b: int| 0 <= a < b < news.len() implies (
                        #[trigger] news[a]).0@ != (#[trigger] news[b]).0@ by {
                            let a0 = if a < i { a } else { a + 1 };
                            let b0 = if b < i { b } else { b + 1 };
                            assert(news[a] == olds[a0]);
                            assert(news[b] == olds[b0]);
                        }
                    }
                    lemma_table_map_dom(news);
                    assert forall|k: Seq<char>| #[trigger]
                        table_map(news).contains_key(k) || old(self)@.remove(name@).contains_key(
                        k,
                    ) implies table_map(news).contains_key(k) == old(self)@.remove(
                        name@,
                    ).contains_key(k) && (table_map(news).contains_key(k) ==> table_map(news)[k]
                        == old(self)@.remove(name@)[k]) by {
                        if table_map(news).contains_key(k) {
                            let j = choose|j: int|
                                0 <= j < news.len() && (#[trigger] news[j]).0@ == k;
                            lemma_table_map_at(news, j);
                            let j0 = if j < i { j } else { j + 1 };
                            assert(news[j] == olds[j0]);
                            lemma_table_map_at(olds, j0);
                            assert(k != name@);
                        }
                        if old(self)@.remove(name@).contains_key(k) {
                            let j0 = choose|j0: int|
                                0 <= j0 < olds.len() && (#[trigger] olds[j0]).0@ == k;
                            assert(j0 != i);
                            let j = if j0 < i { j0 } else { j0 - 1 };
                            assert(news[j] == olds[j0]);
                        }
                    }
                    assert(self@ =~= old(self)@.remove(name@));
                }
                true
            },
            None => {
                proof {
                    assert(self@ =~= old(self)@.remove(name@));
                }
                false
            },
        }
    }

    /// The entries in table order, for listing: each pair is in the map and
    /// every key of the map appears exactly once.
    pub fn pairs(&self) -> (r: &Vec<(String, String)>)
        requires
            self.wf(),
        ensures
            forall|i: int|
                0 <= i < r@.len() ==> self@.contains_key((#[trigger] r@[i]).0@) && self@[r@[i].0@]
                    == r@[i].1@,
            forall|k: Seq<char>|
                self@.contains_key(k) ==> exists|i: int|
                    0 <= i < r@.len() && (#[trigger] r@[i]).0@ == k,
            unique_keys(r@),
    {
        proof {
            lemma_table_map_dom(self.entries@);
            assert forall|i: int| 0 <= i < self.entries@.len() implies self@.contains_key(
                (#[trigger] self.entries@[i]).0@,
            ) && self@[self.entries@[i].0@] == self.entries@[i].1@ by {
                lemma_table_map_at(self.entries@, i);
            }
        }
        &self.entries
    }
}

} // verus!
