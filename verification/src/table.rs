use crate::text::{
    increasing, lemma_precedes_connected, lemma_precedes_irreflexive, lemma_precedes_transitive,
    precedes, ranking, views, Rank,
};
use vstd::prelude::*;
use vstd::string::*;

verus! {

/// The views of a sequence of items.
pub open spec fn item_views<V: View>(items: Seq<V>) -> Seq<V::V> {
    items.map_values(|v: V| v@)
}

/// The map from each name to the item that stands where the name stands.
pub open spec fn table_of<W>(names: Seq<Seq<char>>, items: Seq<W>) -> Map<Seq<char>, W> {
    Map::new(|k: Seq<char>| names.contains(k), |k: Seq<char>| items[names.index_of(k)])
}

/// In a strictly increasing sequence a name stands at one index only.
pub proof fn lemma_index_of(names: Seq<Seq<char>>, j: int)
    requires
        increasing(names),
        0 <= j < names.len(),
    ensures
        names.contains(names[j]),
        names.index_of(names[j]) == j,
{
    let i = names.index_of(names[j]);
    assert(0 <= i < names.len() && names[i] == names[j]);
    lemma_precedes_irreflexive(names[j]);
    if i < j {
        assert(precedes(names[i], names[j]));
    } else if j < i {
        assert(precedes(names[j], names[i]));
    }
}

proof fn lemma_table_insert<W>(names: Seq<Seq<char>>, items: Seq<W>, i: int, k: Seq<char>, w: W)
    requires
        names.len() == items.len(),
        0 <= i <= names.len(),
        !names.contains(k),
        increasing(names),
        increasing(names.insert(i, k)),
    ensures
        table_of(names.insert(i, k), items.insert(i, w)) == table_of(names, items).insert(k, w),
{
    let names2 = names.insert(i, k);
    let items2 = items.insert(i, w);
    let a = table_of(names2, items2);
    let b = table_of(names, items).insert(k, w);
    assert forall|q: Seq<char>| a.dom().contains(q) <==> b.dom().contains(q) by {
        if names2.contains(q) {
            let j = choose|j: int| 0 <= j < names2.len() && names2[j] == q;
            if j < i {
                assert(names[j] == q);
            } else if j > i {
                assert(names[j - 1] == q);
            }
        }
        if names.contains(q) {
            let j = choose|j: int| 0 <= j < names.len() && names[j] == q;
            if j < i {
                assert(names2[j] == q);
            } else {
                assert(names2[j + 1] == q);
            }
        }
        if q == k {
            assert(names2[i] == q);
        }
    }
    assert forall|q: Seq<char>| a.dom().contains(q) implies a[q] == b[q] by {
        if q == k {
            assert(names2[i] == k);
            lemma_index_of(names2, i);
        } else {
            let j = choose|j: int| 0 <= j < names.len() && names[j] == q;
            lemma_index_of(names, j);
            if j < i {
                assert(names2[j] == q);
                lemma_index_of(names2, j);
            } else {
                assert(names2[j + 1] == q);
                lemma_index_of(names2, j + 1);
            }
        }
    }
    assert(a =~= b);
}

proof fn lemma_table_update<W>(names: Seq<Seq<char>>, items: Seq<W>, i: int, w: W)
    requires
        names.len() == items.len(),
        0 <= i < names.len(),
        increasing(names),
    ensures
        table_of(names, items.update(i, w)) == table_of(names, items).insert(names[i], w),
{
    let a = table_of(names, items.update(i, w));
    let b = table_of(names, items).insert(names[i], w);
    lemma_index_of(names, i);
    assert forall|q: Seq<char>| a.dom().contains(q) implies a[q] == b[q] by {
        let j = choose|j: int| 0 <= j < names.len() && names[j] == q;
        lemma_index_of(names, j);
    }
    assert(a =~= b);
}

proof fn lemma_table_remove<W>(names: Seq<Seq<char>>, items: Seq<W>, i: int)
    requires
        names.len() == items.len(),
        0 <= i < names.len(),
        increasing(names),
    ensures
        increasing(names.remove(i)),
        table_of(names.remove(i), items.remove(i)) == table_of(names, items).remove(names[i]),
{
    let names2 = names.remove(i);
    let items2 = items.remove(i);
    let a = table_of(names2, items2);
    let b = table_of(names, items).remove(names[i]);
    assert forall|x: int, y: int| 0 <= x < y < names2.len() implies precedes(
        names2[x],
        names2[y],
    ) by {
        let x1 = if x < i {
            x
        } else {
            x + 1
        };
        let y1 = if y < i {
            y
        } else {
            y + 1
        };
        assert(precedes(names[x1], names[y1]));
    }
    lemma_index_of(names, i);
    assert forall|q: Seq<char>| a.dom().contains(q) <==> b.dom().contains(q) by {
        if names2.contains(q) {
            let j = choose|j: int| 0 <= j < names2.len() && names2[j] == q;
            let j1 = if j < i {
                j
            } else {
                j + 1
            };
            assert(names[j1] == q);
            lemma_index_of(names, j1);
        }
        if names.contains(q) && q != names[i] {
            let j = choose|j: int| 0 <= j < names.len() && names[j] == q;
            if j < i {
                assert(names2[j] == q);
            } else {
                assert(names2[j - 1] == q);
            }
        }
    }
    assert forall|q: Seq<char>| a.dom().contains(q) implies a[q] == b[q] by {
        let j = choose|j: int| 0 <= j < names2.len() && names2[j] == q;
        lemma_index_of(names2, j);
        let j1 = if j < i {
            j
        } else {
            j + 1
        };
        assert(names[j1] == q);
        lemma_index_of(names, j1);
    }
    assert(a =~= b);
}

/// A table from names to items, kept in the order of the names.
#[derive(Debug)]
pub struct NameTable<V> {
    keys: Vec<String>,
    values: Vec<V>,
}

impl<V: View> View for NameTable<V> {
    type V = Map<Seq<char>, V::V>;

    closed spec fn view(&self) -> Map<Seq<char>, V::V> {
        table_of(self.names(), item_views(self.items()))
    }
}

impl<V: View> NameTable<V> {
    /// The names of the table, in order.
    pub closed spec fn names(&self) -> Seq<Seq<char>> {
        views(self.keys@)
    }

    /// The items of the table, each where its name stands in `names`.
    pub closed spec fn items(&self) -> Seq<V> {
        self.values@
    }

    /// The names stand in strictly increasing order, one for each item.
    pub closed spec fn wf(&self) -> bool {
        &&& self.keys@.len() == self.values@.len()
        &&& increasing(self.names())
    }

    /// What the order of the names gives: the table maps each name to
    /// the item beside it, and holds no other name.
    pub proof fn lemma_listing(&self)
        requires
            self.wf(),
        ensures
            self.names().len() == self.items().len(),
            increasing(self.names()),
            self@.dom().finite(),
            forall|k: Seq<char>| self@.contains_key(k) <==> self.names().contains(k),
            forall|i: int|
                0 <= i < self.names().len() ==> self@.contains_key(#[trigger] self.names()[i])
                    && self@[self.names()[i]] == self.items()[i]@,
    {
        let names = self.names();
        assert forall|i: int| 0 <= i < names.len() implies self@.contains_key(#[trigger] names[i])
            && self@[names[i]] == self.items()[i]@ by {
            lemma_index_of(names, i);
        }
        assert(self@.dom() =~= names.to_set());
        vstd::seq_lib::seq_to_set_is_finite(names);
    }

    /// The empty table.
    pub fn new() -> (t: Self)
        ensures
            t.wf(),
            t@ == Map::<Seq<char>, V::V>::empty(),
            t.names() == Seq::<Seq<char>>::empty(),
            t.items() == Seq::<V>::empty(),
    {
        let t = NameTable { keys: Vec::new(), values: Vec::new() };
        proof {
            assert(t.names() =~= Seq::<Seq<char>>::empty());
            assert(t@ =~= Map::<Seq<char>, V::V>::empty());
        }
        t
    }

    /// How many names the table holds.
    pub fn len(&self) -> (n: usize)
        requires
            self.wf(),
        ensures
            n == self.names().len(),
            n == self.items().len(),
    {
        self.keys.len()
    }

    /// The name at index `i`.
    pub fn name_at(&self, i: usize) -> (name: &String)
        requires
            self.wf(),
            i < self.names().len(),
        ensures
            name@ == self.names()[i as int],
    {
        &self.keys[i]
    }

    /// The item at index `i`.
    pub fn item_at(&self, i: usize) -> (item: &V)
        requires
            self.wf(),
            i < self.items().len(),
        ensures
            *item == self.items()[i as int],
    {
        &self.values[i]
    }

    /// Where `name` stands, or where it would: the number of names before it.
    fn locate(&self, name: &str) -> (r: (usize, bool))
        requires
            self.wf(),
        ensures
            r.0 <= self.names().len(),
            forall|j: int| 0 <= j < r.0 ==> precedes(self.names()[j], name@),
            r.1 ==> r.0 < self.names().len() && self.names()[r.0 as int] == name@,
            !r.1 ==> forall|j: int| r.0 <= j < self.names().len() ==> precedes(
                name@,
                self.names()[j],
            ),
            r.1 == self.names().contains(name@),
    {
        let mut i: usize = 0;
        let mut found = false;
        while i < self.keys.len()
            invariant_except_break
                !found,
            invariant
                self.wf(),
                i <= self.keys.len(),
                forall|j: int| 0 <= j < i ==> precedes(self.names()[j], name@),
            ensures
                i <= self.keys.len(),
                forall|j: int| 0 <= j < i ==> precedes(self.names()[j], name@),
                found ==> i < self.keys.len() && self.names()[i as int] == name@,
                !found ==> forall|j: int| i <= j < self.names().len() ==> precedes(
                    name@,
                    self.names()[j],
                ),
            decreases self.keys.len() - i,
        {
            match ranking(self.keys[i].as_str(), name) {
                Rank::Before => {
                    i += 1;
                },
                Rank::Same => {
                    found = true;
                    break ;
                },
                Rank::After => {
                    proof {
                        let here = self.names()[i as int];
                        lemma_precedes_connected(here, name@);
                        assert forall|j: int| i <= j < self.names().len() implies precedes(
                            name@,
                            self.names()[j],
                        ) by {
                            if j > i {
                                lemma_precedes_transitive(name@, here, self.names()[j]);
                            }
                        }
                    }
                    break ;
                },
            }
        }
        proof {
            let names = self.names();
            if found {
                assert(names[i as int] == name@);
            } else {
                if names.contains(name@) {
                    let j = choose|j: int| 0 <= j < names.len() && names[j] == name@;
                    lemma_precedes_irreflexive(name@);
                }
            }
        }
        (i, found)
    }

    /// Whether the table holds `name`.
    pub fn contains(&self, name: &str) -> (r: bool)
        requires
            self.wf(),
        ensures
            r == self@.contains_key(name@),
    {
        let (_, found) = self.locate(name);
        proof {
            self.lemma_listing();
        }
        found
    }

    /// The item under `name`.
    pub fn get(&self, name: &str) -> (r: Option<&V>)
        requires
            self.wf(),
        ensures
            r is Some == self@.contains_key(name@),
            r matches Some(item) ==> item@ == self@[name@] && self.items().contains(*item),
    {
        let (i, found) = self.locate(name);
        proof {
            self.lemma_listing();
        }
        if found {
            assert(self.items()[i as int] == self.values@[i as int]);
            Some(&self.values[i])
        } else {
            None
        }
    }

    /// Puts `item` under `name`, in place of what was there.
    pub fn set(&mut self, name: &str, item: V)
        requires
            old(self).wf(),
        ensures
            final(self).wf(),
            final(self)@ == old(self)@.insert(name@, item@),
            forall|x: V|
                final(self).items().contains(x) ==> x == item || old(self).items().contains(x),
    {
        let (i, found) = self.locate(name);
        let ghost names = self.names();
        let ghost items = self.items();
        if found {
            self.values.set(i, item);
            proof {
                lemma_table_update(names, item_views(items), i as int, item@);
                assert(item_views(self.items()) =~= item_views(items).update(i as int, item@));
                assert forall|x: V| self.items().contains(x) implies x == item || items.contains(
                    x,
                ) by {
                    let j = choose|j: int| 0 <= j < self.items().len() && self.items()[j] == x;
                    if j != i {
                        assert(items[j] == x);
                    }
                }
            }
        } else {
            let key = String::from_str(name);
            self.keys.insert(i, key);
            self.values.insert(i, item);
            proof {
                let names2 = self.names();
                assert(names2 =~= names.insert(i as int, name@));
                assert forall|x: int, y: int| 0 <= x < y < names2.len() implies precedes(
                    names2[x],
                    names2[y],
                ) by {
                    if x == i {
                        assert(names2[y] == names[y - 1]);
                    } else if y == i {
                        assert(names2[x] == names[x]);
                    } else {
                        let x1 = if x < i {
                            x
                        } else {
                            x - 1
                        };
                        let y1 = if y < i {
                            y
                        } else {
                            y - 1
                        };
                        assert(precedes(names[x1], names[y1]));
                    }
                }
                lemma_table_insert(names, item_views(items), i as int, name@, item@);
                assert(item_views(self.items()) =~= item_views(items).insert(i as int, item@));
                assert forall|x: V| self.items().contains(x) implies x == item || items.contains(
                    x,
                ) by {
                    let j = choose|j: int| 0 <= j < self.items().len() && self.items()[j] == x;
                    if j < i {
                        assert(items[j] == x);
                    } else if j > i {
                        assert(items[j - 1] == x);
                    }
                }
            }
        }
    }

    /// Takes `name` and its item out of the table.
    pub fn remove(&mut self, name: &str) -> (r: Option<V>)
        requires
            old(self).wf(),
        ensures
            final(self).wf(),
            r is Some == old(self)@.contains_key(name@),
            final(self)@ == old(self)@.remove(name@),
            r matches Some(item) ==> item@ == old(self)@[name@] && old(self).items().contains(item),
            forall|x: V| final(self).items().contains(x) ==> old(self).items().contains(x),
    {
        let (i, found) = self.locate(name);
        let ghost names = self.names();
        let ghost items = self.items();
        proof {
            self.lemma_listing();
        }
        if found {
            self.keys.remove(i);
            let item = self.values.remove(i);
            proof {
                lemma_table_remove(names, item_views(items), i as int);
                assert(self.names() =~= names.remove(i as int));
                assert(item_views(self.items()) =~= item_views(items).remove(i as int));
                assert(items[i as int] == item);
                assert forall|x: V| self.items().contains(x) implies items.contains(x) by {
                    let j = choose|j: int| 0 <= j < self.items().len() && self.items()[j] == x;
                    if j < i {
                        assert(items[j] == x);
                    } else {
                        assert(items[j + 1] == x);
                    }
                }
            }
            Some(item)
        } else {
            assert(self@ =~= self@.remove(name@));
            None
        }
    }

    /// The names of the table, in order.
    pub fn list(&self) -> (r: Vec<String>)
        requires
            self.wf(),
        ensures
            views(r@) == self.names(),
    {
        let mut r: Vec<String> = Vec::new();
        let mut i: usize = 0;
        while i < self.keys.len()
            invariant
                i <= self.keys.len(),
                views(r@) == self.names().take(i as int),
            decreases self.keys.len() - i,
        {
            let name = self.keys[i].clone();
            proof {
                assert(views(r@.push(name)) =~= views(r@).push(name@));
                assert(self.names().take(i + 1) =~= self.names().take(i as int).push(name@));
            }
            r.push(name);
            i += 1;
        }
        proof {
            assert(self.names().take(self.keys.len() as int) =~= self.names());
        }
        r
    }
}

} // verus!
