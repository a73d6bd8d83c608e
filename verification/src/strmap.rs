//! A string-keyed map backed by an association vector.
//!
//! The routing tables key writers, bindings and the local presence
//! snapshot by socket id, email and device id. This map gives them a
//! `Map<Seq<char>, V>` view with exact contracts on every operation.

use vstd::prelude::*;

use crate::codec::str_eq;

verus! {

broadcast use {vstd::string::group_string_axioms, vstd::seq::group_seq_axioms,
    vstd::std_specs::vec::group_vec_axioms};

/// A finite map from strings to values.
pub struct StrMap<V> {
    pairs: Vec<(String, V)>,
}

/// The map a pair sequence stands for, later bindings winning.
pub open spec fn assoc_map<V>(ps: Seq<(String, V)>) -> Map<Seq<char>, V>
    decreases ps.len(),
{
    if ps.len() == 0 {
        Map::empty()
    } else {
        assoc_map(ps.drop_last()).insert(ps.last().0@, ps.last().1)
    }
}

/// No key occurs twice.
pub open spec fn unique_keys<V>(ps: Seq<(String, V)>) -> bool {
    forall|i: int, j: int|
        0 <= i < j < ps.len() ==> (#[trigger] ps[i]).0@ != (#[trigger] ps[j]).0@
}

/// What the pair sequence's map holds: exactly the listed bindings.
pub proof fn lemma_assoc_char<V>(ps: Seq<(String, V)>)
    requires
        unique_keys(ps),
    ensures
        forall|k: Seq<char>|
            assoc_map(ps).contains_key(k) <==> (exists|i: int|
                0 <= i < ps.len() && (#[trigger] ps[i]).0@ == k),
        forall|i: int|
            0 <= i < ps.len() ==> assoc_map(ps).contains_key((#[trigger] ps[i]).0@) && assoc_map(
                ps,
            )[ps[i].0@] == ps[i].1,
        assoc_map(ps).dom().finite(),
        assoc_map(ps).dom().len() == ps.len(),
    decreases ps.len(),
{
    if ps.len() > 0 {
        let h = ps.drop_last();
        assert(unique_keys(h)) by {
            assert(forall|i: int, j: int|
                0 <= i < j < h.len() ==> (#[trigger] h[i]).0@ != (#[trigger] h[j]).0@) by {
                assert(forall|i: int| 0 <= i < h.len() ==> h[i] == ps[i]);
            }
        }
        lemma_assoc_char(h);
        assert(forall|i: int| 0 <= i < h.len() ==> h[i] == ps[i]);
        assert(!assoc_map(h).contains_key(ps.last().0@));
        assert(forall|k: Seq<char>|
            assoc_map(ps).contains_key(k) <==> (exists|i: int|
                0 <= i < ps.len() && (#[trigger] ps[i]).0@ == k)) by {
            assert(forall|k: Seq<char>|
                #![auto]
                assoc_map(ps).contains_key(k) ==> (assoc_map(h).contains_key(k) || k == ps.last(
                ).0@));
            assert(ps[ps.len() - 1] == ps.last());
        }
    }
}

impl<V> StrMap<V> {
    /// The map held.
    pub closed spec fn view(&self) -> Map<Seq<char>, V> {
        assoc_map(self.pairs@)
    }

    /// The representation keeps one entry per key.
    pub closed spec fn wf(&self) -> bool {
        unique_keys(self.pairs@)
    }

    /// The empty map.
    pub fn new() -> (r: StrMap<V>)
        ensures
            r@ == Map::<Seq<char>, V>::empty(),
            r.wf(),
    {
        StrMap { pairs: Vec::new() }
    }

    /// How many keys are bound.
    pub fn len(&self) -> (r: usize)
        requires
            self.wf(),
        ensures
            r == self@.dom().len(),
    {
        proof {
            lemma_assoc_char(self.pairs@);
        }
        self.pairs.len()
    }

    /// Whether no key is bound.
    pub fn is_empty(&self) -> (r: bool)
        requires
            self.wf(),
        ensures
            r <==> self@ == Map::<Seq<char>, V>::empty(),
            !r ==> exists|k: Seq<char>| self@.contains_key(k),
    {
        proof {
            lemma_assoc_char(self.pairs@);
            if self.pairs@.len() == 0 {
                assert(self@ =~= Map::<Seq<char>, V>::empty());
            } else {
                assert(self@.contains_key(self.pairs@[0].0@));
                assert(self@ != Map::<Seq<char>, V>::empty());
            }
        }
        self.pairs.is_empty()
    }

    /// The value bound to `k`, if any.
    pub fn get(&self, k: &str) -> (r: Option<&V>)
        requires
            self.wf(),
        ensures
            match r {
                Some(v) => self@.contains_key(k@) && *v == self@[k@],
                None => !self@.contains_key(k@),
            },
    {
        let mut i: usize = 0;
        while i < self.pairs.len()
            invariant
                self.wf(),
                0 <= i <= self.pairs@.len(),
                forall|m: int| 0 <= m < i ==> (#[trigger] self.pairs@[m]).0@ != k@,
            decreases self.pairs.len() - i,
        {
            if str_eq(self.pairs[i].0.as_str(), k) {
                proof {
                    lemma_assoc_char(self.pairs@);
                }
                return Some(&self.pairs[i].1);
            }
            i += 1;
        }
        proof {
            lemma_assoc_char(self.pairs@);
        }
        None
    }

    /// Whether `k` is bound.
    pub fn contains_key(&self, k: &str) -> (r: bool)
        requires
            self.wf(),
        ensures
            r <==> self@.contains_key(k@),
    {
        match self.get(k) {
            Some(_) => true,
            None => false,
        }
    }

    /// Binds `k` to `v`, replacing any earlier binding.
    pub fn insert(&mut self, k: String, v: V)
        requires
            old(self).wf(),
        ensures
            final(self).wf(),
            final(self)@ == old(self)@.insert(k@, v),
    {
        let ghost orig = self.pairs@;
        let mut i: usize = 0;
        while i < self.pairs.len()
            invariant
                unique_keys(orig),
                orig == old(self).pairs@,
                self.pairs@ == orig,
                0 <= i <= orig.len(),
                forall|m: int| 0 <= m < i ==> (#[trigger] orig[m]).0@ != k@,
            decreases self.pairs.len() - i,
        {
            if str_eq(self.pairs[i].0.as_str(), k.as_str()) {
                let _replaced = self.pairs.remove(i);
                self.pairs.push((k, v));
                proof {
                    lemma_replace(orig, i as int, self.pairs@, k@, v);
                }
                return ;
            }
            i += 1;
        }
        self.pairs.push((k, v));
        proof {
            let now = self.pairs@;
            assert(now.drop_last() =~= orig);
            assert(now.last() == (k, v));
            assert(unique_keys(now)) by {
                assert(forall|m: int| 0 <= m < orig.len() ==> now[m] == orig[m]);
            }
            assert(assoc_map(now) == assoc_map(orig).insert(k@, v));
        }
    }

    /// The keys, in representation order.
    pub closed spec fn key_seq(&self) -> Seq<Seq<char>> {
        Seq::new(self.pairs@.len() as nat, |i: int| self.pairs@[i].0@)
    }

    /// The key sequence enumerates the domain exactly once.
    pub proof fn lemma_keys(&self)
        requires
            self.wf(),
        ensures
            self.key_seq().len() == self@.dom().len(),
            forall|i: int|
                0 <= i < self.key_seq().len() ==> self@.contains_key(#[trigger] self.key_seq()[i]),
            forall|i: int, j: int|
                0 <= i < j < self.key_seq().len() ==> self.key_seq()[i] != self.key_seq()[j],
            forall|k: Seq<char>|
                self@.contains_key(k) ==> exists|i: int|
                    0 <= i < self.key_seq().len() && #[trigger] self.key_seq()[i] == k,
    {
        lemma_assoc_char(self.pairs@);
        assert(forall|i: int|
            0 <= i < self.pairs@.len() ==> #[trigger] self.key_seq()[i] == self.pairs@[i].0@);
        assert forall|k: Seq<char>| self@.contains_key(k) implies exists|i: int|
            0 <= i < self.key_seq().len() && #[trigger] self.key_seq()[i] == k by {
            let m = choose|m: int|
                0 <= m < self.pairs@.len() && (#[trigger] self.pairs@[m]).0@ == k;
            assert(self.key_seq()[m] == k);
        }
    }

    /// The `i`-th key.
    pub fn key_at(&self, i: usize) -> (r: &String)
        requires
            self.wf(),
            i < self@.dom().len(),
        ensures
            r@ == self.key_seq()[i as int],
            self@.contains_key(r@),
    {
        proof {
            lemma_assoc_char(self.pairs@);
        }
        &self.pairs[i].0
    }

    /// Unbinds `k` and returns what it was bound to.
    pub fn remove(&mut self, k: &str) -> (r: Option<V>)
        requires
            old(self).wf(),
        ensures
            final(self).wf(),
            final(self)@ == old(self)@.remove(k@),
            match r {
                Some(v) => old(self)@.contains_key(k@) && v == old(self)@[k@],
                None => !old(self)@.contains_key(k@),
            },
    {
        let ghost orig = self.pairs@;
        let mut i: usize = 0;
        while i < self.pairs.len()
            invariant
                unique_keys(orig),
                orig == old(self).pairs@,
                self.pairs@ == orig,
                0 <= i <= orig.len(),
                forall|m: int| 0 <= m < i ==> (#[trigger] orig[m]).0@ != k@,
            decreases self.pairs.len() - i,
        {
            if str_eq(self.pairs[i].0.as_str(), k) {
                let el = self.pairs.remove(i);
                proof {
                    lemma_removed(orig, i as int, self.pairs@, k@);
                    lemma_assoc_char(orig);
                }
                return Some(el.1);
            }
            i += 1;
        }
        proof {
            lemma_assoc_char(orig);
            assert(assoc_map(orig) =~= assoc_map(orig).remove(k@));
        }
        None
    }
}


/// Replacing the one entry with key `k` leaves the map with `k`
/// freshly bound.
proof fn lemma_replace<V>(orig: Seq<(String, V)>, i: int, now: Seq<(String, V)>, k: Seq<char>, v: V)
    requires
        unique_keys(orig),
        0 <= i < orig.len(),
        orig[i].0@ == k,
        forall|m: int| 0 <= m < i ==> (#[trigger] orig[m]).0@ != k,
        now == orig.remove(i).push((orig[i].0, v)) || (now.len() == orig.len() && now
            =~= orig.remove(i).push((now.last().0, v)) && now.last().0@ == k),
    ensures
        unique_keys(now),
        assoc_map(now) == assoc_map(orig).insert(k, v),
{
    orig.remove_ensures(i);
    let base = orig.remove(i);
    assert(now.len() == orig.len());
    assert(forall|m: int| 0 <= m < i ==> now[m] == orig[m]);
    assert(forall|m: int| i <= m < orig.len() - 1 ==> now[m] == orig[m + 1]);
    assert(now.last().0@ == k && now.last().1 == v);
    assert(unique_keys(now)) by {
        assert forall|a: int, b: int| 0 <= a < b < now.len() implies (#[trigger] now[a]).0@
            != (#[trigger] now[b]).0@ by {
            if b == now.len() - 1 {
                let am = if a < i {
                    a
                } else {
                    a + 1
                };
                assert(now[a] == orig[am]);
                assert(am != i);
                if am < i {
                    assert(orig[am].0@ != orig[i].0@);
                } else {
                    assert(orig[i].0@ != orig[am].0@);
                }
            } else {
                let am = if a < i {
                    a
                } else {
                    a + 1
                };
                let bm = if b < i {
                    b
                } else {
                    b + 1
                };
                assert(now[a] == orig[am] && now[b] == orig[bm]);
                assert(orig[am].0@ != orig[bm].0@);
            }
        }
    }
    lemma_assoc_char(orig);
    lemma_assoc_char(now);
    assert(assoc_map(now) =~= assoc_map(orig).insert(k, v)) by {
        assert forall|q: Seq<char>| #[trigger] assoc_map(now).contains_key(q) implies assoc_map(
            orig,
        ).insert(k, v).contains_key(q) && assoc_map(now)[q] == assoc_map(orig).insert(k, v)[q] by {
            let m = choose|m: int| 0 <= m < now.len() && (#[trigger] now[m]).0@ == q;
            if m == now.len() - 1 {
                assert(q == k);
                assert(assoc_map(now)[q] == now[m].1);
            } else {
                let om = if m < i {
                    m
                } else {
                    m + 1
                };
                assert(now[m] == orig[om]);
                assert(q != k) by {
                    if om < i {
                        assert(orig[om].0@ != orig[i].0@);
                    } else {
                        assert(orig[i].0@ != orig[om].0@);
                    }
                }
                assert(assoc_map(orig)[q] == orig[om].1);
                assert(assoc_map(now)[q] == now[m].1);
            }
        }
        assert forall|q: Seq<char>| #[trigger] assoc_map(orig).insert(k, v).contains_key(
            q,
        ) implies assoc_map(now).contains_key(q) by {
            if q == k {
                assert(now[now.len() - 1].0@ == q);
            } else {
                let m = choose|m: int| 0 <= m < orig.len() && (#[trigger] orig[m]).0@ == q;
                assert(m != i);
                let nm = if m < i {
                    m
                } else {
                    m - 1
                };
                assert(now[nm] == orig[m]);
            }
        }
    }
}

/// Removing the one entry with key `k` leaves the map without `k`.
proof fn lemma_removed<V>(orig: Seq<(String, V)>, i: int, now: Seq<(String, V)>, k: Seq<char>)
    requires
        unique_keys(orig),
        0 <= i < orig.len(),
        orig[i].0@ == k,
        now == orig.remove(i),
    ensures
        unique_keys(now),
        assoc_map(now) == assoc_map(orig).remove(k),
{
    orig.remove_ensures(i);
    assert(now.len() == orig.len() - 1);
    assert(forall|m: int| 0 <= m < i ==> now[m] == orig[m]);
    assert(forall|m: int| i <= m < orig.len() - 1 ==> now[m] == orig[m + 1]);
    assert(unique_keys(now)) by {
        assert forall|a: int, b: int| 0 <= a < b < now.len() implies (#[trigger] now[a]).0@
            != (#[trigger] now[b]).0@ by {
            let am = if a < i {
                a
            } else {
                a + 1
            };
            let bm = if b < i {
                b
            } else {
                b + 1
            };
            assert(now[a] == orig[am] && now[b] == orig[bm]);
            assert(orig[am].0@ != orig[bm].0@);
        }
    }
    lemma_assoc_char(orig);
    lemma_assoc_char(now);
    assert(assoc_map(now) =~= assoc_map(orig).remove(k)) by {
        assert forall|q: Seq<char>| #[trigger] assoc_map(now).contains_key(q) implies assoc_map(
            orig,
        ).remove(k).contains_key(q) && assoc_map(now)[q] == assoc_map(orig).remove(k)[q] by {
            let m = choose|m: int| 0 <= m < now.len() && (#[trigger] now[m]).0@ == q;
            let om = if m < i {
                m
            } else {
                m + 1
            };
            assert(now[m] == orig[om]);
            assert(q != k) by {
                if om < i {
                    assert(orig[om].0@ != orig[i].0@);
                } else {
                    assert(orig[i].0@ != orig[om].0@);
                }
            }
            assert(assoc_map(orig)[q] == orig[om].1);
            assert(assoc_map(now)[q] == now[m].1);
        }
        assert forall|q: Seq<char>| #[trigger] assoc_map(orig).remove(k).contains_key(
            q,
        ) implies assoc_map(now).contains_key(q) by {
            let m = choose|m: int| 0 <= m < orig.len() && (#[trigger] orig[m]).0@ == q;
            assert(m != i);
            let nm = if m < i {
                m
            } else {
                m - 1
            };
            assert(now[nm] == orig[m]);
        }
    }
}

} // verus!
