//! Reason-count aggregation.
//!
//! One update cycle folds the records a paginated fetch yielded into a
//! tally: a mapping from reason code to count, plus a synthetic `total` key
//! counting every record. The fold starts from `{"total": 0}`, is open to
//! unknown reason codes, and fails as a whole on the first failed element,
//! so a caller never observes a partial tally.

use vstd::prelude::*;
use vstd::string::*;

use crate::fetch::Notification;
use crate::BlockError;

verus! {

/// Folds an association list into a map, later pairs overwriting earlier
/// ones with the same key.
pub open spec fn counts_of(ps: Seq<(String, u64)>) -> Map<Seq<char>, u64>
    decreases ps.len(),
{
    if ps.len() == 0 {
        Map::empty()
    } else {
        counts_of(ps.drop_last()).insert(ps.last().0@, ps.last().1)
    }
}

/// A pair whose key no later pair carries supplies the map's value at that
/// key.
proof fn lemma_counts_of_at(ps: Seq<(String, u64)>, i: int)
    requires
        0 <= i < ps.len(),
        forall|j: int| i < j < ps.len() ==> ps[j].0@ != ps[i].0@,
    ensures
        counts_of(ps).contains_key(ps[i].0@),
        counts_of(ps)[ps[i].0@] == ps[i].1,
    decreases ps.len(),
{
    if i == ps.len() - 1 {
    } else {
        let dl = ps.drop_last();
        assert(dl[i] == ps[i]);
        assert forall|j: int| i < j < dl.len() implies dl[j].0@ != ps[i].0@ by {
            assert(dl[j] == ps[j]);
        }
        lemma_counts_of_at(dl, i);
        assert(ps[ps.len() - 1].0@ != ps[i].0@);
    }
}

/// The map holds exactly the keys of the list.
proof fn lemma_counts_of_keys(ps: Seq<(String, u64)>, k: Seq<char>)
    ensures
        counts_of(ps).contains_key(k) <==> (exists|i: int| 0 <= i < ps.len() && ps[i].0@ == k),
    decreases ps.len(),
{
    if ps.len() > 0 {
        let dl = ps.drop_last();
        lemma_counts_of_keys(dl, k);
        if counts_of(ps).contains_key(k) {
            if k == ps.last().0@ {
                assert(ps[ps.len() - 1].0@ == k);
            } else {
                let i = choose|i: int| 0 <= i < dl.len() && dl[i].0@ == k;
                assert(ps[i].0@ == k);
            }
        }
        if exists|i: int| 0 <= i < ps.len() && ps[i].0@ == k {
            let i = choose|i: int| 0 <= i < ps.len() && ps[i].0@ == k;
            if i < ps.len() - 1 {
                assert(dl[i].0@ == k);
            }
            assert(counts_of(ps).contains_key(k));
        }
    }
}

/// Replacing the value under a key present in a distinct-key list is an
/// insert on the map.
proof fn lemma_counts_of_update(ps: Seq<(String, u64)>, j: int, q: (String, u64))
    requires
        0 <= j < ps.len(),
        q.0@ == ps[j].0@,
        forall|a: int, b: int| 0 <= a < b < ps.len() ==> ps[a].0@ != ps[b].0@,
    ensures
        counts_of(ps.update(j, q)) =~= counts_of(ps).insert(q.0@, q.1),
    decreases ps.len(),
{
    let up = ps.update(j, q);
    if j == ps.len() - 1 {
        assert(up.drop_last() =~= ps.drop_last());
        assert(up.last() == q);
        assert(counts_of(up) == counts_of(ps.drop_last()).insert(q.0@, q.1));
        assert(counts_of(ps.drop_last()).insert(q.0@, q.1) =~= counts_of(ps.drop_last()).insert(
            ps.last().0@,
            ps.last().1,
        ).insert(q.0@, q.1));
    } else {
        let dl = ps.drop_last();
        assert(dl[j] == ps[j]);
        assert(forall|a: int, b: int| 0 <= a < b < dl.len() ==> dl[a].0@ != dl[b].0@);
        lemma_counts_of_update(dl, j, q);
        assert(up.drop_last() =~= dl.update(j, q));
        assert(up.last() == ps.last());
        assert(counts_of(up) == counts_of(dl.update(j, q)).insert(ps.last().0@, ps.last().1));
        assert(ps.last().0@ != q.0@);
        assert(counts_of(dl).insert(q.0@, q.1).insert(ps.last().0@, ps.last().1)
            =~= counts_of(dl).insert(ps.last().0@, ps.last().1).insert(q.0@, q.1));
    }
}

/// The tally one update cycle hands its caller: reason code to count, plus
/// the synthetic `total` key.
pub struct Tally {
    pairs: Vec<(String, u64)>,
}

impl View for Tally {
    type V = Map<Seq<char>, u64>;

    closed spec fn view(&self) -> Map<Seq<char>, u64> {
        counts_of(self.pairs@)
    }
}

impl Tally {
    /// Each key occurs once.
    pub closed spec fn wf(&self) -> bool {
        forall|a: int, b: int|
            0 <= a < b < self.pairs@.len() ==> self.pairs@[a].0@ != self.pairs@[b].0@
    }

    /// The seed of the fold: `{"total": 0}`.
    pub fn new() -> (r: Tally)
        ensures
            r.wf(),
            r@ =~= Map::<Seq<char>, u64>::empty().insert("total"@, 0u64),
    {
        let mut pairs: Vec<(String, u64)> = Vec::new();
        pairs.push((String::from_str("total"), 0u64));
        let r = Tally { pairs };
        proof {
            assert(r.pairs@.len() == 1);
            assert(r.pairs@.drop_last() =~= Seq::<(String, u64)>::empty());
            assert(counts_of(r.pairs@.drop_last()) =~= Map::<Seq<char>, u64>::empty());
            assert(r.pairs@.last().0@ == "total"@);
            assert(r.pairs@.last().1 == 0u64);
            assert(r@ == counts_of(r.pairs@.drop_last()).insert(r.pairs@.last().0@, r.pairs@.last().1));
            assert(r@ =~= Map::<Seq<char>, u64>::empty().insert("total"@, 0u64));
        }
        r
    }

    /// The count under a key, zero when the key was never observed.
    pub fn get(&self, key: &str) -> (v: u64)
        requires
            self.wf(),
        ensures
            v == if self@.contains_key(key@) {
                self@[key@]
            } else {
                0u64
            },
    {
        proof {
            lemma_counts_of_keys(self.pairs@, key@);
        }
        let wanted = String::from_str(key);
        let mut j: usize = 0;
        while j < self.pairs.len()
            invariant
                self.wf(),
                j <= self.pairs.len(),
                wanted@ == key@,
                forall|jj: int| 0 <= jj < j ==> self.pairs@[jj].0@ != key@,
            decreases self.pairs.len() - j,
        {
            if self.pairs[j].0 == wanted {
                proof {
                    assert(self.pairs@[j as int].0@ == key@);
                    lemma_counts_of_at(self.pairs@, j as int);
                }
                return self.pairs[j].1;
            }
            j = j + 1;
        }
        0
    }

    /// One record's contribution under one key: insert with count one, or
    /// step the existing count.
    fn bump(&mut self, reason: &str)
        requires
            old(self).wf(),
            old(self)@.contains_key(reason@) ==> old(self)@[reason@] < u64::MAX,
        ensures
            final(self).wf(),
            final(self)@ =~= old(self)@.insert(
                reason@,
                if old(self)@.contains_key(reason@) {
                    (old(self)@[reason@] + 1) as u64
                } else {
                    1u64
                },
            ),
    {
        proof {
            lemma_counts_of_keys(self.pairs@, reason@);
        }
        let wanted = String::from_str(reason);
        let mut j: usize = 0;
        while j < self.pairs.len()
            invariant
                j <= self.pairs.len(),
                wanted@ == reason@,
                *self == *old(self),
                old(self).wf(),
                old(self)@.contains_key(reason@) ==> old(self)@[reason@] < u64::MAX,
                forall|jj: int| 0 <= jj < j ==> self.pairs@[jj].0@ != reason@,
            decreases self.pairs.len() - j,
        {
            if self.pairs[j].0 == wanted {
                proof {
                    assert(self.pairs@[j as int].0@ == reason@);
                    lemma_counts_of_keys(self.pairs@, reason@);
                    lemma_counts_of_at(self.pairs@, j as int);
                    assert(self@[reason@] < u64::MAX);
                }
                let v = self.pairs[j].1;
                let ghost before = self.pairs@;
                self.pairs[j] = (wanted, v + 1);
                proof {
                    assert(self.pairs@ =~= before.update(j as int, (wanted, (v + 1) as u64)));
                    lemma_counts_of_update(before, j as int, (wanted, (v + 1) as u64));
                    assert forall|a: int, b: int|
                        0 <= a < b < self.pairs@.len() implies self.pairs@[a].0@
                        != self.pairs@[b].0@ by {
                        assert(before[a].0@ == self.pairs@[a].0@);
                        assert(before[b].0@ == self.pairs@[b].0@);
                    }
                }
                return ;
            }
            j = j + 1;
        }
        let ghost before = self.pairs@;
        self.pairs.push((wanted, 1u64));
        proof {
            assert(self.pairs@.drop_last() =~= before);
            assert(self.pairs@.last() == (wanted, 1u64));
            assert forall|a: int, b: int|
                0 <= a < b < self.pairs@.len() implies self.pairs@[a].0@ != self.pairs@[b].0@ by {
                if b < self.pairs@.len() - 1 {
                    assert(before[a].0@ != before[b].0@);
                }
            }
        }
    }
}

/// Number of occurrences of a reason code in a record sequence.
pub open spec fn occ(rs: Seq<Seq<char>>, k: Seq<char>) -> nat
    decreases rs.len(),
{
    if rs.len() == 0 {
        0
    } else {
        occ(rs.drop_last(), k) + if rs.last() == k {
            1nat
        } else {
            0nat
        }
    }
}

/// A reason code occurs at most once per record.
pub proof fn lemma_occ_le_len(rs: Seq<Seq<char>>, k: Seq<char>)
    ensures
        occ(rs, k) <= rs.len(),
    decreases rs.len(),
{
    if rs.len() > 0 {
        lemma_occ_le_len(rs.drop_last(), k);
    }
}

/// A reason code occurs somewhere exactly when its occurrence count is
/// positive.
pub proof fn lemma_occ_positive(rs: Seq<Seq<char>>, k: Seq<char>)
    ensures
        occ(rs, k) > 0 <==> exists|i: int| 0 <= i < rs.len() && rs[i] == k,
    decreases rs.len(),
{
    if rs.len() > 0 {
        let dl = rs.drop_last();
        lemma_occ_positive(dl, k);
        if occ(rs, k) > 0 {
            if rs.last() == k {
                assert(rs[rs.len() - 1] == k);
            } else {
                let i = choose|i: int| 0 <= i < dl.len() && dl[i] == k;
                assert(rs[i] == k);
            }
        }
        if exists|i: int| 0 <= i < rs.len() && rs[i] == k {
            let i = choose|i: int| 0 <= i < rs.len() && rs[i] == k;
            if i < rs.len() - 1 {
                assert(dl[i] == k);
            }
        }
    }
}

/// The fold of a record sequence: seed `{"total": 0}`, then per record one
/// increment under its reason code — starting at one when the code is new —
/// and one increment under `total`.
pub open spec fn spec_tally(rs: Seq<Seq<char>>) -> Map<Seq<char>, u64>
    decreases rs.len(),
{
    if rs.len() == 0 {
        Map::empty().insert("total"@, 0u64)
    } else {
        let m = spec_tally(rs.drop_last());
        let r = rs.last();
        let m1 = m.insert(
            r,
            if m.contains_key(r) {
                (m[r] + 1) as u64
            } else {
                1u64
            },
        );
        m1.insert("total"@, (m1["total"@] + 1) as u64)
    }
}

/// Aggregation counts occurrences. The tally of a record sequence holds
/// `total` and exactly the reason codes that occur. A reason code other
/// than the literal `total` maps to its number of occurrences; the `total`
/// key counts every record, pooled with the occurrences of a literal
/// `total` reason code, which the seed-and-increment fold shares with it.
pub proof fn lemma_tally_counts(rs: Seq<Seq<char>>, k: Seq<char>)
    requires
        2 * rs.len() <= u64::MAX,
    ensures
        spec_tally(rs).contains_key(k) <==> (k == "total"@ || exists|i: int|
            0 <= i < rs.len() && rs[i] == k),
        k == "total"@ ==> spec_tally(rs)[k] == rs.len() + occ(rs, k),
        k != "total"@ && spec_tally(rs).contains_key(k) ==> spec_tally(rs)[k] == occ(rs, k),
    decreases rs.len(),
{
    lemma_occ_le_len(rs, k);
    if rs.len() == 0 {
    } else {
        let dl = rs.drop_last();
        let r = rs.last();
        lemma_tally_counts(dl, k);
        lemma_tally_counts(dl, r);
        lemma_tally_counts(dl, "total"@);
        lemma_occ_le_len(dl, k);
        lemma_occ_le_len(dl, r);
        lemma_occ_le_len(dl, "total"@);
        lemma_occ_positive(dl, k);
        lemma_occ_positive(dl, r);
        let m = spec_tally(dl);
        let m1 = m.insert(
            r,
            if m.contains_key(r) {
                (m[r] + 1) as u64
            } else {
                1u64
            },
        );
        assert(spec_tally(rs) == m1.insert("total"@, (m1["total"@] + 1) as u64));
        if spec_tally(rs).contains_key(k) && k != "total"@ && k != r {
            assert(m.contains_key(k));
            let i = choose|i: int| 0 <= i < dl.len() && dl[i] == k;
            assert(rs[i] == k);
        }
        if k == r && k != "total"@ {
            assert(rs[rs.len() - 1] == k);
        }
        if k != "total"@ && (exists|i: int| 0 <= i < rs.len() && rs[i] == k) && k != r {
            let i = choose|i: int| 0 <= i < rs.len() && rs[i] == k;
            assert(dl[i] == k);
            assert(m.contains_key(k));
        }
        if k != "total"@ && spec_tally(rs).contains_key(k) {
            if k == r {
                assert(occ(rs, k) == occ(dl, k) + 1);
                if m.contains_key(r) {
                    assert(m[r] == occ(dl, r));
                }
                assert(spec_tally(rs)[k] == m1[k]);
            } else {
                assert(occ(rs, k) == occ(dl, k));
                assert(spec_tally(rs)[k] == m[k]);
            }
        }
        if k == "total"@ {
            assert(m["total"@] == dl.len() + occ(dl, "total"@));
            if r == "total"@ {
                assert(m1["total"@] == (m["total"@] + 1) as u64);
                assert(occ(rs, k) == occ(dl, k) + 1);
            } else {
                assert(m1["total"@] == m["total"@]);
                assert(occ(rs, k) == occ(dl, k));
            }
            assert(spec_tally(rs)[k] == (m1["total"@] + 1) as u64);
        }
    }
}

/// The reasons of a record sequence's successful elements; meaningful when
/// no element failed.
pub open spec fn oks_of(items: Seq<Result<Notification, BlockError>>) -> Seq<Seq<char>> {
    items.map_values(
        |it: Result<Notification, BlockError>|
            match it {
                Ok(n) => n.reason@,
                Err(_) => Seq::empty(),
            },
    )
}

/// Folds a record sequence into its tally, short-circuiting on the first
/// failed element: the whole aggregation fails with that element's error
/// and no partial tally is handed out.
pub fn aggregate(items: &Vec<Result<Notification, BlockError>>) -> (r: Result<Tally, BlockError>)
    requires
        2 * items@.len() <= u64::MAX,
    ensures
        match r {
            Ok(t) => {
                &&& forall|j: int| 0 <= j < items@.len() ==> items@[j] is Ok
                &&& t.wf()
                &&& t@ == spec_tally(oks_of(items@))
            },
            Err(e) => exists|i: int|
                0 <= i < items@.len() && items@[i] is Err && items@[i]->Err_0 == e && (forall|
                    j: int,
                |
                    0 <= j < i ==> items@[j] is Ok),
        },
{
    let ghost rs = oks_of(items@);
    let mut t = Tally::new();
    let mut i: usize = 0;
    proof {
        assert(rs.take(0) =~= Seq::<Seq<char>>::empty());
        assert(t@.contains_key("total"@));
        assert(t@ =~= spec_tally(rs.take(0)));
    }
    while i < items.len()
        invariant
            i <= items@.len(),
            2 * items@.len() <= u64::MAX,
            rs == oks_of(items@),
            forall|j: int| 0 <= j < i ==> items@[j] is Ok,
            t.wf(),
            t@.contains_key("total"@),
            t@ == spec_tally(rs.take(i as int)),
            forall|k: Seq<char>| #[trigger] t@.contains_key(k) ==> t@[k] <= 2 * i,
        decreases items@.len() - i,
    {
        match &items[i] {
            Ok(n) => {
                let ghost m = t@;
                let ghost r = n.reason@;
                proof {
                    assert(rs[i as int] == r);
                }
                t.bump(n.reason.as_str());
                let ghost m1 = t@;
                t.bump("total");
                proof {
                    assert(rs.take(i as int + 1).drop_last() =~= rs.take(i as int));
                    assert(rs.take(i as int + 1).last() == r);
                    assert(m1 =~= m.insert(
                        r,
                        if m.contains_key(r) {
                            (m[r] + 1) as u64
                        } else {
                            1u64
                        },
                    ));
                    assert(t@ =~= m1.insert("total"@, (m1["total"@] + 1) as u64));
                    assert(t@ =~= spec_tally(rs.take(i as int + 1)));
                    assert forall|k: Seq<char>| #[trigger] t@.contains_key(k) implies t@[k] <= 2
                        * (i + 1) by {
                        if k != "total"@ && k != r {
                            assert(m.contains_key(k) && t@[k] == m[k]);
                        }
                    }
                }
                i = i + 1;
            },
            Err(e) => {
                proof {
                    assert(items@[i as int] is Err);
                }
                return Err(*e);
            },
        }
    }
    proof {
        assert(rs.take(i as int) =~= rs);
    }
    Ok(t)
}

} // verus!
