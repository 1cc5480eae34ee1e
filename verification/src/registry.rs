//! The registry of running channels: channel id to runtime handle.  One
//! instance holds the supervisor handles, another the queue senders.  The
//! registry keeps at most one entry per id — deploying a channel again
//! replaces its entry, and the displaced handle is handed back so the
//! caller can abort it.

use vstd::prelude::*;

verus! {

/// How many entries of `m` carry the id.
pub open spec fn occ<H>(m: Seq<(u128, H)>, id: u128) -> nat
    decreases m.len(),
{
    if m.len() == 0 {
        0
    } else {
        (if m[0].0 == id {
            1nat
        } else {
            0nat
        }) + occ(m.drop_first(), id)
    }
}

/// The entries of `m` with every entry for `id` taken out, order kept.
pub open spec fn model_remove<H>(m: Seq<(u128, H)>, id: u128) -> Seq<(u128, H)>
    decreases m.len(),
{
    if m.len() == 0 {
        Seq::empty()
    } else if m[0].0 == id {
        model_remove(m.drop_first(), id)
    } else {
        seq![m[0]] + model_remove(m.drop_first(), id)
    }
}

/// Replacing the entry for `id`: every old entry for it out, the new one in.
pub open spec fn model_insert<H>(m: Seq<(u128, H)>, id: u128, h: H) -> Seq<(u128, H)> {
    model_remove(m, id).push((id, h))
}

/// No id occurs twice.
pub open spec fn unique_ids<H>(m: Seq<(u128, H)>) -> bool {
    forall|i: int, j: int| 0 <= i < j < m.len() ==> m[i].0 != m[j].0
}

/// An id is absent exactly when it occurs in no entry.
pub proof fn lemma_occ_zero<H>(m: Seq<(u128, H)>, id: u128)
    ensures
        (occ(m, id) == 0) <==> (forall|i: int| 0 <= i < m.len() ==> m[i].0 != id),
    decreases m.len(),
{
    if m.len() == 0 {
    } else {
        let rest = m.drop_first();
        lemma_occ_zero(rest, id);
        assert(forall|j: int| 0 <= j < rest.len() ==> #[trigger] rest[j] == m[j + 1]);
        if occ(m, id) == 0 {
            assert forall|i: int| 0 <= i < m.len() implies m[i].0 != id by {
                if i >= 1 {
                    assert(rest[i - 1] == m[i]);
                }
            }
        } else {
            if m[0].0 != id {
                assert(occ(rest, id) != 0);
                let j = choose|j: int| 0 <= j < rest.len() && rest[j].0 == id;
                assert(m[j + 1].0 == id);
            }
        }
    }
}

/// Taking an id out takes out all of it, touches no other id, and keeps
/// uniqueness.
pub proof fn lemma_model_remove<H>(m: Seq<(u128, H)>, id: u128)
    ensures
        occ(model_remove(m, id), id) == 0,
        forall|o: u128| o != id ==> occ(model_remove(m, id), o) == occ(m, o),
        unique_ids(m) ==> unique_ids(model_remove(m, id)),
    decreases m.len(),
{
    if m.len() == 0 {
    } else {
        let rest = m.drop_first();
        lemma_model_remove(rest, id);
        assert(unique_ids(m) ==> unique_ids(rest)) by {
            assert(forall|i: int, j: int|
                0 <= i < j < rest.len() ==> rest[i] == m[i + 1] && rest[j] == m[j + 1]);
        }
        if m[0].0 == id {
            assert forall|o: u128| o != id implies occ(model_remove(m, id), o) == occ(m, o) by {
                assert(occ(m, o) == (if m[0].0 == o {
                    1nat
                } else {
                    0nat
                }) + occ(rest, o));
            }
        } else {
            let r = seq![m[0]] + model_remove(rest, id);
            assert(r[0] == m[0]);
            assert(r.drop_first() =~= model_remove(rest, id));
            assert(occ(r, id) == occ(model_remove(rest, id), id));
            assert forall|o: u128| o != id implies occ(r, o) == occ(m, o) by {
                assert(occ(r, o) == (if m[0].0 == o {
                    1nat
                } else {
                    0nat
                }) + occ(model_remove(rest, id), o));
                assert(occ(m, o) == (if m[0].0 == o {
                    1nat
                } else {
                    0nat
                }) + occ(rest, o));
            }
            if unique_ids(m) {
                assert(occ(rest, m[0].0) == 0) by {
                    lemma_occ_zero(rest, m[0].0);
                    assert(forall|i: int|
                        0 <= i < rest.len() ==> #[trigger] rest[i].0 == m[i + 1].0);
                }
                assert(occ(model_remove(rest, id), m[0].0) == 0);
                lemma_occ_zero(model_remove(rest, id), m[0].0);
                assert forall|i: int, j: int|
                    0 <= i < j < r.len() implies r[i].0 != r[j].0 by {
                    if i == 0 {
                        assert(r[j] == model_remove(rest, id)[j - 1]);
                    } else {
                        assert(r[i] == model_remove(rest, id)[i - 1]);
                        assert(r[j] == model_remove(rest, id)[j - 1]);
                    }
                }
            }
        }
    }
}

/// However often a channel is deployed, one deployment more leaves exactly
/// one entry for its id; any two back-to-back deployments of the same id
/// therefore end with a single supervisor for it.
pub proof fn lemma_insert_single<H>(m: Seq<(u128, H)>, id: u128, h: H)
    ensures
        occ(model_insert(m, id, h), id) == 1,
        unique_ids(m) ==> unique_ids(model_insert(m, id, h)),
        forall|o: u128| o != id ==> occ(model_insert(m, id, h), o) == occ(m, o),
{
    lemma_model_remove(m, id);
    let base = model_remove(m, id);
    let r = base.push((id, h));
    lemma_occ_push(base, id, h);
    assert(forall|o: u128| o != id ==> occ(r, o) == occ(base, o)) by {
        assert(forall|o: u128| #[trigger] occ(r, o) == occ(base, o) + (if o == id {
            1nat
        } else {
            0nat
        })) by {
            assert(forall|o: u128| #[trigger] occ(r, o) == occ_push_value(base, id, h, o));
        }
    }
    if unique_ids(m) {
        lemma_occ_zero(base, id);
        assert(unique_ids(r)) by {
            assert(forall|i: int, j: int|
                0 <= i < j < r.len() && j < base.len() ==> r[i].0 != r[j].0);
            assert(forall|i: int| 0 <= i < base.len() ==> r[i] == base[i]);
        }
    }
}

/// The occurrence count after a push, as one expression.
pub open spec fn occ_push_value<H>(m: Seq<(u128, H)>, id: u128, h: H, o: u128) -> nat {
    occ(m, o) + if o == id {
        1nat
    } else {
        0nat
    }
}

/// Pushing an entry raises its id's count by one and no other.
pub proof fn lemma_occ_push<H>(m: Seq<(u128, H)>, id: u128, h: H)
    ensures
        forall|o: u128| #[trigger] occ(m.push((id, h)), o) == occ_push_value(m, id, h, o),
    decreases m.len(),
{
    if m.len() == 0 {
        assert forall|o: u128| #[trigger] occ(m.push((id, h)), o) == occ_push_value(
            m,
            id,
            h,
            o,
        ) by {
            assert(m.push((id, h)).drop_first() =~= Seq::<(u128, H)>::empty());
            assert(m.push((id, h))[0] == (id, h));
            assert(occ(Seq::<(u128, H)>::empty(), o) == 0);
            assert(occ(m, o) == 0);
        }
    } else {
        lemma_occ_push(m.drop_first(), id, h);
        assert forall|o: u128| #[trigger] occ(m.push((id, h)), o) == occ_push_value(
            m,
            id,
            h,
            o,
        ) by {
            assert(m.push((id, h)).drop_first() =~= m.drop_first().push((id, h)));
            assert(m.push((id, h))[0] == m[0]);
            assert(occ(m.drop_first().push((id, h)), o) == occ_push_value(
                m.drop_first(),
                id,
                h,
                o,
            ));
        }
    }
}

/// After a channel is deleted, no entry for its id remains: a lookup then
/// finds nothing.
pub proof fn lemma_remove_then_absent<H>(m: Seq<(u128, H)>, id: u128)
    ensures
        occ(model_remove(m, id), id) == 0,
        forall|i: int|
            0 <= i < model_remove(m, id).len() ==> (#[trigger] model_remove(m, id)[i]).0 != id,
{
    lemma_model_remove(m, id);
    lemma_occ_zero(model_remove(m, id), id);
}

/// The registry itself: a vector of `(id, handle)` pairs with unique ids.
pub struct ChannelRegistry<H> {
    entries: Vec<(u128, H)>,
}

impl<H> ChannelRegistry<H> {
    /// The registry's content.
    pub closed spec fn view(&self) -> Seq<(u128, H)> {
        self.entries@
    }

    /// The registry never holds two entries for one id.
    pub open spec fn wf(&self) -> bool {
        unique_ids(self.view())
    }

    /// Whether an id is registered.
    pub open spec fn spec_contains(&self, id: u128) -> bool {
        occ(self.view(), id) > 0
    }

    pub fn new() -> (r: Self)
        ensures
            r.wf(),
            r.view() == Seq::<(u128, H)>::empty(),
    {
        let r = ChannelRegistry { entries: Vec::new() };
        assert(r.view() =~= Seq::<(u128, H)>::empty());
        r
    }

    /// The index of an id's entry, if present.
    fn find_index(&self, id: u128) -> (r: Option<usize>)
        ensures
            match r {
                Some(i) => i < self.view().len() && self.view()[i as int].0 == id,
                None => forall|i: int| 0 <= i < self.view().len() ==> self.view()[i].0 != id,
            },
    {
        let n = self.entries.len();
        let mut i: usize = 0;
        while i < n
            invariant
                n == self.view().len(),
                i <= n,
                forall|j: int| 0 <= j < i ==> self.view()[j].0 != id,
            decreases n - i,
        {
            if self.entries[i].0 == id {
                return Some(i);
            }
            i += 1;
        }
        None
    }

    /// Takes the entry for an id out and hands its handle back; `None` when
    /// the id was not registered.
    pub fn remove(&mut self, id: u128) -> (r: Option<H>)
        requires
            old(self).wf(),
        ensures
            final(self).wf(),
            final(self).view() == model_remove(old(self).view(), id),
            !final(self).spec_contains(id),
            r is Some <==> old(self).spec_contains(id),
            forall|o: u128| o != id ==> occ(final(self).view(), o) == occ(old(self).view(), o),
    {
        proof {
            lemma_model_remove(self.view(), id);
            lemma_occ_zero(self.view(), id);
        }
        match self.find_index(id) {
            Some(i) => {
                let (_, h) = self.entries.remove(i);
                proof {
                    lemma_remove_index_unique(old(self).view(), id, i as int);
                }
                Some(h)
            },
            None => {
                proof {
                    lemma_remove_absent(self.view(), id);
                }
                None
            },
        }
    }

    /// Registers a handle under an id, replacing any previous entry; the
    /// displaced handle, if any, is handed back so the caller can abort it.
    /// Afterwards exactly one entry for the id exists.
    pub fn insert(&mut self, id: u128, h: H) -> (r: Option<H>)
        requires
            old(self).wf(),
        ensures
            final(self).wf(),
            final(self).view() == model_insert(old(self).view(), id, h),
            occ(final(self).view(), id) == 1,
            r is Some <==> old(self).spec_contains(id),
            forall|o: u128| o != id ==> occ(final(self).view(), o) == occ(old(self).view(), o),
    {
        let prev = self.remove(id);
        self.entries.push((id, h));
        proof {
            lemma_insert_single(old(self).view(), id, h);
            lemma_model_remove(old(self).view(), id);
            lemma_occ_push(model_remove(old(self).view(), id), id, h);
            assert(occ(self.view(), id) == occ_push_value(
                model_remove(old(self).view(), id),
                id,
                h,
                id,
            ));
            assert(forall|o: u128|
                o != id ==> #[trigger] occ(self.view(), o) == occ_push_value(
                    model_remove(old(self).view(), id),
                    id,
                    h,
                    o,
                ));
        }
        prev
    }

    /// The handle registered under an id, if any.
    pub fn lookup(&self, id: u128) -> (r: Option<&H>)
        requires
            self.wf(),
        ensures
            r is Some <==> self.spec_contains(id),
            r matches Some(h) ==> exists|i: int|
                0 <= i < self.view().len() && self.view()[i] == (id, *h),
    {
        proof {
            lemma_occ_zero(self.view(), id);
        }
        match self.find_index(id) {
            Some(i) => Some(&self.entries[i].1),
            None => None,
        }
    }

    /// Whether an id is registered.
    pub fn contains(&self, id: u128) -> (r: bool)
        requires
            self.wf(),
        ensures
            r == self.spec_contains(id),
    {
        self.lookup(id).is_some()
    }

    pub fn len(&self) -> (r: usize)
        ensures
            r == self.view().len(),
    {
        self.entries.len()
    }

    /// The registered ids, in registry order.
    pub fn active_ids(&self) -> (r: Vec<u128>)
        ensures
            r@.len() == self.view().len(),
            forall|i: int| 0 <= i < r@.len() ==> r@[i] == self.view()[i].0,
    {
        let n = self.entries.len();
        let mut r: Vec<u128> = Vec::new();
        let mut i: usize = 0;
        while i < n
            invariant
                n == self.view().len(),
                i <= n,
                r@.len() == i,
                forall|j: int| 0 <= j < i ==> r@[j] == self.view()[j].0,
            decreases n - i,
        {
            r.push(self.entries[i].0);
            i += 1;
        }
        r
    }

    /// Empties the registry, handing every entry back — the shutdown path.
    pub fn drain_all(&mut self) -> (r: Vec<(u128, H)>)
        ensures
            final(self).view() == Seq::<(u128, H)>::empty(),
            final(self).wf(),
            r@ == old(self).view(),
    {
        let mut taken: Vec<(u128, H)> = Vec::new();
        std::mem::swap(&mut taken, &mut self.entries);
        assert(self.view() =~= Seq::<(u128, H)>::empty());
        taken
    }
}

/// Removing the one index that carries an id equals the model removal.
proof fn lemma_remove_index_unique<H>(m: Seq<(u128, H)>, id: u128, idx: int)
    requires
        unique_ids(m),
        0 <= idx < m.len(),
        m[idx].0 == id,
    ensures
        model_remove(m, id) == m.remove(idx),
    decreases m.len(),
{
    let rest = m.drop_first();
    assert(unique_ids(rest)) by {
        assert(forall|i: int, j: int|
            0 <= i < j < rest.len() ==> rest[i] == m[i + 1] && rest[j] == m[j + 1]);
    }
    if idx == 0 {
        lemma_remove_absent_entries(rest, id);
        assert(m.remove(0) =~= rest);
    } else {
        assert(m[0].0 != id);
        assert(rest[idx - 1] == m[idx]);
        lemma_remove_index_unique(rest, id, idx - 1);
        assert(m.remove(idx) =~= seq![m[0]] + rest.remove(idx - 1));
    }
}

/// With no entry for the id, a removal changes nothing.
proof fn lemma_remove_absent_entries<H>(m: Seq<(u128, H)>, id: u128)
    requires
        forall|i: int| 0 <= i < m.len() ==> m[i].0 != id,
    ensures
        model_remove(m, id) == m,
    decreases m.len(),
{
    if m.len() == 0 {
        assert(model_remove(m, id) =~= m);
    } else {
        let rest = m.drop_first();
        assert(forall|i: int| 0 <= i < rest.len() ==> rest[i] == m[i + 1]);
        lemma_remove_absent_entries(rest, id);
        assert(seq![m[0]] + rest =~= m);
    }
}

/// The exec-side twin: an absent id makes removal the identity.
proof fn lemma_remove_absent<H>(m: Seq<(u128, H)>, id: u128)
    requires
        forall|i: int| 0 <= i < m.len() ==> m[i].0 != id,
    ensures
        model_remove(m, id) == m,
{
    lemma_remove_absent_entries(m, id);
}

} // verus!
