use vstd::prelude::*;

use std::collections::BTreeMap;
use vstd::std_specs::btree::{increasing_seq, spec_keys_iter};
use vstd::std_specs::iter::IteratorSpec;
use vstd::std_specs::cmp::OrdSpec;

verus! {

broadcast use vstd::laws_cmp::group_laws_cmp, vstd::std_specs::btree::group_btree_axioms;

/// ID identifying an interaction on a UI.
///
/// For example, drawing a vertical line or selecting a ROI are types of
/// interaction.
#[derive(Copy, Clone, Hash, Eq, PartialEq, Structural, Ord, PartialOrd, Debug)]
pub struct InteractionId(usize);

impl InteractionId {
    /// The number of the interaction.
    pub closed spec fn spec_number(self) -> nat {
        self.0 as nat
    }

    /// Get ImGui unique ID: the number of the interaction, as a 32-bit
    /// signed integer (wrapping).
    pub fn id(self) -> (r: i32)
        ensures
            r == self.spec_number() as i32,
    {
        self.0 as i32
    }

    /// The number of the interaction.
    pub fn number(self) -> (r: usize)
        ensures
            r == self.spec_number(),
    {
        self.0
    }
}

/// A region of interest drawn pixel by pixel.
#[derive(Clone, Debug)]
pub struct FinedGrainedROI {
    pub id: usize,
    pub pixels: Vec<(usize, usize)>,
    pub changed: bool,
}

impl FinedGrainedROI {
    pub fn new(id: usize) -> (r: Self)
        ensures
            r.id == id,
            r.pixels@ == Seq::<(usize, usize)>::empty(),
            !r.changed,
    {
        Self { id, pixels: Vec::new(), changed: false }
    }

    pub fn from_vec(id: usize, vec: Vec<(usize, usize)>) -> (r: Self)
        ensures
            r.id == id,
            r.pixels@ == vec@,
            !r.changed,
    {
        Self { id, pixels: vec, changed: false }
    }

    /// Replace the pixels of the region; it is marked changed exactly when
    /// the new pixels differ from the old ones.
    pub fn set_pixels(&mut self, pixels: &Vec<(usize, usize)>)
        ensures
            final(self).id == old(self).id,
            final(self).pixels@ == pixels@,
            final(self).changed == (old(self).pixels@ != pixels@),
    {
        let same = same_pixels(&self.pixels, pixels);
        self.changed = !same;
        self.pixels = copy_pixels(pixels);
    }
}

/// Whether two lists of pixels are equal.
fn same_pixels(a: &Vec<(usize, usize)>, b: &Vec<(usize, usize)>) -> (r: bool)
    ensures
        r == (a@ == b@),
{
    if a.len() != b.len() {
        return false;
    }
    let mut k: usize = 0;
    while k < a.len()
        invariant
            a@.len() == b@.len(),
            k <= a@.len(),
            forall|j: int| 0 <= j < k ==> a@[j] == b@[j],
        decreases a@.len() - k,
    {
        if a[k].0 != b[k].0 || a[k].1 != b[k].1 {
            return false;
        }
        k = k + 1;
    }
    assert(a@ =~= b@);
    true
}

/// A copy of a list of pixels.
fn copy_pixels(a: &Vec<(usize, usize)>) -> (r: Vec<(usize, usize)>)
    ensures
        r@ == a@,
{
    let mut r: Vec<(usize, usize)> = Vec::new();
    let mut k: usize = 0;
    while k < a.len()
        invariant
            k <= a@.len(),
            r@ == a@.subrange(0, k as int),
        decreases a@.len() - k,
    {
        r.push(a[k]);
        k = k + 1;
    }
    assert(r@ =~= a@);
    r
}

/// Machine integers are ordered as `BTreeMap` keys must be.
proof fn lemma_usize_keys_ordered()
    ensures
        vstd::laws_cmp::obeys_cmp::<usize>(),
{
}

/// The keys of a map keyed by machine integers come in increasing order.
proof fn lemma_keys_in_order<V>(m: &BTreeMap<usize, V>)
    ensures
        forall|i: int, j: int| 0 <= i < j < spec_keys_iter(m).remaining().len()
            ==> *spec_keys_iter(m).remaining()[i] < *spec_keys_iter(m).remaining()[j],
{
    lemma_usize_keys_ordered();
    let ks = spec_keys_iter(m).remaining();
    assert(increasing_seq(ks));
    vstd::std_specs::btree::axiom_increasing_seq_meaning::<&usize>(ks);
    assert(vstd::laws_cmp::obeys_cmp::<&usize>());
    assert forall|i: int, j: int| 0 <= i < j < ks.len() implies *ks[i] < *ks[j] by {
        assert((&ks[i]).cmp_spec(&ks[j]) is Less);
    }
}

/// Record all interactions.
///
/// Contains a counter that counts the number of interactions inserted.
/// The counter is used to set a unique ID to all interactions that ever existed.
pub struct Interactions<I> {
    map: BTreeMap<usize, I>,
    counter: usize,
}

impl<I> Interactions<I> {
    /// The recorded interactions, by the number of their ID.
    pub closed spec fn spec_map(&self) -> Map<usize, I> {
        self.map@
    }

    /// The number of interactions ever inserted.
    pub closed spec fn spec_counter(&self) -> nat {
        self.counter as nat
    }

    /// Every recorded ID is numbered from 1 up to the counter.
    pub open spec fn wf(&self) -> bool {
        forall|n: usize| #[trigger] self.spec_map().contains_key(n) ==> 1 <= n <= self.spec_counter()
    }

    pub fn new() -> (r: Self)
        ensures
            r.wf(),
            r.spec_map() == Map::<usize, I>::empty(),
            r.spec_counter() == 0,
    {
        Interactions { map: BTreeMap::new(), counter: 0 }
    }

    /// Record `interaction` under a fresh ID, one above the counter, which
    /// then counts it. No interaction had that ID, so none is replaced.
    pub fn insert(&mut self, interaction: I) -> (r: Option<I>)
        requires
            old(self).wf(),
            old(self).spec_counter() < usize::MAX,
        ensures
            final(self).wf(),
            r is None,
            final(self).spec_counter() == old(self).spec_counter() + 1,
            !old(self).spec_map().contains_key(final(self).spec_counter() as usize),
            final(self).spec_map() == old(self).spec_map().insert(final(self).spec_counter() as usize, interaction),
    {
        let new_id = self.counter + 1;
        self.counter = self.counter + 1;
        proof {
            lemma_usize_keys_ordered();
            assert(!old(self).spec_map().contains_key(new_id));
        }
        let r = self.map.insert(new_id, interaction);
        proof {
            assert forall|n: usize| #[trigger] self.spec_map().contains_key(n) implies 1 <= n <= self.spec_counter() by {
                if n != new_id {
                    assert(old(self).spec_map().contains_key(n));
                }
            }
        }
        r
    }

    /// The ID of the last interaction inserted.
    pub fn id(&mut self) -> (r: InteractionId)
        ensures
            *final(self) == *old(self),
            r.spec_number() == old(self).spec_counter(),
    {
        InteractionId(self.counter)
    }

    /// Remove the interaction with ID `id`, and return it, if there is one.
    pub fn remove(&mut self, id: InteractionId) -> (r: Option<I>)
        requires
            old(self).wf(),
        ensures
            final(self).wf(),
            final(self).spec_counter() == old(self).spec_counter(),
            final(self).spec_map() == old(self).spec_map().remove(id.spec_number() as usize),
            r == (if old(self).spec_map().contains_key(id.spec_number() as usize) {
                Some(old(self).spec_map()[id.spec_number() as usize])
            } else {
                None
            }),
    {
        proof {
            lemma_usize_keys_ordered();
        }
        let r = self.map.remove(&id.0);
        proof {
            assert forall|n: usize| #[trigger] self.spec_map().contains_key(n) implies 1 <= n <= self.spec_counter() by {
                assert(old(self).spec_map().contains_key(n));
            }
        }
        r
    }

    /// The interaction with ID `id`, if there is one.
    pub fn get(&self, id: InteractionId) -> (r: Option<&I>)
        ensures
            r == (if self.spec_map().contains_key(id.spec_number() as usize) {
                Some(&self.spec_map()[id.spec_number() as usize])
            } else {
                None
            }),
    {
        self.map.get(&id.0)
    }

    /// The IDs of the recorded interactions, in increasing order.
    pub fn ids(&self) -> (r: Vec<InteractionId>)
        ensures
            r@.len() == self.spec_map().len(),
            forall|j: int| 0 <= j < r@.len() ==> self.spec_map().contains_key(#[trigger] r@[j].spec_number() as usize),
            forall|i: int, j: int| 0 <= i < j < r@.len() ==> #[trigger] r@[i].spec_number() < #[trigger] r@[j].spec_number(),
            forall|n: usize| #[trigger] self.spec_map().contains_key(n) ==> exists|j: int| 0 <= j < r@.len() && r@[j].spec_number() == n,
    {
        proof {
            lemma_usize_keys_ordered();
        }
        let ghost ks = spec_keys_iter(&self.map).remaining();
        let mut r: Vec<InteractionId> = Vec::new();
        for k in it: self.map.keys()
            invariant
                it.seq() == ks,
                r@.len() == it.index(),
                forall|j: int| 0 <= j < it.index() ==> #[trigger] r@[j].spec_number() == *ks[j],
        {
            r.push(InteractionId(*k));
        }
        proof {
            lemma_keys_in_order(&self.map);
            assert forall|j: int| 0 <= j < r@.len() implies self.spec_map().contains_key(#[trigger] r@[j].spec_number() as usize) by {
                assert(ks.unref()[j] == *ks[j]);
                assert(ks.unref().to_set().contains(*ks[j]));
            }
            assert forall|n: usize| #[trigger] self.spec_map().contains_key(n)
                implies exists|j: int| 0 <= j < r@.len() && r@[j].spec_number() == n by {
                assert(ks.unref().to_set().contains(n));
                let j = choose|j: int| 0 <= j < ks.unref().len() && ks.unref()[j] == n;
                assert(r@[j].spec_number() == *ks[j]);
            }
        }
        r
    }

    /// Whether any recorded interaction is moving, as `moving` tells.
    pub fn any_moving<F: Fn(&I) -> bool>(&self, moving: F) -> (b: bool)
        requires
            forall|i: &I| moving.requires((i,)),
        ensures
            b ==> exists|n: usize| self.spec_map().contains_key(n) && #[trigger] moving.ensures((&self.spec_map()[n],), true),
            !b ==> forall|n: usize| self.spec_map().contains_key(n) ==> #[trigger] moving.ensures((&self.spec_map()[n],), false),
    {
        let ids = self.ids();
        let mut k: usize = 0;
        while k < ids.len()
            invariant
                k <= ids@.len(),
                forall|i: &I| moving.requires((i,)),
                forall|j: int| 0 <= j < ids@.len() ==> self.spec_map().contains_key(#[trigger] ids@[j].spec_number() as usize),
                forall|j: int| 0 <= j < k ==> #[trigger] moving.ensures((&self.spec_map()[ids@[j].spec_number() as usize],), false),
            decreases ids@.len() - k,
        {
            let id = ids[k];
            assert(self.spec_map().contains_key(ids@[k as int].spec_number() as usize));
            match self.get(id) {
                Some(i) => {
                    if moving(i) {
                        return true;
                    }
                },
                None => {},
            }
            k = k + 1;
        }
        proof {
            assert forall|n: usize| self.spec_map().contains_key(n) implies #[trigger] moving.ensures((&self.spec_map()[n],), false) by {
                let j = choose|j: int| 0 <= j < ids@.len() && ids@[j].spec_number() == n;
                assert(moving.ensures((&self.spec_map()[ids@[j].spec_number() as usize],), false));
            }
        }
        false
    }

    /// The number of interactions recorded.
    pub fn len(&self) -> (n: usize)
        ensures
            n == self.spec_map().len(),
    {
        self.map.len()
    }
}

} // verus!
