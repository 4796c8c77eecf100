//! A scene that keeps submission order exactly: consecutive primitives of one
//! kind share a batch, and a change of kind starts a new batch.
use vstd::prelude::*;
use crate::scene::{BatchWriter, TypedBatch, primitive_total, lemma_primitive_total_prefix, lemma_primitive_total_push, lemma_primitive_total_update};

verus! {

/// The batches after `kind`'s batch was looked up: the last batch when it has
/// that kind, else a new empty batch at the end.
pub open spec fn with_last_batch<P>(batches: Seq<(u64, Seq<P>)>, kind: u64) -> Seq<(u64, Seq<P>)> {
    if batches.len() > 0 && batches.last().0 == kind {
        batches
    } else {
        batches.push((kind, Seq::empty()))
    }
}

/// The batches after `primitives` of `kind` were appended to the last batch of that kind.
pub open spec fn ordered_extend<P>(batches: Seq<(u64, Seq<P>)>, kind: u64, primitives: Seq<P>) -> Seq<(u64, Seq<P>)> {
    let with = with_last_batch(batches, kind);
    with.update(with.len() - 1, (kind, with.last().1 + primitives))
}

/// The batches after one primitive of `kind` was added.
pub open spec fn ordered_insert<P>(batches: Seq<(u64, Seq<P>)>, kind: u64, primitive: P) -> Seq<(u64, Seq<P>)> {
    ordered_extend(batches, kind, seq![primitive])
}

/// The batches that a sequence of single pushes builds from an empty scene.
pub open spec fn ordered_of<P>(submissions: Seq<(u64, P)>) -> Seq<(u64, Seq<P>)>
    decreases submissions.len(),
{
    if submissions.len() == 0 {
        Seq::empty()
    } else {
        ordered_insert(ordered_of(submissions.drop_last()), submissions.last().0, submissions.last().1)
    }
}

/// The primitives of all batches, each tagged with its batch's kind, in batch order.
pub open spec fn tagged<P>(batches: Seq<(u64, Seq<P>)>) -> Seq<(u64, P)>
    decreases batches.len(),
{
    if batches.len() == 0 {
        Seq::empty()
    } else {
        let last = batches.last();
        tagged(batches.drop_last()) + last.1.map_values(|p: P| (last.0, p))
    }
}

/// Neighbouring batches have different kinds.
pub open spec fn neighbours_differ<P>(batches: Seq<(u64, Seq<P>)>) -> bool {
    forall|i: int| 0 <= i < batches.len() - 1 ==> #[trigger] batches[i].0 != batches[i + 1].0
}

/// Adding primitives keeps neighbouring batches of different kinds.
pub proof fn lemma_ordered_extend<P>(batches: Seq<(u64, Seq<P>)>, kind: u64, primitives: Seq<P>)
    requires
        neighbours_differ(batches),
    ensures
        neighbours_differ(ordered_extend(batches, kind, primitives)),
        primitive_total(ordered_extend(batches, kind, primitives)) == primitive_total(batches) + primitives.len(),
{
    let with = with_last_batch(batches, kind);
    let r = ordered_extend(batches, kind, primitives);
    if batches.len() > 0 && batches.last().0 == kind {
        lemma_primitive_total_update(batches, batches.len() - 1, (kind, batches.last().1 + primitives));
    } else {
        lemma_primitive_total_push(batches, (kind, Seq::empty()));
        lemma_primitive_total_update(with, with.len() - 1, (kind, primitives));
        assert(Seq::<P>::empty() + primitives =~= primitives);
    }
    assert forall|i: int| 0 <= i < r.len() - 1 implies #[trigger] r[i].0 != r[i + 1].0 by {
        if batches.len() > 0 && batches.last().0 == kind {
            assert(r[i].0 == batches[i].0 && r[i + 1].0 == batches[i + 1].0);
        } else if i + 1 < batches.len() {
            assert(r[i] == batches[i] && r[i + 1] == batches[i + 1]);
        } else {
            assert(r[i] == batches[i]);
        }
    }
}

proof fn lemma_tagged_last_update<P>(batches: Seq<(u64, Seq<P>)>, extra: Seq<P>)
    requires
        batches.len() > 0,
    ensures
        tagged(batches.update(batches.len() - 1, (batches.last().0, batches.last().1 + extra))) == tagged(batches)
            + extra.map_values(|p: P| (batches.last().0, p)),
{
    let k = batches.last().0;
    let u = batches.update(batches.len() - 1, (k, batches.last().1 + extra));
    assert(u.drop_last() =~= batches.drop_last());
    assert((batches.last().1 + extra).map_values(|p: P| (k, p)) =~= batches.last().1.map_values(|p: P| (k, p))
        + extra.map_values(|p: P| (k, p)));
}

/// A scene built by pushes lists every primitive exactly once, in submission
/// order, each under the kind it was submitted with; neighbouring batches
/// never share a kind, so a batch starts exactly where the kind changes.
pub proof fn lemma_ordered_preserves_submission_order<P>(submissions: Seq<(u64, P)>)
    ensures
        tagged(ordered_of(submissions)) == submissions,
        neighbours_differ(ordered_of(submissions)),
        primitive_total(ordered_of(submissions)) == submissions.len(),
    decreases submissions.len(),
{
    if submissions.len() > 0 {
        let t = submissions.drop_last();
        let (k, p) = submissions.last();
        lemma_ordered_preserves_submission_order(t);
        let b = ordered_of(t);
        lemma_ordered_extend(b, k, seq![p]);
        let with = with_last_batch(b, k);
        if !(b.len() > 0 && b.last().0 == k) {
            assert(with.drop_last() =~= b);
            assert(Seq::<P>::empty().map_values(|q: P| (k, q)) =~= Seq::<(u64, P)>::empty());
            assert(tagged(with) =~= tagged(b));
        }
        lemma_tagged_last_update(with, seq![p]);
        assert(seq![p].map_values(|q: P| (k, q)) =~= seq![(k, p)]);
        assert(submissions =~= t + seq![(k, p)]);
    }
}

/// An ordered collection of drawing primitives with its clip bounds.
///
/// Consecutive primitives of the same kind are stored together in a batch.
/// Starting a batch for a different kind preserves submission order by
/// creating a new batch.
pub struct Scene<B, P> {
    pub clip_bounds: B,
    batches: Vec<TypedBatch<P>>,
}

impl<B, P> Scene<B, P> {
    /// The batches as their kinds and primitives, in batch order.
    pub closed spec fn view(&self) -> Seq<(u64, Seq<P>)> {
        self.batches@.map_values(|b: TypedBatch<P>| b@)
    }

    pub closed spec fn bounds(&self) -> B {
        self.clip_bounds
    }

    /// Neighbouring batches never share a kind.
    pub open spec fn wf(&self) -> bool {
        neighbours_differ(self@)
    }

    pub fn new(clip_bounds: B) -> (scene: Self)
        ensures
            scene.bounds() == clip_bounds,
            scene@ == Seq::<(u64, Seq<P>)>::empty(),
            scene.wf(),
    {
        let scene = Scene { clip_bounds, batches: Vec::new() };
        assert(scene@ =~= Seq::<(u64, Seq<P>)>::empty());
        scene
    }

    fn last_batch_index(&mut self, kind: u64) -> (i: usize)
        requires
            old(self).wf(),
        ensures
            final(self).wf(),
            final(self).bounds() == old(self).bounds(),
            final(self)@ == with_last_batch(old(self)@, kind),
            i == final(self)@.len() - 1,
            final(self)@[i as int].0 == kind,
    {
        let len = self.batches.len();
        if len > 0 && self.batches[len - 1].kind() == kind {
            proof {
                assert(self.batches@[len - 1]@ == self@[len - 1]);
            }
            return len - 1;
        }
        let ghost before = self@;
        self.batches.push(TypedBatch::new(kind));
        proof {
            assert(self@ =~= before.push((kind, Seq::empty())));
            if len > 0 {
                assert(before[len - 1] == self.batches@[len - 1]@);
            }
            lemma_ordered_extend(before, kind, Seq::empty());
            assert(ordered_extend(before, kind, Seq::<P>::empty()) =~= self@);
        }
        len
    }

    /// Adds a primitive: to the last batch when its kind matches, otherwise
    /// in a new batch.
    pub fn push(&mut self, kind: u64, primitive: P)
        requires
            old(self).wf(),
        ensures
            final(self).wf(),
            final(self).bounds() == old(self).bounds(),
            final(self)@ == ordered_insert(old(self)@, kind, primitive),
    {
        let i = self.last_batch_index(kind);
        let ghost with = self@;
        proof {
            lemma_ordered_extend(old(self)@, kind, seq![primitive]);
        }
        let mut primitives = Vec::new();
        primitives.push(primitive);
        self.batches[i].append_primitives(&mut primitives);
        proof {
            assert(self@ =~= with.update(i as int, (kind, with[i as int].1 + seq![primitive])));
        }
    }

    /// Adds several primitives to one consecutive batch; no batch is created for none.
    pub fn extend(&mut self, kind: u64, primitives: Vec<P>)
        requires
            old(self).wf(),
        ensures
            final(self).wf(),
            final(self).bounds() == old(self).bounds(),
            primitives@.len() == 0 ==> final(self)@ == old(self)@,
            primitives@.len() > 0 ==> final(self)@ == ordered_extend(old(self)@, kind, primitives@),
    {
        if primitives.len() == 0 {
            return;
        }
        let i = self.last_batch_index(kind);
        let ghost with = self@;
        proof {
            lemma_ordered_extend(old(self)@, kind, primitives@);
        }
        let mut primitives = primitives;
        let ghost added = primitives@;
        self.batches[i].append_primitives(&mut primitives);
        proof {
            assert(self@ =~= with.update(i as int, (kind, with[i as int].1 + added)));
        }
    }

    /// Returns a writer for the current batch of `kind`, starting a new batch
    /// when the last batch holds another kind.
    pub fn batch(&mut self, kind: u64) -> (writer: BatchWriter<'_, P>)
        requires
            old(self).wf(),
        ensures
            ({
                let with = with_last_batch(old(self)@, kind);
                &&& writer.primitives@ == with.last().1
                &&& final(self)@ == with.update(with.len() - 1, (kind, final(writer.primitives)@))
                &&& final(self).bounds() == old(self).bounds()
            }),
            final(self).wf(),
    {
        let i = self.last_batch_index(kind);
        proof {
            let with = self@;
            assert forall|primitives: Seq<P>| neighbours_differ(#[trigger] with.update(i as int, (kind, primitives))) by {
                let u = with.update(i as int, (kind, primitives));
                assert forall|a: int| 0 <= a < u.len() - 1 implies #[trigger] u[a].0 != u[a + 1].0 by {
                    assert(u[a].0 == with[a].0 && u[a + 1].0 == with[a + 1].0);
                }
            }
        }
        let batch = &mut self.batches[i];
        batch.writer()
    }

    pub fn is_empty(&self) -> (b: bool)
        ensures
            b == (primitive_total(self@) == 0),
    {
        let mut i: usize = 0;
        while i < self.batches.len()
            invariant
                0 <= i <= self@.len(),
                self.batches@.len() == self@.len(),
                primitive_total(self@.subrange(0, i as int)) == 0,
            decreases self@.len() - i,
        {
            proof {
                assert(self.batches@[i as int]@ == self@[i as int]);
                assert(self@.subrange(0, i + 1).drop_last() =~= self@.subrange(0, i as int));
            }
            if !self.batches[i].is_empty() {
                proof {
                    lemma_primitive_total_prefix(self@, i + 1);
                }
                return false;
            }
            i += 1;
        }
        proof {
            assert(self@.subrange(0, i as int) =~= self@);
        }
        true
    }

    /// The number of primitives in all batches.
    pub fn len(&self) -> (n: usize)
        requires
            primitive_total(self@) <= usize::MAX,
        ensures
            n == primitive_total(self@),
    {
        let mut total: usize = 0;
        let mut i: usize = 0;
        while i < self.batches.len()
            invariant
                0 <= i <= self@.len(),
                self.batches@.len() == self@.len(),
                primitive_total(self@) <= usize::MAX,
                total == primitive_total(self@.subrange(0, i as int)),
            decreases self@.len() - i,
        {
            proof {
                assert(self.batches@[i as int]@ == self@[i as int]);
                assert(self@.subrange(0, i + 1).drop_last() =~= self@.subrange(0, i as int));
                lemma_primitive_total_prefix(self@, i + 1);
            }
            total = total + self.batches[i].len();
            i += 1;
        }
        proof {
            assert(self@.subrange(0, i as int) =~= self@);
        }
        total
    }

    pub fn batch_count(&self) -> (n: usize)
        ensures
            n == self@.len(),
    {
        self.batches.len()
    }

    pub fn clear(&mut self)
        ensures
            final(self)@ == Seq::<(u64, Seq<P>)>::empty(),
            final(self).wf(),
            final(self).bounds() == old(self).bounds(),
    {
        self.batches.clear();
        assert(self@ =~= Seq::<(u64, Seq<P>)>::empty());
    }

    /// The batches, in submission order.
    pub fn batches(&self) -> (batches: &[TypedBatch<P>])
        ensures
            batches@.map_values(|b: TypedBatch<P>| b@) == self@,
    {
        self.batches.as_slice()
    }
}

} // verus!
