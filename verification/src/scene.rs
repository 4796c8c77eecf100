//! Layers that group primitives into one batch per primitive kind, and the
//! strictly ordered scenes made of them.
//!
//! A primitive's kind stands for its type: every primitive of one kind is
//! prepared and drawn by the same primitive renderer.
use vstd::prelude::*;

verus! {

/// The primitives of one kind within a layer, in submission order.
pub struct TypedBatch<P> {
    kind: u64,
    primitives: Vec<P>,
}

impl<P> TypedBatch<P> {
    pub closed spec fn kind_spec(&self) -> u64 {
        self.kind
    }

    /// The batch as its kind and its primitives.
    pub closed spec fn view(&self) -> (u64, Seq<P>) {
        (self.kind, self.primitives@)
    }

    pub fn new(kind: u64) -> (batch: Self)
        ensures
            batch@ == (kind, Seq::<P>::empty()),
    {
        TypedBatch { kind, primitives: Vec::new() }
    }

    pub fn kind(&self) -> (k: u64)
        ensures
            k == self@.0,
    {
        self.kind
    }

    pub fn primitives(&self) -> (primitives: &[P])
        ensures
            primitives@ == self@.1,
    {
        self.primitives.as_slice()
    }

    pub fn primitives_mut(&mut self) -> (primitives: &mut [P])
        ensures
            primitives@ == old(self)@.1,
            final(self)@ == (old(self)@.0, final(primitives)@),
    {
        self.primitives.as_mut_slice()
    }

    pub fn len(&self) -> (n: usize)
        ensures
            n == self@.1.len(),
    {
        self.primitives.len()
    }

    fn push(&mut self, primitive: P)
        ensures
            final(self)@ == (old(self)@.0, old(self)@.1.push(primitive)),
    {
        self.primitives.push(primitive);
    }

    pub(crate) fn append_primitives(&mut self, primitives: &mut Vec<P>)
        ensures
            final(self)@ == (old(self)@.0, old(self)@.1 + old(primitives)@),
    {
        self.primitives.append(primitives);
    }

    pub(crate) fn writer(&mut self) -> (writer: BatchWriter<'_, P>)
        ensures
            writer.primitives@ == old(self)@.1,
            final(self)@ == (old(self)@.0, final(writer.primitives)@),
    {
        BatchWriter { primitives: &mut self.primitives }
    }

    pub fn is_empty(&self) -> (b: bool)
        ensures
            b == (self@.1.len() == 0),
    {
        self.primitives.len() == 0
    }
}

/// A writer for one batch.
pub struct BatchWriter<'a, P> {
    /// The primitives of the batch, borrowed from its layer or scene until
    /// the writer is dropped.
    pub primitives: &'a mut Vec<P>,
}

impl<'a, P> BatchWriter<'a, P> {
    pub fn push(&mut self, primitive: P)
        ensures
            final(self).primitives@ == old(self).primitives@.push(primitive),
            final(final(self).primitives)@ == final(old(self).primitives)@,
    {
        self.primitives.push(primitive);
    }

    pub fn extend(&mut self, primitives: Vec<P>)
        ensures
            final(self).primitives@ == old(self).primitives@ + primitives@,
            final(final(self).primitives)@ == final(old(self).primitives)@,
    {
        let mut primitives = primitives;
        self.primitives.append(&mut primitives);
    }

    pub fn is_empty(&self) -> (b: bool)
        ensures
            b == (old(self.primitives)@.len() == 0),
    {
        self.primitives.len() == 0
    }

    pub fn len(&self) -> (n: usize)
        ensures
            n == old(self.primitives)@.len(),
    {
        self.primitives.len()
    }
}

/// Index of the first batch at or after `from` whose kind is `kind`, or the batch count.
pub open spec fn position_from<P>(batches: Seq<(u64, Seq<P>)>, kind: u64, from: int) -> int
    decreases batches.len() - from,
{
    if from < 0 || from >= batches.len() {
        batches.len() as int
    } else if batches[from].0 == kind {
        from
    } else {
        position_from(batches, kind, from + 1)
    }
}

/// Index of the batch of `kind`, or the batch count when there is none.
pub open spec fn batch_position<P>(batches: Seq<(u64, Seq<P>)>, kind: u64) -> int {
    position_from(batches, kind, 0)
}

/// No two batches share a kind.
pub open spec fn kinds_distinct<P>(batches: Seq<(u64, Seq<P>)>) -> bool {
    forall|i: int, j: int| 0 <= i < j < batches.len() ==> #[trigger] batches[i].0 != #[trigger] batches[j].0
}

/// The batches after `kind`'s batch was looked up, appending an empty one when missing.
pub open spec fn layer_with_batch<P>(batches: Seq<(u64, Seq<P>)>, kind: u64) -> Seq<(u64, Seq<P>)> {
    if batch_position(batches, kind) < batches.len() {
        batches
    } else {
        batches.push((kind, Seq::empty()))
    }
}

/// The batches after `primitives` were appended to the batch of `kind`,
/// which is created at the end when the kind has not appeared before.
pub open spec fn layer_extend<P>(batches: Seq<(u64, Seq<P>)>, kind: u64, primitives: Seq<P>) -> Seq<(u64, Seq<P>)> {
    let with = layer_with_batch(batches, kind);
    let i = batch_position(with, kind);
    with.update(i, (kind, with[i].1 + primitives))
}

/// The batches after one primitive of `kind` was added.
pub open spec fn layer_insert<P>(batches: Seq<(u64, Seq<P>)>, kind: u64, primitive: P) -> Seq<(u64, Seq<P>)> {
    layer_extend(batches, kind, seq![primitive])
}

/// The batches that a sequence of single pushes builds from an empty layer.
pub open spec fn layer_of<P>(submissions: Seq<(u64, P)>) -> Seq<(u64, Seq<P>)>
    decreases submissions.len(),
{
    if submissions.len() == 0 {
        Seq::empty()
    } else {
        layer_insert(layer_of(submissions.drop_last()), submissions.last().0, submissions.last().1)
    }
}

/// The primitives of `kind` among `submissions`, in submission order.
pub open spec fn of_kind<P>(submissions: Seq<(u64, P)>, kind: u64) -> Seq<P>
    decreases submissions.len(),
{
    if submissions.len() == 0 {
        Seq::empty()
    } else if submissions.last().0 == kind {
        of_kind(submissions.drop_last(), kind).push(submissions.last().1)
    } else {
        of_kind(submissions.drop_last(), kind)
    }
}

/// Index of the first submission of `kind`, or the submission count.
pub open spec fn first_submission<P>(submissions: Seq<(u64, P)>, kind: u64) -> int
    decreases submissions.len(),
{
    if submissions.len() == 0 {
        0
    } else {
        let before = first_submission(submissions.drop_last(), kind);
        if before < submissions.len() - 1 {
            before
        } else if submissions.last().0 == kind {
            submissions.len() - 1
        } else {
            submissions.len() as int
        }
    }
}

/// The number of primitives in all batches.
pub open spec fn primitive_total<P>(batches: Seq<(u64, Seq<P>)>) -> nat
    decreases batches.len(),
{
    if batches.len() == 0 {
        0
    } else {
        primitive_total(batches.drop_last()) + batches.last().1.len()
    }
}

/// Every batch is empty.
pub open spec fn all_batches_empty<P>(batches: Seq<(u64, Seq<P>)>) -> bool {
    forall|i: int| 0 <= i < batches.len() ==> #[trigger] batches[i].1.len() == 0
}

pub proof fn lemma_position_from<P>(batches: Seq<(u64, Seq<P>)>, kind: u64, from: int)
    requires
        0 <= from <= batches.len(),
    ensures
        from <= position_from(batches, kind, from) <= batches.len(),
        position_from(batches, kind, from) < batches.len() ==> batches[position_from(batches, kind, from)].0 == kind,
        forall|j: int| from <= j < position_from(batches, kind, from) ==> #[trigger] batches[j].0 != kind,
    decreases batches.len() - from,
{
    if from < batches.len() && batches[from].0 != kind {
        lemma_position_from(batches, kind, from + 1);
    }
}

/// A lookup finds the batch of `kind` exactly when one exists.
pub proof fn lemma_batch_position<P>(batches: Seq<(u64, Seq<P>)>, kind: u64)
    ensures
        0 <= batch_position(batches, kind) <= batches.len(),
        batch_position(batches, kind) < batches.len() ==> batches[batch_position(batches, kind)].0 == kind,
        forall|j: int| 0 <= j < batch_position(batches, kind) ==> #[trigger] batches[j].0 != kind,
{
    lemma_position_from(batches, kind, 0);
}

/// Adding primitives keeps at most one batch per kind, leaves every other
/// batch as it was, and appends to the batch of `kind` at its old position
/// or, for a new kind, at the end.
pub proof fn lemma_layer_extend<P>(batches: Seq<(u64, Seq<P>)>, kind: u64, primitives: Seq<P>)
    requires
        kinds_distinct(batches),
    ensures
        kinds_distinct(layer_extend(batches, kind, primitives)),
        batch_position(batches, kind) < batches.len() ==> layer_extend(batches, kind, primitives) == batches.update(
            batch_position(batches, kind),
            (kind, batches[batch_position(batches, kind)].1 + primitives),
        ),
        batch_position(batches, kind) == batches.len() ==> layer_extend(batches, kind, primitives) == batches.push((kind, primitives)),
        primitive_total(layer_extend(batches, kind, primitives)) == primitive_total(batches) + primitives.len(),
{
    lemma_batch_position(batches, kind);
    let with = layer_with_batch(batches, kind);
    lemma_batch_position(with, kind);
    if batch_position(batches, kind) == batches.len() {
        assert(with[batches.len() as int].0 == kind);
        assert forall|j: int| 0 <= j < batches.len() implies #[trigger] with[j].0 != kind by {
            assert(with[j] == batches[j]);
        }
        assert(batch_position(with, kind) == batches.len()) by {
            if batch_position(with, kind) < batches.len() {
                assert(with[batch_position(with, kind)] == batches[batch_position(with, kind)]);
            }
        }
        assert(layer_extend(batches, kind, primitives) =~= batches.push((kind, primitives)));
        lemma_primitive_total_push(batches, (kind, primitives));
    } else {
        lemma_primitive_total_update(batches, batch_position(batches, kind), (kind, batches[batch_position(batches, kind)].1 + primitives));
    }
    let r = layer_extend(batches, kind, primitives);
    assert forall|i: int, j: int| 0 <= i < j < r.len() implies #[trigger] r[i].0 != #[trigger] r[j].0 by {
        if batch_position(batches, kind) == batches.len() {
            if j == batches.len() {
                assert(r[i] == batches[i]);
            } else {
                assert(r[i] == batches[i] && r[j] == batches[j]);
            }
        } else {
            let p = batch_position(batches, kind);
            if i != p && j != p {
                assert(r[i] == batches[i] && r[j] == batches[j]);
            } else if i == p {
                assert(r[j] == batches[j]);
                assert(batches[i].0 != batches[j].0);
            } else {
                assert(r[i] == batches[i]);
                assert(batches[i].0 != batches[j].0);
            }
        }
    }
}

pub proof fn lemma_primitive_total_push<P>(batches: Seq<(u64, Seq<P>)>, batch: (u64, Seq<P>))
    ensures
        primitive_total(batches.push(batch)) == primitive_total(batches) + batch.1.len(),
{
    assert(batches.push(batch).drop_last() =~= batches);
}

pub proof fn lemma_primitive_total_update<P>(batches: Seq<(u64, Seq<P>)>, i: int, batch: (u64, Seq<P>))
    requires
        0 <= i < batches.len(),
    ensures
        primitive_total(batches.update(i, batch)) == primitive_total(batches) - batches[i].1.len() + batch.1.len(),
    decreases batches.len(),
{
    let u = batches.update(i, batch);
    if i == batches.len() - 1 {
        assert(u.drop_last() =~= batches.drop_last());
    } else {
        assert(u.drop_last() =~= batches.drop_last().update(i, batch));
        lemma_primitive_total_update(batches.drop_last(), i, batch);
    }
}

proof fn lemma_first_submission_bound<P>(s: Seq<(u64, P)>, k: u64, j: int)
    requires
        0 <= j < s.len(),
        s[j].0 == k,
    ensures
        first_submission(s, k) <= j,
    decreases s.len(),
{
    if j < s.len() - 1 {
        assert(s.drop_last()[j] == s[j]);
        lemma_first_submission_bound(s.drop_last(), k, j);
    } else {
        lemma_first_submission_range(s.drop_last(), k);
    }
}

proof fn lemma_first_submission_range<P>(s: Seq<(u64, P)>, k: u64)
    ensures
        0 <= first_submission(s, k) <= s.len(),
    decreases s.len(),
{
    if s.len() > 0 {
        lemma_first_submission_range(s.drop_last(), k);
    }
}

proof fn lemma_layer_of_induction<P>(s: Seq<(u64, P)>)
    ensures
        kinds_distinct(layer_of(s)),
        primitive_total(layer_of(s)) == s.len(),
        forall|i: int| 0 <= i < layer_of(s).len() ==> #[trigger] layer_of(s)[i].1 == of_kind(s, layer_of(s)[i].0),
        forall|i: int| 0 <= i < layer_of(s).len() ==> first_submission(s, #[trigger] layer_of(s)[i].0) < s.len(),
        forall|i: int, j: int|
            0 <= i < j < layer_of(s).len() ==> first_submission(s, #[trigger] layer_of(s)[i].0) < first_submission(
                s,
                #[trigger] layer_of(s)[j].0,
            ),
        forall|k: u64|
            #[trigger] batch_position(layer_of(s), k) == layer_of(s).len() ==> of_kind(s, k).len() == 0 && first_submission(
                s,
                k,
            ) == s.len(),
    decreases s.len(),
{
    if s.len() > 0 {
        let t = s.drop_last();
        let (k, p) = s.last();
        lemma_layer_of_induction(t);
        let l = layer_of(t);
        let r = layer_of(s);
        assert(r == layer_insert(l, k, p));
        lemma_layer_extend(l, k, seq![p]);
        lemma_batch_position(l, k);
        lemma_first_submission_range(t, k);
        let pos = batch_position(l, k);
        assert forall|i: int| 0 <= i < r.len() implies #[trigger] r[i].1 == of_kind(s, r[i].0) by {
            if i == pos {
                if pos < l.len() {
                    assert(l[i].1 + seq![p] =~= of_kind(t, k).push(p));
                } else {
                    assert(of_kind(t, k) =~= Seq::<P>::empty());
                    assert(seq![p] =~= of_kind(t, k).push(p));
                }
            } else {
                assert(r[i] == l[i]);
                assert(l[i].0 != k) by {
                    if pos < l.len() {
                        assert(l[pos].0 == k);
                    }
                }
            }
        }
        assert forall|i: int| 0 <= i < r.len() implies first_submission(s, #[trigger] r[i].0) < s.len() by {
            if i == pos {
            } else {
                assert(r[i] == l[i]);
                lemma_first_submission_range(t, r[i].0);
            }
        }
        assert forall|i: int, j: int| 0 <= i < j < r.len() implies first_submission(s, #[trigger] r[i].0) < first_submission(
            s,
            #[trigger] r[j].0,
        ) by {
            if pos < l.len() {
                assert(r[i].0 == l[i].0 && r[j].0 == l[j].0);
                lemma_first_submission_range(t, l[i].0);
                lemma_first_submission_range(t, l[j].0);
            } else {
                assert(r[i] == l[i]);
                if j < l.len() {
                    assert(r[j] == l[j]);
                    lemma_first_submission_range(t, l[j].0);
                } else {
                    lemma_first_submission_range(t, l[i].0);
                }
            }
        }
        assert forall|kk: u64| #[trigger] batch_position(r, kk) == r.len() implies of_kind(s, kk).len() == 0 && first_submission(
            s,
            kk,
        ) == s.len() by {
            lemma_batch_position(r, kk);
            lemma_batch_position(l, kk);
            if kk == k {
                assert(r[pos].0 == k);
                assert(false);
            } else {
                if batch_position(l, kk) < l.len() {
                    let q = batch_position(l, kk);
                    assert(r[q] == l[q]) by {
                        if q == pos {
                            assert(l[pos].0 == k);
                        }
                    }
                    assert(r[q].0 == kk);
                    assert(false);
                }
            }
        }
    }
}

/// A layer built by pushes holds at most one batch per kind, and the batch
/// of each kind holds exactly the primitives submitted with that kind, in
/// submission order; no primitive is lost or duplicated.
pub proof fn lemma_layer_groups_by_kind<P>(submissions: Seq<(u64, P)>)
    ensures
        kinds_distinct(layer_of(submissions)),
        forall|i: int|
            0 <= i < layer_of(submissions).len() ==> #[trigger] layer_of(submissions)[i].1 == of_kind(
                submissions,
                layer_of(submissions)[i].0,
            ),
        forall|j: int| 0 <= j < submissions.len() ==> batch_position(layer_of(submissions), #[trigger] submissions[j].0) < layer_of(submissions).len(),
        primitive_total(layer_of(submissions)) == submissions.len(),
{
    lemma_layer_of_induction(submissions);
    assert forall|j: int| 0 <= j < submissions.len() implies batch_position(layer_of(submissions), #[trigger] submissions[j].0) < layer_of(
        submissions,
    ).len() by {
        lemma_batch_position(layer_of(submissions), submissions[j].0);
        lemma_first_submission_bound(submissions, submissions[j].0, j);
    }
}

/// The batches of a layer built by pushes are ordered by the first
/// appearance of their kinds.
pub proof fn lemma_layer_batch_order<P>(submissions: Seq<(u64, P)>)
    ensures
        forall|i: int, j: int|
            0 <= i < j < layer_of(submissions).len() ==> first_submission(submissions, #[trigger] layer_of(submissions)[i].0)
                < first_submission(submissions, #[trigger] layer_of(submissions)[j].0),
{
    lemma_layer_of_induction(submissions);
}

/// The batches after pushing each of `primitives` with `kind`, in order.
pub open spec fn push_each<P>(batches: Seq<(u64, Seq<P>)>, kind: u64, primitives: Seq<P>) -> Seq<(u64, Seq<P>)>
    decreases primitives.len(),
{
    if primitives.len() == 0 {
        batches
    } else {
        layer_insert(push_each(batches, kind, primitives.drop_last()), kind, primitives.last())
    }
}

/// Extending a layer with several primitives of one kind is the same as
/// pushing them one by one.
pub proof fn lemma_extend_is_push_each<P>(batches: Seq<(u64, Seq<P>)>, kind: u64, primitives: Seq<P>)
    requires
        kinds_distinct(batches),
        primitives.len() > 0,
    ensures
        layer_extend(batches, kind, primitives) == push_each(batches, kind, primitives),
    decreases primitives.len(),
{
    let init = primitives.drop_last();
    let x = primitives.last();
    if init.len() == 0 {
        assert(primitives =~= seq![x]);
    } else {
        lemma_extend_is_push_each(batches, kind, init);
        let e = layer_extend(batches, kind, init);
        lemma_layer_extend(batches, kind, init);
        lemma_batch_position(batches, kind);
        lemma_batch_position(e, kind);
        let pos = batch_position(batches, kind);
        assert(batch_position(e, kind) == pos) by {
            assert(e[pos].0 == kind);
            if batch_position(e, kind) < pos {
                assert(e[batch_position(e, kind)] == batches[batch_position(e, kind)]);
            }
        }
        lemma_layer_extend(e, kind, seq![x]);
        lemma_layer_extend(batches, kind, primitives);
        let base = if pos < batches.len() { batches[pos].1 } else { Seq::<P>::empty() };
        assert(e[pos].1 == base + init);
        assert(e[pos].1 + seq![x] =~= base + primitives) by {
            assert(init + seq![x] =~= primitives);
            assert(base + init + seq![x] =~= base + (init + seq![x]));
        }
        assert(layer_extend(e, kind, seq![x]) =~= layer_extend(batches, kind, primitives));
    }
}

/// A layer: its clip bounds and one batch per primitive kind.
///
/// The first occurrence of a kind establishes that batch's position relative
/// to other kinds; later primitives of the same kind join the existing batch
/// regardless of intervening submissions. Same-kind insertion order is
/// preserved, while cross-kind submission order after first occurrence is
/// intentionally ignored.
pub struct Layer<B, P> {
    pub clip_bounds: B,
    batches: Vec<TypedBatch<P>>,
}

impl<B, P> Layer<B, P> {
    /// The batches as their kinds and primitives, in batch order.
    pub closed spec fn view(&self) -> Seq<(u64, Seq<P>)> {
        self.batches@.map_values(|b: TypedBatch<P>| b@)
    }

    pub closed spec fn bounds(&self) -> B {
        self.clip_bounds
    }

    /// At most one batch per kind.
    pub open spec fn wf(&self) -> bool {
        kinds_distinct(self@)
    }

    pub fn new(clip_bounds: B) -> (layer: Self)
        ensures
            layer.bounds() == clip_bounds,
            layer@ == Seq::<(u64, Seq<P>)>::empty(),
            layer.wf(),
    {
        let layer = Layer { clip_bounds, batches: Vec::new() };
        assert(layer@ =~= Seq::<(u64, Seq<P>)>::empty());
        layer
    }

    fn batch_index(&mut self, kind: u64) -> (i: usize)
        requires
            old(self).wf(),
        ensures
            final(self).wf(),
            final(self).bounds() == old(self).bounds(),
            final(self)@ == layer_with_batch(old(self)@, kind),
            i == batch_position(final(self)@, kind),
            i < final(self)@.len(),
    {
        let mut i: usize = 0;
        while i < self.batches.len()
            invariant
                0 <= i <= self@.len(),
                self@ == old(self)@,
                kinds_distinct(self@),
                self.batches@.len() == self@.len(),
                self.clip_bounds == old(self).clip_bounds,
                forall|j: int| 0 <= j < i ==> #[trigger] self@[j].0 != kind,
            decreases self@.len() - i,
        {
            if self.batches[i].kind() == kind {
                proof {
                    lemma_batch_position(self@, kind);
                    if batch_position(self@, kind) < i {
                        assert(self@[batch_position(self@, kind)].0 != kind);
                    }
                    assert(self.batches@[i as int]@ == self@[i as int]);
                }
                return i;
            }
            proof {
                assert(self.batches@[i as int]@ == self@[i as int]);
            }
            i += 1;
        }
        proof {
            lemma_batch_position(self@, kind);
        }
        let ghost before = self@;
        self.batches.push(TypedBatch::new(kind));
        proof {
            assert(self@ =~= before.push((kind, Seq::empty())));
            lemma_layer_extend(before, kind, Seq::empty());
            assert(layer_extend(before, kind, Seq::<P>::empty()) =~= before.push((kind, Seq::empty())));
            lemma_batch_position(self@, kind);
            assert(self@[i as int].0 == kind);
            if batch_position(self@, kind) < i {
                assert(self@[batch_position(self@, kind)] == before[batch_position(self@, kind)]);
            }
        }
        i
    }

    /// Returns a writer for this layer's batch of `kind`, creating the batch
    /// at the end when the kind has not appeared in the layer.
    pub fn batch(&mut self, kind: u64) -> (writer: BatchWriter<'_, P>)
        requires
            old(self).wf(),
        ensures
            ({
                let with = layer_with_batch(old(self)@, kind);
                let i = batch_position(with, kind);
                &&& 0 <= i < with.len()
                &&& writer.primitives@ == with[i].1
                &&& final(self)@ == with.update(i, (kind, final(writer.primitives)@))
                &&& final(self).bounds() == old(self).bounds()
            }),
            final(self).wf(),
    {
        let i = self.batch_index(kind);
        proof {
            lemma_batch_position(self@, kind);
            let with = self@;
            assert forall|primitives: Seq<P>| kinds_distinct(#[trigger] with.update(i as int, (kind, primitives))) by {
                let u = with.update(i as int, (kind, primitives));
                assert forall|a: int, b: int| 0 <= a < b < u.len() implies #[trigger] u[a].0 != #[trigger] u[b].0 by {
                    assert(u[a].0 == with[a].0 && u[b].0 == with[b].0);
                }
            }
        }
        let batch = &mut self.batches[i];
        batch.writer()
    }

    /// Adds a primitive to the batch of its kind.
    pub fn push(&mut self, kind: u64, primitive: P)
        requires
            old(self).wf(),
        ensures
            final(self).wf(),
            final(self).bounds() == old(self).bounds(),
            final(self)@ == layer_insert(old(self)@, kind, primitive),
    {
        let i = self.batch_index(kind);
        let ghost with = self@;
        proof {
            lemma_batch_position(with, kind);
            lemma_layer_extend(old(self)@, kind, seq![primitive]);
        }
        self.batches[i].push(primitive);
        proof {
            assert(with[i as int].1.push(primitive) =~= with[i as int].1 + seq![primitive]);
            assert(self@ =~= with.update(i as int, (kind, with[i as int].1 + seq![primitive])));
        }
    }

    /// Adds several primitives to one batch; no batch is created for none.
    pub fn extend(&mut self, kind: u64, primitives: Vec<P>)
        requires
            old(self).wf(),
        ensures
            final(self).wf(),
            final(self).bounds() == old(self).bounds(),
            primitives@.len() == 0 ==> final(self)@ == old(self)@,
            primitives@.len() > 0 ==> final(self)@ == layer_extend(old(self)@, kind, primitives@),
    {
        if primitives.len() == 0 {
            return;
        }
        let i = self.batch_index(kind);
        let ghost with = self@;
        proof {
            lemma_batch_position(with, kind);
            lemma_layer_extend(old(self)@, kind, primitives@);
        }
        let mut primitives = primitives;
        let ghost added = primitives@;
        self.batches[i].append_primitives(&mut primitives);
        proof {
            assert(self@ =~= with.update(i as int, (kind, with[i as int].1 + added)));
        }
    }

    pub fn is_empty(&self) -> (b: bool)
        ensures
            b == all_batches_empty(self@),
    {
        let mut i: usize = 0;
        while i < self.batches.len()
            invariant
                0 <= i <= self@.len(),
                self.batches@.len() == self@.len(),
                forall|j: int| 0 <= j < i ==> #[trigger] self@[j].1.len() == 0,
            decreases self@.len() - i,
        {
            proof {
                assert(self.batches@[i as int]@ == self@[i as int]);
            }
            if !self.batches[i].is_empty() {
                return false;
            }
            i += 1;
        }
        true
    }

    /// The number of primitives in all batches.
    pub fn len(&self) -> (n: usize)
        requires
            primitive_total(self@) <= usize::MAX,
        ensures
            n == primitive_total(self@),
    {
        let mut total: usize = 0;
        let mut i: usize = 0;
        while i < self.batches.len()
            invariant
                0 <= i <= self@.len(),
                self.batches@.len() == self@.len(),
                primitive_total(self@) <= usize::MAX,
                total == primitive_total(self@.subrange(0, i as int)),
            decreases self@.len() - i,
        {
            proof {
                assert(self.batches@[i as int]@ == self@[i as int]);
                assert(self@.subrange(0, i + 1).drop_last() =~= self@.subrange(0, i as int));
                lemma_primitive_total_prefix(self@, i + 1);
            }
            total = total + self.batches[i].len();
            i += 1;
        }
        proof {
            assert(self@.subrange(0, i as int) =~= self@);
        }
        total
    }

    pub fn batch_count(&self) -> (n: usize)
        ensures
            n == self@.len(),
    {
        self.batches.len()
    }

    pub fn clear(&mut self)
        ensures
            final(self)@ == Seq::<(u64, Seq<P>)>::empty(),
            final(self).wf(),
            final(self).bounds() == old(self).bounds(),
    {
        self.batches.clear();
        assert(self@ =~= Seq::<(u64, Seq<P>)>::empty());
    }

    /// The batches, in batch order.
    pub fn batches(&self) -> (batches: &[TypedBatch<P>])
        ensures
            batches@.map_values(|b: TypedBatch<P>| b@) == self@,
    {
        self.batches.as_slice()
    }
}

pub proof fn lemma_primitive_total_prefix<P>(batches: Seq<(u64, Seq<P>)>, n: int)
    requires
        0 <= n <= batches.len(),
    ensures
        primitive_total(batches.subrange(0, n)) <= primitive_total(batches),
    decreases batches.len(),
{
    if n < batches.len() {
        assert(batches.drop_last().subrange(0, n) =~= batches.subrange(0, n));
        lemma_primitive_total_prefix(batches.drop_last(), n);
    } else {
        assert(batches.subrange(0, n) =~= batches);
    }
}

/// The number of primitives in all layers.
pub open spec fn scene_total<B, P>(layers: Seq<Layer<B, P>>) -> nat
    decreases layers.len(),
{
    if layers.len() == 0 {
        0
    } else {
        scene_total(layers.drop_last()) + primitive_total(layers.last()@)
    }
}

/// A strictly ordered collection of drawing layers.
///
/// Every primitive in an earlier layer is rendered before every primitive in
/// a later layer.
pub struct Scene<B, P> {
    layers: Vec<Layer<B, P>>,
}

impl<B, P> Scene<B, P> {
    /// The layers, in painter's order.
    pub closed spec fn view(&self) -> Seq<Layer<B, P>> {
        self.layers@
    }

    /// Every layer keeps one batch per kind.
    pub open spec fn wf(&self) -> bool {
        forall|i: int| 0 <= i < self@.len() ==> (#[trigger] self@[i]).wf()
    }

    pub fn new() -> (scene: Self)
        ensures
            scene@ == Seq::<Layer<B, P>>::empty(),
            scene.wf(),
    {
        Scene { layers: Vec::new() }
    }

    /// A scene of the given layers, in order.
    pub fn from_layers(layers: Vec<Layer<B, P>>) -> (scene: Self)
        ensures
            scene@ == layers@,
    {
        Scene { layers }
    }

    /// A scene of one layer.
    pub fn from_layer(layer: Layer<B, P>) -> (scene: Self)
        ensures
            scene@ == seq![layer],
    {
        let mut layers = Vec::new();
        layers.push(layer);
        proof {
            assert(layers@ =~= seq![layer]);
        }
        Scene { layers }
    }

    /// Appends a strict painter's-order layer.
    pub fn push(&mut self, layer: Layer<B, P>)
        ensures
            final(self)@ == old(self)@.push(layer),
    {
        self.layers.push(layer);
    }

    /// Appends strict painter's-order layers.
    pub fn extend(&mut self, layers: Vec<Layer<B, P>>)
        ensures
            final(self)@ == old(self)@ + layers@,
    {
        let mut layers = layers;
        self.layers.append(&mut layers);
    }

    pub fn is_empty(&self) -> (b: bool)
        ensures
            b == (self@.len() == 0),
    {
        self.layers.len() == 0
    }

    /// Returns the number of layers, including empty layers.
    pub fn len(&self) -> (n: usize)
        ensures
            n == self@.len(),
    {
        self.layers.len()
    }

    /// The number of primitives in all layers.
    pub fn primitive_count(&self) -> (n: usize)
        requires
            scene_total(self@) <= usize::MAX,
        ensures
            n == scene_total(self@),
    {
        let mut total: usize = 0;
        let mut i: usize = 0;
        while i < self.layers.len()
            invariant
                0 <= i <= self@.len(),
                self.layers@ == self@,
                scene_total(self@) <= usize::MAX,
                total == scene_total(self@.subrange(0, i as int)),
            decreases self@.len() - i,
        {
            proof {
                assert(self@.subrange(0, i + 1).drop_last() =~= self@.subrange(0, i as int));
                lemma_scene_total_prefix(self@, i + 1);
                lemma_primitive_total_prefix(self@[i as int]@, self@[i as int]@.len() as int);
                assert(self@[i as int]@.subrange(0, self@[i as int]@.len() as int) =~= self@[i as int]@);
            }
            total = total + self.layers[i].len();
            i += 1;
        }
        proof {
            assert(self@.subrange(0, i as int) =~= self@);
        }
        total
    }

    pub fn clear(&mut self)
        ensures
            final(self)@ == Seq::<Layer<B, P>>::empty(),
    {
        self.layers.clear();
    }

    /// The layers, in painter's order.
    pub fn layers(&self) -> (layers: &[Layer<B, P>])
        ensures
            layers@ == self@,
    {
        self.layers.as_slice()
    }
}

pub proof fn lemma_scene_total_prefix<B, P>(layers: Seq<Layer<B, P>>, n: int)
    requires
        0 <= n <= layers.len(),
    ensures
        scene_total(layers.subrange(0, n)) <= scene_total(layers),
    decreases layers.len(),
{
    if n < layers.len() {
        assert(layers.drop_last().subrange(0, n) =~= layers.subrange(0, n));
        lemma_scene_total_prefix(layers.drop_last(), n);
    } else {
        assert(layers.subrange(0, n) =~= layers);
    }
}

/// A scene counts every primitive of every layer: layers `a` followed by
/// layers `b` count as many primitives as `a` and `b` apart, and a scene of
/// one layer filled by `submissions` (one push each, whatever their kinds)
/// counts one primitive per submission.
pub proof fn lemma_scene_counts_primitives<B, P>(
    a: Seq<Layer<B, P>>,
    b: Seq<Layer<B, P>>,
    layer: Layer<B, P>,
    submissions: Seq<(u64, P)>,
)
    requires
        layer@ == layer_of(submissions),
    ensures
        scene_total(a + b) == scene_total(a) + scene_total(b),
        scene_total(seq![layer]) == submissions.len(),
{
    lemma_scene_total_concat(a, b);
    lemma_layer_of_induction(submissions);
    assert(seq![layer].drop_last() =~= Seq::<Layer<B, P>>::empty());
    assert(seq![layer].last() == layer);
    assert(scene_total(Seq::<Layer<B, P>>::empty()) == 0);
}

proof fn lemma_scene_total_concat<B, P>(a: Seq<Layer<B, P>>, b: Seq<Layer<B, P>>)
    ensures
        scene_total(a + b) == scene_total(a) + scene_total(b),
    decreases b.len(),
{
    if b.len() == 0 {
        assert(a + b =~= a);
    } else {
        lemma_scene_total_concat(a, b.drop_last());
        assert((a + b).drop_last() =~= a + b.drop_last());
        assert((a + b).last() == b.last());
    }
}

} // verus!
