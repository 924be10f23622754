//! Items: locals and the paths into them.

use vstd::prelude::*;
use crate::ast::{Expression, Id, Item};
use crate::error::{Error, ErrorKind};
use crate::flow::{Expect, Flow, Side};
use crate::host::{Exchange, Host, Recorder, extends, grows};
use crate::lookup::{
    Segment, SegmentValue, emit_item, frame_models, item_emitted, local_models, segment_models,
    segment_of,
};
use crate::runtime::{
    Evaluation, Runtime, all_literal, grown, kept, literal_segment, literal_segments, outcome,
    state,
};
use crate::semantics::{Sem, segments_from, sem_brackets, sem_item};
use crate::value::models;

verus! {

impl<'a> Runtime<'a> {
    /// Evaluates an item, as `sem_item` says: a local, followed by its path.
    ///
    /// The bracketed expressions of the path are evaluated first, in their
    /// order. What is then left on the stack is what `item_emitted` says; for
    /// a path without bracketed expressions this is stated here once more,
    /// without the semantics.
    pub fn item<H: Host>(
        &mut self,
        host: &mut Recorder<H>,
        item: &Item,
        side: Side,
    ) -> (r: Evaluation)
        ensures
            kept(*old(self), *final(self)),
            grows(old(host).log@, final(host).log@),
            forall|longer: Seq<Exchange>| #[trigger]
                extends(final(host).log@, longer) ==> sem_item(
                    state(*old(self), old(host).log@),
                    item.name@,
                    item.ids@,
                    side,
                    longer,
                ) == outcome(r, *final(self), final(host).log@),
            r matches Ok((produced, flow)) ==> {
                &&& grown(*old(self), *final(self))
                &&& produced == Expect::Something
                &&& flow is Continue
                &&& final(self).stack.len() == old(self).stack.len() + 1
                &&& final(self).local_stack@ =~= old(self).local_stack@
                &&& side is LeftInsert && item.ids.len() > 0 ==> final(self).stack@.last() is RawRef
            },
            all_literal(item.ids@) ==> match item_emitted(
                models(old(self).stack@),
                local_models(old(self).local_stack@),
                frame_models(old(self).call_stack@),
                item.name@,
                literal_segments(item.ids@),
                side,
                old(self).stack.len() as int,
                old(self).stack.len() as nat,
            ) {
                Ok(after) => r is Ok && models(final(self).stack@) == after,
                Err(f) => r matches Err(e) && e@ == f,
            },
        decreases old(self).budget, 2nat,
    {
        let base = self.stack.len();
        let mut positions: Vec<usize> = Vec::new();
        let mut i: usize = 0;
        while i < item.ids.len()
            invariant
                i <= item.ids.len(),
                positions.len() == i,
                kept(*old(self), *self),
                grows(old(host).log@, host.log@),
                grown(*old(self), *self),
                base == old(self).stack.len(),
                self.local_stack.len() == old(self).local_stack.len(),
                forall|j: int|
                    0 <= j < i && item.ids[j] is Expression ==> positions[j] < self.stack.len(),
                (forall|j: int| 0 <= j < i ==> !(#[trigger] item.ids[j] is Expression)) ==> *self
                    == *old(self) && host.log@ == old(host).log@,
                forall|longer: Seq<Exchange>| #[trigger]
                    extends(host.log@, longer) ==> sem_brackets(
                        state(*old(self), old(host).log@),
                        item.ids@,
                        0,
                        Seq::empty(),
                        longer,
                    ) == sem_brackets(
                        state(*self, host.log@),
                        item.ids@,
                        i as nat,
                        positions@,
                        longer,
                    ),
            decreases item.ids.len() - i,
        {
            match &item.ids[i] {
                Id::Expression(e) => {
                    if !self.operand(host, e, Side::Right)? {
                        return Err(Error::new(ErrorKind::ExpectedSomething));
                    }
                    positions.push(self.stack.len() - 1);
                },
                _ => {
                    positions.push(0);
                },
            }
            i += 1;
        }
        let ghost s1 = state(*self, host.log@);
        let mut segments: Vec<Segment> = Vec::new();
        let mut i: usize = 0;
        assert(segment_models(segments@) =~= Seq::empty());
        while i < item.ids.len()
            invariant
                i <= item.ids.len(),
                segments.len() == i,
                positions.len() == item.ids.len(),
                kept(*old(self), *self),
                grown(*old(self), *self),
                base == old(self).stack.len(),
                self.local_stack.len() == old(self).local_stack.len(),
                s1 == state(*self, host.log@),
                grows(old(host).log@, host.log@),
                forall|longer: Seq<Exchange>| #[trigger]
                    extends(host.log@, longer) ==> sem_brackets(
                        state(*old(self), old(host).log@),
                        item.ids@,
                        0,
                        Seq::empty(),
                        longer,
                    ) == Sem::Done((s1, positions@)),
                all_literal(item.ids@) ==> *self == *old(self) && host.log@ == old(host).log@,
                forall|j: int|
                    0 <= j < item.ids.len() && item.ids[j] is Expression ==> positions[j]
                        < self.stack.len(),
                forall|j: int|
                    0 <= j < i && !(item.ids[j] is Expression) ==> segments[j]@ == literal_segment(
                        item.ids[j],
                    ),
                segments_from(s1.stack, item.ids@, positions@, 0, Seq::empty()) == segments_from(
                    s1.stack,
                    item.ids@,
                    positions@,
                    i as nat,
                    segment_models(segments@),
                ),
            decreases item.ids.len() - i,
        {
            let ghost built = segment_models(segments@);
            match &item.ids[i] {
                Id::Text(k) => {
                    segments.push(Segment::Key(k.clone()));
                    assert(segment_models(segments@) =~= built.push(SegmentValue::Key(k@)));
                },
                Id::Number(n) => {
                    segments.push(Segment::Number(*n));
                    assert(segment_models(segments@) =~= built.push(SegmentValue::Number(*n)));
                },
                Id::Expression(_) => {
                    assert(models(self.stack@)[positions[i as int] as int]
                        == self.stack@[positions[i as int] as int]@);
                    let segment = segment_of(&self.stack, &self.stack[positions[i]])?;
                    segments.push(segment);
                    assert(segment_models(segments@) =~= built.push(segment@));
                },
            }
            i += 1;
        }
        proof {
            if all_literal(item.ids@) {
                assert(segment_models(segments@) =~= literal_segments(item.ids@));
            }
        }
        let depth = self.stack.len();
        emit_item(
            &mut self.stack,
            &self.local_stack,
            &self.call_stack,
            &item.name,
            &segments,
            side,
            base,
            depth,
        )?;
        assert(state(*self, host.log@) == s1.with_stack(models(self.stack@)));
        Ok((Expect::Something, Flow::Continue))
    }
}

} // verus!
