//! The decisions of a playback run: which records become snapshots, and the
//! sample index each one carries.

use vstd::prelude::*;
use crate::focus::Focus;
use crate::record::{field_map, GenericRecord};
use crate::telemetry::{first_bad, is_sample_kind, mapped, snapshot_of, FieldShapeError};
use crate::value::ValueWithUnits;

verus! {

/// The sample records of a sequence, in order.
pub open spec fn samples(rs: Seq<GenericRecord<ValueWithUnits>>) -> Seq<GenericRecord<ValueWithUnits>>
    decreases rs.len(),
{
    if rs.len() == 0 {
        Seq::empty()
    } else if is_sample_kind(rs.last().kind@) {
        samples(rs.drop_last()).push(rs.last())
    } else {
        samples(rs.drop_last())
    }
}

/// The samples of a prefix are a prefix of the samples.
pub proof fn lemma_samples_prefix(rs: Seq<GenericRecord<ValueWithUnits>>, i: int)
    requires
        0 <= i <= rs.len(),
    ensures
        samples(rs.take(i)).len() <= samples(rs).len(),
        samples(rs.take(i)) == samples(rs).take(samples(rs.take(i)).len() as int),
    decreases rs.len(),
{
    if i == rs.len() {
        assert(rs.take(i) =~= rs);
        assert(samples(rs).take(samples(rs).len() as int) =~= samples(rs));
    } else {
        let dl = rs.drop_last();
        assert(rs.take(i) =~= dl.take(i));
        lemma_samples_prefix(dl, i);
        let n = samples(rs.take(i)).len() as int;
        assert(samples(rs).take(n) =~= samples(dl).take(n));
    }
}

/// The samples of two sequences one after the other.
pub proof fn lemma_samples_concat(a: Seq<GenericRecord<ValueWithUnits>>, b: Seq<GenericRecord<ValueWithUnits>>)
    ensures
        samples(a + b) == samples(a) + samples(b),
    decreases b.len(),
{
    if b.len() == 0 {
        assert(a + b =~= a);
        assert(samples(a) + samples(b) =~= samples(a));
    } else {
        let bl = b.drop_last();
        lemma_samples_concat(a, bl);
        assert((a + b).drop_last() =~= a + bl);
        assert((a + b).last() == b.last());
        if is_sample_kind(b.last().kind@) {
            assert(samples(a) + samples(b) =~= (samples(a) + samples(bl)).push(b.last()));
        }
    }
}

/// Records of other kinds do not count: inserting one anywhere leaves the
/// samples, and so the snapshots and their times, as they were.
pub proof fn lemma_other_kinds_do_not_count(
    a: Seq<GenericRecord<ValueWithUnits>>,
    x: GenericRecord<ValueWithUnits>,
    b: Seq<GenericRecord<ValueWithUnits>>,
)
    requires
        !is_sample_kind(x.kind@),
    ensures
        samples(a + seq![x] + b) == samples(a + b),
{
    lemma_samples_concat(a + seq![x], b);
    lemma_samples_concat(a, seq![x]);
    lemma_samples_concat(a, b);
    let one = seq![x];
    let none = Seq::<GenericRecord<ValueWithUnits>>::empty();
    assert(one.drop_last() =~= none);
    assert(one.last() == x);
    assert(samples(none) == none);
    assert(samples(one) =~= Seq::<GenericRecord<ValueWithUnits>>::empty());
    assert(samples(a) + samples(one) =~= samples(a));
}

/// The sample counter of one playback run over one input unit.
#[derive(Clone, Copy, Debug)]
pub struct Playback {
    pub next_time: u32,
}

impl Playback {
    /// A run that has emitted nothing yet.
    pub fn new() -> (r: Playback)
        ensures
            r.next_time == 0,
    {
        Playback { next_time: 0 }
    }

    /// Takes the next record of the run: a sample becomes a snapshot stamped with
    /// the counter, which then advances by one; any other record leaves the
    /// counter alone and gives nothing.
    pub fn step(&mut self, record: GenericRecord<ValueWithUnits>) -> (r: Result<Option<Focus>, FieldShapeError>)
        requires
            old(self).next_time < u32::MAX,
        ensures
            mapped(record.kind@, field_map(record.fields@), old(self).next_time, r),
            final(self).next_time == if r matches Ok(Some(_)) {
                old(self).next_time + 1
            } else {
                old(self).next_time as int
            },
    {
        let r = Focus::from_record(record, self.next_time);
        if let Ok(Some(_)) = &r {
            self.next_time = self.next_time + 1;
        }
        r
    }
}

/// The snapshots of a whole run: one per sample record, in order, the `t`-th
/// stamped with time `t`; or the first field of the first sample that cannot
/// be read.
pub fn snapshots(records: Vec<GenericRecord<ValueWithUnits>>) -> (r: Result<Vec<Focus>, FieldShapeError>)
    requires
        samples(records@).len() < u32::MAX,
    ensures
        match r {
            Ok(fs) => {
                &&& fs.len() == samples(records@).len()
                &&& forall|t: int| 0 <= t < fs.len() ==> (#[trigger] fs@[t]).time == t
                &&& forall|t: int| 0 <= t < fs.len() ==> snapshot_of(
                    #[trigger] fs@[t],
                    field_map(samples(records@)[t].fields@),
                    t as u32,
                )
            },
            Err(err) => exists|t: int|
                0 <= t < samples(records@).len() && first_bad(
                    field_map(#[trigger] samples(records@)[t].fields@),
                ) == Some(err.field@) && forall|u: int|
                    0 <= u < t ==> first_bad(field_map(#[trigger] samples(records@)[u].fields@)) is None,
        },
        r is Ok <==> forall|t: int|
            0 <= t < samples(records@).len() ==> first_bad(
                field_map(#[trigger] samples(records@)[t].fields@),
            ) is None,
{
    let ghost all = records@;
    let mut rest = records;
    let mut player = Playback::new();
    let mut out: Vec<Focus> = Vec::new();
    let ghost mut done: int = 0;
    proof {
        assert(all.take(0) =~= Seq::<GenericRecord<ValueWithUnits>>::empty());
        assert(rest@ =~= all.skip(0));
    }
    while rest.len() > 0
        invariant
            0 <= done <= all.len(),
            all == records@,
            samples(all).len() < u32::MAX,
            rest@ == all.skip(done),
            player.next_time == out.len(),
            out.len() == samples(all.take(done)).len(),
            forall|t: int| 0 <= t < out.len() ==> (#[trigger] out@[t]).time == t,
            forall|t: int| 0 <= t < out.len() ==> snapshot_of(
                #[trigger] out@[t],
                field_map(samples(all.take(done))[t].fields@),
                t as u32,
            ),
            forall|t: int|
                0 <= t < out.len() ==> first_bad(
                    field_map(#[trigger] samples(all.take(done))[t].fields@),
                ) is None,
        decreases rest.len(),
    {
        let record = rest.remove(0);
        proof {
            lemma_samples_prefix(all, done);
            assert(all.take(done + 1).drop_last() =~= all.take(done));
            assert(all[done] == record);
        }
        let ghost before = samples(all.take(done));
        let step = player.step(record);
        match step {
            Err(err) => {
                proof {
                    let now = samples(all.take(done + 1));
                    assert(now == before.push(all[done]));
                    lemma_samples_prefix(all, done + 1);
                    let t = before.len() as int;
                    assert(samples(all)[t] == now[t]);
                    assert forall|u: int| 0 <= u < t implies first_bad(
                        field_map(#[trigger] samples(all)[u].fields@),
                    ) is None by {
                        assert(samples(all)[u] == now[u]);
                        assert(now[u] == before[u]);
                    }
                    assert(now[t] == all[done]);
                    assert(first_bad(field_map(samples(all)[t].fields@)) == Some(err.field@));
                    assert(0 <= t < samples(all).len());
                }
                return Err(err);
            },
            Ok(None) => {
                proof {
                    done = done + 1;
                }
            },
            Ok(Some(f)) => {
                out.push(f);
                proof {
                    let now = samples(all.take(done + 1));
                    assert(now == before.push(all[done]));
                    assert forall|t: int| 0 <= t < out.len() implies snapshot_of(
                        #[trigger] out@[t],
                        field_map(now[t].fields@),
                        t as u32,
                    ) && first_bad(field_map(now[t].fields@)) is None by {
                        if t < out.len() - 1 {
                            assert(now[t] == before[t]);
                        }
                    }
                    done = done + 1;
                }
            },
        }
        proof {
            assert(rest@ =~= all.skip(done));
        }
    }
    proof {
        assert(all.take(done) =~= all);
    }
    Ok(out)
}

} // verus!
