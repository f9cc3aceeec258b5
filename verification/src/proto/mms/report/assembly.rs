//! What an assembler of segments keeps, joins and lets go.

use vstd::prelude::*;
use crate::common::bit;
use crate::proto::mms::report::{
    assembled, bounded, find_run, in_order, joined, lemma_find_none, lemma_in_order,
    lemma_joined_bits, lemma_slot_bound, merged, slot, AssemblerModel, AssemblerStats, PendingModel,
    ReportEntryModel, ReportModel,
};

verus! {

/// A count one higher, up to its end.
pub open spec fn one_more(n: u64) -> u64 {
    if n == 0xFFFF_FFFF_FFFF_FFFF {
        n
    } else {
        (n + 1) as u64
    }
}

/// The number of a segment, which is zero where it has none.
pub open spec fn number(r: ReportModel) -> int {
    match r.sub_seq_num {
        Some(n) => n as int,
        None => 0,
    }
}

/// Whether two segments carry the name and the number of one report.
pub open spec fn belong(a: ReportModel, b: ReportModel) -> bool {
    a.rpt_id == b.rpt_id && a.seq_num == b.seq_num
}

/// Whether no run is open for a segment.
pub open spec fn alone(s: AssemblerModel, r: ReportModel) -> bool {
    forall|i: int| 0 <= i < s.partial.len() ==> !belong((#[trigger] s.partial[i]).report, r)
}

/// Whether the run at a place is the one that is open for a segment.
pub open spec fn open_at(s: AssemblerModel, r: ReportModel, i: int) -> bool {
    &&& r.opt_flds.segmentation
    &&& 0 <= i < s.partial.len()
    &&& belong(s.partial[i].report, r)
    &&& forall|j: int| 0 <= j < i ==> !belong((#[trigger] s.partial[j]).report, r)
}

/// Whether one list of runs is another without the run at a place, which the last one fills.
pub open spec fn without(after: Seq<PendingModel>, before: Seq<PendingModel>, i: int) -> bool {
    &&& after.len() == before.len() - 1
    &&& forall|j: int| 0 <= j < after.len() && j != i ==> #[trigger] after[j] == before[j]
    &&& i < after.len() ==> after[i] == before[before.len() - 1]
}

proof fn lemma_open(s: AssemblerModel, r: ReportModel, i: int, from: nat)
    requires
        open_at(s, r, i),
        from <= i,
    ensures
        find_run(s.partial, r, from) == Some(i as nat),
    decreases i - from,
{
    if from < i {
        assert(!belong(s.partial[from as int].report, r));
        lemma_open(s, r, i, from + 1);
    }
}

proof fn lemma_alone(s: AssemblerModel, r: ReportModel)
    requires
        alone(s, r),
    ensures
        find_run(s.partial, r, 0) is None,
{
    lemma_find_none(s.partial, r, 0);
}

/// What is not segmented passes straight through, and so does a segment with number zero that
/// nothing follows, where no run is open for it.
pub proof fn lemma_passes(s: AssemblerModel, r: ReportModel)
    ensures
        !r.opt_flds.segmentation ==> assembled(s, r) == (s, Some(r)),
        alone(s, r) && number(r) == 0 && !r.more_segments_follow ==> assembled(s, r) == (
            s,
            Some(r),
        ),
{
    if alone(s, r) {
        lemma_alone(s, r);
    }
}

/// A first segment with more to follow opens a run that waits for the segment with number one. It
/// goes behind the others. Where there is no room the oldest of them makes way, and is counted; a
/// segment with too many entries opens none, and is counted.
pub proof fn lemma_run_opens(s: AssemblerModel, r: ReportModel)
    requires
        bounded(s),
        alone(s, r),
        r.opt_flds.segmentation,
        number(r) == 0,
        r.more_segments_follow,
    ensures
        ({
            let (t, given) = assembled(s, r);
            let full = s.partial.len() == s.capacity;
            let gone = if full { 1int } else { 0 };
            let n = s.partial.len() - gone;
            &&& given is None
            &&& t.capacity == s.capacity
            &&& t.max_entries == s.max_entries
            &&& r.entries.len() > s.max_entries ==> {
                &&& t.partial == s.partial
                &&& t.stats == (AssemblerStats {
                    oversized: one_more(s.stats.oversized),
                    ..s.stats
                })
            }
            &&& r.entries.len() <= s.max_entries ==> {
                &&& t.partial.len() == n + 1
                &&& t.partial[n].report == r
                &&& t.partial[n].next_sub_seq == 1
                &&& forall|j: int| 0 <= j < n ==> #[trigger] t.partial[j] == s.partial[j + gone]
                &&& full ==> t.stats == (AssemblerStats {
                    evicted: one_more(s.stats.evicted),
                    ..s.stats
                })
                &&& !full ==> t.stats == s.stats
            }
        }),
{
    lemma_alone(s, r);
}

/// A segment with another number than zero that no run is open for is dropped, and counted.
pub proof fn lemma_stray(s: AssemblerModel, r: ReportModel)
    requires
        alone(s, r),
        r.opt_flds.segmentation,
        number(r) != 0,
    ensures
        assembled(s, r).1 is None,
        assembled(s, r).0 == (AssemblerModel {
            stats: AssemblerStats { out_of_order: one_more(s.stats.out_of_order), ..s.stats },
            ..s
        }),
{
    lemma_alone(s, r);
}

/// The segment that a run waits for is folded into it. Where more follow, the run waits for the
/// next number and nothing else changes; where none do, the whole report comes out, the run is
/// closed, and that is counted.
pub proof fn lemma_run_continues(s: AssemblerModel, r: ReportModel, i: int)
    requires
        open_at(s, r, i),
        number(r) == s.partial[i].next_sub_seq,
        s.partial[i].report.entries.len() + r.entries.len() <= s.max_entries,
    ensures
        ({
            let (t, given) = assembled(s, r);
            let whole = merged(s.partial[i].report, r);
            &&& t.capacity == s.capacity
            &&& t.max_entries == s.max_entries
            &&& r.more_segments_follow ==> {
                &&& given is None
                &&& t.stats == s.stats
                &&& t.partial.len() == s.partial.len()
                &&& t.partial[i].report == whole
                &&& number(r) < 0xFFFF_FFFF ==> t.partial[i].next_sub_seq == number(r) + 1
                &&& forall|j: int|
                    0 <= j < s.partial.len() && j != i ==> #[trigger] t.partial[j] == s.partial[j]
            }
            &&& !r.more_segments_follow ==> {
                &&& given == Some(ReportModel { more_segments_follow: false, ..whole })
                &&& without(t.partial, s.partial, i)
                &&& t.stats == (AssemblerStats {
                    reassembled: one_more(s.stats.reassembled),
                    ..s.stats
                })
            }
        }),
{
    lemma_open(s, r, i, 0);
}

/// A segment that would make a report too large ends its run, which is counted.
pub proof fn lemma_run_too_large(s: AssemblerModel, r: ReportModel, i: int)
    requires
        open_at(s, r, i),
        number(r) == s.partial[i].next_sub_seq,
        s.partial[i].report.entries.len() + r.entries.len() > s.max_entries,
    ensures
        ({
            let (t, given) = assembled(s, r);
            &&& given is None
            &&& without(t.partial, s.partial, i)
            &&& t.capacity == s.capacity
            &&& t.max_entries == s.max_entries
            &&& t.stats == (AssemblerStats { oversized: one_more(s.stats.oversized), ..s.stats })
        }),
{
    lemma_open(s, r, i, 0);
}

/// A segment with another number than the one its run waits for ends the run. With number zero it
/// starts afresh; with any other it is dropped as well, and both are counted.
pub proof fn lemma_run_broken(s: AssemblerModel, r: ReportModel, i: int)
    requires
        bounded(s),
        open_at(s, r, i),
        number(r) != s.partial[i].next_sub_seq,
    ensures
        ({
            let (t, given) = assembled(s, r);
            let ended = one_more(s.stats.out_of_order);
            &&& number(r) != 0 ==> {
                &&& given is None
                &&& without(t.partial, s.partial, i)
                &&& t.stats == (AssemblerStats { out_of_order: one_more(ended), ..s.stats })
            }
            &&& number(r) == 0 && !r.more_segments_follow ==> {
                &&& given == Some(r)
                &&& without(t.partial, s.partial, i)
                &&& t.stats == (AssemblerStats { out_of_order: ended, ..s.stats })
            }
            &&& number(r) == 0 && r.more_segments_follow && r.entries.len() <= s.max_entries ==> {
                &&& given is None
                &&& t.partial.len() == s.partial.len()
                &&& t.partial.last() == (PendingModel { next_sub_seq: 1, report: r })
                &&& without(t.partial.drop_last(), s.partial, i)
                &&& t.stats == (AssemblerStats { out_of_order: ended, ..s.stats })
            }
        }),
{
    lemma_open(s, r, i, 0);
    let kept = s.partial.update(i, s.partial.last()).drop_last();
    assert(kept.push(PendingModel { next_sub_seq: 1, report: r }).drop_last() =~= kept);
}

/// The entries of one member.
pub open spec fn of_member(s: Seq<ReportEntryModel>, k: usize) -> Seq<ReportEntryModel> {
    s.filter(|e: ReportEntryModel| e.index == k)
}

proof fn lemma_filter_none(s: Seq<ReportEntryModel>, k: usize)
    requires
        forall|i: int| 0 <= i < s.len() ==> (#[trigger] s[i]).index != k,
    ensures
        s.filter(|e: ReportEntryModel| e.index == k) =~= Seq::<ReportEntryModel>::empty(),
    decreases s.len(),
{
    reveal(Seq::filter);
    if s.len() > 0 {
        assert(s.last() == s[s.len() - 1]);
        assert forall|i: int| 0 <= i < s.drop_last().len() implies (
        #[trigger] s.drop_last()[i]).index != k by {
            assert(s.drop_last()[i] == s[i]);
        }
        lemma_filter_none(s.drop_last(), k);
    }
}

/// Ordering entries keeps the order of those of one member.
pub proof fn lemma_stable(s: Seq<ReportEntryModel>, k: usize)
    ensures
        of_member(in_order(s), k) == of_member(s, k),
    decreases s.len(),
{
    let p = |e: ReportEntryModel| e.index == k;
    reveal(Seq::filter);
    if s.len() > 0 {
        let e = s.last();
        let front = in_order(s.drop_last());
        lemma_stable(s.drop_last(), k);
        lemma_slot_bound(front, e);
        let at = slot(front, e) as int;
        let a = front.take(at);
        let b = front.skip(at);
        assert(a + b =~= front);
        assert(in_order(s) =~= a.push(e) + b);
        Seq::filter_distributes_over_add(a, b, p);
        Seq::filter_distributes_over_add(a.push(e), b, p);
        assert(a.push(e).drop_last() =~= a);
        assert(a.push(e).last() == e);
        if e.index == k {
            assert forall|i: int| 0 <= i < b.len() implies (#[trigger] b[i]).index != k by {
                assert(b[i] == front[at + i]);
            }
            lemma_filter_none(b, k);
            assert(a.filter(p) + b.filter(p) =~= a.filter(p));
            assert(a.filter(p).push(e) + b.filter(p) =~= a.filter(p).push(e));
        }
    }
}

/// A report with a segment folded in has the members of both, each entry of both once and in the
/// order of the members, and the mark of an overflow if either has it. Everything else is as the
/// report had it, but for the number of its last segment.
pub proof fn lemma_folded(whole: ReportModel, segment: ReportModel)
    ensures
        ({
            let m = merged(whole, segment);
            &&& m.rpt_id == whole.rpt_id
            &&& m.opt_flds == whole.opt_flds
            &&& m.seq_num == whole.seq_num
            &&& m.time_of_entry == whole.time_of_entry
            &&& m.data_set == whole.data_set
            &&& m.entry_id == whole.entry_id
            &&& m.conf_rev == whole.conf_rev
            &&& m.sub_seq_num == segment.sub_seq_num
            &&& m.buf_ovfl == Some(true) <==> whole.buf_ovfl == Some(true) || segment.buf_ovfl
                == Some(true)
            &&& m.buf_ovfl != Some(true) ==> m.buf_ovfl == whole.buf_ovfl
            &&& forall|k: nat|
                #[trigger] bit(m.inclusion, k) <==> bit(whole.inclusion, k) || bit(
                    segment.inclusion,
                    k,
                )
            &&& whole.inclusion.len() >= segment.inclusion.len() ==> m.inclusion.len()
                == whole.inclusion.len() && m.unused == whole.unused
            &&& whole.inclusion.len() < segment.inclusion.len() ==> m.inclusion.len()
                == segment.inclusion.len() && m.unused == segment.unused
            &&& m.entries.len() == whole.entries.len() + segment.entries.len()
            &&& m.entries.to_multiset() == whole.entries.to_multiset().add(
                segment.entries.to_multiset(),
            )
            &&& forall|i: int, j: int|
                0 <= i <= j < m.entries.len() ==> (#[trigger] m.entries[i]).index <= (
                #[trigger] m.entries[j]).index
            &&& forall|k: usize|
                #[trigger] of_member(m.entries, k) == of_member(
                    whole.entries + segment.entries,
                    k,
                )
        }),
{
    let both = whole.entries + segment.entries;
    lemma_in_order(both);
    vstd::seq_lib::lemma_multiset_commutative(whole.entries, segment.entries);
    assert forall|k: nat|
        #[trigger] bit(merged(whole, segment).inclusion, k) <==> bit(whole.inclusion, k) || bit(
            segment.inclusion,
            k,
        ) by {
        lemma_joined_bits(whole.inclusion, segment.inclusion, k);
    }
    assert forall|k: usize|
        #[trigger] of_member(merged(whole, segment).entries, k) == of_member(both, k) by {
        lemma_stable(both, k);
    }
}

/// All the segments of a report joined have what the first one says, and every member and every
/// entry of each of them.
pub proof fn lemma_all_folded(segments: Seq<ReportModel>, n: nat, i: int)
    requires
        0 <= i < n <= segments.len(),
    ensures
        ({
            let m = joined(segments, n);
            let first = segments[0];
            &&& m.rpt_id == first.rpt_id
            &&& m.opt_flds == first.opt_flds
            &&& m.seq_num == first.seq_num
            &&& m.time_of_entry == first.time_of_entry
            &&& m.data_set == first.data_set
            &&& m.entry_id == first.entry_id
            &&& m.conf_rev == first.conf_rev
            &&& m.sub_seq_num == segments[n - 1].sub_seq_num
            &&& segments[i].buf_ovfl == Some(true) ==> m.buf_ovfl == Some(true)
            &&& forall|k: nat| bit(segments[i].inclusion, k) ==> #[trigger] bit(m.inclusion, k)
            &&& segments[i].entries.to_multiset().subset_of(m.entries.to_multiset())
        }),
    decreases n,
{
    if n > 1 {
        let m = (n - 1) as nat;
        lemma_folded(joined(segments, m), segments[n - 1]);
        if i < m {
            lemma_all_folded(segments, m, i);
        } else {
            lemma_all_folded(segments, m, 0);
        }
    }
}

} // verus!
