use vstd::prelude::*;

use crate::mark::Mark;
use crate::time::Timestamp;
use crate::window::Window;

verus! {

/// The action of a raw log entry.
#[derive(Clone, Copy, Debug, PartialEq, Eq, Structural)]
pub enum Kind {
    Start,
    Stop,
}

/// One raw entry of the log.
#[derive(Debug)]
pub struct Record {
    pub time: Timestamp,
    pub kind: Kind,
    pub message: String,
}

/// The literal mark of a raw entry.
pub open spec fn mark_of(r: Record) -> Mark {
    match r.kind {
        Kind::Start => Mark::Start { time: r.time, message: r.message },
        Kind::Stop => Mark::Stop { time: r.time, message: r.message },
    }
}

/// What is inferred between two adjacent entries: nothing when their kinds
/// differ, else a mark spanning from the first to the second.
pub open spec fn bridge(a: Record, b: Record) -> Seq<Mark> {
    if a.kind != b.kind {
        seq![]
    } else if a.kind == Kind::Start {
        seq![Mark::InferredStop { start: a.time, end: b.time }]
    } else {
        seq![Mark::InferredStart { start: a.time, end: b.time }]
    }
}

/// Each entry but the last, followed by what is inferred between it and the
/// next entry.
pub open spec fn settled(s: Seq<Record>) -> Seq<Mark>
    decreases s.len(),
{
    if s.len() <= 1 {
        seq![]
    } else {
        settled(s.drop_last()) + seq![mark_of(s[s.len() - 2])] + bridge(s[s.len() - 2], s.last())
    }
}

/// The complete mark sequence of a log: every entry's own mark, with one
/// inferred mark between each pair of adjacent entries of the same kind.
pub open spec fn inferred(s: Seq<Record>) -> Seq<Mark> {
    if s.len() == 0 {
        seq![]
    } else {
        settled(s) + seq![mark_of(s.last())]
    }
}

/// The literal mark of each entry, in order.
pub open spec fn marks_of(s: Seq<Record>) -> Seq<Mark> {
    s.map_values(|r: Record| mark_of(r))
}

/// Adjacent entries alternate between start and stop.
pub open spec fn alternating(s: Seq<Record>) -> bool {
    forall|i: int| 0 <= i < s.len() - 1 ==> #[trigger] kind_changes(s, i)
}

/// Entry `i` and the entry after it differ in kind.
pub open spec fn kind_changes(s: Seq<Record>, i: int) -> bool {
    s[i].kind != s[i + 1].kind
}

/// The marks that a window lets through.
pub open spec fn keeps(window: &Window<Timestamp>) -> spec_fn(Mark) -> bool {
    |x: Mark| x.spec_within(window)
}

/// Builds the literal mark of `r`.
pub fn record_mark(r: Record) -> (m: Mark)
    ensures
        m == mark_of(r),
{
    match r.kind {
        Kind::Start => Mark::Start { time: r.time, message: r.message },
        Kind::Stop => Mark::Stop { time: r.time, message: r.message },
    }
}

/// Appends `m` to `out` when it lies within `window`.
fn emit(out: &mut Vec<Mark>, m: Mark, window: &Window<Timestamp>)
    ensures
        final(out)@ == old(out)@ + seq![m].filter(keeps(window)),
{
    proof {
        reveal_with_fuel(Seq::filter, 2);
    }
    if m.is_within(window) {
        out.push(m);
    } else {
        assert(seq![m].filter(keeps(window)) =~= seq![]);
    }
}

/// The inference engine: the marks of `records`, with inferred marks between
/// adjacent entries of the same kind, keeping only those within `window`.
pub fn infer_marks(records: Vec<Record>, window: &Window<Timestamp>) -> (r: Vec<Mark>)
    ensures
        r@ == inferred(records@).filter(keeps(window)),
{
    let ghost s = records@;
    let n = records.len();
    // Entries in reverse order, so that popping yields them first to last.
    let mut pending: Vec<Record> = Vec::new();
    let mut src = records;
    while src.len() > 0
        invariant
            src@ + pending@.reverse() == s,
        decreases src.len(),
    {
        let r = src.pop().unwrap();
        proof {
            assert(pending@.push(r).reverse() =~= seq![r] + pending@.reverse());
        }
        pending.push(r);
        assert(src@ + pending@.reverse() =~= s);
    }
    assert(pending@.reverse() =~= s);
    let mut out: Vec<Mark> = Vec::new();
    let mut previous: Option<Record> = None;
    let mut i: usize = 0;
    while pending.len() > 0
        invariant
            n == s.len(),
            i + pending@.len() == n,
            forall|k: int| 0 <= k < pending@.len() ==> #[trigger] pending@[k] == s[n - 1 - k],
            i == 0 ==> previous is None,
            i > 0 ==> previous == Some(s[i - 1]),
            out@ == settled(s.take(i as int)).filter(keeps(window)),
        decreases pending.len(),
    {
        let cur = pending.pop().unwrap();
        assert(cur == s[i as int]);
        let ghost t = s.take(i as int + 1);
        assert(t.drop_last() =~= s.take(i as int));
        match previous {
            None => {
                assert(settled(t) =~= seq![]);
                assert(settled(t).filter(keeps(window)) =~= seq![]);
                assert(out@ =~= seq![]);
            },
            Some(p) => {
                assert(t[t.len() - 2] == p);
                let same = p.kind == cur.kind;
                let kind = p.kind;
                let start = p.time;
                let end = cur.time;
                let pm = record_mark(p);
                emit(&mut out, pm, window);
                if same {
                    let inf = if kind == Kind::Start {
                        Mark::InferredStop { start, end }
                    } else {
                        Mark::InferredStart { start, end }
                    };
                    emit(&mut out, inf, window);
                    assert(bridge(p, cur) =~= seq![inf]);
                } else {
                    assert(bridge(p, cur) =~= seq![]);
                    assert(bridge(p, cur).filter(keeps(window)) =~= seq![]);
                }
                proof {
                    let a = settled(s.take(i as int));
                    assert(settled(t) == a + seq![mark_of(p)] + bridge(p, cur));
                    Seq::filter_distributes_over_add(a + seq![mark_of(p)], bridge(p, cur), keeps(window));
                    Seq::filter_distributes_over_add(a, seq![mark_of(p)], keeps(window));
                    assert(out@ =~= a.filter(keeps(window)) + seq![mark_of(p)].filter(keeps(window)) + bridge(p, cur).filter(keeps(window)));
                }
            },
        }
        previous = Some(cur);
        i = i + 1;
    }
    assert(s.take(n as int) =~= s);
    match previous {
        None => {
            assert(seq![].filter(keeps(window)) =~= seq![]);
        },
        Some(p) => {
            let m = record_mark(p);
            emit(&mut out, m, window);
            proof {
                Seq::filter_distributes_over_add(settled(s), seq![mark_of(p)], keeps(window));
            }
        },
    }
    out
}

proof fn lemma_settled_alternating(s: Seq<Record>)
    requires
        s.len() > 0,
        alternating(s),
    ensures
        settled(s) =~= marks_of(s.drop_last()),
    decreases s.len(),
{
    if s.len() == 1 {
        assert(marks_of(s.drop_last()) =~= seq![]);
    } else {
        let p = s.drop_last();
        assert forall|i: int| 0 <= i < p.len() - 1 implies #[trigger] kind_changes(p, i) by {
            assert(kind_changes(s, i));
        }
        lemma_settled_alternating(p);
        assert(kind_changes(s, s.len() - 2));
        assert(bridge(s[s.len() - 2], s.last()) =~= seq![]);
        assert(settled(s) =~= settled(p) + seq![mark_of(s[s.len() - 2])]);
        assert(marks_of(p.drop_last()) + seq![mark_of(s[s.len() - 2])]
            =~= marks_of(p));
    }
}

/// A log whose entries alternate between start and stop gives exactly one
/// mark per entry, each the entry's own, and nothing inferred.
pub proof fn alternating_log_infers_nothing(s: Seq<Record>)
    requires
        alternating(s),
    ensures
        inferred(s) == marks_of(s),
        inferred(s).len() == s.len(),
        forall|k: int|
            0 <= k < inferred(s).len() ==> !(#[trigger] inferred(s)[k] is InferredStart)
                && !(inferred(s)[k] is InferredStop),
{
    if s.len() > 0 {
        lemma_settled_alternating(s);
        assert(marks_of(s.drop_last()) + seq![mark_of(s.last())]
            =~= marks_of(s));
    } else {
        assert(marks_of(s) =~= seq![]);
    }
}

proof fn lemma_settled_prefix(s: Seq<Record>, j: int)
    requires
        0 <= j <= s.len(),
    ensures
        settled(s.take(j)).len() <= settled(s).len(),
        settled(s).subrange(0, settled(s.take(j)).len() as int) =~= settled(s.take(j)),
    decreases s.len(),
{
    if j == s.len() {
        assert(s.take(j) =~= s);
    } else {
        let p = s.drop_last();
        assert(p.take(j) =~= s.take(j));
        lemma_settled_prefix(p, j);
        if s.len() == 1 {
            assert(settled(s.take(j)) =~= seq![]);
        }
    }
}

/// Two adjacent entries of the same kind appear in the output as the first
/// entry's mark, the inferred mark spanning from its time to the second's,
/// and the second entry's mark, in that order.
pub proof fn same_kind_entries_infer_between(s: Seq<Record>, i: int)
    requires
        0 <= i < s.len() - 1,
        s[i].kind == s[i + 1].kind,
    ensures
        exists|k: int|
            0 <= k && k + 3 <= inferred(s).len() && #[trigger] inferred(s).subrange(k, k + 3) == (
            if s[i].kind == Kind::Start {
                seq![mark_of(s[i]), Mark::InferredStop { start: s[i].time, end: s[i + 1].time }, mark_of(s[i + 1])]
            } else {
                seq![mark_of(s[i]), Mark::InferredStart { start: s[i].time, end: s[i + 1].time }, mark_of(s[i + 1])]
            }),
{
    let want = seq![mark_of(s[i])] + bridge(s[i], s[i + 1]) + seq![mark_of(s[i + 1])];
    let t1 = s.take(i + 1);
    let t2 = s.take(i + 2);
    assert(t2.drop_last() =~= t1);
    let k = settled(t1).len() as int;
    assert(settled(t2) == settled(t1) + seq![mark_of(s[i])] + bridge(s[i], s[i + 1]));
    if i + 2 == s.len() {
        assert(t2 =~= s);
        assert(inferred(s).subrange(k, k + 3) =~= want);
    } else {
        let t3 = s.take(i + 3);
        assert(t3.drop_last() =~= t2);
        assert(settled(t3) == settled(t2) + seq![mark_of(s[i + 1])] + bridge(s[i + 1], s[i + 2]));
        lemma_settled_prefix(s, i + 3);
        assert(settled(s).subrange(k, k + 3) =~= settled(t3).subrange(k, k + 3));
        assert(settled(t3).subrange(k, k + 3) =~= want);
        assert(inferred(s).subrange(k, k + 3) =~= settled(s).subrange(k, k + 3));
    }
    if s[i].kind == Kind::Start {
        assert(want =~= seq![mark_of(s[i]), Mark::InferredStop { start: s[i].time, end: s[i + 1].time }, mark_of(s[i + 1])]);
    } else {
        assert(want =~= seq![mark_of(s[i]), Mark::InferredStart { start: s[i].time, end: s[i + 1].time }, mark_of(s[i + 1])]);
    }
}

} // verus!

verus! {

/// Entries with well-formed times give well-formed marks.
pub proof fn inferred_marks_wf(s: Seq<Record>, window: &Window<Timestamp>)
    requires
        forall|k: int| 0 <= k < s.len() ==> (#[trigger] s[k]).time.wf(),
    ensures
        forall|k: int| 0 <= k < inferred(s).len() ==> (#[trigger] inferred(s)[k]).wf(),
        forall|k: int|
            0 <= k < inferred(s).filter(keeps(window)).len() ==> (#[trigger] inferred(s).filter(
                keeps(window),
            )[k]).wf(),
{
    lemma_settled_wf(s);
    let all = inferred(s);
    assert forall|k: int| 0 <= k < all.len() implies (#[trigger] all[k]).wf() by {
        if s.len() > 0 && k == all.len() - 1 {
            assert(all[k] == mark_of(s.last()));
            assert(s[s.len() - 1].time.wf());
        } else {
            assert(all[k] == settled(s)[k]);
        }
    }
    let kept = all.filter(keeps(window));
    assert forall|k: int| 0 <= k < kept.len() implies (#[trigger] kept[k]).wf() by {
        assert(kept.contains(kept[k]));
        all.lemma_filter_contains_rev(keeps(window), kept[k]);
    }
}

proof fn lemma_settled_wf(s: Seq<Record>)
    requires
        forall|k: int| 0 <= k < s.len() ==> (#[trigger] s[k]).time.wf(),
    ensures
        forall|k: int| 0 <= k < settled(s).len() ==> (#[trigger] settled(s)[k]).wf(),
    decreases s.len(),
{
    if s.len() > 1 {
        let p = s.drop_last();
        lemma_settled_wf(p);
        assert(s[s.len() - 2].time.wf());
        assert(s[s.len() - 1].time.wf());
        let a = settled(p);
        let b = bridge(s[s.len() - 2], s.last());
        assert forall|k: int| 0 <= k < settled(s).len() implies (#[trigger] settled(s)[k]).wf() by {
            if k < a.len() {
                assert(settled(s)[k] == a[k]);
            } else if k == a.len() {
                assert(settled(s)[k] == mark_of(s[s.len() - 2]));
            } else {
                assert(settled(s)[k] == b[k - a.len() - 1]);
            }
        }
    }
}

/// The unbounded window lets every mark through, so the engine run with it
/// yields the complete mark sequence.
pub proof fn unbound_window_keeps_all(s: Seq<Mark>)
    ensures
        s.filter(keeps(&Window::Unbound)) == s,
    decreases s.len(),
{
    reveal(Seq::filter);
    if s.len() > 0 {
        unbound_window_keeps_all(s.drop_last());
        assert(s.drop_last().push(s.last()) =~= s);
    } else {
        assert(s.filter(keeps(&Window::Unbound)) =~= s);
    }
}

} // verus!
