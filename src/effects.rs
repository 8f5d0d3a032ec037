//! Coin markers shown after a click. Each fades by one step per fading
//! tick and is removed in the tick in which it reaches zero.
use vstd::prelude::*;

verus! {

/// Opacity steps of a new marker: it is gone after this many fading ticks.
pub const MARKER_STEPS: u32 = 20;

/// One coin marker: its identifier and how many fading steps it has left.
#[derive(PartialEq, Eq, Structural, Clone, Copy, Debug)]
pub struct CoinMarker {
    pub id: u64,
    pub opacity: u32,
}

/// The markers on show, oldest first, and the identifier of the next one.
pub struct CoinMarkers {
    pub markers: Vec<CoinMarker>,
    pub next_id: u64,
}

/// Identifiers increase along the sequence.
pub open spec fn ids_increasing(s: Seq<CoinMarker>) -> bool {
    forall|i: int, j: int| 0 <= i < j < s.len() ==> s[i].id < s[j].id
}

/// The markers that are left after one fading tick, each one step fainter.
pub open spec fn faded(s: Seq<CoinMarker>) -> Seq<CoinMarker>
    decreases s.len(),
{
    if s.len() == 0 {
        Seq::empty()
    } else {
        let rest = faded(s.drop_last());
        let m = s.last();
        if m.opacity <= 1 {
            rest
        } else {
            rest.push(CoinMarker { opacity: (m.opacity - 1) as u32, ..m })
        }
    }
}

/// The identifiers of the markers that one fading tick removes, in order.
pub open spec fn faded_out(s: Seq<CoinMarker>) -> Seq<u64>
    decreases s.len(),
{
    if s.len() == 0 {
        Seq::empty()
    } else {
        let rest = faded_out(s.drop_last());
        if s.last().opacity <= 1 {
            rest.push(s.last().id)
        } else {
            rest
        }
    }
}

/// The markers left after `k` fading ticks.
pub open spec fn faded_times(s: Seq<CoinMarker>, k: nat) -> Seq<CoinMarker>
    decreases k,
{
    if k == 0 {
        s
    } else {
        faded(faded_times(s, (k - 1) as nat))
    }
}

/// Each marker left after a fading tick is one of those before it, one step
/// fainter, and their order is kept.
pub proof fn lemma_faded_from(s: Seq<CoinMarker>)
    ensures
        forall|k: int|
            0 <= k < faded(s).len() ==> exists|j: int|
                0 <= j < s.len() && #[trigger] faded(s)[k].id == s[j].id && faded(s)[k].opacity
                    == s[j].opacity - 1,
        ids_increasing(s) ==> ids_increasing(faded(s)),
    decreases s.len(),
{
    if s.len() > 0 {
        let init = s.drop_last();
        lemma_faded_from(init);
        let rest = faded(init);
        assert forall|k: int| 0 <= k < faded(s).len() implies exists|j: int|
            0 <= j < s.len() && #[trigger] faded(s)[k].id == s[j].id && faded(s)[k].opacity
                == s[j].opacity - 1 by {
            if k < rest.len() {
                let j = choose|j: int|
                    0 <= j < init.len() && #[trigger] rest[k].id == init[j].id && rest[k].opacity
                        == init[j].opacity - 1;
                assert(s[j] == init[j]);
            } else {
                assert(s[s.len() - 1] == s.last());
            }
        }
        if ids_increasing(s) {
            assert forall|a: int, b: int| 0 <= a < b < faded(s).len() implies faded(s)[a].id
                < faded(s)[b].id by {
                if b >= rest.len() {
                    let j = choose|j: int|
                        0 <= j < init.len() && #[trigger] rest[a].id == init[j].id
                            && rest[a].opacity == init[j].opacity - 1;
                    assert(s[j] == init[j]);
                    assert(s[s.len() - 1] == s.last());
                }
            }
        }
    }
}

/// One fading tick takes one step off every marker's opacity.
proof fn lemma_faded_fainter(s: Seq<CoinMarker>, c: int)
    requires
        forall|i: int| 0 <= i < s.len() ==> s[i].opacity <= c,
    ensures
        forall|i: int| 0 <= i < faded(s).len() ==> faded(s)[i].opacity <= c - 1,
{
    lemma_faded_from(s);
    assert forall|i: int| 0 <= i < faded(s).len() implies faded(s)[i].opacity <= c - 1 by {
        let j = choose|j: int|
            0 <= j < s.len() && #[trigger] faded(s)[i].id == s[j].id && faded(s)[i].opacity
                == s[j].opacity - 1;
    }
}

/// A marker lives through at most `MARKER_STEPS` fading ticks: after that
/// many, none of the markers that were on show is left.
pub proof fn lemma_markers_fade_out(s: Seq<CoinMarker>)
    requires
        forall|i: int| 0 <= i < s.len() ==> s[i].opacity <= MARKER_STEPS,
    ensures
        faded_times(s, MARKER_STEPS as nat).len() == 0,
{
    lemma_faded_times_fainter(s, MARKER_STEPS as nat);
    let rest = faded_times(s, MARKER_STEPS as nat);
    if rest.len() > 0 {
        assert(rest[0].opacity <= 0);
        lemma_faded_times_positive(s, MARKER_STEPS as nat);
    }
}

proof fn lemma_faded_times_fainter(s: Seq<CoinMarker>, k: nat)
    requires
        forall|i: int| 0 <= i < s.len() ==> s[i].opacity <= MARKER_STEPS,
    ensures
        forall|i: int|
            0 <= i < faded_times(s, k).len() ==> faded_times(s, k)[i].opacity <= MARKER_STEPS - k,
    decreases k,
{
    if k > 0 {
        lemma_faded_times_fainter(s, (k - 1) as nat);
        lemma_faded_fainter(faded_times(s, (k - 1) as nat), MARKER_STEPS - (k - 1));
    }
}

proof fn lemma_faded_times_positive(s: Seq<CoinMarker>, k: nat)
    requires
        k > 0,
    ensures
        forall|i: int| 0 <= i < faded_times(s, k).len() ==> faded_times(s, k)[i].opacity >= 1,
{
    let prev = faded_times(s, (k - 1) as nat);
    lemma_faded_positive(prev);
}

proof fn lemma_faded_positive(s: Seq<CoinMarker>)
    ensures
        forall|i: int| 0 <= i < faded(s).len() ==> faded(s)[i].opacity >= 1,
    decreases s.len(),
{
    if s.len() > 0 {
        let rest = faded(s.drop_last());
        lemma_faded_positive(s.drop_last());
        assert forall|i: int| 0 <= i < faded(s).len() implies faded(s)[i].opacity >= 1 by {
            if i < rest.len() {
                assert(faded(s)[i] == rest[i]);
            }
        }
    }
}

impl CoinMarkers {
    /// Every marker has between one and `MARKER_STEPS` steps left, and the
    /// identifiers increase along the sequence and stay below `next_id`.
    pub open spec fn wf(&self) -> bool {
        &&& forall|i: int|
            0 <= i < self.markers@.len() ==> 1 <= #[trigger] self.markers@[i].opacity
                <= MARKER_STEPS
        &&& forall|i: int| 0 <= i < self.markers@.len() ==> #[trigger] self.markers@[i].id
            < self.next_id
        &&& ids_increasing(self.markers@)
    }

    /// No markers.
    pub fn new() -> (r: CoinMarkers)
        ensures
            r.wf(),
            r.markers@.len() == 0,
    {
        CoinMarkers { markers: Vec::new(), next_id: 0 }
    }

    /// Adds a marker at full opacity and returns its identifier, or `None`
    /// where the identifiers are used up.
    pub fn spawn(&mut self) -> (r: Option<u64>)
        requires
            old(self).wf(),
        ensures
            final(self).wf(),
            old(self).next_id < u64::MAX ==> r == Some(old(self).next_id) && final(self).markers@
                == old(self).markers@.push(CoinMarker { id: old(self).next_id, opacity: MARKER_STEPS }),
            old(self).next_id == u64::MAX ==> r is None && final(self).markers@ == old(
                self,
            ).markers@,
    {
        if self.next_id == u64::MAX {
            return None;
        }
        let id = self.next_id;
        self.markers.push(CoinMarker { id, opacity: MARKER_STEPS });
        self.next_id = id + 1;
        Some(id)
    }

    /// One fading tick: every marker loses one step of opacity, and those
    /// that reach zero are removed. Returns the identifiers of the removed
    /// markers, in order.
    pub fn fade(&mut self) -> (r: Vec<u64>)
        requires
            old(self).wf(),
        ensures
            final(self).wf(),
            final(self).markers@ == faded(old(self).markers@),
            r@ == faded_out(old(self).markers@),
            final(self).next_id == old(self).next_id,
    {
        let mut kept: Vec<CoinMarker> = Vec::new();
        let mut gone: Vec<u64> = Vec::new();
        let mut i: usize = 0;
        let ghost s = self.markers@;
        while i < self.markers.len()
            invariant
                s == self.markers@,
                i <= s.len(),
                kept@ == faded(s.subrange(0, i as int)),
                gone@ == faded_out(s.subrange(0, i as int)),
            decreases s.len() - i,
        {
            let m = self.markers[i];
            proof {
                assert(s.subrange(0, i + 1).drop_last() =~= s.subrange(0, i as int));
            }
            if m.opacity <= 1 {
                gone.push(m.id);
            } else {
                kept.push(CoinMarker { id: m.id, opacity: m.opacity - 1 });
            }
            i = i + 1;
        }
        proof {
            assert(s.subrange(0, s.len() as int) =~= s);
            lemma_faded_from(s);
            lemma_faded_positive(s);
            assert forall|k: int| 0 <= k < kept@.len() implies #[trigger] kept@[k].id
                < self.next_id && 1 <= kept@[k].opacity <= MARKER_STEPS by {
                let j = choose|j: int|
                    0 <= j < s.len() && #[trigger] faded(s)[k].id == s[j].id && faded(s)[k].opacity
                        == s[j].opacity - 1;
            }
        }
        self.markers = kept;
        gone
    }
}

} // verus!
