//! Trimming of quiet tails and the reconciliation of channel lengths.
use vstd::prelude::*;

verus! {

/// Number of trailing elements of `loud` that are false.
pub open spec fn quiet_tail(loud: Seq<bool>) -> nat
    decreases loud.len(),
{
    if loud.len() == 0 || loud.last() {
        0
    } else {
        1 + quiet_tail(loud.drop_last())
    }
}

/// The length left after dropping at most `limit` quiet samples from the end.
pub open spec fn spec_trimmed_len(loud: Seq<bool>, limit: nat) -> nat {
    (loud.len() - if quiet_tail(loud) <= limit { quiet_tail(loud) } else { limit }) as nat
}

proof fn lemma_quiet_tail_bound(loud: Seq<bool>)
    ensures
        quiet_tail(loud) <= loud.len(),
    decreases loud.len(),
{
    if loud.len() > 0 && !loud.last() {
        lemma_quiet_tail_bound(loud.drop_last());
    }
}

/// Drops samples from the end while they are quiet, at most `limit` of them;
/// `loud[i]` says whether sample `i` is above the threshold.
pub fn trimmed_len(loud: &Vec<bool>, limit: usize) -> (r: usize)
    ensures
        r == spec_trimmed_len(loud@, limit as nat),
{
    let mut n = loud.len();
    let mut dropped: usize = 0;
    proof {
        assert(loud@.take(n as int) =~= loud@);
    }
    while dropped < limit && n > 0 && !loud[n - 1]
        invariant
            n <= loud@.len(),
            dropped <= limit,
            n + dropped == loud@.len(),
            quiet_tail(loud@) == dropped + quiet_tail(loud@.take(n as int)),
        decreases n,
    {
        proof {
            assert(loud@.take(n as int).drop_last() =~= loud@.take(n - 1));
        }
        n = n - 1;
        dropped = dropped + 1;
    }
    proof {
        lemma_quiet_tail_bound(loud@.take(n as int));
        if n > 0 && dropped < limit {
            assert(loud@.take(n as int).last() == loud@[n - 1]);
        }
    }
    n
}

/// The length left after dropping the whole quiet tail.
pub fn fully_trimmed_len(loud: &Vec<bool>) -> (r: usize)
    ensures
        r == loud@.len() - quiet_tail(loud@),
{
    proof {
        lemma_quiet_tail_bound(loud@);
    }
    trimmed_len(loud, loud.len())
}

/// The length left after the bounded trim: at most a third of the channel is
/// dropped.
pub fn bounded_trimmed_len(loud: &Vec<bool>) -> (r: usize)
    ensures
        r == spec_trimmed_len(loud@, loud@.len() / 3),
{
    trimmed_len(loud, loud.len() / 3)
}

/// Channels after a new one joins: a shorter newcomer is padded with the first
/// channel's samples at the same positions; a longer one extends every
/// existing channel with its own samples past their length.
pub open spec fn reconciled<T>(chans: Seq<Seq<T>>, s: Seq<T>) -> Seq<Seq<T>> {
    if chans.len() == 0 {
        seq![s]
    } else {
        let l = chans[0].len();
        if s.len() <= l {
            chans.push(s + chans[0].subrange(s.len() as int, l as int))
        } else {
            chans.map_values(|c: Seq<T>| c + s.subrange(l as int, s.len() as int)).push(s)
        }
    }
}

/// The channels of one waveform under construction; all share one length.
pub struct ChannelBank<T> {
    channels: Vec<Vec<T>>,
}

impl<T> View for ChannelBank<T> {
    type V = Seq<Seq<T>>;

    closed spec fn view(&self) -> Seq<Seq<T>> {
        self.channels@.map_values(|c: Vec<T>| c@)
    }
}

fn extended<T: Copy>(c: &Vec<T>, src: &Vec<T>, from: usize) -> (r: Vec<T>)
    requires
        from <= src@.len(),
    ensures
        r@ == c@ + src@.subrange(from as int, src@.len() as int),
{
    let mut r: Vec<T> = Vec::new();
    let mut i: usize = 0;
    while i < c.len()
        invariant
            i <= c@.len(),
            r@ == c@.take(i as int),
        decreases c@.len() - i,
    {
        r.push(c[i]);
        i = i + 1;
        assert(r@ =~= c@.take(i as int));
    }
    let mut j: usize = from;
    while j < src.len()
        invariant
            from <= j <= src@.len(),
            r@ == c@ + src@.subrange(from as int, j as int),
        decreases src@.len() - j,
    {
        r.push(src[j]);
        j = j + 1;
        assert(r@ =~= c@ + src@.subrange(from as int, j as int));
    }
    r
}

impl<T: Copy> ChannelBank<T> {
    /// All channels have one length.
    pub open spec fn wf(&self) -> bool {
        forall|i: int, j: int|
            0 <= i < self@.len() && 0 <= j < self@.len() ==> (#[trigger] self@[i]).len()
                == (#[trigger] self@[j]).len()
    }

    pub fn new() -> (r: ChannelBank<T>)
        ensures
            r@ == Seq::<Seq<T>>::empty(),
            r.wf(),
    {
        let r = ChannelBank { channels: Vec::new() };
        assert(r@ =~= Seq::<Seq<T>>::empty());
        r
    }

    pub fn channel_count(&self) -> (r: usize)
        ensures
            r == self@.len(),
    {
        self.channels.len()
    }

    /// The common length of the channels; zero when there are none.
    pub fn len(&self) -> (r: usize)
        ensures
            r == if self@.len() == 0 { 0 } else { self@[0].len() },
    {
        if self.channels.len() == 0 {
            0
        } else {
            self.channels[0].len()
        }
    }

    pub fn channel(&self, i: usize) -> (r: &Vec<T>)
        requires
            i < self@.len(),
        ensures
            r@ == self@[i as int],
    {
        &self.channels[i]
    }

    /// Adds a channel, reconciling lengths so that all channels stay equal in
    /// length.
    pub fn push_channel(&mut self, samples: Vec<T>)
        requires
            old(self).wf(),
        ensures
            final(self).wf(),
            final(self)@ == reconciled(old(self)@, samples@),
    {
        let ghost before = self@;
        let ghost goal = reconciled(before, samples@);
        if self.channels.len() == 0 {
            self.channels.push(samples);
            assert(self@ =~= goal);
            return;
        }
        let l = self.channels[0].len();
        if samples.len() <= l {
            let padded = extended(&samples, &self.channels[0], samples.len());
            self.channels.push(padded);
            assert(self@ =~= goal);
        } else {
            let mut chans: Vec<Vec<T>> = Vec::new();
            let mut i: usize = 0;
            while i < self.channels.len()
                invariant
                    before == self@,
                    self.wf(),
                    l == before[0].len(),
                    l < samples@.len(),
                    i <= before.len(),
                    chans@.map_values(|c: Vec<T>| c@) == before.take(i as int).map_values(
                        |c: Seq<T>| c + samples@.subrange(l as int, samples@.len() as int),
                    ),
                decreases before.len() - i,
            {
                assert(self@[i as int].len() == self@[0].len());
                assert(self.channels@[i as int]@ == before[i as int]);
                let c = extended(&self.channels[i], &samples, l);
                let ghost prev = chans@;
                chans.push(c);
                proof {
                    assert(chans@.map_values(|c: Vec<T>| c@) =~= prev.map_values(|c: Vec<T>| c@).push(c@));
                    assert(before.take(i + 1).map_values(
                        |c: Seq<T>| c + samples@.subrange(l as int, samples@.len() as int),
                    ) =~= before.take(i as int).map_values(
                        |c: Seq<T>| c + samples@.subrange(l as int, samples@.len() as int),
                    ).push(before[i as int] + samples@.subrange(l as int, samples@.len() as int)));
                }
                i = i + 1;
                assert(chans@.map_values(|c: Vec<T>| c@) =~= before.take(i as int).map_values(
                    |c: Seq<T>| c + samples@.subrange(l as int, samples@.len() as int),
                ));
            }
            chans.push(samples);
            self.channels = chans;
            assert(before.take(i as int) =~= before);
            assert(self@ =~= goal);
        }
    }

    /// The channels, in order.
    pub fn into_channels(self) -> (r: Vec<Vec<T>>)
        ensures
            r@.map_values(|c: Vec<T>| c@) == self@,
    {
        self.channels
    }
}

} // verus!
