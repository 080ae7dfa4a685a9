//! Reader counters and the accounting of each decoded batch: the energy
//! threshold filter, per-channel counts and the DIG1 trigger-loss flags.

use vstd::prelude::*;

use super::decoder::common::EventData;
use super::MAX_CHANNELS;

verus! {

/// DIG1 raw flag of an event whose trigger was lost (extras bit 15).
pub const DIG1_FLAG_TRIGGER_LOST: u32 = 0x20;

/// DIG1 raw flag set once per 1024 lost triggers (extras bit 12).
pub const DIG1_FLAG_N_LOST_TRIGGER: u32 = 0x04;

/// Lost triggers that one N-lost flag stands for.
pub const TRIGGERS_PER_N_LOST_FLAG: u64 = 1024;

/// 2^64, the modulus of the counters.
pub open spec fn counter_modulus() -> int {
    0x1_0000_0000_0000_0000
}

/// Counter `a` advanced by `n`, wrapping at 2^64.
pub open spec fn wrap_add(a: u64, n: int) -> u64 {
    ((a + n) % counter_modulus()) as u64
}

/// Whether an event passes the ADC minimum (a minimum of 0 keeps all).
pub open spec fn passes_adc_min(e: EventData, adc_min: u16) -> bool {
    !(adc_min > 0 && e.energy < adc_min)
}

/// The events of `s` that pass the ADC minimum, in order.
pub open spec fn kept_events(s: Seq<EventData>, adc_min: u16) -> Seq<EventData>
    decreases s.len(),
{
    if s.len() == 0 {
        Seq::empty()
    } else {
        let r = kept_events(s.drop_last(), adc_min);
        if passes_adc_min(s.last(), adc_min) {
            r.push(s.last())
        } else {
            r
        }
    }
}

/// With no ADC minimum every event is kept, in order.
pub proof fn law_no_minimum_keeps_all(s: Seq<EventData>)
    ensures
        kept_events(s, 0) == s,
    decreases s.len(),
{
    if s.len() > 0 {
        law_no_minimum_keeps_all(s.drop_last());
        assert(s.drop_last().push(s.last()) =~= s);
    }
}

/// The ADC filter never adds events: the kept events are at most the
/// batch, so the count of filtered events is never negative.
pub proof fn law_kept_within_batch(s: Seq<EventData>, adc_min: u16)
    ensures
        kept_events(s, adc_min).len() <= s.len(),
    decreases s.len(),
{
    if s.len() > 0 {
        law_kept_within_batch(s.drop_last(), adc_min);
    }
}

/// With an ADC minimum `m`, exactly the events whose energy reaches `m`
/// are kept, in their order.
pub proof fn law_minimum_keeps_energy_at_least(s: Seq<EventData>, m: u16)
    requires
        m > 0,
    ensures
        kept_events(s, m) == s.filter(|e: EventData| e.energy >= m),
    decreases s.len(),
{
    reveal_with_fuel(Seq::filter, 2);
    if s.len() > 0 {
        law_minimum_keeps_energy_at_least(s.drop_last(), m);
    }
}

/// Events of `s` with any of the bits of `mask` set in their flags.
pub open spec fn count_flag(s: Seq<EventData>, mask: u32) -> int
    decreases s.len(),
{
    if s.len() == 0 {
        0
    } else {
        count_flag(s.drop_last(), mask) + if s.last().flags & mask != 0 {
            1int
        } else {
            0
        }
    }
}

/// Events of `s` on channel `ch` that pass the ADC minimum.
pub open spec fn count_channel(s: Seq<EventData>, ch: int, adc_min: u16) -> int
    decreases s.len(),
{
    if s.len() == 0 {
        0
    } else {
        count_channel(s.drop_last(), ch, adc_min) + if s.last().channel == ch && passes_adc_min(
            s.last(),
            adc_min,
        ) {
            1int
        } else {
            0
        }
    }
}

/// Counters of a reader since its start or the last run start.
#[derive(Debug, Clone, Copy)]
pub struct ReaderMetrics {
    /// Events decoded (before the ADC filter).
    pub events_decoded: u64,
    /// Bytes read from the digitizer.
    pub bytes_read: u64,
    /// Batches published.
    pub batches_published: u64,
    /// Buffers waiting to be decoded.
    pub queue_length: u64,
    /// Estimated lost triggers (DIG1: from flags; DIG2: from counters).
    pub trigger_loss_count: u64,
    /// Events flagged as having lost their trigger (DIG1).
    pub trigger_lost_flag_events: u64,
    /// Events carrying the N-lost-triggers flag (DIG1).
    pub n_lost_trigger_flag_events: u64,
    /// Events per channel after the ADC filter.
    pub per_channel_counts: [u64; MAX_CHANNELS],
    /// Events dropped by the ADC minimum.
    pub filtered_events: u64,
}

proof fn lemma_wrap_step(a: u64, n: int, d: u64)
    ensures
        (wrap_add(a, n) + d) % counter_modulus() == wrap_add(a, n + d) as int,
        wrap_add(a, 0) == a,
{
    let m = counter_modulus();
    vstd::arithmetic::div_mod::lemma_add_mod_noop(a + n, d as int, m);
    vstd::arithmetic::div_mod::lemma_small_mod(d as nat, m as nat);
    vstd::arithmetic::div_mod::lemma_mod_twice(a + n + d, m);
    vstd::arithmetic::div_mod::lemma_small_mod(a as nat, m as nat);
}

/// `a + d`, wrapping at 2^64.
fn add_wrapping(a: u64, d: u64) -> (r: u64)
    ensures
        r as int == (a + d) % counter_modulus(),
{
    let r = a.wrapping_add(d);
    proof {
        let m = counter_modulus();
        if a + d > u64::MAX {
            vstd::arithmetic::div_mod::lemma_fundamental_div_mod_converse(a + d, m, 1, a + d - m);
        } else {
            vstd::arithmetic::div_mod::lemma_small_mod((a + d) as nat, m as nat);
        }
    }
    r
}

impl ReaderMetrics {
    /// All counters at zero.
    pub fn new() -> (m: Self)
        ensures
            m.events_decoded == 0 && m.bytes_read == 0 && m.batches_published == 0,
            m.queue_length == 0 && m.trigger_loss_count == 0 && m.filtered_events == 0,
            m.trigger_lost_flag_events == 0 && m.n_lost_trigger_flag_events == 0,
            forall|c: int| 0 <= c < MAX_CHANNELS ==> m.per_channel_counts[c] == 0,
    {
        let zeros: [u64; MAX_CHANNELS] = [0u64, 0, 0, 0, 0, 0, 0, 0, 0, 0, 0, 0, 0, 0, 0, 0, 0, 0, 0, 0, 0, 0, 0, 0, 0, 0, 0, 0, 0, 0, 0, 0];
        assert(zeros@ =~= Seq::new(32, |i: int| 0u64));
        ReaderMetrics {
            events_decoded: 0,
            bytes_read: 0,
            batches_published: 0,
            queue_length: 0,
            trigger_loss_count: 0,
            trigger_lost_flag_events: 0,
            n_lost_trigger_flag_events: 0,
            per_channel_counts: zeros,
            filtered_events: 0,
        }
    }

    /// Account for one decoded batch: count the events, drop those below
    /// the ADC minimum (counting them), count the kept events per channel,
    /// and for DIG1 count the trigger-loss flags (each N-lost flag standing
    /// for 1024 lost triggers). Returns the kept events in order.
    pub fn account_events(&mut self, events: Vec<EventData>, is_dig1: bool, adc_min: u16) -> (kept:
        Vec<EventData>)
        ensures
            kept@ == kept_events(events@, adc_min),
            final(self).events_decoded == wrap_add(old(self).events_decoded, events@.len() as int),
            final(self).filtered_events == wrap_add(
                old(self).filtered_events,
                events@.len() - kept@.len(),
            ),
            forall|c: int|
                0 <= c < MAX_CHANNELS ==> #[trigger] final(self).per_channel_counts[c] == wrap_add(
                    old(self).per_channel_counts[c],
                    count_channel(events@, c, adc_min),
                ),
            is_dig1 ==> final(self).trigger_lost_flag_events == wrap_add(
                old(self).trigger_lost_flag_events,
                count_flag(events@, DIG1_FLAG_TRIGGER_LOST),
            ),
            is_dig1 ==> final(self).n_lost_trigger_flag_events == wrap_add(
                old(self).n_lost_trigger_flag_events,
                count_flag(events@, DIG1_FLAG_N_LOST_TRIGGER),
            ),
            is_dig1 ==> final(self).trigger_loss_count == wrap_add(
                old(self).trigger_loss_count,
                TRIGGERS_PER_N_LOST_FLAG * count_flag(events@, DIG1_FLAG_N_LOST_TRIGGER),
            ),
            !is_dig1 ==> final(self).trigger_lost_flag_events == old(
                self,
            ).trigger_lost_flag_events,
            !is_dig1 ==> final(self).n_lost_trigger_flag_events == old(
                self,
            ).n_lost_trigger_flag_events,
            !is_dig1 ==> final(self).trigger_loss_count == old(self).trigger_loss_count,
            final(self).bytes_read == old(self).bytes_read,
            final(self).batches_published == old(self).batches_published,
            final(self).queue_length == old(self).queue_length,
    {
        let ghost s = events@;
        let ghost start = *self;
        let mut kept: Vec<EventData> = Vec::new();
        assert(s.take(0) =~= Seq::<EventData>::empty());
        proof {
            lemma_wrap_step(start.events_decoded, 0, 0);
            lemma_wrap_step(start.filtered_events, 0, 0);
            lemma_wrap_step(start.trigger_lost_flag_events, 0, 0);
            lemma_wrap_step(start.n_lost_trigger_flag_events, 0, 0);
            lemma_wrap_step(start.trigger_loss_count, 0, 0);
            assert forall|c: int| 0 <= c < MAX_CHANNELS implies #[trigger] self.per_channel_counts[c]
                == wrap_add(start.per_channel_counts[c], count_channel(s.take(0), c, adc_min)) by {
                lemma_wrap_step(start.per_channel_counts[c], 0, 0);
            }
        }
        for e in it: events.into_iter()
            invariant
                it.seq() == s,
                kept@ == kept_events(s.take(it.index() as int), adc_min),
                kept@.len() <= it.index(),
                self.events_decoded == wrap_add(start.events_decoded, it.index() as int),
                self.filtered_events == wrap_add(
                    start.filtered_events,
                    it.index() - kept@.len(),
                ),
                forall|c: int|
                    0 <= c < MAX_CHANNELS ==> #[trigger] self.per_channel_counts[c] == wrap_add(
                        start.per_channel_counts[c],
                        count_channel(s.take(it.index() as int), c, adc_min),
                    ),
                is_dig1 ==> self.trigger_lost_flag_events == wrap_add(
                    start.trigger_lost_flag_events,
                    count_flag(s.take(it.index() as int), DIG1_FLAG_TRIGGER_LOST),
                ),
                is_dig1 ==> self.n_lost_trigger_flag_events == wrap_add(
                    start.n_lost_trigger_flag_events,
                    count_flag(s.take(it.index() as int), DIG1_FLAG_N_LOST_TRIGGER),
                ),
                is_dig1 ==> self.trigger_loss_count == wrap_add(
                    start.trigger_loss_count,
                    TRIGGERS_PER_N_LOST_FLAG * count_flag(
                        s.take(it.index() as int),
                        DIG1_FLAG_N_LOST_TRIGGER,
                    ),
                ),
                !is_dig1 ==> self.trigger_lost_flag_events == start.trigger_lost_flag_events,
                !is_dig1 ==> self.n_lost_trigger_flag_events == start.n_lost_trigger_flag_events,
                !is_dig1 ==> self.trigger_loss_count == start.trigger_loss_count,
                self.bytes_read == start.bytes_read,
                self.batches_published == start.batches_published,
                self.queue_length == start.queue_length,
        {
            let ghost k = it.index() as int;
            assert(e == s[k]);
            assert(s.take(k + 1).drop_last() =~= s.take(k));
            assert(s.take(k + 1).last() == e);
            self.events_decoded = add_wrapping(self.events_decoded, 1);
            proof {
                lemma_wrap_step(start.events_decoded, k, 1);
            }
            if is_dig1 {
                if e.flags & DIG1_FLAG_TRIGGER_LOST != 0 {
                    self.trigger_lost_flag_events = add_wrapping(self.trigger_lost_flag_events, 1);
                    proof {
                        lemma_wrap_step(
                            start.trigger_lost_flag_events,
                            count_flag(s.take(k), DIG1_FLAG_TRIGGER_LOST),
                            1,
                        );
                    }
                }
                if e.flags & DIG1_FLAG_N_LOST_TRIGGER != 0 {
                    self.n_lost_trigger_flag_events = add_wrapping(
                        self.n_lost_trigger_flag_events,
                        1,
                    );
                    self.trigger_loss_count = add_wrapping(
                        self.trigger_loss_count,
                        TRIGGERS_PER_N_LOST_FLAG,
                    );
                    proof {
                        let n = count_flag(s.take(k), DIG1_FLAG_N_LOST_TRIGGER);
                        lemma_wrap_step(start.n_lost_trigger_flag_events, n, 1);
                        lemma_wrap_step(start.trigger_loss_count, TRIGGERS_PER_N_LOST_FLAG * n, 1024);
                        assert(TRIGGERS_PER_N_LOST_FLAG * n + 1024 == TRIGGERS_PER_N_LOST_FLAG * (n
                            + 1));
                    }
                }
            }
            if adc_min > 0 && e.energy < adc_min {
                self.filtered_events = add_wrapping(self.filtered_events, 1);
                proof {
                    lemma_wrap_step(start.filtered_events, k - kept@.len(), 1);
                }
            } else {
                let ch = e.channel as usize;
                if ch < MAX_CHANNELS {
                    let ghost before = self.per_channel_counts;
                    self.per_channel_counts[ch] = add_wrapping(self.per_channel_counts[ch], 1);
                    proof {
                        lemma_wrap_step(
                            start.per_channel_counts[ch as int],
                            count_channel(s.take(k), ch as int, adc_min),
                            1,
                        );
                        assert forall|c: int| 0 <= c < MAX_CHANNELS && c != ch implies #[trigger] self.per_channel_counts[c]
                            == before[c] by {}
                    }
                }
                kept.push(e);
            }
        }
        assert(s.take(s.len() as int) =~= s);
        kept
    }
}

} // verus!
