//! The decoder of a reader's firmware, chosen once and used through one
//! interface.

use vstd::prelude::*;

use super::amax::{amax_events_are, spec_amax_classify, AMaxDecoder, AMaxEventData};
use super::common::{be_u64_word, sort_by_time, word_count, DataType, EventData, RawData};
use super::dualchannel_common::{aggregate_total_words, dig2_decodes, dig2_events_are, spec_dig2_classify};
use super::pha1::{Pha1Decoder, Pha1Variant};
use super::psd1::{Psd1Decoder, Psd1Variant};
use super::psd1_pha1_common::{
    dig1_advances, dig1_events_at, dig1_walk, spec_dig1_classify, Dig1Decoder, Dig1Variant,
};
use super::psd2::{Psd2Decoder, Psd2Variant};

verus! {

/// Decoder of PSD2, PSD1, PHA1 or AMax firmware.
pub enum DecoderKind {
    Psd2(Psd2Decoder),
    Psd1(Psd1Decoder),
    Pha1(Pha1Decoder),
    AMax(AMaxDecoder),
}

/// Whether a DIG1 decoder may decode `raw`: every board aggregate it
/// walks through has a non-zero size, and the rollover count cannot
/// overflow.
pub open spec fn dig1_decode_allowed<V: Dig1Variant>(d: Dig1Decoder<V>, raw: RawData) -> bool {
    &&& dig1_advances(raw.data@, 0, raw.size as int)
    &&& d.run_state().0.rollover_count + raw.data@.len() < u64::MAX
}

/// What a DIG1 decoder `d0` becoming `d1` decoded from `raw` into `out`.
pub open spec fn dig1_decoded<V: Dig1Variant>(
    d0: Dig1Decoder<V>,
    d1: Dig1Decoder<V>,
    raw: RawData,
    out: Seq<EventData>,
) -> bool {
    &&& d1.cfg() == d0.cfg()
    &&& spec_dig1_classify(raw.size, raw.data@) != DataType::Event ==> out.len() == 0
        && d1.run_state() == d0.run_state()
    &&& spec_dig1_classify(raw.size, raw.data@) == DataType::Event ==> ({
        let walk = dig1_walk::<V>(raw.data@, 0, raw.size as int, d0.run_state());
        &&& d1.run_state() == walk.1
        &&& exists|w: Seq<EventData>|
            dig1_events_at::<V>(w, walk.0, raw.data@, d0.cfg().module_id) && out == sort_by_time(w)
    })
}

/// The base events of AMax events.
pub open spec fn amax_bases(a: Seq<AMaxEventData>) -> Seq<EventData> {
    a.map_values(|x: AMaxEventData| x.base)
}

impl DecoderKind {
    /// Whether this decoder may decode `raw`.
    pub open spec fn decode_allowed(&self, raw: RawData) -> bool {
        match self {
            DecoderKind::Psd2(_) => dig2_decodes(raw.size, raw.data@) ==> aggregate_total_words(
                be_u64_word(raw.data@, 0),
            ) <= word_count(raw.data@),
            DecoderKind::Psd1(d) => dig1_decode_allowed(*d, raw),
            DecoderKind::Pha1(d) => dig1_decode_allowed(*d, raw),
            DecoderKind::AMax(_) => true,
        }
    }

    /// Classify `raw` with the firmware's rules.
    pub fn classify(&self, raw: &RawData) -> (t: DataType)
        ensures
            match self {
                DecoderKind::Psd2(_) => t == spec_dig2_classify(raw.size, raw.data@),
                DecoderKind::Psd1(_) => t == spec_dig1_classify(raw.size, raw.data@),
                DecoderKind::Pha1(_) => t == spec_dig1_classify(raw.size, raw.data@),
                DecoderKind::AMax(_) => t == spec_amax_classify(raw.size, raw.data@),
            },
    {
        match self {
            DecoderKind::Psd2(d) => d.classify(raw),
            DecoderKind::Psd1(d) => d.classify(raw),
            DecoderKind::Pha1(d) => d.classify(raw),
            DecoderKind::AMax(d) => d.classify(raw),
        }
    }

    /// Decode `raw`: the DIG1 and DIG2 decoders replace the contents of
    /// `events` with the time-sorted events; the AMax decoder appends the
    /// base events in stream order.
    pub fn decode_into(&mut self, raw: &RawData, events: &mut Vec<EventData>)
        requires
            old(self).decode_allowed(*raw),
        ensures
            match (*old(self), *final(self)) {
                (DecoderKind::Psd2(d0), DecoderKind::Psd2(d1)) => {
                    &&& d1.cfg() == d0.cfg()
                    &&& exists|w: Seq<EventData>|
                        dig2_events_are::<Psd2Variant>(w, raw.size, raw.data@, d0.cfg().module_id)
                            && final(events)@ == sort_by_time(w)
                },
                (DecoderKind::Psd1(d0), DecoderKind::Psd1(d1)) => dig1_decoded(
                    d0,
                    d1,
                    *raw,
                    final(events)@,
                ),
                (DecoderKind::Pha1(d0), DecoderKind::Pha1(d1)) => dig1_decoded(
                    d0,
                    d1,
                    *raw,
                    final(events)@,
                ),
                (DecoderKind::AMax(d0), DecoderKind::AMax(d1)) => {
                    &&& d1 == d0
                    &&& exists|a: Seq<AMaxEventData>|
                        amax_events_are(a, raw.size, raw.data@, d0.config.module_id)
                            && final(events)@ == old(events)@ + amax_bases(a)
                },
                _ => false,
            },
    {
        match self {
            DecoderKind::Psd2(d) => d.decode_into(raw, events),
            DecoderKind::Psd1(d) => d.decode_into(raw, events),
            DecoderKind::Pha1(d) => d.decode_into(raw, events),
            DecoderKind::AMax(d) => {
                let mut amax_events: Vec<AMaxEventData> = Vec::new();
                d.decode_into(raw, &mut amax_events);
                let ghost a = amax_events@;
                let ghost start = events@;
                for e in it: amax_events.into_iter()
                    invariant
                        it.seq() == a,
                        events@ == start + amax_bases(a.take(it.index() as int)),
                {
                    let ghost k = it.index() as int;
                    assert(e == a[k]);
                    assert(amax_bases(a.take(k + 1)) =~= amax_bases(a.take(k)).push(e.base));
                    events.push(e.base);
                }
                assert(a.take(a.len() as int) =~= a);
            },
        }
    }

    /// Reset run-level state: the DIG1 decoders restart their time
    /// tracking; the others keep no run-level state.
    pub fn reset_for_new_run(&mut self)
        ensures
            match (*old(self), *final(self)) {
                (DecoderKind::Psd1(d0), DecoderKind::Psd1(d1)) => d1.cfg() == d0.cfg()
                    && d1.run_state() == Dig1Decoder::<Psd1Variant>::fresh_run_state(),
                (DecoderKind::Pha1(d0), DecoderKind::Pha1(d1)) => d1.cfg() == d0.cfg()
                    && d1.run_state() == Dig1Decoder::<Pha1Variant>::fresh_run_state(),
                (DecoderKind::Psd2(d0), DecoderKind::Psd2(d1)) => d1 == d0,
                (DecoderKind::AMax(d0), DecoderKind::AMax(d1)) => d1 == d0,
                _ => false,
            },
    {
        match self {
            DecoderKind::Psd1(d) => d.reset_for_new_run(),
            DecoderKind::Pha1(d) => d.reset_for_new_run(),
            DecoderKind::Psd2(_) => {},
            DecoderKind::AMax(_) => {},
        }
    }
}

} // verus!
