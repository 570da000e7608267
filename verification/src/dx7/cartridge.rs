//! The cartridge: a bank of 32 voices in packed form.

use crate::ParseError;
use crate::bits::field;
use crate::dx7::lfo::LfoWaveform;
use crate::dx7::sysex::SystemExclusiveData;
use crate::dx7::voice::Voice;
use crate::report_len;
use vstd::prelude::*;

verus! {

/// The number of voices in a cartridge.
pub const VOICE_COUNT: usize = 32;

/// The length of the data of a cartridge, in bytes.
pub const CARTRIDGE_DATA_SIZE: usize = 4096;

/// A DX7 cartridge with 32 voices.
#[derive(Debug, Clone, Copy)]
pub struct Cartridge {
    pub voices: [Voice; 32],
}

impl Cartridge {
    /// The value of `DATA_SIZE`, for proofs outside this module.
    pub proof fn lemma_data_size()
        ensures
            Self::DATA_SIZE == 4096,
    {
    }

    /// Whether every parameter of every voice lies in its range.
    pub open spec fn wf(self) -> bool {
        forall|i: int| 0 <= i < 32 ==> (#[trigger] self.voices[i]).wf()
    }

    /// The packed bytes of the voice in slot `k`.
    pub open spec fn slot(data: Seq<u8>, k: int) -> Seq<u8> {
        data.subrange(128 * k, 128 * k + 128)
    }

    /// The voice that the bytes of slot `k` stand for.
    pub open spec fn voice_at(data: Seq<u8>, k: int) -> Voice {
        Voice::decoded(Voice::unpacked(Self::slot(data, k)))
    }

    /// The cartridge that the data stands for: slot by slot, the voice that
    /// the bytes of the slot stand for.
    #[verifier::opaque]
    pub open spec fn read(data: Seq<u8>) -> Self {
        Cartridge {
            voices: [
                Self::voice_at(data, 0),
                Self::voice_at(data, 1),
                Self::voice_at(data, 2),
                Self::voice_at(data, 3),
                Self::voice_at(data, 4),
                Self::voice_at(data, 5),
                Self::voice_at(data, 6),
                Self::voice_at(data, 7),
                Self::voice_at(data, 8),
                Self::voice_at(data, 9),
                Self::voice_at(data, 10),
                Self::voice_at(data, 11),
                Self::voice_at(data, 12),
                Self::voice_at(data, 13),
                Self::voice_at(data, 14),
                Self::voice_at(data, 15),
                Self::voice_at(data, 16),
                Self::voice_at(data, 17),
                Self::voice_at(data, 18),
                Self::voice_at(data, 19),
                Self::voice_at(data, 20),
                Self::voice_at(data, 21),
                Self::voice_at(data, 22),
                Self::voice_at(data, 23),
                Self::voice_at(data, 24),
                Self::voice_at(data, 25),
                Self::voice_at(data, 26),
                Self::voice_at(data, 27),
                Self::voice_at(data, 28),
                Self::voice_at(data, 29),
                Self::voice_at(data, 30),
                Self::voice_at(data, 31),
            ],
        }
    }

    /// The packed data of the first `count` voices, one after the other.
    pub open spec fn voices_packed(voices: Seq<Voice>, count: int) -> Seq<u8>
        decreases count,
    {
        if count <= 0 {
            Seq::<u8>::empty()
        } else {
            Self::voices_packed(voices, count - 1) + Voice::packed(voices[count - 1].encoded())
        }
    }

    /// Whether packed data is as `to_bytes` writes it: bits that hold no
    /// parameter are clear, and every LFO waveform is a known one.
    pub open spec fn canonical(data: Seq<u8>) -> bool {
        forall|k: int|
            0 <= k < 32 ==> Voice::tidy(#[trigger] Self::slot(data, k)) && LfoWaveform::known(
                field(Self::slot(data, k)[116], 1, 3),
            )
    }

    /// The packed data of `count` voices is `128 * count` bytes long, and
    /// slot `k` holds the packed data of voice `k`.
    pub proof fn lemma_voices_packed(voices: Seq<Voice>, count: int)
        requires
            0 <= count <= voices.len(),
        ensures
            Self::voices_packed(voices, count).len() == 128 * count,
            forall|k: int|
                0 <= k < count ==> #[trigger] Self::slot(Self::voices_packed(voices, count), k)
                    == Voice::packed(voices[k].encoded()),
        decreases count,
    {
        if count > 0 {
            Self::lemma_voices_packed(voices, count - 1);
            let before = Self::voices_packed(voices, count - 1);
            let last = Voice::packed(voices[count - 1].encoded());
            Voice::lemma_encoded_parts(voices[count - 1]);
            Voice::lemma_packed_parts(voices[count - 1].encoded());
            let all = Self::voices_packed(voices, count);
            assert(all == before + last);
            assert forall|k: int| 0 <= k < count implies #[trigger] Self::slot(all, k)
                == Voice::packed(voices[k].encoded()) by {
                if k < count - 1 {
                    assert(Self::slot(all, k) =~= Self::slot(before, k));
                } else {
                    assert(Self::slot(all, k) =~= last);
                }
            }
        }
    }

    /// Whether every byte of `data` below `end` is accepted at its offset.
    pub open spec fn accepted_below(data: Seq<u8>, end: int) -> bool {
        forall|i: int| 0 <= i < end ==> #[trigger] Self::accepts(i, data[i])
    }

    /// At offset `offset` of slot `k`, the cartridge accepts what the
    /// packed form of a voice accepts at `offset`.
    pub proof fn lemma_slot_offset(k: int, offset: int, byte: u8)
        requires
            0 <= k,
            0 <= offset < 128,
        ensures
            Self::accepts(128 * k + offset, byte) == Voice::packed_accepts(offset, byte),
    {
        assert((128 * k + offset) % 128 == offset);
    }

    /// Where the bytes before a slot are accepted, and the slot is accepted
    /// as a packed voice, the bytes up to the end of the slot are accepted.
    pub proof fn lemma_slot_parsed(data: Seq<u8>, k: int)
        requires
            0 <= k,
            128 * k + 128 <= data.len(),
            Self::accepted_below(data, 128 * k),
            Voice::all_packed_accepted(Self::slot(data, k)),
        ensures
            Self::accepted_below(data, 128 * k + 128),
    {
        let slot = Self::slot(data, k);
        assert forall|i: int| 0 <= i < 128 * k + 128 implies #[trigger] Self::accepts(
            i,
            data[i],
        ) by {
            if i >= 128 * k {
                assert(Voice::packed_accepts(i - 128 * k, slot[i - 128 * k]));
                Self::lemma_slot_offset(k, i - 128 * k, data[i]);
            }
        }
    }

    /// Where the bytes before a slot are accepted, the first byte that is
    /// refused in the slot is the first that the cartridge refuses.
    pub proof fn lemma_slot_refused(data: Seq<u8>, k: int, at: int)
        requires
            0 <= k,
            128 * k + 128 <= data.len(),
            Self::accepted_below(data, 128 * k),
            Voice::first_packed_refused(Self::slot(data, k), at),
        ensures
            Self::first_refused(data, 128 * k + at),
    {
        let slot = Self::slot(data, k);
        assert(slot[at] == data[128 * k + at]);
        Self::lemma_slot_offset(k, at, slot[at]);
        assert forall|i: int| 0 <= i < 128 * k + at implies #[trigger] Self::accepts(
            i,
            data[i],
        ) by {
            if i >= 128 * k {
                assert(Voice::packed_accepts(i - 128 * k, slot[i - 128 * k]));
                Self::lemma_slot_offset(k, i - 128 * k, data[i]);
            }
        }
    }

    /// In accepted data, every slot is accepted as the packed form of a
    /// voice.
    pub proof fn lemma_slot_accepted(data: Seq<u8>, k: int)
        requires
            data.len() == 4096,
            Self::all_accepted(data),
            0 <= k < 32,
        ensures
            Voice::all_packed_accepted(Self::slot(data, k)),
    {
        let slot = Self::slot(data, k);
        assert forall|i: int| 0 <= i < 128 implies #[trigger] Voice::packed_accepts(
            i,
            slot[i],
        ) by {
            assert(Self::accepts(128 * k + i, data[128 * k + i]));
            Self::lemma_slot_offset(k, i, slot[i]);
        }
    }

    /// The voices that `decoded` reads are those of the slots.
    pub proof fn lemma_decoded_voices(data: Seq<u8>)
        ensures
            forall|k: int|
                0 <= k < 32 ==> #[trigger] Self::decoded(data).voices[k] == Self::voice_at(
                    data,
                    k,
                ),
    {
        reveal(Cartridge::read);
        let voices = Self::decoded(data).voices;
        assert(voices[0] == Self::voice_at(data, 0));
        assert(voices[1] == Self::voice_at(data, 1));
        assert(voices[2] == Self::voice_at(data, 2));
        assert(voices[3] == Self::voice_at(data, 3));
        assert(voices[4] == Self::voice_at(data, 4));
        assert(voices[5] == Self::voice_at(data, 5));
        assert(voices[6] == Self::voice_at(data, 6));
        assert(voices[7] == Self::voice_at(data, 7));
        assert(voices[8] == Self::voice_at(data, 8));
        assert(voices[9] == Self::voice_at(data, 9));
        assert(voices[10] == Self::voice_at(data, 10));
        assert(voices[11] == Self::voice_at(data, 11));
        assert(voices[12] == Self::voice_at(data, 12));
        assert(voices[13] == Self::voice_at(data, 13));
        assert(voices[14] == Self::voice_at(data, 14));
        assert(voices[15] == Self::voice_at(data, 15));
        assert(voices[16] == Self::voice_at(data, 16));
        assert(voices[17] == Self::voice_at(data, 17));
        assert(voices[18] == Self::voice_at(data, 18));
        assert(voices[19] == Self::voice_at(data, 19));
        assert(voices[20] == Self::voice_at(data, 20));
        assert(voices[21] == Self::voice_at(data, 21));
        assert(voices[22] == Self::voice_at(data, 22));
        assert(voices[23] == Self::voice_at(data, 23));
        assert(voices[24] == Self::voice_at(data, 24));
        assert(voices[25] == Self::voice_at(data, 25));
        assert(voices[26] == Self::voice_at(data, 26));
        assert(voices[27] == Self::voice_at(data, 27));
        assert(voices[28] == Self::voice_at(data, 28));
        assert(voices[29] == Self::voice_at(data, 29));
        assert(voices[30] == Self::voice_at(data, 30));
        assert(voices[31] == Self::voice_at(data, 31));
    }

    /// What `to_bytes` writes, `parse` reads as the same voices, with the
    /// spaces that filled a name up read as the name's own. Where every
    /// name has ten characters, it is the same cartridge.
    pub proof fn lemma_decoded_encoded(cartridge: Self)
        requires
            cartridge.wf(),
        ensures
            cartridge.encoded().len() == 4096,
            Self::all_accepted(cartridge.encoded()),
            Self::canonical(cartridge.encoded()),
            forall|k: int|
                0 <= k < 32 ==> #[trigger] Self::decoded(cartridge.encoded()).voices[k]
                    == cartridge.voices[k].filled(),
            (forall|k: int| 0 <= k < 32 ==> (#[trigger] cartridge.voices[k]).name.length() == 10)
                ==> Self::decoded(cartridge.encoded()) == cartridge,
    {
        let data = cartridge.encoded();
        Self::lemma_voices_packed(cartridge.voices@, 32);
        Self::lemma_decoded_voices(data);
        assert forall|k: int| 0 <= k < 32 implies {
            &&& Voice::all_packed_accepted(#[trigger] Self::slot(data, k))
            &&& Voice::tidy(Self::slot(data, k))
            &&& LfoWaveform::known(field(Self::slot(data, k)[116], 1, 3))
            &&& Self::voice_at(data, k) == cartridge.voices[k].filled()
        } by {
            assert(cartridge.voices[k].wf());
            Voice::lemma_packed_decoded(cartridge.voices[k]);
        }
        assert forall|i: int| 0 <= i < 4096 implies #[trigger] Self::accepts(i, data[i]) by {
            let k = i / 128;
            let slot = Self::slot(data, k);
            assert(Voice::all_packed_accepted(slot));
            assert(Voice::packed_accepts(i - 128 * k, slot[i - 128 * k]));
            Self::lemma_slot_offset(k, i - 128 * k, data[i]);
        }
        assert(Self::all_accepted(data));
        assert forall|k: int| 0 <= k < 32 implies #[trigger] Self::decoded(data).voices[k]
            == cartridge.voices[k].filled() by {
            assert(Self::voice_at(data, k) == cartridge.voices[k].filled());
        }
        if forall|k: int| 0 <= k < 32 ==> (#[trigger] cartridge.voices[k]).name.length() == 10 {
            assert forall|k: int| 0 <= k < 32 implies Self::decoded(data).voices[k]
                == cartridge.voices[k] by {
                Voice::lemma_filled(cartridge.voices[k]);
            }
            assert(Self::decoded(data).voices =~= cartridge.voices);
        }
    }

    /// The cartridge read from accepted data writes the data back byte for
    /// byte, where the data is canonical. Data with a bit set that holds no
    /// parameter, or with an LFO waveform that is not known, reads as a
    /// cartridge too, but as one that is written otherwise.
    pub proof fn lemma_encoded_decoded(data: Seq<u8>)
        requires
            data.len() == 4096,
            Self::all_accepted(data),
            Self::canonical(data),
        ensures
            Self::decoded(data).wf(),
            Self::decoded(data).encoded() == data,
    {
        let cartridge = Self::decoded(data);
        let written = cartridge.encoded();
        Self::lemma_voices_packed(cartridge.voices@, 32);
        Self::lemma_decoded_voices(data);
        assert forall|k: int| 0 <= k < 32 implies (#[trigger] cartridge.voices[k]).wf()
            && Voice::packed(cartridge.voices[k].encoded()) == Self::slot(data, k) by {
            let packed = Self::slot(data, k);
            assert(cartridge.voices[k] == Self::voice_at(data, k));
            Self::lemma_slot_accepted(data, k);
            assert(Voice::tidy(packed));
            Voice::lemma_decoded_packed(packed);
        }
        assert forall|k: int| 0 <= k < 32 implies #[trigger] written.subrange(
            k * 128,
            k * 128 + 128,
        ) == data.subrange(k * 128, k * 128 + 128) by {
            assert(Self::slot(written, k) == Voice::packed(cartridge.voices[k].encoded()));
            assert(written.subrange(k * 128, k * 128 + 128) =~= Self::slot(written, k));
            assert(data.subrange(k * 128, k * 128 + 128) =~= Self::slot(data, k));
        }
        Voice::lemma_equal_by_chunks(written, data, 32, 128);
    }

    /// Makes a cartridge from its data. It does what `parse` does:
    /// the data of a cartridge is always in the packed form.
    pub fn from_packed_bytes(data: &[u8]) -> (r: Result<Self, ParseError>)
        ensures
            data@.len() != 4096 ==> r == Err::<Self, ParseError>(
                ParseError::InvalidLength(crate::reported_len(data@.len()), 4096),
            ),
            data@.len() == 4096 ==> match r {
                Ok(value) => Self::all_accepted(data@) && value == Self::decoded(data@),
                Err(e) => exists|k: int| #[trigger]
                    Self::first_refused(data@, k) && e == ParseError::InvalidData(k as u32),
            },
    {
        Self::parse(data)
    }

    /// Gets the data of the cartridge. It does what `to_bytes` does.
    pub fn to_packed_bytes(&self) -> (r: Vec<u8>)
        ensures
            r@ == self.encoded(),
            r@.len() == 4096,
    {
        self.to_bytes()
    }
}

impl Default for Cartridge {
    /// A cartridge of 32 fresh voices.
    fn default() -> (r: Self)
        ensures
            forall|i: int| 0 <= i < 32 ==> #[trigger] r.voices[i] == Voice::initial(),
    {
        let mut voices = [Voice::new();32];
        let mut k: usize = 0;
        while k < 32
            invariant
                k <= 32,
                forall|i: int| 0 <= i < k ==> voices[i] == Voice::initial(),
            decreases 32 - k,
        {
            voices[k] = Voice::new();
            k += 1;
        }
        Cartridge { voices }
    }
}

impl SystemExclusiveData for Cartridge {
    const DATA_SIZE: usize = 4096;

    /// Each slot of 128 bytes accepts what the packed form of a voice
    /// accepts.
    open spec fn accepts(offset: int, byte: u8) -> bool {
        Voice::packed_accepts(offset % 128, byte)
    }

    /// The cartridge whose voices stand in the slots: `read`.
    open spec fn decoded(data: Seq<u8>) -> Self {
        Self::read(data)
    }

    open spec fn encoded(&self) -> Seq<u8> {
        Self::voices_packed(self.voices@, 32)
    }

    fn parse(data: &[u8]) -> (r: Result<Self, ParseError>) {
        if data.len() != Self::DATA_SIZE {
            return Err(
                ParseError::InvalidLength(report_len(data.len()), report_len(Self::DATA_SIZE)),
            );
        }
        let mut voices: [Voice; 32] = [Voice::new();32];
        let mut k: usize = 0;
        while k < 32
            invariant
                k <= 32,
                data@.len() == 4096,
                Self::accepted_below(data@, 128 * k),
                forall|j: int| 0 <= j < k ==> voices[j] == Self::voice_at(data@, j),
            decreases 32 - k,
        {
            match Voice::from_packed_bytes(&data[128 * k..128 * k + 128]) {
                Ok(voice) => {
                    voices[k] = voice;
                    proof {
                        Self::lemma_slot_parsed(data@, k as int);
                    }
                },
                Err(e) => {
                    proof {
                        let at = choose|at: int| #[trigger]
                            Voice::first_packed_refused(Self::slot(data@, k as int), at) && e
                                == ParseError::InvalidData(at as u32);
                        Self::lemma_slot_refused(data@, k as int, at);
                    }
                    return Err(e.at((128 * k) as u32));
                },
            }
            k += 1;
        }
        proof {
            Self::lemma_decoded_voices(data@);
            assert(voices =~= Self::decoded(data@).voices);
        }
        assert(forall|i: int| 0 <= i < data@.len() ==> #[trigger] Self::accepts(i, data@[i]));
        assert(Self::all_accepted(data@));
        Ok(Cartridge { voices })
    }

    fn to_bytes(&self) -> (r: Vec<u8>) {
        let mut data: Vec<u8> = Vec::new();
        let mut k: usize = 0;
        while k < 32
            invariant
                k <= 32,
                data@ == Self::voices_packed(self.voices@, k as int),
                data@.len() == 128 * k,
            decreases 32 - k,
        {
            let mut voice = self.voices[k].to_packed_bytes();
            data.append(&mut voice);
            k += 1;
        }
        data
    }
}

} // verus!
