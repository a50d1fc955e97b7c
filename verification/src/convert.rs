use vstd::prelude::*;
use vstd::arithmetic::div_mod::{
    lemma_div_multiples_vanish, lemma_fundamental_div_mod, lemma_fundamental_div_mod_converse_div,
    lemma_fundamental_div_mod_converse_mod, lemma_mod_multiples_basic,
};
use crate::config::StreamError;
use crate::sample::{
    decode_samples_vec, decoded_samples, encode_samples_vec, encoded_bytes, s16_from_le, s16_le_hi,
    s16_le_lo, trunc_div, trunc_div_i64,
};
use crate::vecs::copy_range;

verus! {

/// A channel count the converter accepts.
pub open spec fn channels_ok(c: int) -> bool {
    1 <= c <= 2
}

/// Each mono sample duplicated to both stereo channels.
pub open spec fn mono_to_stereo(s: Seq<i16>) -> Seq<i16> {
    Seq::new((s.len() * 2) as nat, |i: int| s[i / 2])
}

/// The downmix of one stereo frame: the arithmetic mean of the two
/// channels, computed in 32 bits and rounded toward zero.
pub open spec fn mean_sample(l: i16, r: i16) -> i16 {
    trunc_div(l + r, 2) as i16
}

/// Each stereo frame collapsed to its mean.
pub open spec fn stereo_to_mono(s: Seq<i16>) -> Seq<i16> {
    Seq::new((s.len() / 2) as nat, |i: int| mean_sample(s[2 * i], s[2 * i + 1]))
}

/// The sample sequence after channel conversion from `dc` to `tc`
/// channels.
pub open spec fn channel_converted(s: Seq<i16>, dc: int, tc: int) -> Seq<i16>
    recommends
        channels_ok(dc),
        channels_ok(tc),
{
    if dc == tc {
        s
    } else if dc == 1 {
        mono_to_stereo(s)
    } else {
        stereo_to_mono(s)
    }
}

fn mean_of(l: i16, r: i16) -> (m: i16)
    ensures
        m == mean_sample(l, r),
{
    let sum: i32 = l as i32 + r as i32;
    let q: i64 = trunc_div_i64(sum as i64, 2);
    proof {
        crate::sample::lemma_trunc_div_range(sum as int, 2, -0x8000, 0x7fff);
    }
    q as i16
}

/// Converts interleaved samples between the supported channel layouts:
/// same count is a copy, mono to stereo duplicates each sample, stereo
/// to mono averages each frame. Counts other than 1 or 2 are refused
/// with `ConfigUnsupported`.
pub fn convert_channels(samples: &Vec<i16>, device_channels: u16, target_channels: u16) -> (r:
    Result<Vec<i16>, StreamError>)
    requires
        device_channels == 2 ==> samples@.len() % 2 == 0,
        samples@.len() * 2 <= usize::MAX,
    ensures
        channels_ok(device_channels as int) && channels_ok(target_channels as int) ==> (r matches
            Ok(v) && v@ == channel_converted(
            samples@,
            device_channels as int,
            target_channels as int,
        )),
        !(channels_ok(device_channels as int) && channels_ok(target_channels as int)) ==> r
            === Err(StreamError::ConfigUnsupported),
{
    if device_channels < 1 || device_channels > 2 || target_channels < 1 || target_channels > 2 {
        return Err(StreamError::ConfigUnsupported);
    }
    if device_channels == target_channels {
        let r = copy_range(samples, 0, samples.len());
        proof {
            assert(r@ =~= samples@);
        }
        Ok(r)
    } else if device_channels == 1 {
        let mut r: Vec<i16> = Vec::new();
        let mut i: usize = 0;
        while i < samples.len()
            invariant
                i <= samples@.len(),
                samples@.len() * 2 <= usize::MAX,
                r@.len() == 2 * i,
                forall|j: int| 0 <= j < 2 * i ==> r@[j] == samples@[j / 2],
            decreases samples@.len() - i,
        {
            let s = samples[i];
            r.push(s);
            r.push(s);
            i += 1;
        }
        proof {
            assert(r@ =~= mono_to_stereo(samples@));
        }
        Ok(r)
    } else {
        let n: usize = samples.len() / 2;
        proof {
            lemma_fundamental_div_mod(samples@.len() as int, 2);
        }
        let mut r: Vec<i16> = Vec::new();
        let mut i: usize = 0;
        while i < n
            invariant
                i <= n,
                2 * n == samples@.len(),
                2 * n <= usize::MAX,
                r@.len() == i,
                forall|j: int|
                    0 <= j < i ==> r@[j] == mean_sample(samples@[2 * j], samples@[2 * j + 1]),
            decreases n - i,
        {
            let m = mean_of(samples[2 * i], samples[2 * i + 1]);
            r.push(m);
            i += 1;
        }
        proof {
            assert(r@ =~= stereo_to_mono(samples@));
        }
        Ok(r)
    }
}

/// Downmixing an upmixed signal restores it exactly: duplicating a mono
/// sample to both channels and averaging them back is the identity.
pub proof fn lemma_mono_stereo_round_trip(s: Seq<i16>)
    ensures
        stereo_to_mono(mono_to_stereo(s)) == s,
{
    let up = mono_to_stereo(s);
    assert forall|i: int| 0 <= i < s.len() implies stereo_to_mono(up)[i] == s[i] by {
        assert(up[2 * i] == s[i]);
        assert(up[2 * i + 1] == s[i]);
        let x = s[i] as int;
        lemma_div_multiples_vanish(x, 2);
        assert(mean_sample(s[i], s[i]) == s[i]);
    }
    assert(stereo_to_mono(mono_to_stereo(s)) =~= s);
}

/// Encoding the samples read from an even-length byte image restores
/// that image byte for byte.
pub proof fn lemma_encode_decode_id(bytes: Seq<u8>)
    requires
        bytes.len() % 2 == 0,
    ensures
        encoded_bytes(decoded_samples(bytes)) == bytes,
{
    let dec = decoded_samples(bytes);
    lemma_fundamental_div_mod(bytes.len() as int, 2);
    assert forall|i: int| 0 <= i < bytes.len() implies encoded_bytes(dec)[i] == bytes[i] by {
        let k = i / 2;
        let lo = bytes[2 * k];
        let hi = bytes[2 * k + 1];
        let s = s16_from_le(lo, hi);
        crate::sample::lemma_s16_le_image(lo, hi);
        if i % 2 == 0 {
            lemma_fundamental_div_mod(i, 2);
            assert(i == 2 * k);
            assert(encoded_bytes(dec)[i] == s16_le_lo(dec[k]));
        } else {
            lemma_fundamental_div_mod(i, 2);
            assert(i == 2 * k + 1);
            assert(encoded_bytes(dec)[i] == s16_le_hi(dec[k]));
        }
    }
    assert(encoded_bytes(decoded_samples(bytes)) =~= bytes);
}

/// The capture-side format converter: turns one device callback's worth
/// of canonical s16 bytes into wire bytes with the negotiated channel
/// count. The float device format is converted to s16 before it reaches
/// this type.
#[derive(Clone, Copy, Debug, PartialEq, Eq, Structural)]
pub struct FormatConverter {
    /// Channel count delivered by the capture device; 1 or 2.
    pub device_channels: u16,
    /// Channel count of the wire format; 1 or 2.
    pub target_channels: u16,
}

impl FormatConverter {
    /// Both channel counts are in the supported range.
    pub open spec fn valid(self) -> bool {
        channels_ok(self.device_channels as int) && channels_ok(self.target_channels as int)
    }

    /// The wire byte image this converter produces for a device byte
    /// image.
    pub open spec fn converted(self, data: Seq<u8>) -> Seq<u8> {
        encoded_bytes(
            channel_converted(
                decoded_samples(data),
                self.device_channels as int,
                self.target_channels as int,
            ),
        )
    }

    /// Builds a converter, refusing any channel count other than 1 or 2
    /// with `ConfigUnsupported`.
    pub fn new(device_channels: u16, target_channels: u16) -> (r: Result<
        FormatConverter,
        StreamError,
    >)
        ensures
            channels_ok(device_channels as int) && channels_ok(target_channels as int) ==> r
                === Ok(FormatConverter { device_channels, target_channels }),
            !(channels_ok(device_channels as int) && channels_ok(target_channels as int)) ==> r
                === Err(StreamError::ConfigUnsupported),
            r matches Ok(c) ==> c.valid(),
    {
        if device_channels < 1 || device_channels > 2 || target_channels < 1 || target_channels
            > 2 {
            Err(StreamError::ConfigUnsupported)
        } else {
            Ok(FormatConverter { device_channels, target_channels })
        }
    }

    /// Converts one capture callback's bytes into wire bytes. In the
    /// same-channel-count case the output is the input byte for byte.
    pub fn convert_frames(&self, data: &Vec<u8>) -> (r: Vec<u8>)
        requires
            self.valid(),
            data@.len() as int % (2 * self.device_channels as int) == 0,
            data@.len() * 2 <= usize::MAX,
        ensures
            r@ == self.converted(data@),
            self.device_channels == self.target_channels ==> r@ == data@,
    {
        proof {
            if self.device_channels == 2 {
                let len = data@.len() as int;
                lemma_fundamental_div_mod(len, 4);
                let q = len / 4;
                assert(len == 4 * q);
                lemma_fundamental_div_mod_converse_mod(len, 2, 2 * q, 0);
                lemma_div_multiples_vanish(2 * q, 2);
                assert(len / 2 == 2 * q) by {
                    lemma_fundamental_div_mod_converse_div(len, 2, 2 * q, 0);
                }
                lemma_mod_multiples_basic(q, 2);
            } else {
                let len = data@.len() as int;
                lemma_fundamental_div_mod(len, 2);
            }
        }
        let samples = decode_samples_vec(data);
        let conv = match convert_channels(&samples, self.device_channels, self.target_channels) {
            Ok(v) => v,
            Err(_) => Vec::new(),
        };
        let out = encode_samples_vec(&conv);
        proof {
            if self.device_channels == self.target_channels {
                lemma_encode_decode_id(data@);
            }
        }
        out
    }

    /// Converts one capture callback's bytes into a recycled wire
    /// buffer, as the emitter's recycle ring hands it over: the buffer
    /// is cleared and then holds exactly the converted bytes.
    pub fn convert_frames_into(&self, data: &Vec<u8>, out: &mut Vec<u8>)
        requires
            self.valid(),
            data@.len() as int % (2 * self.device_channels as int) == 0,
            data@.len() * 2 <= usize::MAX,
        ensures
            final(out)@ == self.converted(data@),
            self.device_channels == self.target_channels ==> final(out)@ == data@,
    {
        let converted = self.convert_frames(data);
        out.clear();
        let mut i: usize = 0;
        while i < converted.len()
            invariant
                i <= converted@.len(),
                out@ == converted@.subrange(0, i as int),
            decreases converted@.len() - i,
        {
            out.push(converted[i]);
            i += 1;
            proof {
                assert(out@ =~= converted@.subrange(0, i as int));
            }
        }
        proof {
            assert(out@ =~= converted@);
        }
    }
}

} // verus!
