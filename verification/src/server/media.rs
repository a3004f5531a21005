//! Requests that carry an image or an audio clip: their checks, and the device
//! scratch that encoding them needs.
use vstd::prelude::*;
use vstd::string::*;

use crate::server::admission::{same_slabs, stamped};
use crate::server::worker::{all_busy, slab_for, AdmitError, Request, Worker};

verus! {

/// Smallest scratch region that an encoder runs in.
pub const MIN_ENCODER_SCRATCH: u64 = 67_108_864;

/// Scratch bytes that an encoder takes per position: 40000 floats.
pub const ENCODER_BYTES_PER_POSITION: u64 = 160_000;

/// Why a clip or an image cannot be encoded.
pub enum EncodeError {
    NoVision,
    NoTower,
    NoAudio,
}

impl EncodeError {
    /// The text of the failure.
    pub open spec fn text(&self) -> Seq<char> {
        match self {
            EncodeError::NoVision => "no vision model loaded (mmproj)"@,
            EncodeError::NoTower =>
                "this mmproj has no vision tower (gemma4uv image input is not supported in serve)"@,
            EncodeError::NoAudio => "no audio model loaded (mmproj has no audio encoder)"@,
        }
    }

    /// The text of the failure.
    pub fn message(&self) -> (r: String)
        ensures
            r@ == self.text(),
    {
        match self {
            EncodeError::NoVision => String::from_str("no vision model loaded (mmproj)"),
            EncodeError::NoTower => String::from_str(
                "this mmproj has no vision tower (gemma4uv image input is not supported in serve)",
            ),
            EncodeError::NoAudio => String::from_str(
                "no audio model loaded (mmproj has no audio encoder)",
            ),
        }
    }
}

/// Scratch bytes that encoding `positions` positions takes.
pub open spec fn encoder_scratch(positions: int) -> int {
    if 160_000 * positions > 67_108_864 {
        160_000 * positions
    } else {
        67_108_864
    }
}

/// A span of `len` placeholders from `start` runs past `n` tokens.
pub open spec fn overruns(start: int, len: int, n: int) -> bool {
    start + len > n
}

impl Worker {
    /// What a media request is refused with before its slab is chosen.
    pub open spec fn prompt_refusal(&self, tokens: Seq<u32>, overrun: Option<AdmitError>) -> Option<
        AdmitError,
    > {
        if tokens.len() == 0 {
            Some(AdmitError::EmptyPrompt)
        } else if tokens.len() >= self.ctx {
            Some(AdmitError::PromptTooLong { tokens: tokens.len() as usize, ctx: self.ctx })
        } else if overrun is Some {
            overrun
        } else if all_busy(self.slots@) {
            Some(AdmitError::NoFreeSlot)
        } else {
            None
        }
    }

    /// Place a media prompt whose span check gave `overrun`, and stamp its slab.
    fn place_media(&mut self, req: &Request, overrun: Option<AdmitError>) -> (r: Result<
        usize,
        AdmitError,
    >)
        requires
            old(self).wf(),
            old(self).clock < u64::MAX,
        ensures
            final(self).wf(),
            match r {
                Err(e) => {
                    &&& old(self).prompt_refusal(req.tokens@, overrun) == Some(e)
                    &&& *final(self) == *old(self)
                },
                Ok(slab) => {
                    &&& old(self).prompt_refusal(req.tokens@, overrun) is None
                    &&& 0 < req.tokens@.len() < old(self).ctx
                    &&& slab < old(self).slots@.len()
                    &&& !old(self).slots@[slab as int].active
                    &&& slab_for(old(self).slots@, req.tokens@, req.id_slot, slab as int)
                    &&& stamped(old(self), final(self), slab as int)
                    &&& same_slabs(old(self), final(self))
                },
            },
    {
        if req.tokens.len() == 0 {
            return Err(AdmitError::EmptyPrompt);
        }
        if req.tokens.len() >= self.ctx as usize {
            return Err(AdmitError::PromptTooLong { tokens: req.tokens.len(), ctx: self.ctx });
        }
        if let Some(e) = overrun {
            return Err(e);
        }
        match self.select_free_slab(req.tokens.as_slice(), req.id_slot) {
            None => Err(AdmitError::NoFreeSlot),
            Some(slab) => {
                self.stamp(slab);
                Ok(slab)
            },
        }
    }

    /// Admit a prompt with an image of `nx * ny` merged tokens from
    /// `image_start`. Images always prefill afresh: the caller encodes the
    /// image, clears the slab, prefills in one pass and reports with
    /// [`Worker::prefilled`] or [`Worker::prefill_failed`].
    pub fn admit_image(&mut self, req: &Request, image_start: usize, nx: usize, ny: usize) -> (r:
        Result<usize, AdmitError>)
        requires
            old(self).wf(),
            old(self).clock < u64::MAX,
        ensures
            final(self).wf(),
            ({
                let overrun = if overruns(image_start as int, nx * ny, req.tokens@.len() as int) {
                    Some(AdmitError::ImageOverrun)
                } else {
                    None
                };
                match r {
                    Err(e) => {
                        &&& old(self).media is None ==> e is NoVision
                        &&& old(self).media is Some ==> old(self).prompt_refusal(
                            req.tokens@,
                            overrun,
                        ) == Some(e)
                        &&& *final(self) == *old(self)
                    },
                    Ok(slab) => {
                        &&& old(self).media is Some
                        &&& old(self).prompt_refusal(req.tokens@, overrun) is None
                        &&& 0 < req.tokens@.len() < old(self).ctx
                        &&& slab < old(self).slots@.len()
                        &&& !old(self).slots@[slab as int].active
                        &&& slab_for(old(self).slots@, req.tokens@, req.id_slot, slab as int)
                        &&& stamped(old(self), final(self), slab as int)
                        &&& same_slabs(old(self), final(self))
                    },
                }
            }),
    {
        if self.media.is_none() {
            return Err(AdmitError::NoVision);
        }
        let fits = match nx.checked_mul(ny) {
            None => false,
            Some(n_tok) => image_start <= req.tokens.len() && n_tok <= req.tokens.len()
                - image_start,
        };
        let overrun = if fits {
            None
        } else {
            Some(AdmitError::ImageOverrun)
        };
        self.place_media(req, overrun)
    }

    /// Admit a prompt with an audio clip of `n_tok` frames from `audio_start`;
    /// otherwise as [`Worker::admit_image`].
    pub fn admit_audio(&mut self, req: &Request, audio_start: usize, n_tok: usize) -> (r: Result<
        usize,
        AdmitError,
    >)
        requires
            old(self).wf(),
            old(self).clock < u64::MAX,
        ensures
            final(self).wf(),
            ({
                let overrun = if overruns(audio_start as int, n_tok as int, req.tokens@.len() as int) {
                    Some(AdmitError::AudioOverrun)
                } else {
                    None
                };
                let audio = old(self).media is Some && old(self).media->0.audio;
                match r {
                    Err(e) => {
                        &&& !audio ==> e is NoAudio
                        &&& audio ==> old(self).prompt_refusal(req.tokens@, overrun) == Some(e)
                        &&& *final(self) == *old(self)
                    },
                    Ok(slab) => {
                        &&& audio
                        &&& old(self).prompt_refusal(req.tokens@, overrun) is None
                        &&& 0 < req.tokens@.len() < old(self).ctx
                        &&& slab < old(self).slots@.len()
                        &&& !old(self).slots@[slab as int].active
                        &&& slab_for(old(self).slots@, req.tokens@, req.id_slot, slab as int)
                        &&& stamped(old(self), final(self), slab as int)
                        &&& same_slabs(old(self), final(self))
                    },
                }
            }),
    {
        let audio = match &self.media {
            Some(m) => m.audio,
            None => false,
        };
        if !audio {
            return Err(AdmitError::NoAudio);
        }
        let overrun = if audio_start <= req.tokens.len() && n_tok <= req.tokens.len() - audio_start {
            None
        } else {
            Some(AdmitError::AudioOverrun)
        };
        self.place_media(req, overrun)
    }

    /// Scratch bytes that encoding an image of this patch grid takes, or why it
    /// cannot be encoded at all.
    pub fn encode_image(&self, grid_w: u32, grid_h: u32) -> (r: Result<u64, EncodeError>)
        requires
            160_000 * (grid_w * grid_h) <= u64::MAX,
        ensures
            r is Err <==> self.media is None,
            r matches Err(e) ==> e is NoVision,
            r matches Ok(need) ==> need == encoder_scratch(grid_w * grid_h),
    {
        if self.media.is_none() {
            return Err(EncodeError::NoVision);
        }
        assert(grid_w * grid_h <= u64::MAX) by (nonlinear_arith)
            requires
                160_000 * (grid_w * grid_h) <= u64::MAX,
        ;
        let positions: u64 = grid_w as u64 * grid_h as u64;
        Ok(encoder_need(positions))
    }

    /// The image tower can run. Checked after the scratch was grown.
    pub fn image_tower(&self) -> (r: Result<(), EncodeError>)
        ensures
            r is Ok <==> self.media is Some && self.media->0.tower,
            r matches Err(e) ==> (self.media is None ==> e is NoVision) && (self.media is Some
                ==> e is NoTower),
    {
        match &self.media {
            None => Err(EncodeError::NoVision),
            Some(m) => if m.tower {
                Ok(())
            } else {
                Err(EncodeError::NoTower)
            },
        }
    }

    /// Scratch bytes that encoding a clip of `n_tok` frames takes, or why it
    /// cannot be encoded at all.
    pub fn encode_audio(&self, n_tok: usize) -> (r: Result<u64, EncodeError>)
        requires
            160_000 * n_tok <= u64::MAX,
        ensures
            r is Err <==> !(self.media is Some && self.media->0.audio),
            r matches Err(e) ==> e is NoAudio,
            r matches Ok(need) ==> need == encoder_scratch(n_tok as int),
    {
        let audio = match &self.media {
            Some(m) => m.audio,
            None => false,
        };
        if !audio {
            return Err(EncodeError::NoAudio);
        }
        Ok(encoder_need(n_tok as u64))
    }

    /// The size to grow the scratch region to, where `need` bytes do not fit.
    pub fn scratch_growth(&self, need: u64) -> (r: Option<u64>)
        ensures
            need > self.scratch_bytes ==> r == Some(need),
            need <= self.scratch_bytes ==> r is None,
    {
        if need > self.scratch_bytes {
            Some(need)
        } else {
            None
        }
    }

    /// The scratch region was grown to `need` bytes.
    pub fn scratch_grown(&mut self, need: u64)
        requires
            old(self).wf(),
        ensures
            final(self).scratch_bytes == need,
            final(self).slots == old(self).slots,
            final(self).active == old(self).active,
            final(self).clock == old(self).clock,
            final(self).prefix_cache == old(self).prefix_cache,
            final(self).same_setup(old(self)),
            same_slabs(old(self), final(self)),
            final(self).wf(),
    {
        self.scratch_bytes = need;
        proof {
            self.lemma_same_state(old(self));
        }
    }

    /// Settings outside the invariant do not matter to it.
    pub proof fn lemma_same_state(&self, before: &Worker)
        requires
            before.wf(),
            self.slots == before.slots,
            self.active == before.active,
            self.prefix_cache == before.prefix_cache,
            self.same_setup(before),
            same_slabs(before, self),
        ensures
            self.wf(),
    {
        assert forall|a: int| 0 <= a < self.active@.len() implies #[trigger] self.seq_ok(a) by {
            assert(before.seq_ok(a));
        }
        assert forall|a: int| 0 <= a < self.active@.len() implies #[trigger] self.has_work(a) by {
            assert(before.has_work(a));
        }
        assert forall|i: int|
            0 <= i < self.slots@.len() && (#[trigger] self.slots@[i]).active implies self.owned(
            i,
        ) by {
            assert(before.owned(i));
            let a = choose|a: int|
                0 <= a < before.active@.len() && (#[trigger] before.active@[a]).slab == i;
            assert(self.active@[a].slab == i);
        }
    }
}

/// Scratch bytes that encoding `positions` positions takes.
fn encoder_need(positions: u64) -> (need: u64)
    requires
        160_000 * positions <= u64::MAX,
    ensures
        need == encoder_scratch(positions as int),
{
    let bytes: u64 = ENCODER_BYTES_PER_POSITION * positions;
    if bytes > MIN_ENCODER_SCRATCH {
        bytes
    } else {
        MIN_ENCODER_SCRATCH
    }
}

/// How far positions lag behind tokens after an image of `nx` by `ny` tokens: it
/// takes as many positions as its longer side has tokens.
pub open spec fn lag_of(nx: int, ny: int) -> int {
    let longer = if nx >= ny {
        nx
    } else {
        ny
    };
    if nx * ny >= longer {
        nx * ny - longer
    } else {
        0
    }
}

/// How far positions lag behind tokens after an image of `nx` by `ny` tokens.
pub fn image_lag(nx: usize, ny: usize) -> (r: u32)
    requires
        nx * ny <= u32::MAX,
    ensures
        r == lag_of(nx as int, ny as int),
{
    let longer: usize = if nx >= ny {
        nx
    } else {
        ny
    };
    assert(0 <= nx * ny) by (nonlinear_arith);
    (nx * ny).saturating_sub(longer) as u32
}

} // verus!
