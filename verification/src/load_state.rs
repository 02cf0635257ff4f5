//! The state of loading the image on screen: the generation of the load
//! in progress and of the image shown, the decoded images, and the images
//! and cancellation tokens handed back for release.
use vstd::prelude::*;

verus! {

/// A decoded image with its size in pixels.
#[derive(Debug, Clone, PartialEq, Eq)]
pub struct LoadedImage<I> {
    pub image: I,
    pub width: u32,
    pub height: u32,
}

impl<I> LoadedImage<I> {
    /// The image's width and height.
    pub fn dimensions(&self) -> (result: (u32, u32))
        ensures
            result == (self.width, self.height),
    {
        (self.width, self.height)
    }
}

/// The state of loading the image on screen.
pub struct ImageLoadState<I> {
    pub current_generation: u64,
    pub display_generation: u64,
    pub pending_source_dimensions: Option<(u32, u32)>,
    pub display_source_dimensions: Option<(u32, u32)>,
    pub display_rotation_quarter_turns: u8,
    pub current_image: Option<LoadedImage<I>>,
    pub rotated_image: Option<LoadedImage<I>>,
    pub current_token: Option<u64>,
    pub is_decoding: bool,
    pub file_metadata: Option<crate::preview_cache::FileSignature>,
    pub retired_images: Vec<LoadedImage<I>>,
    pub cancelled_tokens: Vec<u64>,
}

/// The payloads of an optional image, as a sequence of none or one.
pub open spec fn opt_seq<T>(value: Option<T>) -> Seq<T> {
    match value {
        Some(v) => seq![v],
        None => Seq::empty(),
    }
}

impl<I> ImageLoadState<I> {
    /// Nothing loaded or shown.
    pub fn new() -> (result: Self)
        ensures
            result.current_generation == 0,
            result.display_generation == 0,
            result.pending_source_dimensions is None,
            result.display_source_dimensions is None,
            result.display_rotation_quarter_turns == 0,
            result.current_image is None,
            result.rotated_image is None,
            result.current_token is None,
            !result.is_decoding,
            result.file_metadata is None,
            result.retired_images@.len() == 0,
            result.cancelled_tokens@.len() == 0,
    {
        ImageLoadState {
            current_generation: 0,
            display_generation: 0,
            pending_source_dimensions: None,
            display_source_dimensions: None,
            display_rotation_quarter_turns: 0,
            current_image: None,
            rotated_image: None,
            current_token: None,
            is_decoding: false,
            file_metadata: None,
            retired_images: Vec::new(),
            cancelled_tokens: Vec::new(),
        }
    }

    /// Begins loading another image: the decode in progress is cancelled
    /// (its token is handed back), a new generation begins, and what was
    /// known of the pending image is forgotten; the image shown stays until
    /// the new one arrives. Gives the generation.
    pub fn begin_current_load(&mut self) -> (result: u64)
        ensures
            final(self).current_generation == crate::plugin_management::next_generation(old(self).current_generation),
            result == final(self).current_generation,
            final(self).current_token is None,
            final(self).cancelled_tokens@ == old(self).cancelled_tokens@ + opt_seq(old(self).current_token),
            final(self).pending_source_dimensions is None,
            final(self).file_metadata is None,
            !final(self).is_decoding,
            final(self).display_generation == old(self).display_generation,
            final(self).display_source_dimensions == old(self).display_source_dimensions,
            final(self).display_rotation_quarter_turns == old(self).display_rotation_quarter_turns,
            final(self).current_image == old(self).current_image,
            final(self).rotated_image == old(self).rotated_image,
            final(self).retired_images == old(self).retired_images,
    {
        if let Some(token) = self.current_token {
            self.cancelled_tokens.push(token);
        }
        self.current_token = None;
        self.current_generation = self.current_generation.wrapping_add(1);
        self.pending_source_dimensions = None;
        self.file_metadata = None;
        self.is_decoding = false;
        self.current_generation
    }

    /// Starts decoding for `generation` when it is still current: a new
    /// token (named by the generation) is given for the decode to run
    /// under.
    pub fn begin_decode(&mut self, generation: u64) -> (result: Option<u64>)
        ensures
            old(self).current_generation != generation ==> result is None && *final(self) == *old(self),
            old(self).current_generation == generation ==> result == Some(generation)
                && *final(self) == (ImageLoadState { current_token: Some(generation), is_decoding: true, ..*old(self) }),
    {
        if self.current_generation != generation {
            return None;
        }
        self.current_token = Some(generation);
        self.is_decoding = true;
        Some(generation)
    }

    /// The decode of `generation` ended; a stale one changes nothing.
    pub fn finish_decode(&mut self, generation: u64) -> (result: bool)
        ensures
            result == (old(self).current_generation == generation),
            !result ==> *final(self) == *old(self),
            result ==> *final(self) == (ImageLoadState { current_token: None, is_decoding: false, ..*old(self) }),
    {
        if self.current_generation != generation {
            return false;
        }
        self.current_token = None;
        self.is_decoding = false;
        true
    }

    /// The decode of `generation` produced its image; a stale one changes
    /// nothing.
    pub fn mark_decode_ready(&mut self, generation: u64) -> (result: bool)
        ensures
            result == (old(self).current_generation == generation),
            !result ==> *final(self) == *old(self),
            result ==> !final(self).is_decoding && final(self).current_token == old(self).current_token
                && final(self).current_generation == old(self).current_generation
                && final(self).current_image == old(self).current_image
                && final(self).retired_images == old(self).retired_images,
    {
        if self.current_generation != generation {
            return false;
        }
        self.is_decoding = false;
        true
    }

    /// Whether `generation` is the load in progress.
    pub fn is_current(&self, generation: u64) -> (result: bool)
        ensures
            result == (self.current_generation == generation),
    {
        self.current_generation == generation
    }

    /// Whether a decode is running.
    pub fn is_decoding(&self) -> (result: bool)
        ensures
            result == self.is_decoding,
    {
        self.is_decoding
    }

    /// Whether an image is shown while another load is in progress.
    pub open spec fn spec_is_transitioning(&self) -> bool {
        self.current_image is Some && self.display_generation != self.current_generation
    }

    /// Whether an image is shown while another load is in progress.
    pub fn is_transitioning(&self) -> (result: bool)
        ensures
            result == self.spec_is_transitioning(),
    {
        self.current_image.is_some() && self.display_generation != self.current_generation
    }

    /// Records the source size of the image being loaded; a stale call
    /// changes nothing.
    pub fn set_source_dimensions(&mut self, generation: u64, dimensions: Option<(u32, u32)>) -> (result: bool)
        ensures
            result == (old(self).current_generation == generation),
            !result ==> *final(self) == *old(self),
            result ==> final(self).pending_source_dimensions == dimensions && final(self).current_image
                == old(self).current_image && final(self).retired_images == old(self).retired_images
                && final(self).current_generation == old(self).current_generation
                && final(self).display_generation == old(self).display_generation,
    {
        if !self.is_current(generation) {
            return false;
        }
        self.pending_source_dimensions = dimensions;
        true
    }

    /// Shows the image decoded for `generation`, when it is current: the
    /// image shown before and any rotated copy are retired for release, the
    /// rotation is reset, and the source size is the one recorded, or the
    /// image's own. A stale image changes nothing (the caller releases it).
    pub fn set_current_image(&mut self, generation: u64, image: LoadedImage<I>) -> (result: bool)
        ensures
            result == (old(self).current_generation == generation),
            !result ==> *final(self) == *old(self),
            result ==> {
                &&& final(self).display_generation == generation
                &&& final(self).display_rotation_quarter_turns == 0
                &&& final(self).display_source_dimensions == (match old(self).pending_source_dimensions {
                    Some(d) => Some(d),
                    None => Some((image.width, image.height)),
                })
                &&& final(self).current_image == Some(image)
                &&& final(self).rotated_image is None
                &&& final(self).retired_images@ == old(self).retired_images@ + opt_seq(old(self).current_image)
                    + opt_seq(old(self).rotated_image)
                &&& final(self).current_generation == old(self).current_generation
                &&& final(self).cancelled_tokens == old(self).cancelled_tokens
            },
    {
        if !self.is_current(generation) {
            return false;
        }
        self.display_generation = generation;
        self.display_rotation_quarter_turns = 0;
        self.display_source_dimensions = match self.pending_source_dimensions {
            Some(d) => Some(d),
            None => Some((image.width, image.height)),
        };
        let ghost retired = self.retired_images@;
        let previous = self.current_image.take();
        self.current_image = Some(image);
        if let Some(previous) = previous {
            self.retired_images.push(previous);
        }
        let rotated = self.rotated_image.take();
        if let Some(rotated) = rotated {
            self.retired_images.push(rotated);
        }
        assert(self.retired_images@ =~= retired + opt_seq(old(self).current_image) + opt_seq(
            old(self).rotated_image,
        ));
        true
    }

    /// The rotation the display uses: while transitioning, the rotation of
    /// the image still shown; otherwise the one asked for.
    pub open spec fn effective_turns(&self, quarter_turns: u8) -> u8 {
        if self.spec_is_transitioning() {
            self.display_rotation_quarter_turns
        } else {
            quarter_turns
        }
    }

    /// The size of the source shown, turned by the rotation in effect.
    pub fn display_source_dimensions(&self, quarter_turns: u8) -> (result: Option<(u32, u32)>)
        ensures
            (match self.display_source_dimensions {
                None => result is None,
                Some((w, h)) => if self.effective_turns(quarter_turns) % 2 == 1 {
                    result == Some((h, w))
                } else {
                    result == Some((w, h))
                },
            }),
    {
        let (width, height) = match self.display_source_dimensions {
            None => {
                return None;
            },
            Some(d) => d,
        };
        let turns = if self.is_transitioning() {
            self.display_rotation_quarter_turns
        } else {
            quarter_turns
        };
        if turns % 2 == 1 {
            Some((height, width))
        } else {
            Some((width, height))
        }
    }

    /// The image to draw: the decoded image without rotation, else the
    /// rotated copy.
    pub fn display_image(&self, quarter_turns: u8) -> (result: Option<&LoadedImage<I>>)
        ensures
            (if self.effective_turns(quarter_turns) % 4 == 0 {
                result == match self.current_image {
                    Some(i) => Some(&i),
                    None => None,
                }
            } else {
                result == match self.rotated_image {
                    Some(i) => Some(&i),
                    None => None,
                }
            }),
    {
        let turns = if self.is_transitioning() {
            self.display_rotation_quarter_turns
        } else {
            quarter_turns
        };
        if turns % 4 == 0 {
            self.current_image.as_ref()
        } else {
            self.rotated_image.as_ref()
        }
    }

    /// The image decoded last.
    pub fn current_image(&self) -> (result: Option<&LoadedImage<I>>)
        ensures
            result == match self.current_image {
                Some(i) => Some(&i),
                None => None,
            },
    {
        self.current_image.as_ref()
    }

    /// Replaces the rotated copy (the previous one is retired) and records
    /// its rotation, in quarter turns.
    pub fn set_rotated_image(&mut self, image: Option<LoadedImage<I>>, quarter_turns: u8)
        ensures
            final(self).rotated_image == image,
            final(self).display_rotation_quarter_turns == quarter_turns % 4,
            final(self).retired_images@ == old(self).retired_images@ + opt_seq(old(self).rotated_image),
            final(self).current_image == old(self).current_image,
            final(self).current_generation == old(self).current_generation,
            final(self).display_generation == old(self).display_generation,
            final(self).display_source_dimensions == old(self).display_source_dimensions,
    {
        let ghost retired = self.retired_images@;
        if let Some(previous) = self.rotated_image.take() {
            self.retired_images.push(previous);
        }
        assert(self.retired_images@ =~= retired + opt_seq(old(self).rotated_image));
        self.rotated_image = image;
        self.display_rotation_quarter_turns = quarter_turns % 4;
    }

    /// Records the version of the file loaded.
    pub fn set_file_metadata(&mut self, metadata: crate::preview_cache::FileSignature)
        ensures
            final(self).file_metadata == Some(metadata),
            final(self).current_image == old(self).current_image,
            final(self).retired_images == old(self).retired_images,
            final(self).current_generation == old(self).current_generation,
    {
        self.file_metadata = Some(metadata);
    }

    /// Hands back every retired image, for release.
    pub fn drain_retired_images(&mut self) -> (result: Vec<LoadedImage<I>>)
        ensures
            result@ == old(self).retired_images@,
            final(self).retired_images@.len() == 0,
            final(self).current_image == old(self).current_image,
            final(self).rotated_image == old(self).rotated_image,
            final(self).current_generation == old(self).current_generation,
            final(self).display_generation == old(self).display_generation,
            final(self).display_source_dimensions == old(self).display_source_dimensions,
            final(self).display_rotation_quarter_turns == old(self).display_rotation_quarter_turns,
    {
        let mut drained: Vec<LoadedImage<I>> = Vec::new();
        std::mem::swap(&mut drained, &mut self.retired_images);
        drained
    }

    /// Hands back every cancelled token, so that its decode stops.
    pub fn drain_cancelled_tokens(&mut self) -> (result: Vec<u64>)
        ensures
            result@ == old(self).cancelled_tokens@,
            final(self).cancelled_tokens@.len() == 0,
            final(self).current_generation == old(self).current_generation,
            final(self).current_token == old(self).current_token,
    {
        let mut drained: Vec<u64> = Vec::new();
        std::mem::swap(&mut drained, &mut self.cancelled_tokens);
        drained
    }

    /// Stops showing any image: the images are retired and the source size
    /// is forgotten.
    pub fn clear_display_images(&mut self)
        ensures
            final(self).current_image is None,
            final(self).rotated_image is None,
            final(self).display_source_dimensions is None,
            final(self).retired_images@ == old(self).retired_images@ + opt_seq(old(self).current_image)
                + opt_seq(old(self).rotated_image),
            final(self).current_generation == old(self).current_generation,
            final(self).display_generation == old(self).display_generation,
            final(self).cancelled_tokens == old(self).cancelled_tokens,
    {
        let ghost retired = self.retired_images@;
        if let Some(current) = self.current_image.take() {
            self.retired_images.push(current);
        }
        if let Some(rotated) = self.rotated_image.take() {
            self.retired_images.push(rotated);
        }
        assert(self.retired_images@ =~= retired + opt_seq(old(self).current_image) + opt_seq(
            old(self).rotated_image,
        ));
        self.display_source_dimensions = None;
    }
}

} // verus!
