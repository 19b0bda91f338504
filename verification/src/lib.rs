//! Verified core of an image-moderation pipeline.
//!
//! Two detector instances watch a chat stream for a trained visual pattern.
//! The library holds everything that can be stated and proved: decoding of
//! raw model output into scored candidate boxes, non-maximum suppression,
//! coordinate rescaling, image compositing, and the moderation policy
//! (per-group whitelist, per-user cooldown and counters).  Confidences and
//! coordinates are fixed-point integers: a confidence of 1.0 is
//! `CONF_ONE`, and box edges are thousandths of a pixel.
//!
//! Inference itself, network fetches, rendering of stroke outlines and the
//! chat host are unverified collaborators; they hand this library plain
//! values and take plain values back.

pub mod detect;
pub mod detector;
pub mod geometry;
pub mod imaging;
pub mod nms;
pub mod pixels;
pub mod policy;
