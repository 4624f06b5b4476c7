//! Pixel filters for RGBA8 images, and the host-side rules for loading a
//! filter module and running it on an image.
//!
//! A filter works in place on a pixel buffer of `width * height * 4` bytes,
//! row by row, four channels to a pixel. It never reads or writes outside the
//! buffer: one that does not fit the dimensions is left as it was.
//!
//! - [`abi`]: what a filter call reports back.
//! - [`pixel_buffer`]: where the bytes of a pixel lie.
//! - [`mirror_plugin`]: the mirror filter.
//! - [`blur_plugin`], [`blur_config`], [`kernel`]: the blur filter, its
//!   configuration text and its weights.
//! - [`plugin_loader`]: the name of a module's file, the steps of loading it,
//!   and the filters that are compiled in.
//! - [`error`]: the errors of a host run, and the checks that give them.

pub mod abi;
pub mod pixel_buffer;
pub mod mirror_plugin;
pub mod blur_config;
pub mod kernel;
pub mod blur_plugin;
pub mod error;
pub mod plugin_loader;
