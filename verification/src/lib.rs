//! Verified planning and data-layout core of the vision training stack.

pub mod artifact;
pub mod augment;
pub mod balance;
pub mod binary32;
pub mod bitmap;
pub mod cifar;
pub mod config;
pub mod dataset;
pub mod distill;
pub mod distill_runtime;
pub mod features;
pub mod frames;
pub mod image_cache;
pub mod imagenet;
pub mod input_projection;
pub mod loader;
pub mod metadata;
pub mod numeric;
pub mod ordered;
pub mod picture;
pub mod pixels;
pub mod probe;
pub mod rac;
pub mod reconstruction;
pub mod rollout;
pub mod samples;
pub mod scalar;
pub mod serving;
pub mod stores;
pub mod text;
pub mod train;
pub mod trajectory;
pub mod views;
