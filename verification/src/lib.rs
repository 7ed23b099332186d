//! The logic of an image viewer and light editor: decoding, editing, exporting,
//! folder order, caching and the decisions the window makes, each with its contract.

pub mod adjust;
pub mod avif;
pub mod browsing;
pub mod cache;
pub mod cli;
pub mod clipboard;
pub mod clock;
pub mod codecs;
pub mod collector;
pub mod convert;
pub mod coordinates;
pub mod decode;
pub mod decoders;
pub mod edit;
pub mod editing;
pub mod export;
pub mod fit;
pub mod folder;
pub mod imageops;
pub mod loading;
pub mod metadata;
pub mod notice;
pub mod order;
pub mod panels;
pub mod path;
pub mod playback;
pub mod prefetch;
pub mod psd;
pub mod raster;
pub mod rounding;
pub mod saving;
pub mod session;
pub mod settings;
pub mod shortcuts;
pub mod sizes;
pub mod slideshow;
pub mod startup;
pub mod tags;
pub mod text;
pub mod texture;
pub mod thumbs;
pub mod titlebar;
pub mod vector;
pub mod views;
pub mod window;
