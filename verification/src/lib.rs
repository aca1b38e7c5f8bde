//! Verified core of three marketplace collectors (birbir.uz, olx.uz, uzum.uz).

pub mod birbir;
pub mod birbir_watch;
mod clock;
pub mod json;
pub mod numtext;
pub mod olx;
pub mod olx_watch;
pub mod retry;
pub mod text;
pub mod token_search;
pub mod uzum;
pub mod uzum_watch;
pub mod watermark;
