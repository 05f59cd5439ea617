//! A 192x32 LED sign that shows subway arrivals and scrolling service
//! alerts: all of it but the input and output.
//!
//! The heart of the crate is the rendering: the bitmap font and icon store,
//! the RGB frame buffer, the frame renderer, the alert queue with its
//! cooldown rules, the alert display state machine and the per-frame
//! bookkeeping of the render loop. Around it stand the rules by which the
//! sign gets its data: the station database and the lookup of stations by
//! name, the reading of trains and alerts out of what the feeds give, the
//! rest that a failing feed is given, the rules of the configuration, and
//! what the control pages say of the sign.
//!
//! Every function carries a contract over a mathematical model of its data.

pub mod text;
pub mod strings;
pub mod json;
pub mod clock;
pub mod keyed;
pub mod colors;
pub mod models;
pub mod fonts;
pub mod font_json;
pub mod framebuffer;
pub mod alerts;
pub mod alert_text;
pub mod alert_render;
pub mod renderer;
pub mod alert_state;
pub mod render_loop;
pub mod matrix;
pub mod stations;
pub mod feeds;
pub mod arrivals;
pub mod trips;
pub mod alert_feed;
pub mod backoff;
pub mod config;
pub mod status;
