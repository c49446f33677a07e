//! The integer and structural logic of the skateboard-slope game engine:
//! its pseudo-random generator, key and event handling, object bookkeeping,
//! shape topology, draw ordering, texture bookkeeping, frame timing,
//! wire framing and motion-log replay.

pub mod editor;
pub mod engine;
pub mod event_queue;
pub mod frame;
pub mod model;
pub mod motion;
pub mod protocol;
pub mod random;
pub mod scene;
pub mod segments;
pub mod shapes;
pub mod textures;
