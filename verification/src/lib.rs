//! Verified core of a bridge that turns development events received over MQTT
//! into haptic gestures: glob-based event filters, rule validation, the gesture
//! table and the playback queue's state machine.

pub mod text;
pub mod backend;
pub mod config;
pub mod magnitude;
pub mod gestures;
pub mod event;
pub mod rules;
pub mod player;
pub mod dispatch;
