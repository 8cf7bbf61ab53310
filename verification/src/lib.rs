//! Verified signal-processing core of the ReeL split keyboard firmware:
//! rotary-encoder decoding, trackball motion shaping, and the calibration
//! record that carries the trackball direction matrix.

pub mod fixed_point;
pub mod calibration_config;
pub mod trackball_transform;
pub mod rotary_decoder;
pub mod rotary_state;
pub mod rotary_accumulator;
pub mod motion_gain;
pub mod motion_smoother;
pub mod sharp_lcd;
pub mod transformed_pointing_device;
pub mod peripheral;
