//! Accelerometer telemetry messages and the checksummed serial framing used
//! between the sensor firmware and the plotting host.

pub mod message_id;
pub mod acc_msg;
pub mod wire;
pub mod receiver;
pub mod rate;
pub mod history;
pub mod transmitter;
pub mod queue;
