pub mod channel;
pub mod demux;
pub mod error_policy;
pub mod refiner;
pub mod update_with_cx;

pub use channel::{Channel, SendError};
pub use demux::{
    drive, partition, ArmSet, Demux, DriveOutcome, DriveStatus, DuplicateArm, Offer, PumpOutcome,
    PumpStatus,
};
pub use error_policy::ErrorPolicy;
pub use refiner::{commands, message_events, text_messages};
pub use update_with_cx::UpdateWithCx;
