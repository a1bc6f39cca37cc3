//! The commands of the bridge, each as the decisions it takes between what
//! it reads and what it sends.

pub mod aliases;
pub mod daemon;
pub mod lmtp;
pub mod pipe;
pub mod transport;
pub mod webhook;
