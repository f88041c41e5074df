pub mod extension;
pub mod scan;
pub mod resolve;
pub mod order;
pub mod installer;
pub mod zip;
