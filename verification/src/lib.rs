pub mod morton;
pub mod prefix;
pub mod radix;
pub mod settings;
