//! Wire format of the file's metadata messages.

pub mod pb;
