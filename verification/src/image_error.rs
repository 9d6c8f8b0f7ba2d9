use vstd::prelude::*;

verus! {

/// MyImageError enumerates all possible errors returned by this library.
/// Each variant carries a human-readable message.
#[derive(Debug)]
pub enum MyImageError {
    /// The file or its metadata could not be read.
    FileError(String),
    /// A valid image, but below the minimum accepted dimensions.
    ImageTooSmall(String),
    /// The file could not be decoded as an image.
    DecodeFail(String),
}

impl MyImageError {
    /// The message carried by the error, for display by a caller.
    pub fn message(&self) -> (r: &str)
        ensures
            r@ == match self {
                MyImageError::FileError(m) => m@,
                MyImageError::ImageTooSmall(m) => m@,
                MyImageError::DecodeFail(m) => m@,
            },
    {
        match self {
            MyImageError::FileError(m) => m.as_str(),
            MyImageError::ImageTooSmall(m) => m.as_str(),
            MyImageError::DecodeFail(m) => m.as_str(),
        }
    }
}

} // verus!
