//! Failures reported by the engine.

use vstd::prelude::*;

verus! {

/// Which kind of image a value holds.
#[derive(Clone, Copy, Debug, PartialEq, Eq, Structural)]
pub enum ImageKind {
    /// Three-channel real image.
    Normal,
    /// Single-channel complex spectrum.
    Complex,
}

/// A domain precondition that a processor's parameters violated.
#[derive(Clone, Copy, Debug, PartialEq, Eq, Structural)]
pub enum ParameterFault {
    /// The kernel size is even.
    EvenKernel,
    /// The kernel is taller or wider than the image.
    KernelTooLarge,
}

/// Why an operation was refused or failed.
#[derive(Clone, Debug, PartialEq, Eq)]
pub enum Error {
    /// The decoded image is not 8-bit RGB.
    UnsupportedFormat,
    /// An image of one kind was handed to a consumer of the other.
    WrongVariant { expected: ImageKind, found: ImageKind },
    /// A processor's parameters violate a domain precondition.
    InvalidParameter(ParameterFault),
    /// The accelerated path failed; the text is the device's own.
    AcceleratorError(String),
}

impl Error {
    /// The text shown to the user for this failure.
    pub fn message(&self) -> (text: String)
        ensures
            text@ == self.message_spec(),
    {
        match self {
            Error::UnsupportedFormat => "Only 24-bit RGB colorspace is supported".to_owned(),
            Error::WrongVariant { expected: ImageKind::Normal, .. } => {
                "Expecting a normal image, found complex image".to_owned()
            },
            Error::WrongVariant { expected: ImageKind::Complex, .. } => {
                "Expecting a complex image, found normal image".to_owned()
            },
            Error::InvalidParameter(ParameterFault::EvenKernel) => {
                "Kernel size should be odd number".to_owned()
            },
            Error::InvalidParameter(ParameterFault::KernelTooLarge) => {
                "Kernel should not be larger than image".to_owned()
            },
            Error::AcceleratorError(text) => text.clone(),
        }
    }

    /// The text of [`Error::message`], as a sequence of characters.
    pub open spec fn message_spec(&self) -> Seq<char> {
        match *self {
            Error::UnsupportedFormat => "Only 24-bit RGB colorspace is supported"@,
            Error::WrongVariant { expected: ImageKind::Normal, .. } =>
                "Expecting a normal image, found complex image"@,
            Error::WrongVariant { expected: ImageKind::Complex, .. } =>
                "Expecting a complex image, found normal image"@,
            Error::InvalidParameter(ParameterFault::EvenKernel) =>
                "Kernel size should be odd number"@,
            Error::InvalidParameter(ParameterFault::KernelTooLarge) =>
                "Kernel should not be larger than image"@,
            Error::AcceleratorError(text) => text@,
        }
    }
}

} // verus!
