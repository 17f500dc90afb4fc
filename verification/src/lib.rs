pub mod bits;
pub mod bitstream;
pub mod range;

pub use bitstream::Bitstream;
pub use bitstream::CountingRngBitstream;
pub use bitstream::Generator;
pub use bitstream::RngBitstream;
pub use range::BitstreamExt;
