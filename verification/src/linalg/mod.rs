pub mod polyval;
pub mod qr;
