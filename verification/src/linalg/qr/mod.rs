pub mod sketched;
