pub mod jacobian;
