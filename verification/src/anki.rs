pub mod connect;
