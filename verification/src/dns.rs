//! The wire format: cursor, codecs and packet model.

pub mod address;
pub mod byte_packet_buffer;
pub mod byte_packet_buffer_error;
pub mod dns_header;
pub mod dns_packet;
pub mod dns_question;
pub mod dns_record;
pub mod name;
pub mod query_class;
pub mod query_type;
pub mod result_code;
pub mod round_trip;
pub mod wire;
