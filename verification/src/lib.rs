//! A bounded byte cursor over a fixed-capacity packet buffer, together with
//! the decoder for compressed domain names as they appear on the wire:
//! length-prefixed labels terminated by an empty label, with backward
//! pointers that reuse an already-encoded name suffix.

pub mod byte_packet_buffer;
pub mod qname;
