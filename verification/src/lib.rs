//! Proofs of single AIRs over the KoalaBear field: the Keccak-f AIR, the BLAKE3
//! table, and the SNARK that commits to a trace with WHIR, proves its
//! constraints, and opens it. What the constraints mean is proved over prime
//! fields in general.

pub mod air;
pub mod bits;
pub mod blake3;
pub mod blake3_air;
pub mod blake3_call_laws;
pub mod blake3_eval;
pub mod blake3_execution;
pub mod blake3_gadget_laws;
pub mod blake3_gadgets;
pub mod blake3_gate_laws;
pub mod blake3_laws;
pub mod blake3_row_laws;
pub mod blake3_shape_laws;
pub mod blake3_table;
pub mod blake3_trace;
pub mod blake3_trace_laws;
pub mod blake3_word_laws;
pub mod degree;
pub mod field;
pub mod field_laws;
pub mod keccak;
pub mod keccak_air;
pub mod keccak_laws;
pub mod keccak_shape_laws;
pub mod keccak_trace_laws;
pub mod preprocessing;
pub mod preprocessing_laws;
pub mod prime_field;
pub mod snark;
pub mod snark_laws;
pub mod snark_run;
pub mod snark_setup;
pub mod transcript_laws;
pub mod whir;
pub mod words;
