//! Combinatorial synthesis of waveforms from pairs of inputs: the integer and
//! sequence logic (ratio enumeration and pruning, repeat-then-stride
//! resampling and alignment, channel reconciliation, the noise-signature byte
//! stream, content addressing and the exploration plan), each with its
//! contract.
pub mod cleanup;
pub mod explore;
pub mod identity;
pub mod noise;
pub mod ratio;
pub mod resample;
