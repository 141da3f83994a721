//! Gadget-abstraction layer for building arithmetic constraint systems:
//! allocation of typed values as constants, witnesses, or public inputs;
//! conditional selection; and small bit-driven lookup tables, together with
//! generic composite implementations over ordered collections and fixed-size
//! arrays of element gadgets.

pub mod allocation;
pub mod array;
pub mod boolean;
pub mod cs;
pub mod errors;
pub mod fp;
pub mod select;

pub use allocation::{AllocGadget, WitnessProvider};
pub use array::GadgetArray;
pub use boolean::Boolean;
pub use cs::{AllocationMode, ConstraintSystem, Record};
pub use errors::SynthesisError;
pub use fp::{Fp, FpGadget, FIELD_MODULUS};
pub use select::{CondSelectGadget, ThreeBitCondNegLookupGadget, TwoBitLookupGadget};
