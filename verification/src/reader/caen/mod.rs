//! CAEN FELib side: the AMax register map, the plain data types the
//! library exchanges with digitizers, and the parameter-apply rules.

pub mod amax_registers;
pub mod devtree;
pub mod handle;
pub mod validation;
