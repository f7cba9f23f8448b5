//! Operation descriptor metadata under the names the request pipeline uses.
//!
//! The descriptors are the registry entries built from the contract document.
use vstd::prelude::*;

use crate::contract::{
    OperationDescriptorSeed, ParameterDescriptorSeed, ParameterLocationSeed,
    RequestBodyDescriptorSeed, ResponseDescriptorSeed,
};

verus! {

/// Parameter location metadata.
pub type ParameterLocation = ParameterLocationSeed;

/// Parameter descriptor metadata.
pub type GeneratedParameterDescriptor = ParameterDescriptorSeed;

/// Request-body descriptor metadata.
pub type GeneratedRequestBodyDescriptor = RequestBodyDescriptorSeed;

/// Response descriptor metadata.
pub type GeneratedResponseDescriptor = ResponseDescriptorSeed;

/// Operation descriptor metadata.
pub type GeneratedOperationDescriptor = OperationDescriptorSeed;

} // verus!
