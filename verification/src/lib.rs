//! Verified core of the FerrisKey SDK: the contract registry and its
//! normalization, request encoding and response decoding, client
//! configuration, the descriptor-driven command line, the rendering of the
//! metadata module, and a small shopping cart.
pub mod text;
pub mod maps;
pub mod document;
pub mod contract;
pub mod render;
pub mod generated;
pub mod error;
pub mod json;
pub mod transport;
pub mod client;
pub mod encoding;
pub mod config;
pub mod cli;
pub mod login;
pub mod cart;

pub use cart::{checkout_cart, greeting, Cart, CartItem, CheckoutResult, Order};
pub use client::{
    Configured, FerriskeySdk, FerriskeySdkBuilder, OperationCall, OperationInput, OperationInputBuilder, SdkExt,
    TagClient, Unconfigured,
};
pub use config::{AuthStrategy, AuthStrategyExt, BaseUrlSet, SdkConfig, SdkConfigBuilder};
pub use encoding::DecodedResponse;
pub use error::{SdkError, TransportError};
pub use transport::{MethodSet, PathSet, SdkRequest, SdkRequestBuilder, SdkResponse};
