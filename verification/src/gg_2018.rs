//! Statements that the parties prove to each other during key generation.

use vstd::prelude::*;
use crate::curv::arithmetic::BigInt;

verus! {

/// The statement that `ni` is a power of `g` modulo `N`: what a party
/// proves of the auxiliary parameters that come with its Paillier key.
#[allow(non_snake_case)]
#[derive(Debug, Clone)]
pub struct DLogStatement {
    pub N: BigInt,
    pub g: BigInt,
    pub ni: BigInt,
}

} // verus!
