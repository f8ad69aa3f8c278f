use vstd::prelude::*;

verus! {

/// An ingress carries out, on the traffic, the actions that an engine has
/// decided on. Shifting traffic is its business alone.
pub trait Ingress {

}

/// An ingress that carries out nothing.
#[derive(Clone, Copy, Debug, PartialEq, Eq, Structural)]
pub struct MockIngress;

impl Ingress for MockIngress {

}

} // verus!
