use crate::stats::EnumerableCategory;
use vstd::prelude::*;

verus! {

/// The five classes of HTTP response status codes: the outcome that
/// observations of a deployment are sorted by.
#[derive(Hash, Debug, PartialEq, Eq, Structural, PartialOrd, Ord, Clone, Copy)]
pub enum ResponseStatusCode {
    /// Informational responses.
    _1XX,
    /// Successful responses.
    _2XX,
    /// Redirection messages.
    _3XX,
    /// Client error responses.
    _4XX,
    /// Server error responses.
    _5XX,
}

impl EnumerableCategory for ResponseStatusCode {
    open spec fn domain() -> Seq<ResponseStatusCode> {
        seq![
            ResponseStatusCode::_1XX,
            ResponseStatusCode::_2XX,
            ResponseStatusCode::_3XX,
            ResponseStatusCode::_4XX,
            ResponseStatusCode::_5XX,
        ]
    }

    open spec fn rank(&self) -> nat {
        match self {
            ResponseStatusCode::_1XX => 0,
            ResponseStatusCode::_2XX => 1,
            ResponseStatusCode::_3XX => 2,
            ResponseStatusCode::_4XX => 3,
            ResponseStatusCode::_5XX => 4,
        }
    }

    proof fn domain_is_enumerated() {
    }

    fn groups() -> (all: Vec<ResponseStatusCode>) {
        let all = vec![
            ResponseStatusCode::_1XX,
            ResponseStatusCode::_2XX,
            ResponseStatusCode::_3XX,
            ResponseStatusCode::_4XX,
            ResponseStatusCode::_5XX,
        ];
        assert(all@ =~= Self::domain());
        all
    }

    fn ordinal(&self) -> (place: usize) {
        match self {
            ResponseStatusCode::_1XX => 0,
            ResponseStatusCode::_2XX => 1,
            ResponseStatusCode::_3XX => 2,
            ResponseStatusCode::_4XX => 3,
            ResponseStatusCode::_5XX => 4,
        }
    }
}

} // verus!
