use vstd::prelude::*;

verus! {

/// A category with a known, finite set of groups: `true` and `false` for a
/// coin, one to six for a die.
///
/// A table over such a category has one column for each group, known before
/// the first observation arrives. The groups are numbered by their place in
/// [`domain`](EnumerableCategory::domain), and that number is how a table finds
/// a group's column again.
pub trait EnumerableCategory: Sized {
    /// Every group of the category, each exactly once, in a fixed order.
    spec fn domain() -> Seq<Self>;

    /// The place of a group in [`domain`](EnumerableCategory::domain).
    spec fn rank(&self) -> nat;

    /// A category has at least two groups, every group has its place in the
    /// domain, and no group has two.
    proof fn domain_is_enumerated()
        ensures
            Self::domain().len() >= 2,
            forall|group: Self|
                (#[trigger] group.rank()) < Self::domain().len() && Self::domain()[group.rank() as int]
                    == group,
            forall|i: int|
                0 <= i < Self::domain().len() ==> (#[trigger] Self::domain()[i]).rank() == i,
    ;

    /// The groups of the category, in the order of the domain.
    fn groups() -> (all: Vec<Self>)
        ensures
            all@ == Self::domain(),
    ;

    /// The place of this group among [`groups`](EnumerableCategory::groups).
    fn ordinal(&self) -> (place: usize)
        ensures
            place == self.rank(),
    ;
}

impl EnumerableCategory for bool {
    open spec fn domain() -> Seq<bool> {
        seq![true, false]
    }

    open spec fn rank(&self) -> nat {
        if *self {
            0
        } else {
            1
        }
    }

    proof fn domain_is_enumerated() {
    }

    fn groups() -> (all: Vec<bool>) {
        let all = vec![true, false];
        assert(all@ =~= Self::domain());
        all
    }

    fn ordinal(&self) -> (place: usize) {
        if *self {
            0
        } else {
            1
        }
    }
}

/// In a domain no group occurs twice.
pub proof fn lemma_domain_no_duplicates<C: EnumerableCategory>()
    ensures
        C::domain().no_duplicates(),
{
    C::domain_is_enumerated();
    assert forall|i: int, j: int|
        0 <= i < C::domain().len() && 0 <= j < C::domain().len() && i != j implies C::domain()[i]
        != C::domain()[j] by {
        assert(C::domain()[i].rank() == i);
        assert(C::domain()[j].rank() == j);
    }
}

} // verus!
