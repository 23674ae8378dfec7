use vstd::prelude::*;
use vstd::std_specs::cmp::PartialEqSpecImpl;

verus! {

/// The identity of an asset as contracts speak of it.
pub enum AssetId {
    /// An account or contract of the network, by its address in text form.
    Stellar(Seq<char>),
    /// An asset outside the network, by its ticker symbol.
    Other(Seq<char>),
}

/// The thing being priced: an account or contract of the network, or an
/// off-network ticker symbol. Two assets are equal when they are of the same
/// kind and carry the same text.
#[derive(Debug)]
pub enum Asset {
    Stellar(String),
    Other(String),
}

impl View for Asset {
    type V = AssetId;

    open spec fn view(&self) -> AssetId {
        match self {
            Asset::Stellar(address) => AssetId::Stellar(address@),
            Asset::Other(symbol) => AssetId::Other(symbol@),
        }
    }
}

impl Clone for Asset {
    fn clone(&self) -> (copy: Self)
        ensures
            copy@ == self@,
    {
        match self {
            Asset::Stellar(address) => Asset::Stellar(address.clone()),
            Asset::Other(symbol) => Asset::Other(symbol.clone()),
        }
    }
}

impl PartialEq for Asset {
    fn eq(&self, other: &Self) -> (same: bool) {
        match (self, other) {
            (Asset::Stellar(a), Asset::Stellar(b)) => *a == *b,
            (Asset::Other(a), Asset::Other(b)) => *a == *b,
            _ => false,
        }
    }
}

impl PartialEqSpecImpl for Asset {
    open spec fn obeys_eq_spec() -> bool {
        true
    }

    open spec fn eq_spec(&self, other: &Self) -> bool {
        self@ == other@
    }
}

impl Eq for Asset {}

} // verus!
