use vstd::prelude::*;
use crate::key::DescriptorKey;
use crate::satisfy::key_views;

verus! {

/// Mathematical image of a policy: a single key, or a threshold over keys.
#[verifier::ext_equal]
pub enum GPolicy {
    Key(Seq<u8>),
    Threshold(nat, Seq<Seq<u8>>),
}

/// An abstract spending policy, the target of lifting: who can spend,
/// stripped of script encoding. A key-hash descriptor lifts to a single
/// key leaf; multisig conditions lift to a threshold over key leaves.
#[derive(Debug, Clone, PartialEq, Eq, PartialOrd, Ord, Hash)]
pub enum Policy {
    Key(DescriptorKey),
    Threshold(usize, Vec<DescriptorKey>),
}

impl View for Policy {
    type V = GPolicy;

    open spec fn view(&self) -> GPolicy {
        match self {
            Policy::Key(k) => GPolicy::Key(k@),
            Policy::Threshold(k, ks) => GPolicy::Threshold(*k as nat, key_views(ks@)),
        }
    }
}

} // verus!
