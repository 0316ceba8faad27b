//! What a caller hands to the flavor builder.

use vstd::prelude::*;

verus! {

/// The proxy through which a DPU pulls images.
#[derive(Clone, Debug)]
pub struct DpfProxyDetails {
    /// The URL of the proxy.
    pub https_proxy: String,
    /// The destinations that are reached without the proxy.
    pub no_proxy: Vec<String>,
}

/// What a `DpfProxyDetails` holds.
pub struct DpfProxyDetailsView {
    pub https_proxy: Seq<char>,
    pub no_proxy: Seq<Seq<char>>,
}

impl DeepView for DpfProxyDetails {
    type V = DpfProxyDetailsView;

    open spec fn deep_view(&self) -> DpfProxyDetailsView {
        DpfProxyDetailsView {
            https_proxy: self.https_proxy@,
            no_proxy: self.no_proxy.deep_view(),
        }
    }
}

/// What a proxy holds is its URL and its destinations as they stand, each at its place.
pub proof fn law_proxy_view(proxy: DpfProxyDetails)
    ensures
        proxy.deep_view().https_proxy == proxy.https_proxy@,
        proxy.deep_view().no_proxy.len() == proxy.no_proxy@.len(),
        forall|i: int|
            0 <= i < proxy.no_proxy@.len() ==> #[trigger] proxy.deep_view().no_proxy[i]
                == proxy.no_proxy@[i]@,
{
}

} // verus!
