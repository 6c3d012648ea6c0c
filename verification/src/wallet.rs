use vstd::prelude::*;

use crate::descriptor::spec_derived_address;
use crate::descriptor::DescKeyModel;
use crate::descriptor::DescModel;
use crate::descriptor::DescriptorKey;
use crate::descriptor::ExtendedDescriptor;
use crate::descriptor::ScriptType;
use crate::errors::Error;
use crate::keys::ExtendedKey;
use crate::keys::KeyModel;
use crate::network::Network;

verus! {

/// A validated m-of-n multisig wallet: a quorum threshold over a fixed,
/// ordered list of extended keys, a script template and a network. The key
/// order supplied at construction is preserved verbatim in every descriptor
/// the wallet emits; `sortedmulti` sorts keys only at spending time.
pub struct MultisigWalletSpec {
    threshold: u32,
    keys: Vec<ExtendedKey>,
    script_type: ScriptType,
    network: Network,
}

pub ghost struct WalletModel {
    pub threshold: u32,
    pub keys: Seq<KeyModel>,
    pub script_type: ScriptType,
    pub network: Network,
}

impl View for MultisigWalletSpec {
    type V = WalletModel;

    closed spec fn view(&self) -> WalletModel {
        WalletModel {
            threshold: self.threshold,
            keys: Seq::new(self.keys@.len(), |k: int| self.keys@[k]@),
            script_type: self.script_type,
            network: self.network,
        }
    }
}

impl WalletModel {
    pub open spec fn wf(self) -> bool {
        &&& 1 <= self.threshold <= self.keys.len()
        &&& forall|k: int| 0 <= k < self.keys.len() ==> (#[trigger] self.keys[k]).wf()
        &&& forall|k: int|
            0 <= k < self.keys.len() ==> (#[trigger] self.keys[k]).matches_network(self.network)
    }

    /// The descriptor of one keychain branch: every key gets the branch
    /// index and the wildcard, inside a `sortedmulti` under the script
    /// template.
    pub open spec fn branch_descriptor(self, branch: u32) -> DescModel {
        DescModel {
            script: self.script_type,
            sorted: true,
            threshold: self.threshold,
            keys: Seq::new(self.keys.len(), |k: int| DescKeyModel { key: self.keys[k], branch }),
        }
    }
}

impl MultisigWalletSpec {
    /// Validates and builds a wallet: the quorum must satisfy
    /// `1 <= threshold <= keys.len()` (else `InvalidQuorum`), and every
    /// key's embedded network tag must agree with `network` (else
    /// `KeyNetworkMismatch`).
    pub fn new(
        threshold: u32,
        keys: Vec<ExtendedKey>,
        script_type: ScriptType,
        network: Network,
    ) -> (r: Result<MultisigWalletSpec, Error>)
        requires
            forall|k: int| 0 <= k < keys@.len() ==> (#[trigger] keys@[k]@).wf(),
        ensures
            match r {
                Ok(w) => {
                    &&& 1 <= threshold <= keys@.len()
                    &&& forall|k: int|
                        0 <= k < keys@.len() ==> (#[trigger] keys@[k]@).matches_network(network)
                    &&& w@.threshold == threshold
                    &&& w@.script_type == script_type
                    &&& w@.network == network
                    &&& w@.keys.len() == keys@.len()
                    &&& forall|k: int| 0 <= k < keys@.len() ==> w@.keys[k] == #[trigger] keys@[k]@
                    &&& w@.wf()
                },
                Err(e) => {
                    &&& !(1 <= threshold <= keys@.len() && (forall|k: int|
                        0 <= k < keys@.len() ==> (#[trigger] keys@[k]@).matches_network(network)))
                    &&& (e is InvalidQuorum <==> !(1 <= threshold <= keys@.len()))
                    &&& (e is InvalidQuorum || e is KeyNetworkMismatch)
                    &&& (e matches Error::InvalidQuorum { threshold: t, keys: n } ==> t == threshold
                        && n == keys@.len())
                    &&& (e matches Error::KeyNetworkMismatch { index } ==> 0 <= index < keys@.len()
                        && !keys@[index as int]@.matches_network(network))
                },
            },
    {
        let ghost keys_v = keys@;
        let n = keys.len();
        if !(1 <= threshold && (threshold as usize) <= n) {
            return Err(Error::InvalidQuorum { threshold, keys: n });
        }
        let mut k: usize = 0;
        while k < n
            invariant
                0 <= k <= n,
                n == keys@.len(),
                1 <= threshold <= n,
                forall|m: int| 0 <= m < keys@.len() ==> (#[trigger] keys@[m]@).wf(),
                forall|m: int| 0 <= m < k ==> (#[trigger] keys@[m]@).matches_network(network),
            decreases n - k,
        {
            if !keys[k].matches_network(&network) {
                return Err(Error::KeyNetworkMismatch { index: k });
            }
            k = k + 1;
        }
        let w = MultisigWalletSpec { threshold, keys, script_type, network };
        proof {
            assert(w.keys@ == keys_v);
            assert(forall|k: int|
                0 <= k < keys_v.len() ==> w@.keys[k] == #[trigger] keys_v[k]@);
            assert(forall|k: int|
                0 <= k < w@.keys.len() ==> (#[trigger] w@.keys[k]).wf()
                    && w@.keys[k].matches_network(network)) by {
                assert(forall|k: int|
                    0 <= k < keys_v.len() ==> (#[trigger] keys_v[k]@).wf()
                        && keys_v[k]@.matches_network(network));
            }
        }
        Ok(w)
    }

    fn branch_descriptor_exec(&self, branch: u32) -> (r: ExtendedDescriptor)
        requires
            self@.wf(),
            branch < crate::chars::index_limit(),
        ensures
            r@ == self@.branch_descriptor(branch),
            r@.wf(),
    {
        let mut keys: Vec<DescriptorKey> = Vec::new();
        let mut k: usize = 0;
        while k < self.keys.len()
            invariant
                0 <= k <= self.keys@.len(),
                keys@.len() == k,
                forall|m: int|
                    0 <= m < k ==> #[trigger] keys@[m]@ == (DescKeyModel {
                        key: self.keys@[m]@,
                        branch,
                    }),
            decreases self.keys@.len() - k,
        {
            keys.push(DescriptorKey { key: self.keys[k].duplicate(), branch });
            k = k + 1;
        }
        let r = ExtendedDescriptor {
            script: self.script_type,
            sorted: true,
            threshold: self.threshold,
            keys,
        };
        proof {
            assert(r@.keys =~= self@.branch_descriptor(branch).keys);
            assert(forall|m: int|
                0 <= m < r@.keys.len() ==> (#[trigger] r@.keys[m]) == (DescKeyModel {
                    key: self@.keys[m],
                    branch,
                }));
        }
        r
    }

    /// The receiving-branch descriptor (branch index 0).
    pub fn external_descriptor(&self) -> (r: ExtendedDescriptor)
        requires
            self@.wf(),
        ensures
            r@ == self@.branch_descriptor(0),
            r@.wf(),
    {
        self.branch_descriptor_exec(0)
    }

    /// The change-branch descriptor (branch index 1).
    pub fn internal_descriptor(&self) -> (r: ExtendedDescriptor)
        requires
            self@.wf(),
        ensures
            r@ == self@.branch_descriptor(1),
            r@.wf(),
    {
        self.branch_descriptor_exec(1)
    }

    /// The receiving address at `index`.
    pub fn external_address(&self, index: u32) -> (r: Result<String, Error>)
        requires
            self@.wf(),
        ensures
            match r {
                Ok(a) => spec_derived_address(
                    self@.branch_descriptor(0).render(),
                    index,
                    self@.network,
                ) == Some(a@),
                Err(e) => e is Derivation && spec_derived_address(
                    self@.branch_descriptor(0).render(),
                    index,
                    self@.network,
                ) is None,
            },
    {
        let d = self.external_descriptor();
        proof {
            lemma_branch_matches(self@, 0);
        }
        d.get_address(index, self.network)
    }

    /// The change address at `index`.
    pub fn internal_address(&self, index: u32) -> (r: Result<String, Error>)
        requires
            self@.wf(),
        ensures
            match r {
                Ok(a) => spec_derived_address(
                    self@.branch_descriptor(1).render(),
                    index,
                    self@.network,
                ) == Some(a@),
                Err(e) => e is Derivation && spec_derived_address(
                    self@.branch_descriptor(1).render(),
                    index,
                    self@.network,
                ) is None,
            },
    {
        let d = self.internal_descriptor();
        proof {
            lemma_branch_matches(self@, 1);
        }
        d.get_address(index, self.network)
    }

    /// The wallet's network.
    pub fn network(&self) -> (r: Network)
        ensures
            r == self@.network,
    {
        self.network
    }

    /// The quorum threshold.
    pub fn threshold(&self) -> (r: u32)
        ensures
            r == self@.threshold,
    {
        self.threshold
    }

    /// The script template.
    pub fn script_type(&self) -> (r: ScriptType)
        ensures
            r == self@.script_type,
    {
        self.script_type
    }
}

/// A well-formed wallet's branch descriptors agree with its own network.
pub proof fn lemma_branch_matches(w: WalletModel, branch: u32)
    requires
        w.wf(),
    ensures
        w.branch_descriptor(branch).matches_network(w.network),
{
    assert(forall|k: int|
        0 <= k < w.keys.len() ==> (#[trigger] w.branch_descriptor(branch).keys[k]).key
            == w.keys[k]);
}

/// Branch separation: the external and internal descriptors of one wallet
/// are different descriptors — every key carries branch index 0 in one and
/// 1 in the other.
pub proof fn lemma_branch_separation(w: WalletModel)
    requires
        w.wf(),
    ensures
        w.branch_descriptor(0) != w.branch_descriptor(1),
{
    let e = w.branch_descriptor(0);
    let i = w.branch_descriptor(1);
    assert(e.keys[0].branch == 0);
    assert(i.keys[0].branch == 1);
    if e == i {
        assert(e.keys[0] == i.keys[0]);
        assert(false);
    }
}

} // verus!
